//! Ce que le temps restant et les jours d'échéance doivent satisfaire.

#[allow(unused_imports)]
use super::analyse::vendredi_mensuel;
#[allow(unused_imports)]
use super::temps::{
    compte_ouvres, essai_de, heure_ny, ouverture_avant, ouvre, seance_de, temps_voulu, utc_ny,
    Convention, EcheanceNy, Essai, InstantReleve,
};
#[allow(unused_imports)]
use crate::calendrier::{tronque, Instant, SECONDE};
#[allow(unused_imports)]
use crate::entiers::{
    le_produit_de_petits_entiers_est_exact, le_quotient_d_un_multiple_est_exact, petit,
    un_petit_entier_est_exact,
};
use crate::flottant::Flottant;
#[allow(unused_imports)]
use crate::flottant::{clef_ordonne_les_valeurs, rapport};
use vstd::prelude::*;

verus! {

/// Les secondes d'une année de trois cent soixante-cinq jours.
pub open spec fn secondes_par_an() -> int {
    31_536_000
}

proof fn lemme_an()
    ensures
        rapport(365, 1).fois(rapport(24, 1)).fois(rapport(3600, 1)) == rapport(
            secondes_par_an(),
            1,
        ),
        rapport(secondes_par_an(), 1).fini(),
        rapport(secondes_par_an(), 1).clef() > 0,
{
    le_produit_de_petits_entiers_est_exact(365, 24);
    le_produit_de_petits_entiers_est_exact(8760, 3600);
    un_petit_entier_est_exact(secondes_par_an());
}

proof fn lemme_ordre(a: int, b: int)
    requires
        petit(a),
        petit(b),
        a <= b,
    ensures
        rapport(a, 1).inferieur_ou_egal(rapport(b, 1)),
        a < b ==> rapport(a, 1).inferieur(rapport(b, 1)),
{
    un_petit_entier_est_exact(a);
    un_petit_entier_est_exact(b);
    clef_ordonne_les_valeurs(rapport(a, 1), rapport(b, 1));
    let u = vstd::arithmetic::power2::pow2(1074);
    vstd::arithmetic::power2::lemma_pow2_pos(1074);
    assert(a * u <= b * u && (a < b ==> a * u < b * u)) by (nonlinear_arith)
        requires
            a <= b,
            u > 0,
    ;
}

/// En temps réel, `s` secondes jusqu'au règlement sont `s` secondes d'une année de trois cent
/// soixante-cinq jours, qui vaut un ; sous la minute, et même après, il reste une minute.
pub proof fn le_temps_reel_se_compte_en_secondes_d_annee(
    echeance: EcheanceNy,
    releve: InstantReleve,
    s: int,
)
    requires
        utc_ny(echeance.0.micros as int) - releve.0.micros == s * 1_000_000,
        petit(s * 1000),
    ensures
        ({
            let t = temps_voulu(echeance, releve, Convention::Heures);
            let an = rapport(secondes_par_an(), 1);
            &&& s >= 60 ==> t == rapport(s, 1).par(an)
            &&& s <= 60 ==> t == rapport(60, 1).par(an)
            &&& forall|k: int|
                k >= 1 && s == #[trigger] (k * secondes_par_an()) ==> t == rapport(k, 1)
        }),
{
    lemme_an();
    let an = rapport(secondes_par_an(), 1);
    let millis = tronque(s * 1_000_000, 1000);
    assert(millis == s * 1000) by {
        assert(s * 1_000_000 == (s * 1000) * 1000);
        if s >= 0 {
            vstd::arithmetic::div_mod::lemma_fundamental_div_mod_converse(
                s * 1_000_000,
                1000,
                s * 1000,
                0,
            );
        } else {
            vstd::arithmetic::div_mod::lemma_fundamental_div_mod_converse(
                -(s * 1_000_000),
                1000,
                -(s * 1000),
                0,
            );
        }
    }
    let restant = rapport(millis, 1).par(rapport(1000, 1));
    un_petit_entier_est_exact(s);
    un_petit_entier_est_exact(60);
    if s != 0 {
        le_quotient_d_un_multiple_est_exact(s, 1000);
        assert(restant == rapport(s, 1));
        if s >= 60 {
            lemme_ordre(60, s);
        } else {
            lemme_ordre(s, 60);
        }
    } else {
        un_petit_entier_est_exact(0);
        un_petit_entier_est_exact(1000);
        assert(!restant.nan()) by {
            reveal(Flottant::quotient);
            crate::flottant::lemme_magnitude_nulle(rapport(1000, 1));
            crate::erreur::lemme_arrondi_encadre(
                rapport(0, 1).negatif() != rapport(1000, 1).negatif(),
                rapport(0, 1).magnitude() * vstd::arithmetic::power2::pow2(1074),
                rapport(1000, 1).magnitude(),
            );
        }
        crate::ordre::lemme_zero_absorbe(rapport(0, 1), rapport(1000, 1));
        lemme_ordre(0, 60);
    }
    assert forall|k: int|
        k >= 1 && s == #[trigger] (k * secondes_par_an()) implies temps_voulu(
        echeance,
        releve,
        Convention::Heures,
    ) == rapport(k, 1) by {
        assert(k <= s);
        le_quotient_d_un_multiple_est_exact(k, secondes_par_an());
    }
}

/// En temps de bourse, le reste est le nombre de jours ouvrés sur deux cent soixante-deux, un au
/// moins, si bien que deux cent soixante-deux valent un.
pub proof fn le_temps_de_bourse_se_compte_en_jours_ouvres(
    echeance: EcheanceNy,
    releve: InstantReleve,
)
    ensures
        ({
            let t = temps_voulu(echeance, releve, Convention::Bourse);
            let (a, b) = (releve.0.jour_compte(), echeance.0.jour_compte());
            let n = compte_ouvres(a, b);
            &&& a <= b && n >= 1 ==> t == rapport(n, 1).par(rapport(262, 1))
            &&& b <= a || n == 0 ==> t == rapport(1, 1).par(rapport(262, 1))
            &&& forall|k: int|
                k >= 1 && petit(k * 262) && a <= b && n == #[trigger] (k * 262) ==> t == rapport(
                    k,
                    1,
                )
        }),
{
    let (a, b) = (releve.0.jour_compte(), echeance.0.jour_compte());
    lemme_positif(a, b);
    lemme_positif(b, a);
    assert forall|k: int|
        k >= 1 && petit(k * 262) && a <= b && compte_ouvres(a, b) == #[trigger] (k
            * 262) implies temps_voulu(echeance, releve, Convention::Bourse) == rapport(k, 1) by {
        le_quotient_d_un_multiple_est_exact(k, 262);
    }
}

proof fn lemme_positif(a: int, b: int)
    ensures
        compte_ouvres(a, b) >= 0,
    decreases b - a,
{
    if a < b {
        lemme_positif(a, b - 1);
    }
}

/// Un jour de plus compte pour un s'il est de semaine, pour rien sinon ; et les samedis et les
/// dimanches reviennent tous les sept jours, deux de suite.
pub proof fn un_jour_ouvre_est_de_semaine(debut: int, fin: int)
    requires
        debut <= fin,
    ensures
        compte_ouvres(debut, fin + 1) == compte_ouvres(debut, fin) + if ouvre(fin) {
            1int
        } else {
            0
        },
        ouvre(fin) == ouvre(fin + 7),
        // Le 1er janvier 1970 est un jeudi : le 3 est un samedi, le 4 un dimanche.
        !ouvre(2 + 7 * fin) && !ouvre(3 + 7 * fin),
        ouvre(4 + 7 * fin) && ouvre(5 + 7 * fin) && ouvre(6 + 7 * fin) && ouvre(7 * fin) && ouvre(
            1 + 7 * fin,
        ),
{
}

/// L'heure UTC est l'heure locale moins le décalage de son fuseau, le premier quand il y en a
/// deux ; quand il n'y en a pas, l'heure n'existe pas, et c'est une heure plus tard qu'il faut
/// chercher.
pub proof fn l_heure_utc_retranche_le_decalage(local: Instant, decalages: Seq<i32>)
    ensures
        essai_de(local, Some(decalages)) matches Essai::Resolu(utc) ==> decalages.len() > 0
            && utc.micros + decalages[0] * SECONDE == local.micros,
        essai_de(local, Some(decalages)) matches Essai::PlusTard(suivant) ==> decalages.len() == 0
            && suivant.micros == local.micros + 3_600_000_000,
{
}

/// L'échéance mensuelle est le troisième vendredi du mois : un vendredi qui en a exactement deux
/// avant lui dans son mois. Un mois n'en a qu'un.
pub proof fn l_echeance_mensuelle_est_le_troisieme_vendredi(rang: int, q: int, k: int)
    requires
        1 <= q <= 31,
    ensures
        // Les jours se comptent du lundi, qui a le rang zéro.
        vendredi_mensuel(rang, Some(q)) <==> rang == 4 && (q - 1) / 7 == 2,
        vendredi_mensuel(rang, Some(q)) && k != 0 ==> !vendredi_mensuel(rang, Some(q + 7 * k)),
        !vendredi_mensuel(rang, None),
{
}

/// La séance commencée ne commence jamais après l'instant qu'elle date.
pub proof fn une_seance_ne_commence_pas_apres_l_instant(utc: int)
    ensures
        seance_de(utc) <= utc,
        utc_ny(ouverture_avant(heure_ny(utc))) <= utc ==> seance_de(utc) == utc_ny(
            ouverture_avant(heure_ny(utc)),
        ),
{
}

} // verus!
