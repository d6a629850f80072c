//! Le temps restant jusqu'à l'échéance, et les deux conventions pour le mesurer.
//!
//! Une échéance est un instant et non une date, exprimé en heure de New York ; un
//! relevé l'est en UTC. Deux types distincts empêchent de prendre le décalage de
//! fuseau pour du temps restant.

use crate::calendrier::{
    decalage_a, decalage_utc, decalages_de, decalages_locaux, Instant, Jour, HEURE, JOURNEE, SECONDE,
};
#[allow(unused_imports)]
use crate::calendrier::{new_york, tronque, usuel};
use crate::flottant::Flottant;
#[allow(unused_imports)]
use crate::flottant::{
    clef_ordonne_les_valeurs, le_produit_d_entiers_est_exact, lemme_quotient_positif, rapport,
    un_entier_est_exact,
};
use vstd::prelude::*;

verus! {

/// Jours de bourse dans une année.
pub const JOURS_BOURSE: i64 = 262;

/// Jours calendaires dans une année.
pub const JOURS_CALENDAIRES: i64 = 365;

/// Plancher du temps restant, en secondes.
///
/// À zéro exactement le gamma diverge. Le plancher ne sert pas à traiter les
/// contrats échus : c'est au filtre des échéances de les écarter.
pub const PLANCHER_SECONDES: i64 = 60;

/// Une échéance, en heure de New York.
#[derive(Clone, Copy, Debug, PartialEq, Eq, PartialOrd, Ord, Hash, Structural)]
pub struct EcheanceNy(pub Instant);

/// L'instant d'un relevé, en UTC.
#[derive(Clone, Copy, Debug, PartialEq, Eq, PartialOrd, Ord, Hash, Structural)]
pub struct InstantReleve(pub Instant);

/// Ce qu'il faut faire d'une heure locale, selon les décalages que son fuseau admet.
#[derive(Clone, Copy, Debug, PartialEq, Eq, Structural)]
pub enum Essai {
    /// L'instant UTC.
    Resolu(Instant),
    /// L'heure n'existe pas : essayer celle-ci, une heure plus tard.
    PlusTard(Instant),
    /// Le fuseau est inconnu, ou l'heure hors du calendrier.
    Introuvable,
}

/// Un instant, s'il est représentable.
pub open spec fn instant_si(micros: int) -> Option<Instant> {
    if i64::MIN <= micros <= i64::MAX {
        Some(Instant { micros: micros as i64 })
    } else {
        None
    }
}

/// Une heure vécue deux fois prend la première, une heure inexistante avance.
pub open spec fn essai_de(local: Instant, decalages: Option<Seq<i32>>) -> Essai {
    match decalages {
        None => Essai::Introuvable,
        Some(d) => if d.len() > 0 {
            match instant_si(local.micros - d[0] * SECONDE) {
                Some(utc) => Essai::Resolu(utc),
                None => Essai::Introuvable,
            }
        } else {
            match instant_si(local.micros + HEURE) {
                Some(suivant) => Essai::PlusTard(suivant),
                None => Essai::Introuvable,
            }
        },
    }
}

/// Tranche une heure locale d'après les décalages que son fuseau admet.
pub fn essayer(local: Instant, decalages: Option<Vec<i32>>) -> (r: Essai)
    ensures
        r == essai_de(
            local,
            match decalages {
                None => None,
                Some(d) => Some(d@),
            },
        ),
{
    match decalages {
        None => Essai::Introuvable,
        Some(d) => {
            if d.len() > 0 {
                match local.decale(-(d[0] as i64 * SECONDE)) {
                    Some(utc) => Essai::Resolu(utc),
                    None => Essai::Introuvable,
                }
            } else {
                match local.decale(HEURE) {
                    Some(suivant) => Essai::PlusTard(suivant),
                    None => Essai::Introuvable,
                }
            }
        },
    }
}

/// L'instant UTC d'une heure locale, en `essais` heures au plus.
pub open spec fn utc_de(fuseau: Seq<char>, local: Instant, essais: nat) -> Option<Instant>
    decreases essais,
{
    if essais == 0 {
        None
    } else {
        match essai_de(local, decalages_de(fuseau, local.micros as int)) {
            Essai::Resolu(utc) => Some(utc),
            Essai::PlusTard(suivant) => utc_de(fuseau, suivant, (essais - 1) as nat),
            Essai::Introuvable => None,
        }
    }
}

/// Une heure locale ramenée en UTC.
///
/// Rien si le fuseau est inconnu, ou si trois heures d'avance n'y suffisent pas.
pub fn resoudre(fuseau: &str, locale: Instant) -> (r: Option<Instant>)
    ensures
        r == utc_de(fuseau@, locale, 3),
        fuseau@ == new_york() && usuel(locale.micros as int) ==> r is Some,
{
    let mut essai: Instant = locale;
    let mut reste: u8 = 3;
    while reste > 0
        invariant
            reste <= 3,
            utc_de(fuseau@, locale, 3) == utc_de(fuseau@, essai, reste as nat),
            fuseau@ == new_york() && usuel(locale.micros as int) ==> {
                ||| reste == 3 && essai == locale
                ||| {
                    &&& reste == 2
                    &&& essai.micros == locale.micros + HEURE
                    &&& decalages_de(fuseau@, essai.micros as int) is Some
                    &&& decalages_de(fuseau@, essai.micros as int)->Some_0.len() > 0
                }
            },
        decreases reste,
    {
        match essayer(essai, decalages_locaux(fuseau, essai)) {
            Essai::Resolu(utc) => {
                return Some(utc);
            },
            Essai::PlusTard(suivant) => {
                essai = suivant;
            },
            Essai::Introuvable => {
                return None;
            },
        }
        reste = reste - 1;
    }
    None
}

/// L'instant UTC d'une heure de New York.
pub open spec fn utc_ny(local: int) -> int {
    match utc_de(new_york(), Instant { micros: local as i64 }, 3) {
        Some(utc) => utc.micros as int,
        None => local,
    }
}

impl EcheanceNy {
    /// L'échéance ramenée en UTC, seule forme comparable à un relevé.
    pub fn en_utc(self) -> (r: Instant)
        requires
            usuel(self.0.micros as int),
        ensures
            r.micros == utc_ny(self.0.micros as int),
            utc_de(new_york(), self.0, 3) is Some,
    {
        let r: Option<Instant> = resoudre("America/New_York", self.0);
        match r {
            Some(utc) => utc,
            None => self.0,
        }
    }
}

/// Comment mesurer le temps restant.
#[derive(Clone, Copy, Debug, PartialEq, Eq, Structural)]
pub enum Convention {
    /// Temps réel restant, rapporté à 365 jours.
    Heures,
    /// Jours ouvrés sur 262, avec un plancher d'un jour.
    Bourse,
}

impl Convention {
    /// Les jours que la convention compte dans une année.
    pub open spec fn annee(self) -> int {
        match self {
            Convention::Heures => 365,
            Convention::Bourse => 262,
        }
    }

    /// Le diviseur ramenant une dérivée temporelle à la journée.
    pub fn jours_par_an(self) -> (f: Flottant)
        ensures
            f == rapport(self.annee(), 1),
    {
        match self {
            Convention::Heures => Flottant::entier(JOURS_CALENDAIRES),
            Convention::Bourse => Flottant::entier(JOURS_BOURSE),
        }
    }
}

/// Un jour de semaine, ni samedi ni dimanche.
pub open spec fn ouvre(jour: int) -> bool {
    (jour + 3) % 7 < 5
}

/// Les jours ouvrés de `[debut, fin)`.
pub open spec fn compte_ouvres(debut: int, fin: int) -> int
    decreases fin - debut,
{
    if debut >= fin {
        0
    } else {
        compte_ouvres(debut, fin - 1) + if ouvre(fin - 1) {
            1int
        } else {
            0
        }
    }
}

/// Les jours ouvrés de `[debut, fin)`, comptés négativement à rebours.
pub open spec fn ouvres_signes(debut: int, fin: int) -> int {
    if fin < debut {
        -compte_ouvres(fin, debut)
    } else {
        compte_ouvres(debut, fin)
    }
}

/// Compter d'un jour à l'autre, ou en repassant par un troisième, revient au même.
pub proof fn les_jours_ouvres_s_ajoutent(a: int, b: int, c: int)
    requires
        a <= b <= c,
    ensures
        compte_ouvres(a, c) == compte_ouvres(a, b) + compte_ouvres(b, c),
    decreases c - b,
{
    if b < c {
        les_jours_ouvres_s_ajoutent(a, b, c - 1);
    }
}

/// Compter à rebours donne l'opposé.
pub proof fn les_jours_ouvres_s_opposent(a: int, b: int)
    ensures
        ouvres_signes(b, a) == -ouvres_signes(a, b),
{
}

/// Toute semaine pleine compte cinq jours ouvrés, quel que soit son premier jour.
pub proof fn une_semaine_compte_cinq_jours(debut: int)
    ensures
        compte_ouvres(debut, debut + 7) == 5,
{
    reveal_with_fuel(compte_ouvres, 8);
}

proof fn lemme_semaines(debut: int, semaines: int)
    requires
        semaines >= 0,
    ensures
        compte_ouvres(debut, debut + 7 * semaines) == 5 * semaines,
    decreases semaines,
{
    if semaines > 0 {
        lemme_semaines(debut, semaines - 1);
        une_semaine_compte_cinq_jours(debut + 7 * (semaines - 1));
        les_jours_ouvres_s_ajoutent(
            debut,
            debut + 7 * (semaines - 1),
            debut + 7 * semaines,
        );
    }
}

/// Jours ouvrés dans `[debut, fin)`, samedis et dimanches exclus.
///
/// Les jours fériés ne sont pas retirés.
pub fn jours_ouvres(debut: Jour, fin: Jour) -> (n: i64)
    ensures
        n == ouvres_signes(debut.numero as int, fin.numero as int),
        -(0x1_0000_0000) < n < 0x1_0000_0000,
{
    let (a, b, rebours): (i64, i64, bool) = if fin.numero < debut.numero {
        (fin.numero as i64, debut.numero as i64, true)
    } else {
        (debut.numero as i64, fin.numero as i64, false)
    };
    let total: i64 = b - a;
    let semaines: i64 = total / 7;
    let mut compte: i64 = semaines * 5;
    let mut jour: i64 = a + semaines * 7;
    proof {
        lemme_semaines(a as int, semaines as int);
    }
    while jour < b
        invariant
            a <= jour <= b,
            b - a < 0x1_0000_0000,
            -0x8000_0000 <= a,
            b < 0x8000_0000,
            0 <= compte <= jour - a,
            compte == compte_ouvres(a as int, jour as int),
        decreases b - jour,
    {
        let j: Jour = Jour { numero: jour as i32 };
        if j.jour_semaine() < 5 {
            compte = compte + 1;
        }
        jour = jour + 1;
    }
    if rebours {
        -compte
    } else {
        compte
    }
}

/// Les jours de la convention boursière, avec leur plancher d'un jour.
pub open spec fn jours_planchers(jours: int) -> int {
    if jours < 1 {
        1
    } else {
        jours
    }
}

/// Le temps restant en années.
pub open spec fn temps_voulu(
    echeance: EcheanceNy,
    releve: InstantReleve,
    convention: Convention,
) -> Flottant {
    match convention {
        Convention::Bourse => {
            let jours = ouvres_signes(releve.0.jour_compte(), echeance.0.jour_compte());
            rapport(jours_planchers(jours), 1).par(rapport(262, 1))
        },
        Convention::Heures => {
            let millis = tronque(utc_ny(echeance.0.micros as int) - releve.0.micros, 1000);
            let restant = rapport(millis, 1).par(rapport(1000, 1));
            restant.max(rapport(60, 1)).par(
                rapport(365, 1).fois(rapport(24, 1)).fois(rapport(3600, 1)),
            )
        },
    }
}

/// Temps restant en années.
pub fn temps_restant(
    echeance: EcheanceNy,
    releve: InstantReleve,
    convention: Convention,
) -> (t: Flottant)
    requires
        usuel(echeance.0.micros as int),
    ensures
        t == temps_voulu(echeance, releve, convention),
{
    match convention {
        Convention::Bourse => {
            let jours: i64 = jours_ouvres(releve.0.jour(), echeance.0.jour());
            let retenus: i64 = if jours < 1 {
                1
            } else {
                jours
            };
            Flottant::entier(retenus).par(Flottant::entier(JOURS_BOURSE))
        },
        Convention::Heures => {
            let millis: i128 = echeance.en_utc().ecart_tronque(releve.0, 1000);
            let restant: Flottant = Flottant::entier(millis as i64).par(Flottant::entier(1000));
            let an: Flottant = Flottant::entier(JOURS_CALENDAIRES).fois(Flottant::entier(24)).fois(
                Flottant::entier(3600),
            );
            restant.max(Flottant::entier(PLANCHER_SECONDES)).par(an)
        },
    }
}

/// Le temps restant est strictement positif, de sorte que le gamma ne diverge pas, même
/// d'une échéance passée.
pub proof fn le_temps_restant_est_positif(
    echeance: EcheanceNy,
    releve: InstantReleve,
    convention: Convention,
)
    ensures
        temps_voulu(echeance, releve, convention).positif(),
{
    match convention {
        Convention::Bourse => {
            let (a, b) = (releve.0.jour_compte(), echeance.0.jour_compte());
            lemme_compte_borne(a, b);
            lemme_compte_borne(b, a);
            let jours = jours_planchers(ouvres_signes(a, b)) as nat;
            lemme_au_moins_un(jours);
            lemme_quotient_positif(rapport(jours as int, 1), 262);
        },
        Convention::Heures => {
            let millis = tronque(utc_ny(echeance.0.micros as int) - releve.0.micros, 1000);
            let restant = rapport(millis, 1).quotient(rapport(1000, 1));
            le_produit_d_entiers_est_exact(365, 24);
            le_produit_d_entiers_est_exact(8760, 3600);
            lemme_au_moins_un(60);
            lemme_quotient_positif(restant.plus_grand(rapport(60, 1)), 31_536_000);
        },
    }
}

proof fn lemme_compte_borne(a: int, b: int)
    ensures
        0 <= compte_ouvres(a, b),
        a <= b ==> compte_ouvres(a, b) <= b - a,
    decreases b - a,
{
    if a < b {
        lemme_compte_borne(a, b - 1);
    }
}

proof fn lemme_au_moins_un(n: nat)
    requires
        0 < n < 0x20_0000_0000_0000,
    ensures
        rapport(1, 1).inferieur_ou_egal(rapport(n as int, 1)),
{
    un_entier_est_exact(1);
    un_entier_est_exact(n);
    clef_ordonne_les_valeurs(rapport(n as int, 1), rapport(1, 1));
    let u = vstd::arithmetic::power2::pow2(1074);
    assert(n * u >= 1 * u) by (nonlinear_arith)
        requires
            n >= 1,
    ;
}

/// L'heure de New York d'un instant UTC.
pub open spec fn heure_ny(utc: int) -> int {
    match decalage_a(new_york(), utc) {
        None => utc,
        Some(d) => utc + d * SECONDE,
    }
}

/// Les microsecondes de minuit à l'ouverture de la séance, à dix-sept heures.
pub const OUVERTURE: i64 = 61_200_000_000;

/// La dernière ouverture, en heure de New York, au plus tard à cette heure-là.
pub open spec fn ouverture_avant(local: int) -> int {
    let minuit = local / JOURNEE as int * JOURNEE;
    if local - minuit >= OUVERTURE {
        minuit + OUVERTURE
    } else {
        minuit - JOURNEE + OUVERTURE
    }
}

/// L'ouverture tombe dans les vingt-quatre heures qui précèdent, à dix-sept heures.
pub proof fn l_ouverture_precede_de_moins_d_un_jour(local: int)
    ensures
        ouverture_avant(local) <= local < ouverture_avant(local) + JOURNEE,
        ouverture_avant(local) % JOURNEE as int == OUVERTURE,
{
}

/// Le début de la séance qui contient un instant, les deux en UTC, et jamais après lui.
pub open spec fn seance_de(utc: int) -> int {
    let ouverture = utc_ny(ouverture_avant(heure_ny(utc)));
    if ouverture <= utc {
        ouverture
    } else {
        utc
    }
}

/// Un instant dont la séance reste au calendrier.
pub open spec fn seance_usuelle(micros: int) -> bool {
    usuel(micros - 3 * JOURNEE) && usuel(micros + 3 * JOURNEE)
}

/// Le début de la séance qui contient `quand`, en UTC : la dernière ouverture, à
/// dix-sept heures à New York.
pub fn debut_de_seance(quand: Instant) -> (r: Instant)
    requires
        seance_usuelle(quand.micros as int),
    ensures
        r.micros == seance_de(quand.micros as int),
        r.micros <= quand.micros,
{
    let decalage: i32 = match decalage_utc("America/New_York", quand) {
        Some(d) => d,
        None => 0,
    };
    let local: Instant = Instant { micros: quand.micros + decalage as i64 * SECONDE };
    let ouverture: Instant = EcheanceNy(ouverture_precedente(local)).en_utc();
    if ouverture.micros <= quand.micros {
        ouverture
    } else {
        quand
    }
}

/// La dernière ouverture, au plus tard à cette heure de New York.
pub fn ouverture_precedente(local: Instant) -> (r: Instant)
    requires
        local.micros >= i64::MIN + 2 * JOURNEE,
    ensures
        r.micros == ouverture_avant(local.micros as int),
{
    let minuit: i64 = local.jour().numero as i64 * JOURNEE;
    let ouverture: i64 = if local.micros - minuit >= OUVERTURE {
        minuit + OUVERTURE
    } else {
        minuit - JOURNEE + OUVERTURE
    };
    Instant { micros: ouverture }
}

} // verus!
