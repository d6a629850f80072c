//! Ce qu'une observation dit des deux relevés qu'elle apparie.

#[allow(unused_imports)]
use super::validation::{jours_de, observation_entre, paires, Releve};
#[allow(unused_imports)]
use crate::calendrier::tronque;
#[allow(unused_imports)]
use crate::entiers::{
    le_quotient_d_un_multiple_est_exact, lemme_part_extreme, petit, un_petit_entier_est_exact,
};
use crate::flottant::Flottant;
#[allow(unused_imports)]
use crate::flottant::{clef_ordonne_les_valeurs, lemme_magnitude_nulle, lemme_quotient_par_soi, rapport, un_entier_est_exact};
#[allow(unused_imports)]
use crate::ordre::{
    lemme_difference_opposee, lemme_difference_ordonnee, lemme_double_moins_simple, lemme_oppose,
    lemme_quotient_croit, lemme_quotient_decroit, lemme_quotient_oppose, lemme_racine_croit,
    lemme_racine_exacte, lemme_signe_du_produit, lemme_signe_du_quotient, lemme_somme_croit,
};
use vstd::prelude::*;

verus! {

/// Deux séances s'apparient, sauf si l'écart est trop court ou le prix de départ absurde.
pub proof fn deux_seances_s_apparient_ou_non(
    avant: Releve,
    apres: Releve,
    ecart: Flottant,
    minimum: Flottant,
)
    requires
        ecart.fini(),
        minimum.fini(),
        avant.spot.fini(),
    ensures
        observation_entre(avant, apres, ecart, minimum) is Some <==> minimum.valeur()
            <= ecart.valeur() && 0 < avant.spot.valeur(),
{
    clef_ordonne_les_valeurs(ecart, minimum);
    lemme_magnitude_nulle(avant.spot);
}

/// Un mur call est franchi si et seulement si le prix suivant est strictement au-dessus, un mur
/// put si et seulement si le prix suivant est strictement au-dessous, et un prix est sous le
/// zero gamma si et seulement s'il lui est strictement inférieur. Sans mur, rien à en dire.
pub proof fn un_niveau_se_franchit_par_son_cote(
    avant: Releve,
    apres: Releve,
    ecart: Flottant,
    minimum: Flottant,
)
    requires
        observation_entre(avant, apres, ecart, minimum) is Some,
        avant.spot.fini(),
        apres.spot.fini(),
    ensures
        ({
            let o = observation_entre(avant, apres, ecart, minimum)->Some_0;
            &&& o.call_wall_franchi is None <==> avant.call_wall is None
            &&& o.put_wall_franchi is None <==> avant.put_wall is None
            &&& o.sous_zero_gamma is None <==> avant.zero_gamma is None
            &&& avant.call_wall matches Some(m) ==> m.fini() ==> o.call_wall_franchi == Some(
                apres.spot.valeur() > m.valeur(),
            )
            &&& avant.put_wall matches Some(m) ==> m.fini() ==> o.put_wall_franchi == Some(
                apres.spot.valeur() < m.valeur(),
            )
            &&& avant.zero_gamma matches Some(z) ==> z.fini() ==> o.sous_zero_gamma == Some(
                avant.spot.valeur() < z.valeur(),
            )
        }),
{
    if let Some(m) = avant.call_wall {
        if m.fini() {
            clef_ordonne_les_valeurs(m, apres.spot);
        }
    }
    if let Some(m) = avant.put_wall {
        if m.fini() {
            clef_ordonne_les_valeurs(apres.spot, m);
        }
    }
    if let Some(z) = avant.zero_gamma {
        if z.fini() {
            clef_ordonne_les_valeurs(avant.spot, z);
        }
    }
}

/// Un prix suivant plus haut ne rend pas tenu un mur call franchi, ni franchi un mur put tenu.
pub proof fn monter_ne_defait_pas_un_franchissement(
    avant: Releve,
    apres: Releve,
    plus_haut: Releve,
    ecart: Flottant,
    minimum: Flottant,
)
    requires
        observation_entre(avant, apres, ecart, minimum) is Some,
        apres.spot.inferieur_ou_egal(plus_haut.spot),
    ensures
        ({
            let o = observation_entre(avant, apres, ecart, minimum)->Some_0;
            let p = observation_entre(avant, plus_haut, ecart, minimum)->Some_0;
            &&& observation_entre(avant, plus_haut, ecart, minimum) is Some
            &&& o.call_wall_franchi == Some(true) ==> p.call_wall_franchi == Some(true)
            &&& p.put_wall_franchi == Some(true) ==> o.put_wall_franchi == Some(true)
            &&& p.sous_zero_gamma == o.sous_zero_gamma
        }),
{
}

proof fn lemme_rendement(avant: Releve, apres: Releve)
    requires
        avant.spot.fini(),
        avant.spot.positif(),
        apres.spot.fini(),
    ensures
        ({
            let r = apres.spot.moins(avant.spot).par(avant.spot);
            &&& !r.nan()
            &&& apres.spot.valeur() >= avant.spot.valeur() ==> r.clef() >= 0
            &&& apres.spot.valeur() <= avant.spot.valeur() ==> r.clef() <= 0
        }),
{
    let (a, b) = (avant.spot, apres.spot);
    clef_ordonne_les_valeurs(a, b);
    if a.inferieur_ou_egal(b) {
        lemme_difference_ordonnee(a, b);
        lemme_difference_opposee(a, b);
    } else {
        lemme_difference_ordonnee(b, a);
        lemme_difference_opposee(b, a);
    }
    let d = b.moins(a);
    reveal(Flottant::quotient);
    crate::erreur::lemme_arrondi_encadre(d.negatif(), 0, 1);
    lemme_magnitude_nulle(a);
    if d.fini() {
        crate::erreur::lemme_arrondi_encadre(
            d.negatif() != a.negatif(),
            d.magnitude() * vstd::arithmetic::power2::pow2(1074),
            a.magnitude(),
        );
    }
    lemme_signe_du_quotient(d, a);
}

/// Le mouvement signé a le signe de la variation de prix, et l'amplitude est sa valeur absolue.
pub proof fn le_mouvement_suit_le_prix(
    avant: Releve,
    apres: Releve,
    ecart: Flottant,
    minimum: Flottant,
)
    requires
        observation_entre(avant, apres, ecart, minimum) is Some,
        avant.spot.fini(),
        apres.spot.fini(),
        ecart.fini(),
        ecart.positif(),
    ensures
        ({
            let o = observation_entre(avant, apres, ecart, minimum)->Some_0;
            &&& !o.mouvement_signe.nan() ==> {
                &&& apres.spot.valeur() >= avant.spot.valeur() ==> !o.mouvement_signe.inferieur(
                    Flottant::nul(),
                )
                &&& apres.spot.valeur() <= avant.spot.valeur() ==> !o.mouvement_signe.positif()
                &&& o.mouvement_par_jour.de_meme_valeur(o.mouvement_signe.abs())
            }
        }),
{
    lemme_magnitude_nulle(avant.spot);
    lemme_rendement(avant, apres);
    let r = apres.spot.moins(avant.spot).par(avant.spot);
    let q = ecart.racine();
    lemme_racine_croit(Flottant::nul(), ecart);
    crate::ordre::lemme_racine_positive(ecart);
    lemme_oppose(r);
    if !r.par(q).nan() {
        lemme_quotient_oppose(r, q);
        if !r.negatif() {
            assert(r.abs() == r);
        } else {
            assert(r.abs() == r.neg());
        }
        lemme_signe_du_quotient(r, q);
        lemme_signe_du_quotient(r.abs(), q);
        lemme_oppose(r.par(q));
    }
}

/// Un prix qui double fait un mouvement de un, un prix qui tombe à zéro un mouvement de moins
/// un, et un prix immobile aucun ; le mouvement se ramène à la journée par la racine du temps :
/// sur `k` fois `k` jours, il se divise par `k`.
pub proof fn le_mouvement_se_rapporte_au_depart_et_a_la_racine_du_temps(
    avant: Releve,
    apres: Releve,
    k: nat,
    minimum: Flottant,
)
    requires
        0 < k,
        k * k < 0x20_0000_0000_0000,
        avant.spot.fini(),
        apres.spot.fini(),
        observation_entre(avant, apres, rapport((k * k) as int, 1), minimum) is Some,
    ensures
        ({
            let o = observation_entre(avant, apres, rapport((k * k) as int, 1), minimum)->Some_0;
            let jours = rapport(k as int, 1);
            &&& apres.spot.valeur() == 2 * avant.spot.valeur() ==> o.mouvement_signe == rapport(
                1,
                1,
            ).par(jours)
            &&& apres.spot.valeur() == 0 ==> o.mouvement_signe == rapport(1, 1).neg().par(jours)
            &&& apres.spot.valeur() == avant.spot.valeur() ==> o.mouvement_signe.rang() == 0
            &&& o.mouvement_signe == apres.spot.moins(avant.spot).par(avant.spot).par(jours)
        }),
{
    let (a, b) = (avant.spot, apres.spot);
    lemme_magnitude_nulle(a);
    lemme_magnitude_nulle(b);
    lemme_racine_exacte(k);
    assert(k <= k * k) by (nonlinear_arith)
        requires
            k >= 1,
    ;
    un_entier_est_exact(k);
    lemme_quotient_par_soi(a);
    if b.valeur() == 2 * a.valeur() {
        lemme_double_moins_simple(a, b);
    }
    if b.valeur() == 0 {
        lemme_oppose(a);
        crate::court::un_nombre_fini_est_son_arrondi(a.neg(), 1);
        assert(a.magnitude() * 1 == a.magnitude());
        assert(b.moins(a) == a.neg()) by {
            reveal(Flottant::somme);
        }
        assert(a.neg().par(a) == rapport(1, 1).neg()) by {
            reveal(Flottant::quotient);
            lemme_signe_oppose(a);
        }
    }
    if b.valeur() == a.valeur() {
        clef_ordonne_les_valeurs(a, b);
        lemme_difference_ordonnee(a, b);
        let d = b.moins(a);
        lemme_zero_divise(d, a);
        lemme_zero_divise(d.par(a), rapport(k as int, 1));
    }
}

proof fn lemme_zero_divise(z: Flottant, a: Flottant)
    requires
        z.rang() == 0,
        a.positif(),
        a.fini(),
    ensures
        z.par(a).rang() == 0,
{
    reveal(Flottant::quotient);
    lemme_magnitude_nulle(z);
    lemme_magnitude_nulle(a);
    let n = z.magnitude() * vstd::arithmetic::power2::pow2(1074);
    assert(n == 0) by (nonlinear_arith)
        requires
            n == z.magnitude() * vstd::arithmetic::power2::pow2(1074),
            z.magnitude() == 0,
    ;
    assert(n * vstd::arithmetic::power2::pow2(0) == 0);
    crate::flottant::lemme_arrondi_nul(z.negatif() != a.negatif(), n, a.magnitude(), 0);
}

proof fn lemme_signe_oppose(a: Flottant)
    requires
        a.fini(),
        a.positif(),
    ensures
        a.neg().quotient(a) == rapport(1, 1).neg(),
{
    lemme_quotient_par_soi(a);
    lemme_quotient_oppose(a, a);
    un_entier_est_exact(1);
    lemme_magnitude_nulle(rapport(1, 1));
    lemme_oppose(rapport(1, 1));
}

/// Un prix suivant plus haut donne un mouvement signé qui n'est pas plus bas, et, à prix égaux,
/// un écart plus long une amplitude qui n'est pas plus grande.
pub proof fn le_mouvement_croit_avec_le_prix_et_decroit_avec_le_temps(
    avant: Releve,
    apres: Releve,
    plus_haut: Releve,
    ecart: Flottant,
    plus_long: Flottant,
    minimum: Flottant,
)
    requires
        observation_entre(avant, apres, ecart, minimum) is Some,
        avant.spot.fini(),
        apres.spot.fini(),
        plus_haut.spot.fini(),
        ecart.fini(),
        plus_long.fini(),
        rapport(1, 1).inferieur_ou_egal(ecart),
        ecart.inferieur_ou_egal(plus_long),
        apres.spot.inferieur_ou_egal(plus_haut.spot),
        apres.spot.moins(avant.spot).par(avant.spot).fini(),
        plus_haut.spot.moins(avant.spot).par(avant.spot).fini(),
    ensures
        ({
            let o = observation_entre(avant, apres, ecart, minimum)->Some_0;
            let h = observation_entre(avant, plus_haut, ecart, minimum)->Some_0;
            let l = observation_entre(avant, apres, plus_long, minimum)->Some_0;
            &&& o.mouvement_signe.inferieur_ou_egal(h.mouvement_signe)
            &&& l.mouvement_par_jour.inferieur_ou_egal(o.mouvement_par_jour)
        }),
{
    let (a, b, c) = (avant.spot, apres.spot, plus_haut.spot);
    lemme_magnitude_nulle(a);
    lemme_oppose(a);
    un_entier_est_exact(1);
    let un = rapport(1, 1);
    lemme_racine_exacte(1);
    assert(1nat * 1nat == 1);
    lemme_racine_croit(un, ecart);
    lemme_racine_croit(ecart, plus_long);
    let (q, ql) = (ecart.racine(), plus_long.racine());
    lemme_racine_finie(ecart);
    lemme_racine_finie(plus_long);
    lemme_difference_definie(b, a);
    lemme_difference_definie(c, a);
    lemme_somme_croit(b, c, a.neg());
    let (db, dc) = (b.moins(a), c.moins(a));
    lemme_quotient_croit(db, dc, a);
    let (rb, rc) = (db.par(a), dc.par(a));
    lemme_division_definie(rb, q);
    lemme_division_definie(rc, q);
    lemme_quotient_croit(rb, rc, q);
    lemme_oppose(rb);
    lemme_quotient_decroit(rb.abs(), q, ql);
}

proof fn lemme_difference_definie(a: Flottant, b: Flottant)
    requires
        a.fini(),
        b.fini(),
    ensures
        !a.moins(b).nan(),
{
    if a.inferieur_ou_egal(b) {
        lemme_difference_ordonnee(a, b);
        lemme_difference_opposee(a, b);
    } else {
        lemme_difference_ordonnee(b, a);
    }
}

proof fn lemme_division_definie(a: Flottant, c: Flottant)
    requires
        a.fini(),
        c.fini(),
        c.positif(),
    ensures
        !a.par(c).nan(),
{
    reveal(Flottant::quotient);
    lemme_magnitude_nulle(c);
    crate::erreur::lemme_arrondi_encadre(
        a.negatif() != c.negatif(),
        a.magnitude() * vstd::arithmetic::power2::pow2(1074),
        c.magnitude(),
    );
}

proof fn lemme_racine_finie(a: Flottant)
    requires
        a.fini(),
        rapport(1, 1).inferieur_ou_egal(a),
    ensures
        a.racine().fini(),
        a.racine().positif(),
{
    un_entier_est_exact(1);
    lemme_racine_exacte(1);
    assert(1nat * 1nat == 1);
    lemme_racine_croit(rapport(1, 1), a);
    crate::ordre::lemme_racine_bornee(a);
}

/// Le prix va dans le sens du charm quand il bouge à l'opposé de son signe : il monte quand le
/// charm est négatif, baisse quand il est positif. Sans charm, rien à en dire.
pub proof fn le_charm_pousse_a_l_oppose_de_son_signe(
    avant: Releve,
    apres: Releve,
    ecart: Flottant,
    minimum: Flottant,
)
    requires
        observation_entre(avant, apres, ecart, minimum) is Some,
        avant.spot.fini(),
        apres.spot.fini(),
    ensures
        ({
            let o = observation_entre(avant, apres, ecart, minimum)->Some_0;
            let monte = apres.spot.valeur() > avant.spot.valeur();
            &&& avant.charm is None ==> o.sens_du_charm is None && o.charm is None
            &&& avant.charm matches Some(c) ==> {
                &&& o.charm is Some
                &&& c.fini() ==> o.charm->Some_0.valeur() == if c.valeur() < 0 {
                    -c.valeur()
                } else {
                    c.valeur()
                }
                &&& c.fini() && c.valeur() == 0 ==> o.sens_du_charm is None
                &&& c.fini() ==> (o.sens_du_charm matches Some(b) ==> b == (monte == (c.valeur()
                    < 0)))
                &&& apres.spot.valeur() == avant.spot.valeur() ==> o.sens_du_charm is None
            }
        }),
{
    lemme_magnitude_nulle(avant.spot);
    lemme_rendement(avant, apres);
    clef_ordonne_les_valeurs(avant.spot, apres.spot);
    let r = apres.spot.moins(avant.spot).par(avant.spot);
    if let Some(c) = avant.charm {
        lemme_magnitude_nulle(c);
        lemme_oppose(c);
        lemme_sens(avant, apres, c);
    }
}

proof fn lemme_sens(avant: Releve, apres: Releve, c: Flottant)
    requires
        avant.spot.fini(),
        avant.spot.positif(),
        apres.spot.fini(),
    ensures
        ({
            let r = apres.spot.moins(avant.spot).par(avant.spot);
            &&& !r.nan()
            &&& r.rang() != 0 ==> r.negatif() == (apres.spot.valeur() < avant.spot.valeur())
        }),
{
    lemme_rendement(avant, apres);
}

/// Le flux de vanna a le signe de la vanna fois la variation de volatilité, et le prix va dans
/// son sens quand il bouge à l'opposé de ce signe. Sans l'un des trois nombres, rien à en dire.
pub proof fn la_vanna_pousse_a_l_oppose_de_son_flux(
    avant: Releve,
    apres: Releve,
    ecart: Flottant,
    minimum: Flottant,
)
    requires
        observation_entre(avant, apres, ecart, minimum) is Some,
        avant.spot.fini(),
        apres.spot.fini(),
    ensures
        ({
            let o = observation_entre(avant, apres, ecart, minimum)->Some_0;
            let monte = apres.spot.valeur() > avant.spot.valeur();
            &&& o.flux_vanna is Some <==> avant.vanna is Some && avant.iv_atm is Some
                && apres.iv_atm is Some
            &&& o.flux_vanna is None ==> o.sens_de_la_vanna is None
            &&& o.flux_vanna matches Some(f) ==> {
                let (v, x, y) = (avant.vanna->Some_0, avant.iv_atm->Some_0, apres.iv_atm->Some_0);
                v.fini() && x.fini() && y.fini() && !f.nan() ==> {
                    &&& v.valeur() >= 0 && y.valeur() >= x.valeur() ==> f.clef() >= 0
                    &&& v.valeur() >= 0 && y.valeur() <= x.valeur() ==> f.clef() <= 0
                    &&& v.valeur() <= 0 && y.valeur() >= x.valeur() ==> f.clef() <= 0
                    &&& v.valeur() <= 0 && y.valeur() <= x.valeur() ==> f.clef() >= 0
                    &&& o.sens_de_la_vanna matches Some(b) ==> b == (monte == (f.clef() < 0))
                }
            }
        }),
{
    lemme_magnitude_nulle(avant.spot);
    lemme_rendement(avant, apres);
    if let (Some(v), Some(x), Some(y)) = (avant.vanna, avant.iv_atm, apres.iv_atm) {
        if v.fini() && x.fini() && y.fini() {
            lemme_magnitude_nulle(v);
            clef_ordonne_les_valeurs(x, y);
            lemme_difference_definie(y, x);
            lemme_difference_opposee(x, y);
            if x.inferieur_ou_egal(y) {
                lemme_difference_ordonnee(x, y);
            }
            if y.inferieur_ou_egal(x) {
                lemme_difference_ordonnee(y, x);
            }
            if !v.fois(y.moins(x)).nan() {
                lemme_signe_du_produit(v, y.moins(x));
            }
            lemme_sens(avant, apres, v);
        }
    }
}

/// Qui s'est rapproché du max pain en est plus près ; qui n'en est pas plus près ne s'en est
/// pas rapproché. La distance de départ est en fraction du prix : un max pain au double du prix
/// est à un, un max pain au prix est à zéro.
pub proof fn se_rapprocher_du_max_pain_est_en_etre_plus_pres(
    avant: Releve,
    apres: Releve,
    ecart: Flottant,
    minimum: Flottant,
)
    requires
        observation_entre(avant, apres, ecart, minimum) is Some,
        avant.spot.fini(),
        apres.spot.fini(),
    ensures
        ({
            let o = observation_entre(avant, apres, ecart, minimum)->Some_0;
            &&& avant.max_pain is None <==> o.vers_le_max_pain is None
            &&& avant.max_pain is None <==> o.distance_max_pain is None
            &&& avant.max_pain matches Some(m) ==> m.fini() ==> {
                let depart = avant.spot.valeur() - m.valeur();
                let arrivee = apres.spot.valeur() - m.valeur();
                let loin = if depart < 0 {
                    -depart
                } else {
                    depart
                };
                let pres = if arrivee < 0 {
                    -arrivee
                } else {
                    arrivee
                };
                &&& o.vers_le_max_pain == Some(true) ==> pres < loin
                &&& m.valeur() == avant.spot.valeur() ==> o.distance_max_pain->Some_0.rang() == 0
                &&& m.valeur() == 2 * avant.spot.valeur() ==> o.distance_max_pain->Some_0
                    == rapport(1, 1)
                &&& arrivee == 0 && depart != 0 ==> o.vers_le_max_pain == Some(true)
            }
        }),
{
    let (a, b) = (avant.spot, apres.spot);
    lemme_magnitude_nulle(a);
    if let Some(m) = avant.max_pain {
        if m.fini() {
            crate::ordre::lemme_distances(a, b, m);
            crate::ordre::lemme_distances(b, a, m);
            clef_ordonne_les_valeurs(a, m);
            clef_ordonne_les_valeurs(b, m);
            if m.valeur() == a.valeur() {
                lemme_difference_ordonnee(a, m);
                lemme_difference_opposee(a, m);
                lemme_oppose(a.moins(m));
                lemme_zero_divise(a.moins(m).abs(), a);
            }
            if m.valeur() == 2 * a.valeur() {
                lemme_double_moins_simple(a, m);
                lemme_difference_opposee(m, a);
                lemme_oppose(a.moins(m));
                assert(a.moins(m).abs() == a);
                lemme_quotient_par_soi(a);
            }
        }
    }
}

/// Le rang `i` apparie deux séances qui se suivent dans un même périmètre, et l'observation de la
/// première à la seconde existe.
pub open spec fn apparie(
    r: Seq<Releve>,
    d: Seq<usize>,
    ecart: spec_fn(Seq<char>, Seq<char>) -> Flottant,
    minimum: Flottant,
    i: int,
) -> bool {
    let (a, b) = (r[d[i - 1] as int], r[d[i] as int]);
    &&& 0 < i < d.len()
    &&& a.ticker@ == b.ticker@
    &&& a.dte_max@ == b.dte_max@
    &&& a.source_gamma@ == b.source_gamma@
    &&& a.convention@ == b.convention@
    &&& observation_entre(a, b, ecart(a.instant@, b.instant@), minimum) is Some
}

/// Chaque observation va d'une séance à la suivante, de la plus ancienne à la plus récente, dans
/// un même périmètre ; et toute paire qui s'observe donne la sienne.
pub proof fn une_observation_va_d_une_seance_a_la_suivante(
    r: Seq<Releve>,
    d: Seq<usize>,
    ecart: spec_fn(Seq<char>, Seq<char>) -> Flottant,
    minimum: Flottant,
)
    ensures
        forall|k: int|
            0 <= k < paires(r, d, ecart, minimum).len() ==> exists|i: int|
                #[trigger] apparie(r, d, ecart, minimum, i) && #[trigger] paires(
                    r,
                    d,
                    ecart,
                    minimum,
                )[k] == observation_entre(
                    r[d[i - 1] as int],
                    r[d[i] as int],
                    ecart(r[d[i - 1] as int].instant@, r[d[i] as int].instant@),
                    minimum,
                )->Some_0,
        forall|i: int| #[trigger]
            apparie(r, d, ecart, minimum, i) ==> paires(r, d, ecart, minimum).contains(
                observation_entre(
                    r[d[i - 1] as int],
                    r[d[i] as int],
                    ecart(r[d[i - 1] as int].instant@, r[d[i] as int].instant@),
                    minimum,
                )->Some_0,
            ),
    decreases d.len(),
{
    if d.len() > 1 {
        let t = d.drop_last();
        let n = d.len() - 1;
        une_observation_va_d_une_seance_a_la_suivante(r, t, ecart, minimum);
        let (u, v) = (paires(r, t, ecart, minimum), paires(r, d, ecart, minimum));
        let (a, b) = (r[d[n - 1] as int], r[d[n] as int]);
        assert(d.last() == d[n]);
        lemme_perimetre(a, b);
        assert forall|i: int| 0 < i < n implies #[trigger] apparie(r, d, ecart, minimum, i)
            == apparie(r, t, ecart, minimum, i) by {
            assert(t[i] == d[i] && t[i - 1] == d[i - 1]);
        }
        assert forall|k: int| 0 <= k < v.len() implies exists|i: int|
            #[trigger] apparie(r, d, ecart, minimum, i) && #[trigger] v[k] == observation_entre(
                r[d[i - 1] as int],
                r[d[i] as int],
                ecart(r[d[i - 1] as int].instant@, r[d[i] as int].instant@),
                minimum,
            )->Some_0 by {
            if k < u.len() {
                assert(v[k] == u[k]);
                let i = choose|i: int|
                    #[trigger] apparie(r, t, ecart, minimum, i) && u[k] == observation_entre(
                        r[t[i - 1] as int],
                        r[t[i] as int],
                        ecart(r[t[i - 1] as int].instant@, r[t[i] as int].instant@),
                        minimum,
                    )->Some_0;
                assert(t[i] == d[i] && t[i - 1] == d[i - 1]);
                assert(apparie(r, d, ecart, minimum, i));
            } else {
                assert(apparie(r, d, ecart, minimum, n));
            }
        }
        assert forall|i: int| #[trigger] apparie(r, d, ecart, minimum, i) implies v.contains(
            observation_entre(
                r[d[i - 1] as int],
                r[d[i] as int],
                ecart(r[d[i - 1] as int].instant@, r[d[i] as int].instant@),
                minimum,
            )->Some_0,
        ) by {
            let o = observation_entre(
                r[d[i - 1] as int],
                r[d[i] as int],
                ecart(r[d[i - 1] as int].instant@, r[d[i] as int].instant@),
                minimum,
            )->Some_0;
            if i < n {
                assert(apparie(r, t, ecart, minimum, i));
                assert(t[i] == d[i] && t[i - 1] == d[i - 1]);
                assert(u.contains(o));
                let k = choose|k: int| 0 <= k < u.len() && u[k] == o;
                assert(v[k] == o);
            } else {
                assert(v.last() == o);
            }
        }
    }
}

proof fn lemme_perimetre(a: Releve, b: Releve)
    ensures
        a.perimetre() == b.perimetre() <==> a.ticker@ == b.ticker@ && a.dte_max@ == b.dte_max@
            && a.source_gamma@ == b.source_gamma@ && a.convention@ == b.convention@,
{
    if a.perimetre() == b.perimetre() {
        assert(a.perimetre()[0] == b.perimetre()[0]);
        assert(a.perimetre()[1] == b.perimetre()[1]);
        assert(a.perimetre()[2] == b.perimetre()[2]);
        assert(a.perimetre()[3] == b.perimetre()[3]);
    }
    if a.ticker@ == b.ticker@ && a.dte_max@ == b.dte_max@ && a.source_gamma@ == b.source_gamma@
        && a.convention@ == b.convention@ {
        assert(a.perimetre() =~= b.perimetre());
    }
}

/// L'écart entre deux instants est en jours : `k` jours pleins font `k`, et un instant manquant
/// n'en fait aucun.
pub proof fn l_ecart_se_compte_en_jours(a: int, b: int, k: int)
    requires
        b - a == k * 86_400_000_000,
        petit(k * 86_400),
    ensures
        jours_de(Some(a), Some(b)).de_meme_valeur(rapport(k, 1)),
        jours_de(None, Some(b)).rang() == 0,
        jours_de(Some(a), None).rang() == 0,
{
    let s = k * 86_400;
    assert(tronque(b - a, 1_000_000) == s) by {
        assert(b - a == s * 1_000_000);
        if s >= 0 {
            vstd::arithmetic::div_mod::lemma_fundamental_div_mod_converse(
                b - a,
                1_000_000,
                s,
                0,
            );
        } else {
            vstd::arithmetic::div_mod::lemma_fundamental_div_mod_converse(
                -(b - a),
                1_000_000,
                -s,
                0,
            );
        }
    }
    un_petit_entier_est_exact(k);
    if k != 0 {
        le_quotient_d_un_multiple_est_exact(k, 86_400);
    } else {
        lemme_part_extreme(86_400);
    }
}

} // verus!
