//! Ce qu'une prime d'option doit satisfaire, quelles que soient les fonctions qui la calculent.

#[allow(unused_imports)]
use super::black76::{d1_en, dans_le_domaine, gamma_de, prime_de, Sens};
#[allow(unused_imports)]
use super::greeks::exposition_gamma;
#[allow(unused_imports)]
use super::loi_normale::{repartition_en, INV_RACINE_2};
use crate::flottant::Flottant;
#[allow(unused_imports)]
use crate::flottant::{clef_ordonne_les_valeurs, lemme_produit_nul, rapport, un_entier_est_exact};
#[allow(unused_imports)]
use crate::ordre::{
    lemme_difference_opposee, lemme_difference_ordonnee, lemme_difference_stricte,
    lemme_meme_valeur, lemme_oppose, lemme_produit_commute, lemme_produit_croit,
    lemme_signe_du_produit, lemme_somme_commute, lemme_somme_croit, lemme_somme_zero,
};
use vstd::prelude::*;

verus! {

/// L'intrinsèque d'un call est ce dont le prix passe le strike, celui d'un put ce dont le strike
/// passe le prix : l'un des deux est nul, et échanger prix et strike échange l'un pour l'autre.
pub proof fn l_intrinseque_est_ce_dont_le_prix_passe_le_strike(f: Flottant, k: Flottant)
    requires
        f.fini(),
        k.fini(),
    ensures
        Sens::Call.valeur_intrinseque(f, k) == Sens::Put.valeur_intrinseque(k, f),
        Sens::Call.valeur_intrinseque(f, k).positif() <==> f.valeur() > k.valeur(),
        Sens::Put.valeur_intrinseque(f, k).positif() <==> f.valeur() < k.valeur(),
        f.valeur() <= k.valeur() ==> Sens::Call.valeur_intrinseque(f, k).rang() == 0,
        f.valeur() >= k.valeur() ==> Sens::Put.valeur_intrinseque(f, k).rang() == 0,
        f.valeur() > k.valeur() ==> Sens::Call.valeur_intrinseque(f, k) == f.moins(k),
        f.valeur() < k.valeur() ==> Sens::Put.valeur_intrinseque(f, k) == k.moins(f),
{
    clef_ordonne_les_valeurs(f, k);
    if f.inferieur(k) {
        lemme_difference_stricte(f, k);
    } else if k.inferieur(f) {
        lemme_difference_stricte(k, f);
    } else {
        lemme_difference_ordonnee(f, k);
        lemme_difference_ordonnee(k, f);
    }
}

/// Hors du domaine, la prime est l'intrinsèque.
pub proof fn sans_temps_ni_vol_la_prime_est_l_intrinseque(
    ln: spec_fn(Flottant) -> Flottant,
    exp: spec_fn(Flottant) -> Flottant,
    erfc: spec_fn(Flottant) -> Flottant,
    f: Flottant,
    k: Flottant,
    vol: Flottant,
    t: Flottant,
    r: Flottant,
    sens: Sens,
)
    requires
        !t.positif() || !vol.positif() || !k.positif() || !f.positif(),
    ensures
        prime_de(ln, exp, erfc, f, k, vol, t, r, sens) == sens.valeur_intrinseque(f, k),
{
}

/// Une fonction d'erreur complémentaire : entre zéro et deux, et décroissante.
pub open spec fn complementaire(erfc: spec_fn(Flottant) -> Flottant) -> bool {
    &&& forall|x: Flottant|
        !x.nan() ==> !(#[trigger] erfc(x)).nan() && erfc(x).clef() >= 0
            && erfc(x).inferieur_ou_egal(Flottant::entier(2))
    &&& forall|x: Flottant, y: Flottant|
        x.inferieur_ou_egal(y) ==> (#[trigger] erfc(y)).inferieur_ou_egal(#[trigger] erfc(x))
}

pub(crate) proof fn lemme_un_demi_par_deux()
    ensures
        Flottant::fraction(1, 2).fois(Flottant::entier(2)) == rapport(1, 1),
        Flottant::fraction(1, 2).fini(),
        Flottant::fraction(1, 2).clef() > 0,
{
    crate::erreur::lemme_un_demi();
    crate::flottant::lemme_magnitude_nulle(Flottant::fraction(1, 2));
    vstd::arithmetic::power2::lemma_pow2_pos(1073);
    un_entier_est_exact(2);
    un_entier_est_exact(1);
    let (u, h) = (vstd::arithmetic::power2::pow2(1074), vstd::arithmetic::power2::pow2(1073));
    vstd::arithmetic::power2::lemma_pow2_unfold(1074);
    reveal(Flottant::produit);
    reveal(rapport);
    assert(h * (2 * u) == (1 * u) * u) by (nonlinear_arith)
        requires
            u == 2 * h,
    ;
    crate::flottant::lemme_arrondi_a_l_echelle(1 * u, u);
}

/// La répartition est entre zéro et un, et croît.
proof fn lemme_repartition(erfc: spec_fn(Flottant) -> Flottant, x: Flottant, y: Flottant)
    requires
        complementaire(erfc),
        x.inferieur_ou_egal(y),
        x.fini(),
        y.fini(),
    ensures
        !repartition_en(erfc, x).nan(),
        !repartition_en(erfc, y).nan(),
        repartition_en(erfc, x).clef() >= 0,
        repartition_en(erfc, y).clef() >= 0,
        repartition_en(erfc, x).inferieur_ou_egal(repartition_en(erfc, y)),
        repartition_en(erfc, y).inferieur_ou_egal(rapport(1, 1)),
        repartition_en(erfc, x).fini(),
        repartition_en(erfc, y).fini(),
{
    let c = Flottant { bits: INV_RACINE_2 };
    let h = Flottant::fraction(1, 2);
    lemme_un_demi_par_deux();
    un_entier_est_exact(2);
    un_entier_est_exact(1);
    lemme_oppose(x);
    lemme_oppose(y);
    let (a, b) = (x.neg().fois(c), y.neg().fois(c));
    crate::erreur::lemme_produit_encadre(x.neg(), c);
    crate::erreur::lemme_produit_encadre(y.neg(), c);
    lemme_produit_croit(y.neg(), x.neg(), c);
    let (ea, eb) = (erfc(a), erfc(b));
    assert(ea.inferieur_ou_egal(eb));
    assert(!ea.nan() && !eb.nan());
    crate::erreur::lemme_produit_encadre(h, ea);
    crate::erreur::lemme_produit_encadre(h, eb);
    lemme_produit_commute(h, ea);
    lemme_produit_commute(h, eb);
    lemme_produit_commute(h, Flottant::entier(2));
    lemme_produit_croit(ea, eb, h);
    lemme_produit_croit(eb, Flottant::entier(2), h);
    lemme_signe_du_produit(h, ea);
    lemme_signe_du_produit(h, eb);
}

/// Un call ne vaut pas plus que le prix actualisé, un put pas plus que le strike actualisé ; et
/// une option dans la monnaie ne vaut pas moins que rien.
pub proof fn une_prime_reste_entre_ses_bornes(
    ln: spec_fn(Flottant) -> Flottant,
    exp: spec_fn(Flottant) -> Flottant,
    erfc: spec_fn(Flottant) -> Flottant,
    f: Flottant,
    k: Flottant,
    vol: Flottant,
    t: Flottant,
    r: Flottant,
)
    requires
        complementaire(erfc),
        dans_le_domaine(f, k, vol, t),
        f.fini(),
        k.fini(),
        d1_en(ln, f, k, vol, t).fini(),
        vol.fois(t.racine()).clef() >= 0,
        d1_en(ln, f, k, vol, t).moins(vol.fois(t.racine())).fini(),
        exp(r.neg().fois(t)).fini(),
        exp(r.neg().fois(t)).clef() >= 0,
    ensures
        ({
            let a = exp(r.neg().fois(t));
            let call = prime_de(ln, exp, erfc, f, k, vol, t, r, Sens::Call);
            let put = prime_de(ln, exp, erfc, f, k, vol, t, r, Sens::Put);
            &&& call.inferieur_ou_egal(a.fois(f))
            &&& put.inferieur_ou_egal(a.fois(k))
            &&& k.inferieur_ou_egal(f) ==> call.clef() >= 0
            &&& f.inferieur_ou_egal(k) ==> put.clef() >= 0
        }),
{
    let a = exp(r.neg().fois(t));
    let v = vol.fois(t.racine());
    let d1 = d1_en(ln, f, k, vol, t);
    let d2 = d1.moins(v);
    lemme_retrancher(d1, v);
    lemme_oppose(d1);
    lemme_oppose(d2);
    lemme_repartition(erfc, d2, d1);
    lemme_repartition(erfc, d1.neg(), d2.neg());
    lemme_cote(a, f, k, repartition_en(erfc, d1), repartition_en(erfc, d2));
    lemme_cote(a, k, f, repartition_en(erfc, d2.neg()), repartition_en(erfc, d1.neg()));
}

proof fn lemme_retrancher(d: Flottant, v: Flottant)
    requires
        d.fini(),
        v.clef() >= 0,
        d.moins(v).fini(),
    ensures
        d.moins(v).inferieur_ou_egal(d),
{
    lemme_oppose(v);
    lemme_somme_zero(d, Flottant::nul());
    lemme_somme_commute(d, v.neg());
    lemme_somme_commute(d, Flottant::nul());
    assert(!v.nan()) by {
        reveal(Flottant::somme);
    }
    lemme_somme_croit(v.neg(), Flottant::nul(), d);
}

/// `a (x n - y m)`, avec `m <= n <= 1` : pas plus que `a x`, et pas négatif si `y <= x`.
proof fn lemme_cote(a: Flottant, x: Flottant, y: Flottant, n: Flottant, m: Flottant)
    requires
        a.fini(),
        a.clef() >= 0,
        x.fini(),
        x.positif(),
        y.fini(),
        y.positif(),
        n.fini(),
        m.fini(),
        m.clef() >= 0,
        m.inferieur_ou_egal(n),
        n.inferieur_ou_egal(rapport(1, 1)),
    ensures
        ({
            let p = a.fois(x.fois(n).moins(y.fois(m)));
            &&& p.inferieur_ou_egal(a.fois(x))
            &&& y.inferieur_ou_egal(x) ==> p.clef() >= 0
        }),
{
    let un = rapport(1, 1);
    un_entier_est_exact(1);
    lemme_fois_un(x);
    lemme_fois_un(y);
    lemme_produit_fini_borne(x, n);
    lemme_produit_fini_borne(y, m);
    let (p, q) = (x.fois(n), y.fois(m));
    lemme_produit_commute(x, n);
    lemme_produit_commute(x, un);
    lemme_produit_commute(y, m);
    lemme_produit_croit(n, un, x);
    lemme_signe_du_produit(y, m);
    let d = p.moins(q);
    lemme_oppose(q);
    lemme_somme_zero(p, Flottant::nul());
    lemme_somme_commute(p, q.neg());
    lemme_somme_commute(p, Flottant::nul());
    if p.inferieur_ou_egal(q) {
        lemme_difference_ordonnee(p, q);
        lemme_difference_opposee(p, q);
    } else {
        lemme_difference_ordonnee(q, p);
    }
    assert(!d.nan());
    lemme_somme_croit(q.neg(), Flottant::nul(), p);
    assert(d.inferieur_ou_egal(x));
    lemme_produit_commute(a, d);
    lemme_produit_commute(a, x);
    crate::erreur::lemme_produit_encadre(a, x);
    lemme_difference_finie(p, q);
    crate::erreur::lemme_produit_encadre(a, d);
    lemme_produit_croit(d, x, a);
    if y.inferieur_ou_egal(x) {
        lemme_produit_fini_borne(x, m);
        lemme_produit_commute(x, m);
        lemme_produit_croit(m, n, x);
        lemme_produit_croit(y, x, m);
        lemme_difference_ordonnee(q, p);
        lemme_signe_du_produit(a, d);
    }
}

/// La différence de deux nombres positifs finis est finie.
proof fn lemme_difference_finie(p: Flottant, q: Flottant)
    requires
        p.fini(),
        q.fini(),
        p.clef() >= 0,
        q.clef() >= 0,
    ensures
        p.moins(q).fini(),
{
    crate::flottant::lemme_magnitude_nulle(p);
    crate::flottant::lemme_magnitude_nulle(q);
    lemme_oppose(q);
    reveal(Flottant::somme);
    let v = p.valeur() - q.valeur();
    if v > 0 {
        assert(v as nat <= p.magnitude() * 1);
        crate::erreur::lemme_arrondi_sous(false, v as nat, 1, p);
    } else if v < 0 {
        assert((-v) as nat <= q.magnitude() * 1);
        crate::erreur::lemme_arrondi_sous(true, (-v) as nat, 1, q);
    }
}

proof fn lemme_fois_un(x: Flottant)
    requires
        x.fini(),
    ensures
        x.fois(rapport(1, 1)) == x,
{
    un_entier_est_exact(1);
    let u = vstd::arithmetic::power2::pow2(1074);
    vstd::arithmetic::power2::lemma_pow2_pos(1074);
    assert(1 * u == u);
    reveal(Flottant::produit);
    crate::court::un_nombre_fini_est_son_arrondi(x, u);
}

proof fn lemme_produit_fini_borne(x: Flottant, n: Flottant)
    requires
        x.fini(),
        x.positif(),
        n.fini(),
        n.clef() >= 0,
        n.inferieur_ou_egal(rapport(1, 1)),
    ensures
        x.fois(n).fini(),
        x.fois(n).clef() >= 0,
{
    un_entier_est_exact(1);
    lemme_fois_un(x);
    crate::erreur::lemme_produit_encadre(x, n);
    lemme_produit_commute(x, n);
    lemme_produit_commute(x, rapport(1, 1));
    lemme_produit_croit(n, rapport(1, 1), x);
    lemme_signe_du_produit(x, n);
}

/// Quand l'exercice est certain, un call vaut le prix moins le strike, un put le strike moins le
/// prix, actualisés ; quand il est exclu, l'un et l'autre ne valent rien.
pub proof fn une_option_certaine_vaut_l_ecart_actualise(
    ln: spec_fn(Flottant) -> Flottant,
    exp: spec_fn(Flottant) -> Flottant,
    erfc: spec_fn(Flottant) -> Flottant,
    f: Flottant,
    k: Flottant,
    vol: Flottant,
    t: Flottant,
    r: Flottant,
)
    requires
        dans_le_domaine(f, k, vol, t),
        f.fini(),
        k.fini(),
        exp(r.neg().fois(t)).fini(),
    ensures
        ({
            let a = exp(r.neg().fois(t));
            let call = prime_de(ln, exp, erfc, f, k, vol, t, r, Sens::Call);
            let put = prime_de(ln, exp, erfc, f, k, vol, t, r, Sens::Put);
            &&& (forall|x: Flottant| #[trigger] erfc(x) == Flottant::entier(2)) ==> call == a.fois(
                f.moins(k),
            ) && put == a.fois(k.moins(f))
            &&& (forall|x: Flottant| #[trigger] erfc(x) == Flottant::nul()) ==> call.rang() == 0
                && put.rang() == 0
        }),
{
    lemme_un_demi_par_deux();
    lemme_fois_un(f);
    lemme_fois_un(k);
    let a = exp(r.neg().fois(t));
    let h = Flottant::fraction(1, 2);
    let z = h.fois(Flottant::nul());
    lemme_produit_nul(h, Flottant::nul());
    lemme_produit_nul(f, z);
    lemme_produit_nul(k, z);
    let (x, y) = (f.fois(z), k.fois(z));
    lemme_oppose(x);
    lemme_oppose(y);
    lemme_somme_zero(x, y.neg());
    lemme_somme_zero(y, x.neg());
    lemme_produit_nul(a, x.moins(y));
    lemme_produit_nul(a, y.moins(x));
}

/// L'exposition gamma d'un call est son gamma de Black-76, par l'intérêt ouvert, la taille du
/// contrat, et un pour cent du carré du prix.
pub proof fn l_exposition_gamma_est_un_pour_cent_du_carre_du_prix(
    ln: spec_fn(Flottant) -> Flottant,
    exp: spec_fn(Flottant) -> Flottant,
    s: Flottant,
    k: Flottant,
    vol: Flottant,
    t: Flottant,
    oi: Flottant,
    cs: Flottant,
)
    requires
        s.positif(),
        k.positif(),
        t.positif(),
        vol.positif(),
        Flottant::fraction(1, 2).fois(vol).fois(vol).fini(),
    ensures
        exposition_gamma(
            ln,
            exp,
            s,
            k,
            vol,
            t,
            Flottant::nul(),
            Flottant::nul(),
            Sens::Call,
            oi,
            cs,
        ) == oi.fois(cs).fois(s).fois(s).fois(Flottant::fraction(1, 100)).fois(
            gamma_de(ln, exp, s, k, vol, t, Flottant::nul()),
        ),
{
    let z = Flottant::nul();
    let x = Flottant::fraction(1, 2).fois(vol).fois(vol);
    assert(z.moins(z).plus(x) == x) by {
        reveal(Flottant::somme);
        lemme_oppose(z);
        crate::flottant::lemme_magnitude_nulle(z);
        crate::flottant::lemme_magnitude_nulle(z.neg());
        lemme_somme_zero(x, z.moins(z));
        lemme_meme_valeur(z.moins(z).plus(x), x);
        crate::flottant::lemme_magnitude_nulle(x);
        lemme_carre(vol);
    }
}

/// Un demi du carré n'est pas un zéro négatif.
proof fn lemme_carre(vol: Flottant)
    requires
        vol.positif(),
    ensures
        !Flottant::fraction(1, 2).fois(vol).fois(vol).fini() || !Flottant::fraction(1, 2).fois(
            vol,
        ).fois(vol).negatif(),
{
    lemme_un_demi_par_deux();
    reveal(Flottant::produit);
    let h = Flottant::fraction(1, 2);
    if vol.fini() {
        crate::erreur::lemme_produit_encadre(h, vol);
        if h.fois(vol).fini() {
            crate::erreur::lemme_produit_encadre(h.fois(vol), vol);
        }
    }
}

} // verus!
