//! Ce que la position des teneurs veut dire : longs les calls, shorts les puts.

#[allow(unused_imports)]
use super::analyse::{exposee, Parametres, SourceGamma};
#[allow(unused_imports)]
use super::black76::Sens;
use super::chaine::Ligne;
#[allow(unused_imports)]
use super::greeks::{
    d1_d2_en, exposable, exposition_charm, exposition_gamma, exposition_vanna, gamma_unitaire,
};
#[allow(unused_imports)]
use super::loi_normale::{densite_en, INV_RACINE_2PI};
use super::temps::InstantReleve;
use crate::flottant::Flottant;
#[allow(unused_imports)]
use crate::flottant::{lemme_arrondi_positif, lemme_produit_nul, rapport};
#[allow(unused_imports)]
use crate::ordre::{
    lemme_difference_opposee, lemme_moins_rien, lemme_oppose, lemme_produit_congru,
    lemme_produit_croit, lemme_produit_commute, lemme_produit_inverse, lemme_produit_oppose,
    lemme_rien_moins, lemme_signe_du_produit, lemme_signe_du_quotient, lemme_somme_zero,
    lemme_zero_absorbe,
};
use vstd::prelude::*;

verus! {

/// La même ligne, le call à la place du put et le put à la place du call.
pub open spec fn intervertie(l: Ligne) -> Ligne {
    Ligne { call: l.put, put: l.call, ..l }
}

/// Une ligne exposée reste la même ligne, et son GEX net est la somme de ses deux côtés.
pub proof fn l_exposition_garde_la_ligne(
    ln: spec_fn(Flottant) -> Flottant,
    exp: spec_fn(Flottant) -> Flottant,
    l: Ligne,
    spot: Flottant,
    releve: InstantReleve,
    params: Parametres,
)
    ensures
        ({
            let e = exposee(ln, exp, l, spot, releve, params);
            &&& e.ligne == l
            &&& e.gex == e.call_gex.plus(e.put_gex)
            &&& params.source_gamma == SourceGamma::Iv ==> e.gex == e.gex_iv
            &&& params.source_gamma == SourceGamma::Publie ==> e.gex == e.gex_publie
        }),
{
}

/// Un seul côté ouvert : les puts. Le teneur en est short, si bien que son delta, son vega, son
/// thêta et son GEX publié sont l'opposé de ceux des puts, et que rien du call ne compte.
pub proof fn des_puts_seuls_se_comptent_a_l_envers(
    ln: spec_fn(Flottant) -> Flottant,
    exp: spec_fn(Flottant) -> Flottant,
    l: Ligne,
    spot: Flottant,
    releve: InstantReleve,
    params: Parametres,
)
    requires
        l.call.open_interest.rang() == 0,
        l.call.delta.fini(),
        l.call.vega.fini(),
        l.call.theta.fini(),
    ensures
        ({
            let e = exposee(ln, exp, l, spot, releve, params);
            let (p, cs) = (l.put, params.taille_contrat);
            let delta = p.delta.fois(p.open_interest).fois(cs);
            let vega = p.vega.fois(p.open_interest).fois(cs);
            let theta = p.theta.fois(p.open_interest).fois(cs);
            &&& !delta.nan() && !delta.fois(spot).nan() ==> e.delta.de_meme_valeur(
                delta.fois(spot).neg(),
            )
            &&& !vega.nan() ==> e.vega.de_meme_valeur(vega.neg())
            &&& !theta.nan() ==> e.theta.de_meme_valeur(theta.neg())
        }),
{
    let (c, p, cs) = (l.call, l.put, params.taille_contrat);
    lemme_produit_nul(c.delta, c.open_interest);
    lemme_produit_nul(c.vega, c.open_interest);
    lemme_produit_nul(c.theta, c.open_interest);
    let (x, y) = (c.delta.fois(c.open_interest), p.delta.fois(p.open_interest));
    if !y.fois(cs).nan() {
        lemme_rien_moins(x, y, cs);
        lemme_oppose(y.fois(cs));
        if !y.fois(cs).fois(spot).nan() {
            lemme_produit_inverse(y.fois(cs), x.moins(y).fois(cs), spot);
            lemme_oppose(y.fois(cs).fois(spot));
        }
    }
    let (x, y) = (c.vega.fois(c.open_interest), p.vega.fois(p.open_interest));
    if !y.fois(cs).nan() {
        lemme_rien_moins(x, y, cs);
    }
    let (x, y) = (c.theta.fois(c.open_interest), p.theta.fois(p.open_interest));
    if !y.fois(cs).nan() {
        lemme_rien_moins(x, y, cs);
    }
}

/// Un seul côté ouvert : les calls. Le teneur en est long, si bien que son delta, son vega et
/// son thêta sont ceux des calls, et que rien du put ne compte.
pub proof fn des_calls_seuls_se_comptent_a_l_endroit(
    ln: spec_fn(Flottant) -> Flottant,
    exp: spec_fn(Flottant) -> Flottant,
    l: Ligne,
    spot: Flottant,
    releve: InstantReleve,
    params: Parametres,
)
    requires
        l.put.open_interest.rang() == 0,
        l.put.delta.fini(),
        l.put.vega.fini(),
        l.put.theta.fini(),
    ensures
        ({
            let e = exposee(ln, exp, l, spot, releve, params);
            let (c, cs) = (l.call, params.taille_contrat);
            let delta = c.delta.fois(c.open_interest).fois(cs);
            let vega = c.vega.fois(c.open_interest).fois(cs);
            let theta = c.theta.fois(c.open_interest).fois(cs);
            &&& !delta.nan() && !delta.fois(spot).nan() ==> e.delta.de_meme_valeur(
                delta.fois(spot),
            )
            &&& !vega.nan() ==> e.vega.de_meme_valeur(vega)
            &&& !theta.nan() ==> e.theta.de_meme_valeur(theta)
        }),
{
    let (c, p, cs) = (l.call, l.put, params.taille_contrat);
    lemme_produit_nul(p.delta, p.open_interest);
    lemme_produit_nul(p.vega, p.open_interest);
    lemme_produit_nul(p.theta, p.open_interest);
    let (x, y) = (c.delta.fois(c.open_interest), p.delta.fois(p.open_interest));
    if !x.fois(cs).nan() {
        lemme_moins_rien(x, y, cs);
        if !x.fois(cs).fois(spot).nan() {
            lemme_produit_congru(x.fois(cs), x.moins(y).fois(cs), spot);
        }
    }
    let (x, y) = (c.vega.fois(c.open_interest), p.vega.fois(p.open_interest));
    if !x.fois(cs).nan() {
        lemme_moins_rien(x, y, cs);
    }
    let (x, y) = (c.theta.fois(c.open_interest), p.theta.fois(p.open_interest));
    if !x.fois(cs).nan() {
        lemme_moins_rien(x, y, cs);
    }
}

/// Deux nombres de valeurs opposées, ou aucun des deux un nombre.
pub open spec fn opposees(a: Flottant, b: Flottant) -> bool {
    &&& a.nan() == b.nan()
    &&& !a.nan() ==> b.clef() == -a.clef()
}

/// Intervertir le call et le put renverse la position : le delta, le vega, le thêta, le charm,
/// la vanna et le GEX publié changent de signe sans changer d'ampleur.
pub proof fn intervertir_renverse_la_position(
    ln: spec_fn(Flottant) -> Flottant,
    exp: spec_fn(Flottant) -> Flottant,
    l: Ligne,
    spot: Flottant,
    releve: InstantReleve,
    params: Parametres,
)
    ensures
        ({
            let e = exposee(ln, exp, l, spot, releve, params);
            let f = exposee(ln, exp, intervertie(l), spot, releve, params);
            &&& opposees(e.delta, f.delta)
            &&& opposees(e.vega, f.vega)
            &&& opposees(e.theta, f.theta)
            &&& opposees(e.charm, f.charm)
            &&& opposees(e.vanna, f.vanna)
            &&& opposees(e.gex_publie, f.gex_publie)
            &&& f.t == e.t
            &&& f.dte == e.dte
        }),
{
    let (c, p, cs) = (l.call, l.put, params.taille_contrat);
    let e = exposee(ln, exp, l, spot, releve, params);
    let (x, y) = (c.delta.fois(c.open_interest), p.delta.fois(p.open_interest));
    lemme_difference_opposee(x, y);
    lemme_produit_inverse(x.moins(y), y.moins(x), cs);
    lemme_produit_inverse(x.moins(y).fois(cs), y.moins(x).fois(cs), spot);
    let (x, y) = (c.vega.fois(c.open_interest), p.vega.fois(p.open_interest));
    lemme_difference_opposee(x, y);
    lemme_produit_inverse(x.moins(y), y.moins(x), cs);
    let (x, y) = (c.theta.fois(c.open_interest), p.theta.fois(p.open_interest));
    lemme_difference_opposee(x, y);
    lemme_produit_inverse(x.moins(y), y.moins(x), cs);
    let echelle = cs.fois(spot).fois(spot).fois(Flottant::fraction(1, 100));
    lemme_difference_opposee(
        c.gamma.fois(c.open_interest).fois(echelle),
        p.gamma.fois(p.open_interest).fois(echelle),
    );
    let an = Flottant::entier(params.convention.annee() as i64);
    let k = l.strike;
    lemme_difference_opposee(
        exposition_charm(ln, exp, spot, k, c.iv, e.t, c.open_interest, cs, an),
        exposition_charm(ln, exp, spot, k, p.iv, e.t, p.open_interest, cs, an),
    );
    lemme_difference_opposee(
        exposition_vanna(ln, exp, spot, k, c.iv, e.t, c.open_interest, cs),
        exposition_vanna(ln, exp, spot, k, p.iv, e.t, p.open_interest, cs),
    );
}

/// Sans intérêt ouvert, une exposition est nulle, si elle est un nombre.
pub proof fn sans_interet_ouvert_rien_n_est_expose(
    ln: spec_fn(Flottant) -> Flottant,
    exp: spec_fn(Flottant) -> Flottant,
    s: Flottant,
    k: Flottant,
    vol: Flottant,
    t: Flottant,
    oi: Flottant,
    cs: Flottant,
    an: Flottant,
    sens: Sens,
)
    requires
        oi.rang() == 0,
    ensures
        ({
            let z = Flottant::nul();
            let g = exposition_gamma(ln, exp, s, k, vol, t, z, z, sens, oi, cs);
            let c = exposition_charm(ln, exp, s, k, vol, t, oi, cs, an);
            let v = exposition_vanna(ln, exp, s, k, vol, t, oi, cs);
            &&& !g.nan() ==> g.rang() == 0
            &&& !c.nan() ==> c.rang() == 0
            &&& !v.nan() ==> v.rang() == 0
        }),
{
    lemme_chaine_nulle(oi, cs, s);
    if exposable(s, k, vol, t) {
        let z = Flottant::nul();
        let base = oi.fois(cs).fois(s);
        let (d1, d2) = d1_d2_en(ln, s, k, vol, t);
        lemme_chaine_nulle(
            base,
            densite_en(exp, d1).fois(d2).par(Flottant::entier(2).fois(t)),
            an,
        );
        lemme_chaine_nulle(base, densite_en(exp, d1).neg().fois(d2).par(vol), an);
        lemme_chaine_nulle(
            base,
            densite_en(exp, d1).neg().fois(d2).par(vol),
            Flottant::entier(100),
        );
        lemme_chaine_nulle(base, s, Flottant::fraction(1, 100));
        lemme_chaine_nulle(
            base.fois(s).fois(Flottant::fraction(1, 100)),
            gamma_unitaire(ln, exp, s, k, vol, t, z, z, sens),
            s,
        );
    }
}

/// Un zéro, ou pas un nombre.
spec fn nul_ou_rien(x: Flottant) -> bool {
    x.nan() || x.rang() == 0
}

proof fn lemme_nul_ou_rien(x: Flottant, a: Flottant)
    requires
        nul_ou_rien(x),
    ensures
        nul_ou_rien(x.fois(a)),
        nul_ou_rien(x.par(a)),
{
    if x.nan() {
        reveal(Flottant::produit);
        reveal(Flottant::quotient);
    } else {
        lemme_zero_absorbe(x, a);
    }
}

proof fn lemme_chaine_nulle(x: Flottant, a: Flottant, b: Flottant)
    requires
        nul_ou_rien(x),
    ensures
        nul_ou_rien(x.fois(a)),
        nul_ou_rien(x.fois(a).fois(b)),
        nul_ou_rien(x.fois(a).par(b)),
{
    lemme_nul_ou_rien(x, a);
    lemme_nul_ou_rien(x.fois(a), b);
}

/// Un seul côté ouvert fait seul le GEX, le charm et la vanna de la ligne : tels quels pour les
/// calls, renversés pour les puts.
pub proof fn un_cote_seul_fait_l_exposition(
    ln: spec_fn(Flottant) -> Flottant,
    exp: spec_fn(Flottant) -> Flottant,
    l: Ligne,
    spot: Flottant,
    releve: InstantReleve,
    params: Parametres,
)
    ensures
        ({
            let e = exposee(ln, exp, l, spot, releve, params);
            let (c, p, cs) = (l.call, l.put, params.taille_contrat);
            let z = Flottant::nul();
            let an = Flottant::entier(params.convention.annee() as i64);
            let gc = exposition_gamma(
                ln, exp, spot, l.strike, c.iv, e.t, z, z, Sens::Call, c.open_interest, cs,
            );
            let gp = exposition_gamma(
                ln, exp, spot, l.strike, p.iv, e.t, z, z, Sens::Put, p.open_interest, cs,
            );
            let cc = exposition_charm(ln, exp, spot, l.strike, c.iv, e.t, c.open_interest, cs, an);
            let cp = exposition_charm(ln, exp, spot, l.strike, p.iv, e.t, p.open_interest, cs, an);
            let vc = exposition_vanna(ln, exp, spot, l.strike, c.iv, e.t, c.open_interest, cs);
            let vp = exposition_vanna(ln, exp, spot, l.strike, p.iv, e.t, p.open_interest, cs);
            &&& c.open_interest.rang() == 0 ==> {
                &&& !gc.nan() && !gp.nan() ==> e.gex_iv.de_meme_valeur(gp.neg())
                &&& !cc.nan() && !cp.nan() ==> e.charm.de_meme_valeur(cp.neg())
                &&& !vc.nan() && !vp.nan() ==> e.vanna.de_meme_valeur(vp.neg())
            }
            &&& p.open_interest.rang() == 0 ==> {
                &&& !gc.nan() && !gp.nan() ==> e.gex_iv.de_meme_valeur(gc)
                &&& !cc.nan() && !cp.nan() ==> e.charm.de_meme_valeur(cc)
                &&& !vc.nan() && !vp.nan() ==> e.vanna.de_meme_valeur(vc)
            }
        }),
{
    let e = exposee(ln, exp, l, spot, releve, params);
    let (c, p, cs) = (l.call, l.put, params.taille_contrat);
    let z = Flottant::nul();
    let an = Flottant::entier(params.convention.annee() as i64);
    let k = l.strike;
    let gc = exposition_gamma(ln, exp, spot, k, c.iv, e.t, z, z, Sens::Call, c.open_interest, cs);
    let gp = exposition_gamma(ln, exp, spot, k, p.iv, e.t, z, z, Sens::Put, p.open_interest, cs);
    let cc = exposition_charm(ln, exp, spot, k, c.iv, e.t, c.open_interest, cs, an);
    let cp = exposition_charm(ln, exp, spot, k, p.iv, e.t, p.open_interest, cs, an);
    let vc = exposition_vanna(ln, exp, spot, k, c.iv, e.t, c.open_interest, cs);
    let vp = exposition_vanna(ln, exp, spot, k, p.iv, e.t, p.open_interest, cs);
    if c.open_interest.rang() == 0 {
        let o = c.open_interest;
        sans_interet_ouvert_rien_n_est_expose(
            ln, exp, spot, k, c.iv, e.t, o, cs, an, Sens::Call,
        );
    }
    if p.open_interest.rang() == 0 {
        let o = p.open_interest;
        sans_interet_ouvert_rien_n_est_expose(ln, exp, spot, k, p.iv, e.t, o, cs, an, Sens::Put);
    }
    lemme_deux_cotes(gc, gp);
    lemme_deux_cotes(cc, cp);
    lemme_deux_cotes(vc, vp);
}

proof fn lemme_deux_cotes(x: Flottant, y: Flottant)
    ensures
        x.rang() == 0 && !y.nan() ==> x.moins(y).de_meme_valeur(y.neg()),
        y.rang() == 0 && !x.nan() ==> x.moins(y).de_meme_valeur(x),
{
    lemme_oppose(y);
    if x.rang() == 0 && !y.nan() {
        lemme_somme_zero(y.neg(), x);
    }
    if y.rang() == 0 && !x.nan() {
        lemme_somme_zero(x, y.neg());
    }
}

/// Le GEX publié d'un seul côté : le gamma de la source, par l'intérêt ouvert, par ce que vaut
/// un pour cent du prix d'un contrat au carré ; long des calls, short des puts.
pub proof fn le_gex_publie_suit_le_gamma_de_la_source(
    ln: spec_fn(Flottant) -> Flottant,
    exp: spec_fn(Flottant) -> Flottant,
    l: Ligne,
    spot: Flottant,
    releve: InstantReleve,
    params: Parametres,
)
    requires
        l.call.gamma.fini(),
        l.put.gamma.fini(),
        params.taille_contrat.fois(spot).fois(spot).fois(Flottant::fraction(1, 100)).fini(),
    ensures
        ({
            let e = exposee(ln, exp, l, spot, releve, params);
            let un_pour_cent = params.taille_contrat.fois(spot).fois(spot).fois(
                Flottant::fraction(1, 100),
            );
            let c = l.call.gamma.fois(l.call.open_interest).fois(un_pour_cent);
            let p = l.put.gamma.fois(l.put.open_interest).fois(un_pour_cent);
            &&& l.call.open_interest.rang() == 0 && !p.nan() ==> e.gex_publie.de_meme_valeur(p.neg())
            &&& l.put.open_interest.rang() == 0 && !c.nan() ==> e.gex_publie.de_meme_valeur(c)
            &&& params.source_gamma == SourceGamma::Publie ==> {
                &&& l.call.open_interest.rang() == 0 ==> e.call_gex.rang() == 0
                &&& l.put.open_interest.rang() == 0 ==> e.put_gex.rang() == 0
            }
        }),
{
    let u = params.taille_contrat.fois(spot).fois(spot).fois(Flottant::fraction(1, 100));
    let (c, p) = (l.call, l.put);
    let (x, y) = (c.gamma.fois(c.open_interest), p.gamma.fois(p.open_interest));
    lemme_produit_commute(x, u);
    lemme_produit_commute(y, u);
    if c.open_interest.rang() == 0 {
        lemme_produit_nul(c.gamma, c.open_interest);
        lemme_produit_nul(u, x);
    }
    if p.open_interest.rang() == 0 {
        lemme_produit_nul(p.gamma, p.open_interest);
        lemme_produit_nul(u, y);
        lemme_oppose(y.fois(u));
    }
    lemme_deux_cotes(x.fois(u), y.fois(u));
}

/// Avec des gammas, un intérêt ouvert et une taille de contrat qui ne sont pas négatifs, le côté
/// call du GEX publié n'est pas négatif, et le côté put n'est pas positif.
pub proof fn le_gex_publie_a_le_signe_de_son_cote(
    ln: spec_fn(Flottant) -> Flottant,
    exp: spec_fn(Flottant) -> Flottant,
    l: Ligne,
    spot: Flottant,
    releve: InstantReleve,
    params: Parametres,
)
    requires
        params.source_gamma == SourceGamma::Publie,
        l.call.gamma.clef() >= 0,
        l.put.gamma.clef() >= 0,
        l.call.open_interest.clef() >= 0,
        l.put.open_interest.clef() >= 0,
        params.taille_contrat.clef() >= 0,
        spot.clef() >= 0,
    ensures
        ({
            let e = exposee(ln, exp, l, spot, releve, params);
            &&& !e.call_gex.nan() ==> e.call_gex.clef() >= 0
            &&& !e.put_gex.nan() ==> e.put_gex.clef() <= 0
        }),
{
    let cs = params.taille_contrat;
    let cent = Flottant::fraction(1, 100);
    lemme_un_centieme();
    lemme_pas_negatif(cs, spot);
    lemme_pas_negatif(cs.fois(spot), spot);
    lemme_pas_negatif(cs.fois(spot).fois(spot), cent);
    let u = cs.fois(spot).fois(spot).fois(cent);
    lemme_pas_negatif(l.call.gamma, l.call.open_interest);
    lemme_pas_negatif(l.put.gamma, l.put.open_interest);
    lemme_pas_negatif(l.call.gamma.fois(l.call.open_interest), u);
    lemme_pas_negatif(l.put.gamma.fois(l.put.open_interest), u);
    lemme_oppose(l.put.gamma.fois(l.put.open_interest).fois(u));
}

/// Pas un nombre, ou un nombre qui n'est pas négatif.
spec fn pas_negatif(x: Flottant) -> bool {
    x.nan() || x.clef() >= 0
}

proof fn lemme_pas_negatif(x: Flottant, y: Flottant)
    requires
        pas_negatif(x),
        pas_negatif(y),
    ensures
        pas_negatif(x.fois(y)),
{
    if x.nan() || y.nan() {
        reveal(Flottant::produit);
    } else if !x.fois(y).nan() {
        lemme_signe_du_produit(x, y);
    }
}

proof fn lemme_un_centieme()
    ensures
        Flottant::fraction(1, 100).positif(),
        Flottant::fraction(1, 100).fini(),
{
    reveal(rapport);
    vstd::arithmetic::power2::lemma2_to64();
    vstd::arithmetic::power2::lemma_pow2_strictly_increases(7, 1074);
    let u = vstd::arithmetic::power2::pow2(1074);
    assert(1 * u == u);
    lemme_arrondi_positif(1 * u, 100);
    crate::flottant::un_entier_est_exact(1);
    assert(u <= rapport(1, 1).magnitude() * 100);
    crate::erreur::lemme_arrondi_sous(false, 1 * u, 100, rapport(1, 1));
}

/// Une exponentielle : jamais négative.
pub open spec fn jamais_negative(exp: spec_fn(Flottant) -> Flottant) -> bool {
    forall|x: Flottant| !(#[trigger] exp(x)).nan() && exp(x).clef() >= 0
}

/// L'exposition gamma n'est pas négative, et croît avec l'intérêt ouvert ; hors du domaine elle
/// est nulle.
pub proof fn l_exposition_gamma_croit_avec_l_interet_ouvert(
    ln: spec_fn(Flottant) -> Flottant,
    exp: spec_fn(Flottant) -> Flottant,
    s: Flottant,
    k: Flottant,
    vol: Flottant,
    t: Flottant,
    r: Flottant,
    q: Flottant,
    sens: Sens,
    oi: Flottant,
    plus: Flottant,
    cs: Flottant,
)
    requires
        jamais_negative(exp),
        cs.clef() >= 0,
        !cs.nan(),
        oi.clef() >= 0,
        oi.inferieur_ou_egal(plus),
    ensures
        ({
            let g = exposition_gamma(ln, exp, s, k, vol, t, r, q, sens, oi, cs);
            let h = exposition_gamma(ln, exp, s, k, vol, t, r, q, sens, plus, cs);
            &&& !g.nan() ==> g.clef() >= 0
            &&& !g.nan() && !h.nan() ==> g.inferieur_ou_egal(h)
            &&& !t.positif() || !vol.positif() || !k.positif() || s.inferieur_ou_egal(
                Flottant::nul(),
            ) ==> g.rang() == 0
        }),
{
    if exposable(s, k, vol, t) {
        let cent = Flottant::fraction(1, 100);
        lemme_un_centieme();
        lemme_gamma_unitaire(ln, exp, s, k, vol, t, r, q, sens);
        let g = gamma_unitaire(ln, exp, s, k, vol, t, r, q, sens);
        lemme_pas_negatif(oi, cs);
        lemme_pas_negatif(oi.fois(cs), s);
        lemme_pas_negatif(oi.fois(cs).fois(s), s);
        lemme_pas_negatif(oi.fois(cs).fois(s).fois(s), cent);
        lemme_pas_negatif(oi.fois(cs).fois(s).fois(s).fois(cent), g);
        lemme_ordre_ou_rien(oi, plus, cs);
        lemme_ordre_ou_rien(oi.fois(cs), plus.fois(cs), s);
        lemme_ordre_ou_rien(oi.fois(cs).fois(s), plus.fois(cs).fois(s), s);
        lemme_ordre_ou_rien(oi.fois(cs).fois(s).fois(s), plus.fois(cs).fois(s).fois(s), cent);
        lemme_ordre_ou_rien(
            oi.fois(cs).fois(s).fois(s).fois(cent),
            plus.fois(cs).fois(s).fois(s).fois(cent),
            g,
        );
    }
}

/// Rangés, ou l'un des deux n'est pas un nombre.
spec fn ranges(x: Flottant, y: Flottant) -> bool {
    x.nan() || y.nan() || x.clef() <= y.clef()
}

proof fn lemme_ordre_ou_rien(x: Flottant, y: Flottant, c: Flottant)
    requires
        ranges(x, y),
        pas_negatif(c),
    ensures
        ranges(x.fois(c), y.fois(c)),
{
    reveal(Flottant::produit);
    if !x.nan() && !y.nan() && !c.nan() && !x.fois(c).nan() && !y.fois(c).nan() {
        lemme_produit_croit(x, y, c);
    }
}

proof fn lemme_densite(exp: spec_fn(Flottant) -> Flottant, x: Flottant)
    requires
        jamais_negative(exp),
    ensures
        pas_negatif(densite_en(exp, x)),
{
    let y = Flottant::fraction(1, 2).neg().fois(x).fois(x);
    assert(exp(y).clef() >= 0);
    lemme_pas_negatif(Flottant { bits: INV_RACINE_2PI }, exp(y));
}

proof fn lemme_gamma_unitaire(
    ln: spec_fn(Flottant) -> Flottant,
    exp: spec_fn(Flottant) -> Flottant,
    s: Flottant,
    k: Flottant,
    vol: Flottant,
    t: Flottant,
    r: Flottant,
    q: Flottant,
    sens: Sens,
)
    requires
        jamais_negative(exp),
        exposable(s, k, vol, t),
    ensures
        pas_negatif(gamma_unitaire(ln, exp, s, k, vol, t, r, q, sens)),
{
    let racine_t = t.racine();
    assert(!racine_t.negatif()) by {
        reveal(Flottant::racine_carree);
        if t.fini() {
            crate::ordre::lemme_racine_positive(t);
        }
    }
    let dp = ln(s.par(k)).plus(
        r.moins(q).plus(Flottant::fraction(1, 2).fois(vol).fois(vol)).fois(t),
    ).par(vol.fois(racine_t));
    let dm = dp.moins(vol.fois(racine_t));
    lemme_densite(exp, dp);
    lemme_densite(exp, dm);
    assert(exp(q.neg().fois(t)).clef() >= 0);
    assert(exp(r.neg().fois(t)).clef() >= 0);
    lemme_pas_negatif(exp(q.neg().fois(t)), densite_en(exp, dp));
    lemme_pas_negatif(k, exp(r.neg().fois(t)));
    lemme_pas_negatif(k.fois(exp(r.neg().fois(t))), densite_en(exp, dm));
    lemme_signe_clair(s, vol);
    lemme_signe_clair(s.fois(vol), racine_t);
    lemme_signe_clair(s, s);
    lemme_signe_clair(s.fois(s), vol);
    lemme_signe_clair(s.fois(s).fois(vol), racine_t);
    lemme_pas_negatif_divise_clair(
        exp(q.neg().fois(t)).fois(densite_en(exp, dp)),
        s.fois(vol).fois(racine_t),
    );
    lemme_pas_negatif_divise_clair(
        k.fois(exp(r.neg().fois(t))).fois(densite_en(exp, dm)),
        s.fois(s).fois(vol).fois(racine_t),
    );
}

proof fn lemme_signe_clair(x: Flottant, y: Flottant)
    requires
        x.nan() || !x.negatif(),
        y.nan() || !y.negatif(),
    ensures
        x.fois(y).nan() || !x.fois(y).negatif(),
{
    reveal(Flottant::produit);
    vstd::arithmetic::power2::lemma_pow2_pos(1074);
    if x.fini() && y.fini() {
        crate::erreur::lemme_produit_encadre(x, y);
    }
}

proof fn lemme_pas_negatif_divise_clair(x: Flottant, y: Flottant)
    requires
        pas_negatif(x),
        y.nan() || !y.negatif(),
    ensures
        pas_negatif(x.par(y)),
{
    reveal(Flottant::quotient);
    if !x.nan() && !y.nan() && !x.par(y).nan() {
        if y.clef() > 0 {
            lemme_signe_du_quotient(x, y);
        }
    }
}

/// Le charm et la vanna d'un même contrat ne sont jamais du même signe.
pub proof fn le_charm_et_la_vanna_s_opposent(
    ln: spec_fn(Flottant) -> Flottant,
    exp: spec_fn(Flottant) -> Flottant,
    s: Flottant,
    k: Flottant,
    vol: Flottant,
    t: Flottant,
    oi: Flottant,
    cs: Flottant,
    an: Flottant,
)
    requires
        jamais_negative(exp),
        oi.clef() >= 0,
        cs.clef() >= 0,
        an.clef() > 0,
    ensures
        ({
            let c = exposition_charm(ln, exp, s, k, vol, t, oi, cs, an);
            let v = exposition_vanna(ln, exp, s, k, vol, t, oi, cs);
            !c.nan() && !v.nan() ==> !(c.positif() && v.positif()) && !(c.inferieur(
                Flottant::nul(),
            ) && v.inferieur(Flottant::nul()))
        }),
{
    if exposable(s, k, vol, t) {
        let (d1, d2) = d1_d2_en(ln, s, k, vol, t);
        let phi = densite_en(exp, d1);
        lemme_densite(exp, d1);
        crate::flottant::un_entier_est_exact(2);
        crate::flottant::un_entier_est_exact(100);
        let deux_t = Flottant::entier(2).fois(t);
        lemme_signe_clair(Flottant::entier(2), t);
        lemme_pas_negatif(oi, cs);
        lemme_pas_negatif(oi.fois(cs), s);
        let base = oi.fois(cs).fois(s);
        lemme_produit_inverse_ou_rien(phi, d2);
        let (x, y) = (phi.fois(d2), phi.neg().fois(d2));
        lemme_meme_signe_divise(x, deux_t);
        lemme_meme_signe_divise(y, vol);
        lemme_meme_signe(base, x.par(deux_t));
        lemme_meme_signe(base, y.par(vol));
        lemme_meme_signe_divise(base.fois(x.par(deux_t)), an);
        lemme_meme_signe_divise(base.fois(y.par(vol)), Flottant::entier(100));
    }
}

proof fn lemme_produit_inverse_ou_rien(a: Flottant, b: Flottant)
    ensures
        a.neg().fois(b).nan() == a.fois(b).nan(),
        !a.fois(b).nan() ==> a.neg().fois(b).clef() == -a.fois(b).clef(),
{
    lemme_produit_oppose(a, b);
}

/// Multiplier par ce qui n'est pas négatif ne renverse pas un signe.
proof fn lemme_meme_signe(base: Flottant, x: Flottant)
    requires
        pas_negatif(base),
    ensures
        !base.fois(x).nan() ==> {
            &&& base.fois(x).clef() > 0 ==> !x.nan() && x.clef() > 0
            &&& base.fois(x).clef() < 0 ==> !x.nan() && x.clef() < 0
        },
{
    if !base.fois(x).nan() {
        assert(!base.nan() && !x.nan()) by {
            reveal(Flottant::produit);
        }
        lemme_signe_du_produit(base, x);
    }
}

proof fn lemme_meme_signe_divise(x: Flottant, y: Flottant)
    requires
        y.nan() || !y.negatif(),
    ensures
        !x.par(y).nan() ==> {
            &&& x.par(y).clef() > 0 ==> !x.nan() && x.clef() > 0
            &&& x.par(y).clef() < 0 ==> !x.nan() && x.clef() < 0
        },
{
    if !x.par(y).nan() {
        reveal(Flottant::quotient);
        if y.clef() > 0 {
            lemme_signe_du_quotient(x, y);
        }
    }
}

} // verus!
