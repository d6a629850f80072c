//! Expositions en dollars : gamma, charm, vanna.
//!
//! Ce ne sont pas les greeks nus mais les greeks multipliés par l'intérêt ouvert,
//! la taille du contrat et le niveau du sous-jacent.

use super::black76::Sens;
use super::fonctions::appliquer;
#[allow(unused_imports)]
use super::fonctions::{courbe, est_fonction};
use super::loi_normale::densite;
#[allow(unused_imports)]
use super::loi_normale::densite_en;
use crate::flottant::Flottant;
use vstd::prelude::*;

verus! {

/// Là où les formules ont un sens. Ailleurs, l'exposition est nulle.
pub open spec fn exposable(s: Flottant, k: Flottant, vol: Flottant, t: Flottant) -> bool {
    t.positif() && vol.positif() && k.positif() && !s.infeg(Flottant::nul())
}

fn domaine_valide(s: Flottant, k: Flottant, vol: Flottant, t: Flottant) -> (b: bool)
    ensures
        b == exposable(s, k, vol, t),
{
    t.est_positif() && vol.est_positif() && k.est_positif() && !s.infeg(Flottant::nul())
}

/// `(ln(s / k) + vol² t / 2) / (vol √t)`, et le même moins `vol √t`.
pub open spec fn d1_d2_en(
    ln: spec_fn(Flottant) -> Flottant,
    s: Flottant,
    k: Flottant,
    vol: Flottant,
    t: Flottant,
) -> (Flottant, Flottant) {
    let racine_t = t.racine();
    let d1 = ln(s.par(k)).plus(Flottant::fraction(1, 2).fois(vol).fois(vol).fois(t)).par(
        vol.fois(racine_t),
    );
    (d1, d1.moins(vol.fois(racine_t)))
}

fn d1_d2<L: Fn(Flottant) -> Flottant>(
    s: Flottant,
    k: Flottant,
    vol: Flottant,
    t: Flottant,
    ln: &L,
) -> (r: (Flottant, Flottant))
    requires
        est_fonction(*ln),
    ensures
        r == d1_d2_en(courbe(*ln), s, k, vol, t),
{
    let racine_t: Flottant = t.racine();
    let log: Flottant = appliquer(ln, s.par(k));
    let d1: Flottant = log.plus(Flottant::fraction(1, 2).fois(vol).fois(vol).fois(t)).par(
        vol.fois(racine_t),
    );
    (d1, d1.moins(vol.fois(racine_t)))
}

/// Le gamma d'un contrat, par deux formules égales selon le sens.
pub open spec fn gamma_unitaire(
    ln: spec_fn(Flottant) -> Flottant,
    exp: spec_fn(Flottant) -> Flottant,
    s: Flottant,
    k: Flottant,
    vol: Flottant,
    t: Flottant,
    r: Flottant,
    q: Flottant,
    sens: Sens,
) -> Flottant {
    let racine_t = t.racine();
    let dp = ln(s.par(k)).plus(
        r.moins(q).plus(Flottant::fraction(1, 2).fois(vol).fois(vol)).fois(t),
    ).par(vol.fois(racine_t));
    match sens {
        Sens::Call => exp(q.neg().fois(t)).fois(densite_en(exp, dp)).par(
            s.fois(vol).fois(racine_t),
        ),
        Sens::Put => {
            let dm = dp.moins(vol.fois(racine_t));
            k.fois(exp(r.neg().fois(t))).fois(densite_en(exp, dm)).par(
                s.fois(s).fois(vol).fois(racine_t),
            )
        },
    }
}

/// L'exposition gamma.
pub open spec fn exposition_gamma(
    ln: spec_fn(Flottant) -> Flottant,
    exp: spec_fn(Flottant) -> Flottant,
    s: Flottant,
    k: Flottant,
    vol: Flottant,
    t: Flottant,
    r: Flottant,
    q: Flottant,
    sens: Sens,
    open_interest: Flottant,
    taille_contrat: Flottant,
) -> Flottant {
    if !exposable(s, k, vol, t) {
        Flottant::nul()
    } else {
        open_interest.fois(taille_contrat).fois(s).fois(s).fois(Flottant::fraction(1, 100)).fois(
            gamma_unitaire(ln, exp, s, k, vol, t, r, q, sens),
        )
    }
}

/// Gamma exposure : dollars par mouvement de 1 % du sous-jacent.
pub fn gamma_exposition<L: Fn(Flottant) -> Flottant, E: Fn(Flottant) -> Flottant>(
    s: Flottant,
    k: Flottant,
    vol: Flottant,
    t: Flottant,
    r: Flottant,
    q: Flottant,
    sens: Sens,
    open_interest: Flottant,
    taille_contrat: Flottant,
    ln: &L,
    exp: &E,
) -> (g: Flottant)
    requires
        est_fonction(*ln),
        est_fonction(*exp),
    ensures
        g == exposition_gamma(
            courbe(*ln),
            courbe(*exp),
            s,
            k,
            vol,
            t,
            r,
            q,
            sens,
            open_interest,
            taille_contrat,
        ),
{
    if !domaine_valide(s, k, vol, t) {
        return Flottant::nul();
    }
    let racine_t: Flottant = t.racine();
    let log: Flottant = appliquer(ln, s.par(k));
    let dp: Flottant = log.plus(
        r.moins(q).plus(Flottant::fraction(1, 2).fois(vol).fois(vol)).fois(t),
    ).par(vol.fois(racine_t));
    let gamma: Flottant = match sens {
        Sens::Call => appliquer(exp, q.neg().fois(t)).fois(densite(dp, exp)).par(
            s.fois(vol).fois(racine_t),
        ),
        Sens::Put => {
            let dm: Flottant = dp.moins(vol.fois(racine_t));
            k.fois(appliquer(exp, r.neg().fois(t))).fois(densite(dm, exp)).par(
                s.fois(s).fois(vol).fois(racine_t),
            )
        },
    };
    open_interest.fois(taille_contrat).fois(s).fois(s).fois(Flottant::fraction(1, 100)).fois(gamma)
}

/// L'exposition charm.
pub open spec fn exposition_charm(
    ln: spec_fn(Flottant) -> Flottant,
    exp: spec_fn(Flottant) -> Flottant,
    s: Flottant,
    k: Flottant,
    vol: Flottant,
    t: Flottant,
    open_interest: Flottant,
    taille_contrat: Flottant,
    jours_par_an: Flottant,
) -> Flottant {
    if !exposable(s, k, vol, t) {
        Flottant::nul()
    } else {
        let (d1, d2) = d1_d2_en(ln, s, k, vol, t);
        let charm = densite_en(exp, d1).fois(d2).par(Flottant::entier(2).fois(t));
        open_interest.fois(taille_contrat).fois(s).fois(charm).par(jours_par_an)
    }
}

/// Charm exposure : dollars de delta gagnés par jour, à prix constant.
///
/// `jours_par_an` doit être le diviseur ayant servi à mesurer `t`.
pub fn charm_exposition<L: Fn(Flottant) -> Flottant, E: Fn(Flottant) -> Flottant>(
    s: Flottant,
    k: Flottant,
    vol: Flottant,
    t: Flottant,
    open_interest: Flottant,
    taille_contrat: Flottant,
    jours_par_an: Flottant,
    ln: &L,
    exp: &E,
) -> (c: Flottant)
    requires
        est_fonction(*ln),
        est_fonction(*exp),
    ensures
        c == exposition_charm(
            courbe(*ln),
            courbe(*exp),
            s,
            k,
            vol,
            t,
            open_interest,
            taille_contrat,
            jours_par_an,
        ),
{
    if !domaine_valide(s, k, vol, t) {
        return Flottant::nul();
    }
    let (d1, d2) = d1_d2(s, k, vol, t, ln);
    let charm: Flottant = densite(d1, exp).fois(d2).par(Flottant::entier(2).fois(t));
    open_interest.fois(taille_contrat).fois(s).fois(charm).par(jours_par_an)
}

/// L'exposition vanna.
pub open spec fn exposition_vanna(
    ln: spec_fn(Flottant) -> Flottant,
    exp: spec_fn(Flottant) -> Flottant,
    s: Flottant,
    k: Flottant,
    vol: Flottant,
    t: Flottant,
    open_interest: Flottant,
    taille_contrat: Flottant,
) -> Flottant {
    if !exposable(s, k, vol, t) {
        Flottant::nul()
    } else {
        let (d1, d2) = d1_d2_en(ln, s, k, vol, t);
        let vanna = densite_en(exp, d1).neg().fois(d2).par(vol);
        open_interest.fois(taille_contrat).fois(s).fois(vanna).par(Flottant::entier(100))
    }
}

/// Vanna exposure : dollars de delta par point de volatilité implicite.
pub fn vanna_exposition<L: Fn(Flottant) -> Flottant, E: Fn(Flottant) -> Flottant>(
    s: Flottant,
    k: Flottant,
    vol: Flottant,
    t: Flottant,
    open_interest: Flottant,
    taille_contrat: Flottant,
    ln: &L,
    exp: &E,
) -> (v: Flottant)
    requires
        est_fonction(*ln),
        est_fonction(*exp),
    ensures
        v == exposition_vanna(
            courbe(*ln),
            courbe(*exp),
            s,
            k,
            vol,
            t,
            open_interest,
            taille_contrat,
        ),
{
    if !domaine_valide(s, k, vol, t) {
        return Flottant::nul();
    }
    let (d1, d2) = d1_d2(s, k, vol, t, ln);
    let vanna: Flottant = densite(d1, exp).neg().fois(d2).par(vol);
    open_interest.fois(taille_contrat).fois(s).fois(vanna).par(Flottant::entier(100))
}

} // verus!
