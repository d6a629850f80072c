//! Ce que `d1` et `d2` doivent au prix, au strike, à la volatilité et au temps.

#[allow(unused_imports)]
use super::black76::d1_en;
#[allow(unused_imports)]
use super::greeks::d1_d2_en;
#[allow(unused_imports)]
use super::primes::lemme_un_demi_par_deux;
#[allow(unused_imports)]
use crate::entiers::{
    la_difference_de_petits_entiers_est_exacte, la_somme_de_petits_entiers_est_exacte,
    le_produit_de_petits_entiers_est_exact, le_quotient_d_un_multiple_est_exact,
};
use crate::flottant::Flottant;
#[allow(unused_imports)]
use crate::flottant::{lemme_quotient_par_soi, rapport};
#[allow(unused_imports)]
use crate::ordre::{
    lemme_quotient_croit, lemme_quotient_decroit, lemme_racine_exacte, lemme_somme_croit,
};
use vstd::prelude::*;

verus! {

/// Un logarithme qui ne décroît pas.
pub open spec fn croissante(ln: spec_fn(Flottant) -> Flottant) -> bool {
    forall|x: Flottant, y: Flottant|
        x.inferieur_ou_egal(y) ==> (#[trigger] ln(x)).inferieur_ou_egal(#[trigger] ln(y))
}

/// Le `d1` des primes et celui des expositions sont le même nombre.
pub proof fn d1_est_le_meme_des_deux_cotes(
    ln: spec_fn(Flottant) -> Flottant,
    f: Flottant,
    k: Flottant,
    vol: Flottant,
    t: Flottant,
)
    ensures
        d1_d2_en(ln, f, k, vol, t).0 == d1_en(ln, f, k, vol, t),
        d1_d2_en(ln, f, k, vol, t).1 == d1_en(ln, f, k, vol, t).moins(vol.fois(t.racine())),
{
}

/// `d1` croît avec le prix et décroît avec le strike.
pub proof fn d1_croit_avec_le_prix_et_decroit_avec_le_strike(
    ln: spec_fn(Flottant) -> Flottant,
    f: Flottant,
    g: Flottant,
    k: Flottant,
    vol: Flottant,
    t: Flottant,
)
    requires
        croissante(ln),
        f.fini(),
        g.fini(),
        k.fini(),
        f.positif(),
        k.positif(),
        f.inferieur_ou_egal(g),
        vol.fois(t.racine()).clef() > 0,
        !d1_en(ln, f, k, vol, t).nan(),
        !d1_en(ln, g, k, vol, t).nan(),
        !d1_en(ln, k, f, vol, t).nan(),
        !d1_en(ln, k, g, vol, t).nan(),
    ensures
        d1_en(ln, f, k, vol, t).inferieur_ou_egal(d1_en(ln, g, k, vol, t)),
        d1_en(ln, k, g, vol, t).inferieur_ou_egal(d1_en(ln, k, f, vol, t)),
{
    lemme_defini(f, k);
    lemme_defini(g, k);
    lemme_quotient_croit(f, g, k);
    lemme_quotient_decroit(k, f, g);
    lemme_d1(ln, f.par(k), g.par(k), vol, t);
    lemme_d1(ln, k.par(g), k.par(f), vol, t);
}

/// Le quotient d'un fini par un positif n'est pas un non-nombre.
proof fn lemme_defini(a: Flottant, b: Flottant)
    requires
        a.fini(),
        b.fini(),
        b.positif(),
    ensures
        !a.par(b).nan(),
{
    reveal(Flottant::quotient);
    crate::flottant::lemme_magnitude_nulle(b);
    crate::erreur::lemme_arrondi_encadre(
        a.negatif() != b.negatif(),
        a.magnitude() * vstd::arithmetic::power2::pow2(1074),
        b.magnitude(),
    );
}

proof fn lemme_d1(
    ln: spec_fn(Flottant) -> Flottant,
    x: Flottant,
    y: Flottant,
    vol: Flottant,
    t: Flottant,
)
    requires
        croissante(ln),
        x.inferieur_ou_egal(y),
        vol.fois(t.racine()).clef() > 0,
        ({
            let c = Flottant::fraction(1, 2).fois(vol).fois(vol).fois(t);
            let d = vol.fois(t.racine());
            &&& !ln(x).plus(c).par(d).nan()
            &&& !ln(y).plus(c).par(d).nan()
        }),
    ensures
        ({
            let c = Flottant::fraction(1, 2).fois(vol).fois(vol).fois(t);
            let d = vol.fois(t.racine());
            ln(x).plus(c).par(d).inferieur_ou_egal(ln(y).plus(c).par(d))
        }),
{
    let c = Flottant::fraction(1, 2).fois(vol).fois(vol).fois(t);
    let d = vol.fois(t.racine());
    assert(!ln(x).plus(c).nan() && !ln(y).plus(c).nan()) by {
        reveal(Flottant::quotient);
    }
    assert(ln(x).inferieur_ou_egal(ln(y)));
    lemme_somme_croit(ln(x), ln(y), c);
    lemme_quotient_croit(ln(x).plus(c), ln(y).plus(c), d);
}

/// À la monnaie, `d1` et `d2` sont à égale distance de zéro, chacun à la moitié de la volatilité
/// par la racine du temps : à une volatilité de deux sur `j` fois `j` années, `j` et moins `j`.
pub proof fn a_la_monnaie_d1_et_d2_s_opposent(
    ln: spec_fn(Flottant) -> Flottant,
    f: Flottant,
    j: nat,
)
    requires
        f.fini(),
        f.positif(),
        ln(rapport(1, 1)) == rapport(0, 1),
        0 < j,
        j * j < 0x8_0000_0000_0000,
    ensures
        ({
            let (vol, t) = (rapport(2, 1), rapport((j * j) as int, 1));
            &&& d1_en(ln, f, f, vol, t) == rapport(j as int, 1)
            &&& d1_d2_en(ln, f, f, vol, t) == (rapport(j as int, 1), rapport(-(j as int), 1))
        }),
{
    let (n, i) = (j * j, j as int);
    assert(i <= n && n == i * i && 2 * n == i * (2 * i)) by (nonlinear_arith)
        requires
            0 < i,
            n == i * i,
            i == j,
    ;
    lemme_quotient_par_soi(f);
    lemme_un_demi_par_deux();
    le_produit_de_petits_entiers_est_exact(1, 2);
    le_produit_de_petits_entiers_est_exact(2, n as int);
    la_somme_de_petits_entiers_est_exacte(0, 2 * (n as int));
    lemme_racine_exacte(j);
    le_produit_de_petits_entiers_est_exact(2, i);
    le_quotient_d_un_multiple_est_exact(i, 2 * i);
    la_difference_de_petits_entiers_est_exacte(i, 2 * i);
}

} // verus!
