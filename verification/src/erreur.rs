//! Ce que l'arrondi garde : l'ordre, et la valeur à un demi-pas près.

#[allow(unused_imports)]
use crate::court::un_nombre_fini_est_son_arrondi;
#[allow(unused_imports)]
use crate::flottant::{
    arrondi, au_plus_proche, echelle, lemme_magnitude_croit, rapport, Flottant, CODE_INFINI,
    UNITE_CHAMP,
};
#[allow(unused_imports)]
use vstd::arithmetic::div_mod::*;
#[allow(unused_imports)]
use vstd::arithmetic::power2::*;
use vstd::prelude::*;

verus! {

/// Deux puissance cinquante-trois : l'inverse de l'erreur relative d'un arrondi.
pub const PRECISION: u64 = 0x20_0000_0000_0000;

/// L'échelle encadre le rapport : il tient sur cinquante-trois bits à ce pas, et pas au pas
/// plus fin.
proof fn lemme_echelle_cadre(n: nat, d: nat)
    requires
        d > 0,
    ensures
        n < d * pow2(53 + echelle(n, d)),
        echelle(n, d) == 0 || n >= d * pow2((52 + echelle(n, d)) as nat),
    decreases n - d,
{
    if n >= d * pow2(53) {
        lemma2_to64_rest();
        assert(d < d * 2 <= n) by (nonlinear_arith)
            requires
                d > 0,
                n >= d * pow2(53),
                pow2(53) >= 2,
        ;
        lemme_echelle_cadre(n, d * 2);
        let k1 = echelle(n, d * 2);
        let k = 1 + k1;
        assert(echelle(n, d) == k);
        lemma_pow2_unfold(53 + k);
        lemma_pow2_unfold((52 + k) as nat);
        assert(d * 2 * pow2(53 + k1) == d * pow2(53 + k)) by (nonlinear_arith)
            requires
                pow2(53 + k) == 2 * pow2(53 + k1),
        ;
        assert(d * 2 * pow2((52 + k1) as nat) == d * pow2((52 + k) as nat)) by (nonlinear_arith)
            requires
                pow2((52 + k) as nat) == 2 * pow2((52 + k1) as nat),
        ;
    }
}

/// Un quotient arrondi est à un demi près.
proof fn lemme_proche_a_demi(a: nat, b: nat)
    requires
        b > 0,
    ensures
        2 * (au_plus_proche(a, b) * b) <= 2 * a + b,
        2 * a <= 2 * (au_plus_proche(a, b) * b) + b,
{
    let q = a / b;
    let r = a % b;
    lemma_fundamental_div_mod(a as int, b as int);
    assert(b * q == q * b) by (nonlinear_arith);
    assert((q + 1) * b == q * b + b) by (nonlinear_arith);
}

proof fn lemme_proche_croit(a1: nat, b1: nat, a2: nat, b2: nat)
    requires
        b1 > 0,
        b2 > 0,
        a1 * b2 <= a2 * b1,
    ensures
        au_plus_proche(a1, b1) <= au_plus_proche(a2, b2),
{
    let (q1, r1) = (a1 / b1, a1 % b1);
    let (q2, r2) = (a2 / b2, a2 % b2);
    lemma_fundamental_div_mod(a1 as int, b1 as int);
    lemma_fundamental_div_mod(a2 as int, b2 as int);
    assert(q1 <= q2) by (nonlinear_arith)
        requires
            a1 == b1 * q1 + r1,
            a2 == b2 * q2 + r2,
            r2 < b2,
            a1 * b2 <= a2 * b1,
            b1 > 0,
            b2 > 0,
    ;
    if q1 == q2 {
        assert(r1 * b2 <= r2 * b1) by (nonlinear_arith)
            requires
                a1 == b1 * q1 + r1,
                a2 == b2 * q2 + r2,
                a1 * b2 <= a2 * b1,
                q1 == q2,
        ;
        assert(2 * r1 > b1 ==> 2 * r2 > b2) by (nonlinear_arith)
            requires
                r1 * b2 <= r2 * b1,
                b1 > 0,
                b2 > 0,
        ;
        assert(2 * r1 == b1 ==> 2 * r2 >= b2) by (nonlinear_arith)
            requires
                r1 * b2 <= r2 * b1,
                b1 > 0,
                b2 > 0,
        ;
    }
}

/// Le multiplicateur d'un arrondi tient sur cinquante-trois bits, et les occupe dès que le pas
/// n'est pas le plus fin.
proof fn lemme_multiplicateur(n: nat, d: nat)
    requires
        d > 0,
    ensures
        ({
            let k = echelle(n, d);
            let m = au_plus_proche(n, d * pow2(k));
            &&& m <= pow2(53)
            &&& k > 0 ==> m >= pow2(52)
        }),
{
    let k = echelle(n, d);
    let p = pow2(k);
    lemma_pow2_pos(k);
    lemme_echelle_cadre(n, d);
    lemma_pow2_adds(53, k);
    lemma_pow2_adds(52, k);
    assert(d * p > 0) by (nonlinear_arith)
        requires
            d > 0,
            p > 0,
    ;
    assert(d * pow2(53 + k) == pow2(53) * (d * p)) by (nonlinear_arith)
        requires
            pow2(53 + k) == pow2(53) * p,
    ;
    assert(d * pow2((52 + k) as nat) == pow2(52) * (d * p)) by (nonlinear_arith)
        requires
            pow2((52 + k) as nat) == pow2(52) * p,
    ;
    lemme_proche_entier(pow2(53), d * p);
    lemme_proche_entier(pow2(52), d * p);
    assert(n * (d * p) <= (pow2(53) * (d * p)) * (d * p)) by (nonlinear_arith)
        requires
            n < pow2(53) * (d * p),
    ;
    lemme_proche_croit(n, d * p, pow2(53) * (d * p), d * p);
    if k > 0 {
        assert((pow2(52) * (d * p)) * (d * p) <= n * (d * p)) by (nonlinear_arith)
            requires
                n >= pow2(52) * (d * p),
        ;
        lemme_proche_croit(pow2(52) * (d * p), d * p, n, d * p);
    }
}

proof fn lemme_proche_entier(q: nat, b: nat)
    requires
        b > 0,
    ensures
        au_plus_proche(q * b, b) == q,
{
    lemma_fundamental_div_mod_converse((q * b) as int, b as int, q as int, 0);
}

/// Le code d'un arrondi se relit : un multiplicateur, et un pas.
proof fn lemme_code(f: Flottant, k: nat, m: nat)
    requires
        m <= pow2(53),
        k > 0 ==> m >= pow2(52),
        f.rang() == k * UNITE_CHAMP + m,
    ensures
        f.magnitude() == m * pow2(k),
{
    reveal(Flottant::magnitude);
    lemma2_to64_rest();
    let u = UNITE_CHAMP as int;
    if k == 0 && m < UNITE_CHAMP {
        lemma2_to64();
    } else if m < 2 * u {
        assert(f.rang() == (k + 1) * u + (m - u)) by (nonlinear_arith)
            requires
                f.rang() == k * u + m,
        ;
        lemma_fundamental_div_mod_converse(f.rang(), u, (k + 1) as int, m - u);
    } else {
        assert(f.rang() == (k + 2) * u) by (nonlinear_arith)
            requires
                f.rang() == k * u + m,
                m == 2 * u,
        ;
        lemma_fundamental_div_mod_converse(f.rang(), u, (k + 2) as int, 0);
        lemma_pow2_unfold(k + 1);
        assert(UNITE_CHAMP * pow2(k + 1) == m * pow2(k)) by (nonlinear_arith)
            requires
                pow2(k + 1) == 2 * pow2(k),
                m == 2 * UNITE_CHAMP,
        ;
    }
}

/// La valeur à partir de laquelle un arrondi déborde, en unités : un demi-pas au-dessus du
/// plus grand nombre fini.
pub open spec fn debordement() -> nat {
    (pow2(2098) - pow2(2044)) as nat
}

/// Un arrondi est la valeur exacte à un demi-pas près, ou un débordement.
pub(crate) proof fn lemme_arrondi_encadre(negatif: bool, n: nat, d: nat)
    requires
        d > 0,
    ensures
        ({
            let f = arrondi(negatif, n, d);
            &&& f.negatif() == negatif
            &&& !f.nan()
            &&& f.fini() ==> {
                &&& PRECISION * (f.magnitude() * d) <= PRECISION * n + n + (PRECISION / 2) * d
                &&& PRECISION * n <= PRECISION * (f.magnitude() * d) + n + (PRECISION / 2) * d
            }
            &&& !f.fini() ==> n >= debordement() * d
        }),
{
    reveal(arrondi);
    let f = arrondi(negatif, n, d);
    let k = echelle(n, d);
    let p = pow2(k);
    let b = d * p;
    let m = au_plus_proche(n, b);
    let code = k * UNITE_CHAMP + m;
    lemma_pow2_pos(k);
    assert(b > 0) by (nonlinear_arith)
        requires
            b == d * p,
            d > 0,
            p > 0,
    ;
    lemme_echelle_cadre(n, d);
    lemme_multiplicateur(n, d);
    lemme_proche_a_demi(n, b);
    lemma2_to64_rest();
    assert(k * UNITE_CHAMP >= 0) by (nonlinear_arith);
    if code < CODE_INFINI {
        lemme_code(f, k, m);
        assert(f.magnitude() * d == m * b) by (nonlinear_arith)
            requires
                f.magnitude() == m * p,
                b == d * p,
        ;
        // Le pas ne pèse qu'un demi au plus fin, et un cinquante-troisième de bit ailleurs.
        assert(PRECISION * b <= 2 * n + PRECISION * d) by {
            if k == 0 {
                lemma2_to64();
                assert(b == d) by (nonlinear_arith)
                    requires
                        b == d * p,
                        p == 1,
                ;
            } else {
                lemma_pow2_adds(52, k);
                assert(d * pow2((52 + k) as nat) == pow2(52) * b) by (nonlinear_arith)
                    requires
                        pow2((52 + k) as nat) == pow2(52) * p,
                        b == d * p,
                ;
            }
        }
    } else {
        assert(f.rang() == CODE_INFINI);
        assert(k >= 2045) by (nonlinear_arith)
            requires
                k * UNITE_CHAMP + m >= CODE_INFINI,
                m <= 0x20_0000_0000_0000,
                UNITE_CHAMP == 0x10_0000_0000_0000,
                CODE_INFINI == 0x7ff0_0000_0000_0000,
        ;
        lemma_pow2_adds(53, 2045);
        lemma_pow2_adds(52, 2046);
        lemma_pow2_unfold(2045);
        lemma_pow2_unfold(2046);
        let p45 = pow2(2045);
        assert(debordement() * 2 == 2 * pow2(53) * p45 - p45) by (nonlinear_arith)
            requires
                debordement() == pow2(2098) - pow2(2044),
                pow2(2098) == pow2(53) * p45,
                p45 == 2 * pow2(2044),
        ;
        if k == 2045 {
            assert(m == pow2(53));
            assert(2 * n >= (2 * m - 1) * b) by (nonlinear_arith)
                requires
                    2 * n <= 2 * (m * b) + b,
                    2 * n + b >= 2 * (m * b),
            ;
            assert((2 * m - 1) * b == (2 * pow2(53) * p45 - p45) * d) by (nonlinear_arith)
                requires
                    b == d * p45,
                    m == pow2(53),
            ;
            assert(2 * n >= (debordement() * 2) * d);
            assert(n >= debordement() * d) by (nonlinear_arith)
                requires
                    2 * n >= (debordement() * 2) * d,
            ;
        } else {
            lemma_pow2_adds((52 + 2046) as nat, (k - 2046) as nat);
            lemma_pow2_pos((k - 2046) as nat);
            lemma_pow2_pos(2044);
            assert(pow2((52 + k) as nat) >= pow2(2098)) by (nonlinear_arith)
                requires
                    pow2((52 + k) as nat) == pow2(2098) * pow2((k - 2046) as nat),
                    pow2((k - 2046) as nat) >= 1,
            ;
            assert(n >= debordement() * d) by (nonlinear_arith)
                requires
                    n >= d * pow2((52 + k) as nat),
                    pow2((52 + k) as nat) >= pow2(2098),
                    debordement() <= pow2(2098),
            ;
        }
    }
}

/// L'arrondi garde l'ordre.
pub(crate) proof fn lemme_arrondi_croit(n1: nat, d1: nat, n2: nat, d2: nat)
    requires
        d1 > 0,
        d2 > 0,
        n1 * d2 <= n2 * d1,
    ensures
        arrondi(false, n1, d1).rang() <= arrondi(false, n2, d2).rang(),
{
    reveal(arrondi);
    let (k1, k2) = (echelle(n1, d1), echelle(n2, d2));
    lemme_echelle_cadre(n1, d1);
    lemme_echelle_cadre(n2, d2);
    lemme_multiplicateur(n1, d1);
    lemme_multiplicateur(n2, d2);
    lemma2_to64_rest();
    lemma_pow2_pos(k1);
    lemma_pow2_pos(k2);
    let (p1, p2) = (pow2(k1), pow2(k2));
    let (b1, b2) = (d1 * p1, d2 * p2);
    assert(b1 > 0 && b2 > 0) by (nonlinear_arith)
        requires
            b1 == d1 * p1,
            b2 == d2 * p2,
            d1 > 0,
            d2 > 0,
            p1 > 0,
            p2 > 0,
    ;
    let (m1, m2) = (au_plus_proche(n1, b1), au_plus_proche(n2, b2));
    if k1 > k2 {
        lemma_pow2_pos(53 + k2);
        if 53 + k2 < 52 + k1 {
            lemma_pow2_strictly_increases(53 + k2, (52 + k1) as nat);
        }
        assert(n1 * d2 > n2 * d1) by (nonlinear_arith)
            requires
                n1 >= d1 * pow2((52 + k1) as nat),
                pow2((52 + k1) as nat) >= pow2(53 + k2),
                n2 < d2 * pow2(53 + k2),
                d1 > 0,
                d2 > 0,
        ;
    }
    if k1 == k2 {
        assert(n1 * b2 <= n2 * b1) by (nonlinear_arith)
            requires
                n1 * d2 <= n2 * d1,
                b1 == d1 * p1,
                b2 == d2 * p1,
        ;
        lemme_proche_croit(n1, b1, n2, b2);
    } else {
        assert(k1 * UNITE_CHAMP + m1 <= k2 * UNITE_CHAMP + m2) by (nonlinear_arith)
            requires
                k1 + 1 <= k2,
                m1 <= 2 * UNITE_CHAMP,
                m2 >= UNITE_CHAMP,
        ;
    }
    assert(k1 * UNITE_CHAMP >= 0) by (nonlinear_arith);
    assert(k2 * UNITE_CHAMP >= 0) by (nonlinear_arith);
}

/// Le signe d'un arrondi ne change pas son rang.
pub(crate) proof fn lemme_signe_a_part(negatif: bool, n: nat, d: nat)
    requires
        d > 0,
    ensures
        arrondi(negatif, n, d).rang() == arrondi(false, n, d).rang(),
{
    reveal(arrondi);
    assert(echelle(n, d) * UNITE_CHAMP >= 0) by (nonlinear_arith);
}

/// Ce qui ne dépasse pas un nombre fini s'arrondit sans le dépasser.
pub(crate) proof fn lemme_arrondi_sous(negatif: bool, n: nat, d: nat, f: Flottant)
    requires
        d > 0,
        f.fini(),
        n <= f.magnitude() * d,
    ensures
        arrondi(negatif, n, d).fini(),
        arrondi(negatif, n, d).magnitude() <= f.magnitude(),
{
    let g = arrondi(negatif, n, d);
    un_nombre_fini_est_son_arrondi(f, 1);
    assert(f.magnitude() * 1 == f.magnitude());
    assert(n * 1 == n);
    lemme_arrondi_croit(n, d, f.magnitude(), 1);
    lemme_signe_a_part(negatif, n, d);
    if g.rang() < f.rang() {
        lemme_magnitude_croit(g, f);
    } else {
        lemme_meme_rang(g, f);
    }
}

/// Ce qui n'est pas sous un nombre fini s'arrondit sans passer dessous.
pub(crate) proof fn lemme_arrondi_sur(negatif: bool, n: nat, d: nat, f: Flottant)
    requires
        d > 0,
        f.fini(),
        n >= f.magnitude() * d,
    ensures
        arrondi(negatif, n, d).rang() >= f.rang(),
        arrondi(negatif, n, d).fini() ==> arrondi(negatif, n, d).magnitude() >= f.magnitude(),
{
    let g = arrondi(negatif, n, d);
    un_nombre_fini_est_son_arrondi(f, 1);
    assert(f.magnitude() * 1 == f.magnitude());
    assert(n * 1 == n);
    lemme_arrondi_croit(f.magnitude(), 1, n, d);
    lemme_signe_a_part(negatif, n, d);
    if g.fini() {
        if f.rang() < g.rang() {
            lemme_magnitude_croit(f, g);
        } else {
            lemme_meme_rang(g, f);
        }
    }
}

proof fn lemme_meme_rang(f: Flottant, g: Flottant)
    requires
        f.rang() == g.rang(),
    ensures
        f.magnitude() == g.magnitude(),
{
    reveal(Flottant::magnitude);
}

/// Une puissance de deux est un nombre.
pub(crate) proof fn lemme_puissance(k: nat) -> (f: Flottant)
    requires
        52 <= k <= 2097,
    ensures
        f.fini(),
        !f.negatif(),
        f.magnitude() == pow2(k),
{
    let e = k - 52;
    let f = Flottant { bits: ((e + 1) * UNITE_CHAMP) as u64 };
    assert(0 < (e + 1) * UNITE_CHAMP < CODE_INFINI) by (nonlinear_arith)
        requires
            0 <= e <= 2045,
            UNITE_CHAMP == 0x10_0000_0000_0000,
            CODE_INFINI == 0x7ff0_0000_0000_0000,
    ;
    lemma2_to64_rest();
    assert((e + 1) * UNITE_CHAMP == e * UNITE_CHAMP + UNITE_CHAMP) by (nonlinear_arith);
    lemme_code(f, e as nat, UNITE_CHAMP as nat);
    lemma_pow2_adds(52, e as nat);
    f
}

/// Un nombre fini reste sous le débordement.
pub(crate) proof fn lemme_fini_borne(f: Flottant)
    requires
        f.fini(),
    ensures
        f.magnitude() < debordement(),
{
    un_nombre_fini_est_son_arrondi(f, 1);
    let m = Flottant { bits: (CODE_INFINI - 1) as u64 };
    lemma2_to64_rest();
    assert(CODE_INFINI - 1 == 2045 * UNITE_CHAMP + (2 * UNITE_CHAMP - 1));
    lemme_code(m, 2045, (2 * UNITE_CHAMP - 1) as nat);
    lemma_pow2_adds(53, 2045);
    lemma_pow2_unfold(2045);
    lemma_pow2_pos(2044);
    assert((2 * UNITE_CHAMP - 1) * pow2(2045) == pow2(2098) - pow2(2045)) by (nonlinear_arith)
        requires
            pow2(2098) == pow2(53) * pow2(2045),
            pow2(53) == 2 * UNITE_CHAMP,
    ;
    if f.rang() < m.rang() {
        lemme_magnitude_croit(f, m);
    } else {
        lemme_meme_rang(f, m);
    }
}

/// Le produit de deux nombres finis, à un demi-pas près.
pub(crate) proof fn lemme_produit_encadre(a: Flottant, b: Flottant)
    requires
        a.fini(),
        b.fini(),
    ensures
        ({
            let f = a.produit(b);
            let (n, d) = (a.magnitude() * b.magnitude(), pow2(1074));
            &&& f.negatif() == (a.negatif() != b.negatif())
            &&& !f.nan()
            &&& f.fini() ==> {
                &&& PRECISION * (f.magnitude() * d) <= PRECISION * n + n + (PRECISION / 2) * d
                &&& PRECISION * n <= PRECISION * (f.magnitude() * d) + n + (PRECISION / 2) * d
            }
            &&& !f.fini() ==> n >= debordement() * d
        }),
{
    reveal(Flottant::produit);
    lemma_pow2_pos(1074);
    lemme_arrondi_encadre(
        a.negatif() != b.negatif(),
        a.magnitude() * b.magnitude(),
        pow2(1074),
    );
}

/// Un demi, exactement.
pub(crate) proof fn lemme_un_demi()
    ensures
        Flottant::fraction(1, 2).fini(),
        !Flottant::fraction(1, 2).negatif(),
        Flottant::fraction(1, 2).magnitude() == pow2(1073),
{
    reveal(rapport);
    let h = lemme_puissance(1073);
    lemma_pow2_unfold(1074);
    un_nombre_fini_est_son_arrondi(h, 2);
    assert(1 * pow2(1074) == pow2(1073) * 2);
    assert(Flottant::fraction(1, 2) == arrondi(false, 1 * pow2(1074), 2));
}

} // verus!
