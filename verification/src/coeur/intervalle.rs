//! La recherche d'une racine ne sort pas de son intervalle, arrondis compris, et finit par
//! aboutir.

#[allow(unused_imports)]
use super::black76::{
    cherche, coherent, depart, encadre, prime_de, racine_de, tolerance, vol_max, vol_min,
    volatilite_voulue, Encadrement, Sens, ITERATIONS_MAX,
};
#[allow(unused_imports)]
use crate::court::un_nombre_fini_est_son_arrondi;
#[allow(unused_imports)]
use crate::erreur::{
    debordement, lemme_arrondi_encadre, lemme_arrondi_sous, lemme_arrondi_sur, lemme_fini_borne,
    lemme_produit_encadre, lemme_puissance, lemme_un_demi, PRECISION,
};
use crate::flottant::Flottant;
#[allow(unused_imports)]
use crate::flottant::{
    arrondi, au_plus_proche, clef_ordonne_les_valeurs, echelle, lemme_magnitude_nulle,
    lemme_produit_nul, rapport, un_entier_est_exact,
};
#[allow(unused_imports)]
use vstd::arithmetic::div_mod::*;
#[allow(unused_imports)]
use vstd::arithmetic::power2::*;
use vstd::prelude::*;

verus! {

/// Un nombre entre deux autres, dans un sens ou dans l'autre.
pub open spec fn entre(x: Flottant, x1: Flottant, x2: Flottant) -> bool {
    ||| x1.inferieur_ou_egal(x) && x.inferieur_ou_egal(x2)
    ||| x2.inferieur_ou_egal(x) && x.inferieur_ou_egal(x1)
}

/// La distance de deux nombres finis, en multiples du plus petit pas.
pub open spec fn ecart(b: Flottant, c: Flottant) -> nat {
    if c.valeur() < b.valeur() {
        (b.valeur() - c.valeur()) as nat
    } else {
        (c.valeur() - b.valeur()) as nat
    }
}

/// Deux bouts finis, dont une fois et demie l'écart ne déborde pas.
pub open spec fn intervalle_tenable(x1: Flottant, x2: Flottant) -> bool {
    x1.fini() && x2.fini() && ecart(x1, x2) <= pow2(2097)
}

/// Un point de l'intervalle.
spec fn dedans(x: Flottant, bas: Flottant, haut: Flottant) -> bool {
    &&& x.fini()
    &&& bas.valeur() <= x.valeur() <= haut.valeur()
}

/// Un intervalle dont la largeur est tenable.
spec fn intervalle(bas: Flottant, haut: Flottant) -> bool {
    &&& bas.fini()
    &&& haut.fini()
    &&& bas.valeur() <= haut.valeur()
    &&& haut.valeur() - bas.valeur() <= pow2(2097)
}

/// La demi-largeur : du signe de l'écart, sa moitié à un demi-pas près.
proof fn lemme_demi(b: Flottant, c: Flottant)
    requires
        b.fini(),
        c.fini(),
        ecart(b, c) <= pow2(2097),
    ensures
        ({
            let xm = Flottant::fraction(1, 2).fois(c.moins(b));
            let r = ecart(b, c);
            let m = xm.magnitude();
            &&& xm.fini()
            &&& r <= 1 ==> m == 0
            &&& r > 0 ==> xm.negatif() == (c.valeur() < b.valeur())
            &&& 2 * m <= r + 1 || 2000 * m <= 1001 * r
            &&& 2000 * m <= 1001 * r + 2000
            &&& 1000 * r <= 2002 * m + 3000
        }),
{
    reveal(Flottant::somme);
    let r = ecart(b, c);
    let x = c.moins(b);
    let h = Flottant::fraction(1, 2);
    let xm = h.fois(x);
    lemme_un_demi();
    lemme_oppose(b);
    if r == 0 {
        assert(x.rang() == 0);
        lemme_produit_nul(h, x);
        lemme_magnitude_nulle(xm);
    } else {
        let neg = c.valeur() < b.valeur();
        let large = lemme_puissance(2097);
        assert(x == arrondi(neg, r, 1));
        assert(r <= large.magnitude() * 1);
        lemme_arrondi_sous(neg, r, 1, large);
        lemme_arrondi_encadre(neg, r, 1);
        lemme_produit_encadre(h, x);
        let (q, u) = (pow2(1073), pow2(1074));
        let rr = x.magnitude();
        lemma_pow2_unfold(1074);
        lemma_pow2_pos(1073);
        assert(q * rr <= x.magnitude() * u) by (nonlinear_arith)
            requires
                u == 2 * q,
                rr == x.magnitude(),
        ;
        reveal(Flottant::produit);
        lemme_arrondi_sous(h.negatif() != x.negatif(), q * rr, u, x);
        let m = xm.magnitude() as int;
        assert(2 * PRECISION * m <= PRECISION * rr + rr + PRECISION && PRECISION * rr <= 2
            * PRECISION * m + rr + PRECISION) by (nonlinear_arith)
            requires
                PRECISION * (m * u) <= PRECISION * (q * rr) + q * rr + (PRECISION / 2) * u,
                PRECISION * (q * rr) <= PRECISION * (m * u) + q * rr + (PRECISION / 2) * u,
                u == 2 * q,
                q > 0,
                PRECISION == 0x20_0000_0000_0000,
        ;
        assert(PRECISION * rr <= PRECISION * r + r + PRECISION / 2);
        assert(PRECISION * r <= PRECISION * rr + r + PRECISION / 2);
        lemme_moitie(r as int, rr as int, m);
        if r == 1 {
            reveal(arrondi);
            assert(rr == 1);
            assert(q * rr == q) by (nonlinear_arith)
                requires
                    rr == 1,
            ;
            lemma2_to64();
            lemma2_to64_rest();
            assert(q < u * pow2(53)) by (nonlinear_arith)
                requires
                    u == 2 * q,
                    q > 0,
                    pow2(53) >= 1,
            ;
            assert(echelle(q, u) == 0);
            assert(u * pow2(0) == u) by (nonlinear_arith)
                requires
                    pow2(0) == 1,
            ;
            lemma_fundamental_div_mod_converse(q as int, u as int, 0, q as int);
            assert(au_plus_proche(q, u) == 0);
            assert(xm.rang() == 0);
            lemme_magnitude_nulle(xm);
        }
    }
}

/// Deux arrondis de suite, l'un d'un entier et l'autre de sa moitié.
proof fn lemme_moitie(r: int, rr: int, m: int)
    requires
        r >= 1,
        rr >= 0,
        m >= 0,
        2 * PRECISION * m <= PRECISION * rr + rr + PRECISION,
        PRECISION * rr <= 2 * PRECISION * m + rr + PRECISION,
        PRECISION * rr <= PRECISION * r + r + PRECISION / 2,
        PRECISION * r <= PRECISION * rr + r + PRECISION / 2,
    ensures
        2 * m <= r + 1 || 2000 * m <= 1001 * r,
        2000 * m <= 1001 * r + 2000,
        1000 * r <= 2002 * m + 3000,
        r == 1 ==> rr == 1,
{
    let p: int = 0x20_0000_0000_0000;
    assert(p == PRECISION);
    assert(2 * p * m <= p * rr + rr + p);
    assert(20000 * m <= 10001 * rr + 10000) by (nonlinear_arith)
        requires
            2 * p * m <= p * rr + rr + p,
            p == 0x20_0000_0000_0000,
            rr >= 0,
    ;
    assert(10000 * rr <= 20002 * m + 10002) by (nonlinear_arith)
        requires
            p * rr <= 2 * p * m + rr + p,
            p == 0x20_0000_0000_0000,
            m >= 0,
            rr >= 0,
    ;
    assert(2 * (10000 * rr) <= 2 * (10001 * r) + 10000) by (nonlinear_arith)
        requires
            2 * (p * rr) <= 2 * (p * r + r) + p,
            p == 0x20_0000_0000_0000,
            r >= 0,
    ;
    assert(2 * (10000 * r) <= 2 * (10001 * rr) + 10002) by (nonlinear_arith)
        requires
            2 * (p * r) <= 2 * (p * rr + r) + p,
            p == 0x20_0000_0000_0000,
            r >= 0,
            rr >= 0,
    ;
    if r < 0x1_0000_0000 {
        assert(rr < r + 1) by (nonlinear_arith)
            requires
                2 * (p * rr) <= 2 * (p * r + r) + p,
                p == 0x20_0000_0000_0000,
                1 <= r < 0x1_0000_0000,
        ;
        assert(rr > r - 1) by (nonlinear_arith)
            requires
                2 * (p * r) <= 2 * (p * rr + r) + p,
                p == 0x20_0000_0000_0000,
                1 <= r < 0x1_0000_0000,
        ;
        assert(2 * m < r + 2) by (nonlinear_arith)
            requires
                2 * p * m <= p * rr + rr + p,
                rr == r,
                p == 0x20_0000_0000_0000,
                1 <= r < 0x1_0000_0000,
        ;
    }
}

proof fn lemme_oppose(b: Flottant)
    ensures
        b.oppose().rang() == b.rang(),
        b.oppose().negatif() == !b.negatif(),
        b.oppose().magnitude() == b.magnitude(),
        b.valeur_absolue().rang() == b.rang(),
        !b.valeur_absolue().negatif(),
        b.valeur_absolue().magnitude() == b.magnitude(),
{
    reveal(Flottant::magnitude);
}

/// Le double du pas relatif, exactement.
proof fn lemme_pas_relatif()
    ensures
        ({
            let k = Flottant::entier(2).fois(Flottant::fraction(1, 4_503_599_627_370_496));
            &&& k.fini()
            &&& !k.negatif()
            &&& PRECISION * k.magnitude() == 4 * pow2(1074)
        }),
{
    let deux = Flottant::entier(2);
    let eps = Flottant::fraction(1, 4_503_599_627_370_496);
    let u = pow2(1074);
    un_entier_est_exact(2);
    lemma2_to64_rest();
    lemma_pow2_pos(1074);
    let e = lemme_puissance(1022);
    lemma_pow2_adds(1022, 52);
    assert(eps == e) by {
        reveal(rapport);
        assert(1 * u == pow2(1022) * 4_503_599_627_370_496);
        un_nombre_fini_est_son_arrondi(e, 4_503_599_627_370_496);
        assert(eps == arrondi(false, 1 * u, 4_503_599_627_370_496));
    }
    let k = lemme_puissance(1023);
    lemma_pow2_unfold(1023);
    lemma_pow2_adds(1023, 51);
    assert(deux.fois(eps) == k) by {
        reveal(Flottant::produit);
        assert(deux.magnitude() * eps.magnitude() == k.magnitude() * u) by (nonlinear_arith)
            requires
                deux.magnitude() == 2 * u,
                eps.magnitude() == pow2(1022),
                k.magnitude() == 2 * pow2(1022),
        ;
        un_nombre_fini_est_son_arrondi(k, u);
    }
    assert(u == pow2(1023) * pow2(51));
    assert(PRECISION * k.magnitude() == 4 * u) by (nonlinear_arith)
        requires
            u == k.magnitude() * pow2(51),
            pow2(51) == 0x8_0000_0000_0000,
            PRECISION == 0x20_0000_0000_0000,
    ;
}

/// La demi-tolérance, loin du plus petit pas.
pub open spec fn tolerance_ample(tol: Flottant) -> bool {
    let h = Flottant::fraction(1, 2).fois(tol);
    h.fini() && !h.negatif() && h.magnitude() >= 1000
}

/// La marge est un nombre positif.
proof fn lemme_marge(s: Encadrement, tol: Flottant)
    requires
        s.b.fini(),
        Flottant::nul().inferieur_ou_egal(tol),
    ensures
        !s.marge(tol).nan(),
        !s.marge(tol).negatif(),
        tolerance_ample(tol) && s.b.magnitude() + Flottant::fraction(1, 2).fois(tol).magnitude()
            <= pow2(2097) ==> s.marge(tol).fini(),
        tolerance_ample(tol) && s.marge(tol).fini() ==> {
            &&& s.marge(tol).magnitude() >= 1000
            &&& 1000 * s.b.magnitude() <= 260 * (PRECISION * s.marge(tol).magnitude())
        },
        tolerance_ample(tol) && s.marge(tol).fini() ==> {
            let h = Flottant::fraction(1, 2).fois(tol);
            PRECISION * s.marge(tol).magnitude() <= (PRECISION + 1) * h.magnitude() + 5
                * s.b.magnitude() + 2 * PRECISION
        },
{
    let k = Flottant::entier(2).fois(Flottant::fraction(1, 4_503_599_627_370_496));
    let a = s.b.valeur_absolue();
    let g = k.fois(a);
    let demi = Flottant::fraction(1, 2);
    let h = demi.fois(tol);
    let u = pow2(1074);
    let bm = s.b.magnitude();
    let marge = s.marge(tol);
    lemma_pow2_pos(1074);
    lemme_oppose(s.b);
    lemme_un_demi();
    lemme_pas_relatif();
    lemme_magnitude_nulle(tol);
    lemme_produit_encadre(k, a);
    let n = k.magnitude() * bm;
    assert(PRECISION * n == 4 * bm * u) by (nonlinear_arith)
        requires
            PRECISION * k.magnitude() == 4 * u,
            n == k.magnitude() * bm,
    ;
    assert(g.fini() && !g.negatif() && g.magnitude() <= bm) by {
        reveal(Flottant::produit);
        assert(n <= a.magnitude() * u) by (nonlinear_arith)
            requires
                PRECISION * n == 4 * bm * u,
                a.magnitude() == bm,
                PRECISION == 0x20_0000_0000_0000,
        ;
        lemme_arrondi_sous(false, n, u, a);
    }
    lemme_magnitude_nulle(g);
    reveal(Flottant::somme);
    assert(marge == g.somme(h));
    if tol.infini() {
        reveal(Flottant::produit);
        lemme_magnitude_nulle(demi);
        lemma_pow2_pos(1073);
        assert(h.infini() && !h.negatif());
    } else {
        lemme_produit_encadre(demi, tol);
        assert(h.fini()) by {
            reveal(Flottant::produit);
            lemma_pow2_unfold(1074);
            assert(demi.magnitude() * tol.magnitude() <= tol.magnitude() * u) by (nonlinear_arith)
                requires
                    u == 2 * demi.magnitude(),
            ;
            lemme_arrondi_sous(
                demi.negatif() != tol.negatif(),
                demi.magnitude() * tol.magnitude(),
                u,
                tol,
            );
        }
        lemme_magnitude_nulle(h);
        if tol.negatif() {
            assert(tol.rang() == 0);
            lemme_produit_nul(demi, tol);
        }
        let v = (g.magnitude() + h.magnitude()) as nat;
        assert(g.valeur() + h.valeur() == v);
        if v > 0 {
            assert(marge == arrondi(false, v, 1));
            lemme_arrondi_encadre(false, v, 1);
            if v <= pow2(2097) {
                let large = lemme_puissance(2097);
                assert(large.magnitude() * 1 == large.magnitude());
                lemme_arrondi_sous(false, v, 1, large);
            }
            if tolerance_ample(tol) && marge.fini() {
                assert(h.magnitude() * 1 == h.magnitude());
                lemme_arrondi_sur(false, v, 1, h);
                let (gm, mm) = (g.magnitude() as int, marge.magnitude() as int);
                // Quatre unités relatives, à un demi-pas près.
                assert(4 * bm * (PRECISION - 1) <= PRECISION * (PRECISION * gm) + (PRECISION / 2)
                    * PRECISION && PRECISION * (PRECISION * gm) <= 4 * bm * (PRECISION + 1) + (
                PRECISION / 2) * PRECISION) by {
                    lemme_pas_de_marge(bm as int, gm, n as int, u as int);
                }
                assert(1000 * bm <= 260 * (PRECISION * mm)) by (nonlinear_arith)
                    requires
                        4 * bm * (PRECISION - 1) <= PRECISION * (PRECISION * gm) + (PRECISION / 2)
                            * PRECISION,
                        PRECISION * (gm + h.magnitude()) <= PRECISION * mm + (gm + h.magnitude())
                            + PRECISION / 2,
                        h.magnitude() >= 1000,
                        gm >= 0,
                        bm >= 0,
                        PRECISION == 0x20_0000_0000_0000,
                ;
                assert(PRECISION * mm <= (PRECISION + 1) * h.magnitude() + 5 * bm + 2 * PRECISION)
                    by (nonlinear_arith)
                    requires
                        PRECISION * (PRECISION * gm) <= 4 * bm * (PRECISION + 1) + (PRECISION / 2)
                            * PRECISION,
                        PRECISION * mm <= PRECISION * (gm + h.magnitude()) + (gm + h.magnitude())
                            + PRECISION / 2,
                        gm >= 0,
                        bm >= 0,
                        PRECISION == 0x20_0000_0000_0000,
                ;
            }
        }
    }
}

proof fn lemme_pas_de_marge(bm: int, gm: int, n: int, u: int)
    requires
        u > 0,
        bm >= 0,
        PRECISION * n == 4 * bm * u,
        PRECISION * (gm * u) <= PRECISION * n + n + (PRECISION / 2) * u,
        PRECISION * n <= PRECISION * (gm * u) + n + (PRECISION / 2) * u,
    ensures
        4 * bm * (PRECISION - 1) <= PRECISION * (PRECISION * gm) + (PRECISION / 2) * PRECISION,
        PRECISION * (PRECISION * gm) <= 4 * bm * (PRECISION + 1) + (PRECISION / 2) * PRECISION,
{
    let p = PRECISION as int;
    let d = (PRECISION / 2) as int;
    assert((4 * bm * (p - 1)) * u <= (p * (p * gm) + d * p) * u) by (nonlinear_arith)
        requires
            p * n == 4 * bm * u,
            p * n <= p * (gm * u) + n + d * u,
            p > 0,
    ;
    assert((p * (p * gm)) * u <= (4 * bm * (p + 1) + d * p) * u) by (nonlinear_arith)
        requires
            p * n == 4 * bm * u,
            p * (gm * u) <= p * n + n + d * u,
            p > 0,
    ;
    lemme_simplifie(4 * bm * (p - 1), p * (p * gm) + d * p, u);
    lemme_simplifie(p * (p * gm), 4 * bm * (p + 1) + d * p, u);
}

/// Une multiplication se simplifie des deux côtés.
proof fn lemme_simplifie(x: int, y: int, q: int)
    requires
        q > 0,
        x * q <= y * q,
    ensures
        x <= y,
{
    assert(x <= y) by (nonlinear_arith)
        requires
            q > 0,
            x * q <= y * q,
    ;
}

/// Un quotient dont le numérateur est tenu par la moitié d'un produit en est la moitié, à un
/// demi-pas près.
proof fn lemme_quotient_borne(p: Flottant, q: Flottant, t: nat)
    requires
        p.fini(),
        q.fini(),
        !p.negatif(),
        q.magnitude() > 0,
        2 * (PRECISION - 1) * (p.magnitude() * pow2(1074)) <= (PRECISION + 1) * (t
            * q.magnitude()),
        t < debordement(),
    ensures
        p.par(q).fini(),
        p.par(q).negatif() == q.negatif(),
        2 * PRECISION * ((PRECISION - 1) * p.par(q).magnitude()) <= (PRECISION + 1) * ((PRECISION
            + 1) * t) + PRECISION * (PRECISION - 1),
        t < 0x8_0000_0000_0000 ==> 2 * p.par(q).magnitude() <= t + 1,
        1000 * p.par(q).magnitude() <= 501 * t + 501,
{
    reveal(Flottant::quotient);
    let (pm, qm, u) = (p.magnitude(), q.magnitude(), pow2(1074));
    let d = p.par(q);
    let n = pm * u;
    lemme_magnitude_nulle(q);
    lemme_arrondi_encadre(p.negatif() != q.negatif(), n, qm);
    assert(d == arrondi(p.negatif() != q.negatif(), n, qm));
    let tq = t * qm;
    if !d.fini() {
        assert(debordement() * qm >= tq + qm) by (nonlinear_arith)
            requires
                debordement() >= t + 1,
                tq == t * qm,
        ;
        assert(n < debordement() * qm) by (nonlinear_arith)
            requires
                2 * (PRECISION - 1) * n <= (PRECISION + 1) * tq,
                debordement() * qm >= tq + qm,
                qm > 0,
                tq >= 0,
                PRECISION == 0x20_0000_0000_0000,
        ;
        assert(false);
    }
    let dm = d.magnitude() as int;
    let big = PRECISION as int;
    assert((2 * big * ((big - 1) * dm)) * qm <= ((big + 1) * ((big + 1) * t) + big * (big - 1))
        * qm) by (nonlinear_arith)
        requires
            2 * (big - 1) * n <= (big + 1) * tq,
            big * (dm * qm) <= big * n + n + (PRECISION / 2) * qm,
            tq == t * qm,
            2 * (PRECISION / 2) == big,
            big == 0x20_0000_0000_0000,
            qm > 0,
    ;
    lemme_simplifie(
        2 * big * ((big - 1) * dm),
        (big + 1) * ((big + 1) * t) + big * (big - 1),
        qm as int,
    );
    assert(1000 * dm <= 501 * t + 501) by (nonlinear_arith)
        requires
            2 * big * ((big - 1) * dm) <= (big + 1) * ((big + 1) * t) + big * (big - 1),
            big == 0x20_0000_0000_0000,
            t >= 0,
    ;
    if t < 0x8_0000_0000_0000 {
        assert(2 * dm < t + 2) by (nonlinear_arith)
            requires
                2 * big * ((big - 1) * dm) <= (big + 1) * ((big + 1) * t) + big * (big - 1),
                big == 0x20_0000_0000_0000,
                0 <= t < 0x8_0000_0000_0000,
        ;
    }
}

/// Le double d'un nombre fini, s'il est fini, ne descend pas sous le double exact de plus d'un
/// demi-pas.
proof fn lemme_double(p: Flottant)
    requires
        p.fini(),
        !p.negatif(),
        Flottant::entier(2).fois(p).fini(),
    ensures
        2 * (PRECISION - 1) * p.magnitude() <= PRECISION * Flottant::entier(2).fois(p).magnitude()
            + PRECISION / 2,
        !Flottant::entier(2).fois(p).negatif(),
{
    let deux = Flottant::entier(2);
    un_entier_est_exact(2);
    lemme_produit_encadre(deux, p);
    lemma_pow2_pos(1074);
    let (u, m, d) = (pow2(1074), p.magnitude(), deux.fois(p).magnitude());
    let n = deux.magnitude() * m;
    assert(n == 2 * m * u) by (nonlinear_arith)
        requires
            n == deux.magnitude() * m,
            deux.magnitude() == 2 * u,
    ;
    assert((2 * (PRECISION - 1) * m) * u <= (PRECISION * d + PRECISION / 2) * u) by (nonlinear_arith)
        requires
            PRECISION * n <= PRECISION * (d * u) + n + (PRECISION / 2) * u,
            n == 2 * m * u,
    ;
    lemme_simplifie(2 * (PRECISION - 1) * m, PRECISION * d + PRECISION / 2, u as int);
}

/// Le triple de la demi-largeur.
proof fn lemme_triple(xm: Flottant, r: nat)
    requires
        xm.fini(),
        2000 * xm.magnitude() <= 1001 * r + 2000,
        r <= pow2(2097),
    ensures
        ({
            let t = Flottant::entier(3).fois(xm);
            let m = xm.magnitude();
            &&& t.fini()
            &&& t.negatif() == xm.negatif()
            &&& m < 0x1_0000_0000 ==> t.magnitude() <= 3 * m
            &&& 1000 * t.magnitude() <= 3003 * m + 501
        }),
{
    let trois = Flottant::entier(3);
    let t = trois.fois(xm);
    un_entier_est_exact(3);
    lemme_produit_encadre(trois, xm);
    lemma_pow2_pos(1074);
    let (u, m) = (pow2(1074), xm.magnitude());
    let n = trois.magnitude() * m;
    assert(n == 3 * m * u) by (nonlinear_arith)
        requires
            n == trois.magnitude() * m,
            trois.magnitude() == 3 * u,
    ;
    if !t.fini() {
        lemma_pow2_unfold(2098);
        lemma_pow2_strictly_increases(2044, 2060);
        lemma2_to64();
        lemma_pow2_adds(2060, 37);
        lemma_pow2_strictly_increases(10, 37);
        assert(100 * pow2(2060) <= pow2(2097)) by (nonlinear_arith)
            requires
                pow2(2097) == pow2(2060) * pow2(37),
                pow2(37) >= 100,
        ;
        lemma_pow2_strictly_increases(10, 2044);
        assert(3 * m < debordement());
        assert(n < debordement() * u) by (nonlinear_arith)
            requires
                n == 3 * m * u,
                3 * m < debordement(),
                u > 0,
        ;
        assert(false);
    }
    let d = t.magnitude() as int;
    assert((PRECISION * d) * u <= (3 * (PRECISION + 1) * m + PRECISION / 2) * u) by (nonlinear_arith)
        requires
            PRECISION * (d * u) <= PRECISION * n + n + (PRECISION / 2) * u,
            n == 3 * m * u,
    ;
    lemme_simplifie(PRECISION * d, 3 * (PRECISION + 1) * m + PRECISION / 2, u as int);
    assert(1000 * d <= 3003 * m + 501) by (nonlinear_arith)
        requires
            PRECISION * d <= 3 * (PRECISION + 1) * m + PRECISION / 2,
            PRECISION == 0x20_0000_0000_0000,
            m >= 0,
    ;
    if m < 0x1_0000_0000 {
        assert(d < 3 * m + 1) by (nonlinear_arith)
            requires
                PRECISION * d <= 3 * (PRECISION + 1) * m + PRECISION / 2,
                PRECISION == 0x20_0000_0000_0000,
                0 <= m < 0x1_0000_0000,
        ;
    }
}

/// Le pas d'interpolation accepté, s'il dépasse la marge, va vers l'autre bout sans le passer.
proof fn lemme_interpole(
    p: Flottant,
    q: Flottant,
    e: Flottant,
    xm: Flottant,
    marge: Flottant,
    r: nat,
)
    requires
        !p.negatif(),
        xm.fini(),
        marge.fini(),
        !marge.negatif(),
        marge.magnitude() < xm.magnitude(),
        r >= 2,
        2 * xm.magnitude() <= r + 1 || 2000 * xm.magnitude() <= 1001 * r,
        2000 * xm.magnitude() <= 1001 * r + 2000,
        r <= pow2(2097),
        Flottant::entier(2).fois(p).inf(
            Flottant::entier(3).fois(xm).fois(q).moins(marge.fois(q).abs()).min(e.fois(q).abs()),
        ),
        marge.inf(p.par(q).abs()),
    ensures
        p.par(q).fini(),
        p.par(q).negatif() == xm.negatif(),
        p.par(q).magnitude() <= r,
        r >= 1900 ==> 100 * p.par(q).magnitude() <= 76 * r,
{
    reveal(Flottant::somme);
    let t3 = Flottant::entier(3).fois(xm);
    let x = t3.fois(q);
    let my = marge.fois(q);
    let y = my.abs();
    let min1 = x.moins(y);
    let min2 = e.fois(q).abs();
    let deux = Flottant::entier(2).fois(p);
    let d = p.par(q);
    let u = pow2(1074);
    let (pm, qm, t, g) = (p.magnitude(), q.magnitude(), t3.magnitude(), marge.magnitude());
    lemma_pow2_pos(1074);
    lemme_triple(xm, r);
    lemme_oppose(my);
    lemme_oppose(y);
    lemme_oppose(d);
    un_entier_est_exact(2);
    lemme_magnitude_nulle(marge);
    assert(!deux.nan());
    assert(p.fini() && deux.fini()) by {
        reveal(Flottant::produit);
        if !p.fini() {
            lemme_magnitude_nulle(Flottant::entier(2));
            assert(p.nan() || p.infini());
            assert(deux.nan() || (deux.infini() && !deux.negatif()));
        } else {
            lemme_produit_encadre(Flottant::entier(2), p);
        }
    }
    lemme_double(p);
    if q.nan() {
        reveal(Flottant::produit);
        assert(x.nan() && min2.nan());
        assert(false);
    } else if !q.fini() {
        reveal(Flottant::quotient);
        assert(d.rang() == 0);
        assert(false);
    } else if q.rang() == 0 {
        lemme_produit_nul(t3, q);
        lemme_produit_nul(marge, q);
        lemme_magnitude_nulle(x);
        lemme_magnitude_nulle(y);
        lemme_magnitude_nulle(y.oppose());
        assert(min1.rang() == 0);
        if e.fini() {
            lemme_produit_nul(e, q);
        } else {
            reveal(Flottant::produit);
        }
        assert(false);
    } else {
        lemme_magnitude_nulle(q);
        lemme_produit_encadre(t3, q);
        lemme_produit_encadre(marge, q);
        lemme_fini_borne(deux);
        let p2 = deux.magnitude();
        lemme_fini_borne(t3);
        lemme_fini_borne(marge);
        let v = x.valeur() - y.magnitude();
        if x.fini() && y.fini() {
            if v > 0 {
                lemme_arrondi_encadre(false, v as nat, 1);
            } else if v < 0 {
                lemme_arrondi_encadre(true, (-v) as nat, 1);
            }
        }
        if x.infini() && !x.negatif() && y.infini() {
            assert(2 * (PRECISION - 1) * (pm * u) <= (PRECISION + 1) * (g * qm)) by {
                lemme_deborde(pm, p2, g * qm, u);
            }
            lemme_quotient_borne(p, q, g);
            assert(g > 0) by {
                lemme_magnitude_nulle(my);
                if g == 0 {
                    lemme_produit_nul(q, marge);
                    lemme_produit_commute(marge, q);
                }
            }
            clef_ordonne_les_valeurs(marge, d.abs());
            assert(false);
        } else {
            assert(!min1.nan());
            assert(deux.inf(min1));
            assert(min1.positif());
            if x.infini() {
                assert(!x.negatif());
                lemme_deborde(pm, p2, t * qm, u);
            } else {
                assert(y.fini());
                assert(v > 0);
                assert(min1 == arrondi(false, v as nat, 1));
                assert(x.magnitude() * 1 == x.magnitude());
                lemme_arrondi_sous(false, v as nat, 1, x);
                clef_ordonne_les_valeurs(deux, min1);
                lemme_sous_le_produit(pm, p2, x.magnitude(), t * qm, u);
            }
            lemme_quotient_borne(p, q, t);
            let m = xm.magnitude();
            let dm = d.magnitude();
            if m < 0x1_0000_0000 {
                assert(t <= 3 * m);
                assert(2 * dm <= 3 * m + 1);
                if 2 * m <= r + 1 {
                    assert(4 * dm <= 3 * r + 5);
                }
            } else {
                assert(1000 * t <= 3003 * m + 501);
            }
        }
    }
}

proof fn lemme_produit_commute(a: Flottant, b: Flottant)
    ensures
        a.produit(b) == b.produit(a),
{
    reveal(Flottant::produit);
    assert(a.magnitude() * b.magnitude() == b.magnitude() * a.magnitude()) by (nonlinear_arith);
}

/// Ce qui reste fini quand un produit déborde est sous ce produit.
proof fn lemme_deborde(pm: nat, p2: nat, produit: nat, u: nat)
    requires
        u > 0,
        2 * (PRECISION - 1) * pm <= PRECISION * p2 + PRECISION / 2,
        p2 < debordement(),
        produit >= debordement() * u,
    ensures
        2 * (PRECISION - 1) * (pm * u) <= (PRECISION + 1) * produit,
{
    let v = debordement();
    assert(2 * (PRECISION - 1) * (pm * u) <= (PRECISION * v) * u) by (nonlinear_arith)
        requires
            2 * (PRECISION - 1) * pm <= PRECISION * p2 + PRECISION / 2,
            p2 + 1 <= v,
            u > 0,
            PRECISION == 0x20_0000_0000_0000,
    ;
    assert((PRECISION * v) * u <= (PRECISION + 1) * produit) by (nonlinear_arith)
        requires
            produit >= v * u,
            PRECISION == 0x20_0000_0000_0000,
            produit >= 0,
    ;
}

proof fn lemme_sous_le_produit(pm: nat, p2: nat, x: nat, produit: nat, u: nat)
    requires
        u > 0,
        2 * (PRECISION - 1) * pm <= PRECISION * p2 + PRECISION / 2,
        p2 < x,
        PRECISION * (x * u) <= PRECISION * produit + produit + (PRECISION / 2) * u,
    ensures
        2 * (PRECISION - 1) * (pm * u) <= (PRECISION + 1) * produit,
{
    assert(2 * (PRECISION - 1) * (pm * u) <= (PRECISION * x - PRECISION / 2) * u) by (nonlinear_arith)
        requires
            2 * (PRECISION - 1) * pm <= PRECISION * p2 + PRECISION / 2,
            p2 + 1 <= x,
            u > 0,
            PRECISION == 0x20_0000_0000_0000,
    ;
    assert((PRECISION * x - PRECISION / 2) * u == PRECISION * (x * u) - (PRECISION / 2) * u)
        by (nonlinear_arith);
    assert(PRECISION * produit + produit == (PRECISION + 1) * produit) by (nonlinear_arith);
}

/// Une somme entre deux nombres finis s'arrondit entre eux.
proof fn lemme_somme_entre(b: Flottant, delta: Flottant, lo: Flottant, hi: Flottant)
    requires
        b.fini(),
        delta.fini(),
        lo.fini(),
        hi.fini(),
        lo.valeur() <= b.valeur() + delta.valeur() <= hi.valeur(),
    ensures
        dedans(b.plus(delta), lo, hi),
        ({
            let v = b.valeur() + delta.valeur();
            let w = b.plus(delta).valeur();
            let n = if v < 0 {
                -v
            } else {
                v
            };
            &&& PRECISION * (w - v) <= n + PRECISION / 2
            &&& PRECISION * (v - w) <= n + PRECISION / 2
        }),
{
    reveal(Flottant::somme);
    let v = b.valeur() + delta.valeur();
    let f = b.plus(delta);
    assert(lo.magnitude() * 1 == lo.magnitude() && hi.magnitude() * 1 == hi.magnitude());
    if v == 0 {
        lemme_magnitude_nulle(f);
        assert(f.rang() == 0);
    } else if v > 0 {
        let n = v as nat;
        assert(f == arrondi(false, n, 1));
        lemme_arrondi_encadre(false, n, 1);
        lemme_arrondi_sous(false, n, 1, hi);
        if lo.valeur() > 0 {
            lemme_arrondi_sur(false, n, 1, lo);
        }
        assert(f.magnitude() * 1 == f.magnitude());
    } else {
        let n = (-v) as nat;
        assert(f == arrondi(true, n, 1));
        lemme_arrondi_encadre(true, n, 1);
        lemme_arrondi_sous(true, n, 1, lo);
        if hi.valeur() < 0 {
            lemme_arrondi_sur(true, n, 1, hi);
        }
        assert(f.magnitude() * 1 == f.magnitude());
    }
}

/// Le candidat suivant reste entre les deux bouts, et strictement dès que la tolérance est
/// ample.
proof fn lemme_suivant(s: Encadrement, tol: Flottant)
    requires
        s.b.fini(),
        s.c.fini(),
        ecart(s.b, s.c) <= pow2(2097),
        Flottant::nul().inferieur_ou_egal(tol),
        !s.abouti(tol),
    ensures
        s.suivant(tol).fini(),
        s.b.valeur() <= s.c.valeur() ==> s.b.valeur() <= s.suivant(tol).valeur() <= s.c.valeur(),
        s.c.valeur() <= s.b.valeur() ==> s.c.valeur() <= s.suivant(tol).valeur() <= s.b.valeur(),
        tolerance_ample(tol) ==> {
            &&& ecart(s.suivant(tol), s.b) < ecart(s.b, s.c)
            &&& ecart(s.suivant(tol), s.c) < ecart(s.b, s.c)
        },
{
    let marge = s.marge(tol);
    let xm = s.demi();
    let r = ecart(s.b, s.c);
    lemme_marge(s, tol);
    lemme_demi(s.b, s.c);
    lemme_oppose(xm);
    lemme_oppose(marge);
    assert(!xm.abs().infeg(marge));
    assert(marge.fini());
    assert(marge.magnitude() < xm.magnitude()) by {
        clef_ordonne_les_valeurs(xm.abs(), marge);
    }
    assert(r >= 2);
    let d = s.deplacements(tol).0;
    lemme_oppose(d);
    assert(marge.inf(d.abs()) ==> d.fini() && d.negatif() == xm.negatif() && d.magnitude() <= r
        && (r >= 1900 ==> 100 * d.magnitude() <= 76 * r)) by {
        if marge.inf(d.abs()) && d != xm {
            let (p0, q0) = s.interpolation();
            let q = if p0.positif() {
                q0.neg()
            } else {
                q0
            };
            let p = p0.abs();
            lemme_oppose(p0);
            assert(d == p.par(q));
            lemme_interpole(p, q, s.e, xm, marge, r);
        }
    }
    let delta = if marge.inf(d.abs()) {
        d
    } else if Flottant::nul().infeg(xm) {
        marge
    } else {
        marge.neg()
    };
    assert(Flottant::nul().infeg(xm) == !xm.negatif()) by {
        lemme_magnitude_nulle(xm);
    }
    assert(delta.fini() && delta.negatif() == (s.c.valeur() < s.b.valeur()) && delta.magnitude()
        <= r);
    if s.b.valeur() <= s.c.valeur() {
        lemme_somme_entre(s.b, delta, s.b, s.c);
    } else {
        lemme_somme_entre(s.b, delta, s.c, s.b);
    }
    if tolerance_ample(tol) {
        let (bm, gm, dm) = (s.b.magnitude() as int, marge.magnitude() as int, delta.magnitude() as int);
        let w = s.suivant(tol).valeur();
        let v = s.b.valeur() + delta.valeur();
        let n = if v < 0 {
            -v
        } else {
            v
        };
        assert(gm <= dm) by {
            if marge.inf(d.abs()) {
                clef_ordonne_les_valeurs(marge, d.abs());
            }
        }
        assert(r >= 1900);
        assert(100 * dm <= 76 * r);
        assert(n <= bm + dm);
        let err = if w < v {
            v - w
        } else {
            w - v
        };
        assert(PRECISION * err <= n + PRECISION / 2);
        assert(1000 * err <= 260 * gm + dm + 501) by (nonlinear_arith)
            requires
                PRECISION * err <= bm + dm + PRECISION / 2,
                1000 * bm <= 260 * (PRECISION * gm),
                dm >= 0,
                PRECISION == 0x20_0000_0000_0000,
        ;
        assert(err < dm);
        assert(err < r - dm);
    }
}

/// L'état après `n` pas, l'encadrement rétabli.
pub open spec fn etat_apres(
    f: spec_fn(Flottant) -> Flottant,
    etat: Encadrement,
    tol: Flottant,
    n: nat,
) -> Encadrement
    decreases n,
{
    if n == 0 {
        etat.retabli()
    } else {
        etat_apres(f, etat.retabli().avance(f, tol), tol, (n - 1) as nat)
    }
}

/// L'un des `n` premiers candidats est assez bon.
pub open spec fn aboutit(
    f: spec_fn(Flottant) -> Flottant,
    etat: Encadrement,
    tol: Flottant,
    n: nat,
) -> bool {
    exists|i: nat| i < n && (#[trigger] etat_apres(f, etat, tol, i)).abouti(tol)
}

proof fn lemme_aboutit(f: spec_fn(Flottant) -> Flottant, etat: Encadrement, tol: Flottant, n: nat)
    ensures
        cherche(f, etat, tol, n) is Some <==> aboutit(f, etat, tol, n),
    decreases n,
{
    if n > 0 {
        let s = etat.retabli();
        assert(etat_apres(f, etat, tol, 0) == s);
        let suite = s.avance(f, tol);
        lemme_aboutit(f, suite, tol, (n - 1) as nat);
        if s.abouti(tol) {
            assert(etat_apres(f, etat, tol, 0).abouti(tol));
        } else {
            if aboutit(f, suite, tol, (n - 1) as nat) {
                let i = choose|i: nat|
                    i < n - 1 && (#[trigger] etat_apres(f, suite, tol, i)).abouti(tol);
                assert(etat_apres(f, etat, tol, i + 1) == etat_apres(f, suite, tol, i));
            }
            if aboutit(f, etat, tol, n) {
                let i = choose|i: nat| i < n && (#[trigger] etat_apres(f, etat, tol, i)).abouti(tol);
                assert(i > 0);
                assert(etat_apres(f, etat, tol, i) == etat_apres(f, suite, tol, (i - 1) as nat));
            }
        }
    }
}

/// La racine est dans l'intervalle ; la fonction y est nulle, ou change de signe entre elle et
/// un autre point de l'intervalle, à la tolérance près.
pub open spec fn racine_encadree(
    f: spec_fn(Flottant) -> Flottant,
    b: Flottant,
    x1: Flottant,
    x2: Flottant,
    tol: Flottant,
) -> bool {
    &&& entre(b, x1, x2)
    &&& f(b).egal(Flottant::nul()) || exists|c: Flottant|
        {
            &&& entre(c, x1, x2)
            &&& f(b).positif() != #[trigger] f(c).positif()
            &&& Flottant::fraction(1, 2).fois(c.moins(b)).abs().infeg(
                Flottant::entier(2).fois(Flottant::fraction(1, 4_503_599_627_370_496)).fois(
                    b.abs(),
                ).plus(Flottant::fraction(1, 2).fois(tol)),
            )
        }
}

proof fn lemme_entre(x: Flottant, x1: Flottant, x2: Flottant, bas: Flottant, haut: Flottant)
    requires
        intervalle(bas, haut),
        (bas == x1 && haut == x2) || (bas == x2 && haut == x1),
        dedans(x, bas, haut),
    ensures
        entre(x, x1, x2),
{
    clef_ordonne_les_valeurs(x, bas);
    clef_ordonne_les_valeurs(haut, x);
}

proof fn lemme_cherche_encadree(
    f: spec_fn(Flottant) -> Flottant,
    etat: Encadrement,
    tol: Flottant,
    n: nat,
    x1: Flottant,
    x2: Flottant,
    bas: Flottant,
    haut: Flottant,
)
    requires
        intervalle(bas, haut),
        (bas == x1 && haut == x2) || (bas == x2 && haut == x1),
        Flottant::nul().inferieur_ou_egal(tol),
        coherent(f, etat),
        dedans(etat.a, bas, haut),
        dedans(etat.b, bas, haut),
        dedans(etat.c, bas, haut),
    ensures
        cherche(f, etat, tol, n) matches Some(v) ==> racine_encadree(f, v, x1, x2, tol),
    decreases n,
{
    if n > 0 {
        let s = etat.retabli();
        assert(coherent(f, s) && s.fb.positif() != s.fc.positif());
        if s.abouti(tol) {
            lemme_entre(s.b, x1, x2, bas, haut);
            lemme_entre(s.c, x1, x2, bas, haut);
            assert(f(s.c) == s.fc);
        } else {
            lemme_suivant(s, tol);
            lemme_cherche_encadree(f, s.avance(f, tol), tol, (n - 1) as nat, x1, x2, bas, haut);
        }
    }
}

/// La racine trouvée est dans l'intervalle de recherche, et le point qui l'encadre aussi : la
/// fonction est nulle à la première, ou change de signe de l'une à l'autre à la tolérance près.
///
/// L'intervalle a ses bouts finis et une largeur qui ne déborde pas ; la tolérance est positive
/// ou nulle.
pub proof fn la_racine_trouvee_est_encadree(
    f: spec_fn(Flottant) -> Flottant,
    x1: Flottant,
    x2: Flottant,
    tol: Flottant,
    iterations: nat,
)
    requires
        intervalle_tenable(x1, x2),
        Flottant::nul().inferieur_ou_egal(tol),
    ensures
        racine_de(f, x1, x2, tol, iterations) matches Some(b) ==> racine_encadree(
            f,
            b,
            x1,
            x2,
            tol,
        ),
{
    if encadre(f(x1), f(x2)) {
        let (bas, haut) = if x1.valeur() <= x2.valeur() {
            (x1, x2)
        } else {
            (x2, x1)
        };
        lemme_cherche_encadree(f, depart(f, x1, x2), tol, iterations, x1, x2, bas, haut);
    }
}

proof fn lemme_cherche_aboutit(
    f: spec_fn(Flottant) -> Flottant,
    etat: Encadrement,
    tol: Flottant,
    n: nat,
)
    requires
        Flottant::nul().inferieur_ou_egal(tol),
        tolerance_ample(tol),
        coherent(f, etat),
        ({
            let s = etat.retabli();
            &&& s.b.fini()
            &&& s.c.fini()
            &&& ecart(s.b, s.c) <= pow2(2097)
            &&& ecart(s.b, s.c) < n
        }),
    ensures
        cherche(f, etat, tol, n) is Some,
    decreases n,
{
    let s = etat.retabli();
    if !s.abouti(tol) {
        lemme_suivant(s, tol);
        let suite = s.avance(f, tol);
        assert(coherent(f, s) && s.fb.positif() != s.fc.positif());
        assert(suite.a == s.b && suite.c == s.c && suite.b == s.suivant(tol));
        lemme_cherche_aboutit(f, suite, tol, (n - 1) as nat);
    }
}

/// La recherche aboutit toujours : chaque pas resserre l'encadrement, de sorte que des images
/// finies et de signes opposés aux deux bouts suffisent, pour peu que les pas ne manquent pas.
pub proof fn la_recherche_aboutit(
    f: spec_fn(Flottant) -> Flottant,
    x1: Flottant,
    x2: Flottant,
    tol: Flottant,
    iterations: nat,
)
    requires
        intervalle_tenable(x1, x2),
        Flottant::nul().inferieur_ou_egal(tol),
        tolerance_ample(tol),
        iterations > ecart(x1, x2),
    ensures
        racine_de(f, x1, x2, tol, iterations) is Some <==> encadre(f(x1), f(x2)),
{
    if encadre(f(x1), f(x2)) {
        lemme_cherche_aboutit(f, depart(f, x1, x2), tol, iterations);
    }
}

/// Une racine est trouvée si et seulement si les deux bouts encadrent et que l'un des candidats
/// accordés est assez bon.
pub proof fn une_racine_se_trouve_ou_non(
    f: spec_fn(Flottant) -> Flottant,
    x1: Flottant,
    x2: Flottant,
    tol: Flottant,
    iterations: nat,
)
    ensures
        racine_de(f, x1, x2, tol, iterations) is Some <==> encadre(f(x1), f(x2)) && aboutit(
            f,
            depart(f, x1, x2),
            tol,
            iterations,
        ),
{
    lemme_aboutit(f, depart(f, x1, x2), tol, iterations);
}

proof fn lemme_bornes_de_recherche()
    ensures
        intervalle_tenable(vol_min(), vol_max()),
        0 < vol_min().valeur() <= vol_max().valeur(),
        vol_max().magnitude() == 5 * pow2(1074),
        Flottant::nul().inferieur_ou_egal(tolerance()),
        tolerance_ample(tolerance()),
        200_000_000 * Flottant::fraction(1, 2).fois(tolerance()).magnitude() <= 101 * pow2(1074)
            / 100,
{
    let u = pow2(1074);
    lemma_pow2_pos(1074);
    lemma2_to64();
    un_entier_est_exact(5);
    let cinq = vol_max();
    assert(1 * u == u);
    assert(vol_min().fini() && !vol_min().negatif() && 0 < vol_min().magnitude() <= 5 * u) by {
        reveal(rapport);
        assert(1 * u <= cinq.magnitude() * 1_000_000) by (nonlinear_arith)
            requires
                cinq.magnitude() == 5 * u,
        ;
        lemme_arrondi_encadre(false, 1 * u, 1_000_000);
        lemme_arrondi_sous(false, 1 * u, 1_000_000, cinq);
        let f = lemme_puissance(1000);
        lemma_pow2_adds(1000, 74);
        lemma_pow2_strictly_increases(32, 74);
        assert(1 * u >= f.magnitude() * 1_000_000) by (nonlinear_arith)
            requires
                u == f.magnitude() * pow2(74),
                pow2(74) >= 1_000_000,
        ;
        lemme_arrondi_sur(false, 1 * u, 1_000_000, f);
        lemma_pow2_pos(1000);
    }
    assert(5 * u <= pow2(2097)) by {
        lemma_pow2_adds(1074, 26);
        lemma_pow2_strictly_increases(1100, 2097);
        assert(5 * u <= u * pow2(26)) by (nonlinear_arith)
            requires
                pow2(26) >= 5,
        ;
    }
    let tol = tolerance();
    let un = rapport(1, 1);
    un_entier_est_exact(1);
    let f = lemme_puissance(1000);
    assert(tol.fini() && !tol.negatif() && tol.magnitude() >= pow2(1000) && tol.magnitude() <= u
        && PRECISION * (tol.magnitude() * 100_000_000) <= PRECISION * u + u + (PRECISION / 2)
        * 100_000_000) by {
        reveal(rapport);
        assert(1 * u <= un.magnitude() * 100_000_000) by (nonlinear_arith)
            requires
                un.magnitude() == 1 * u,
        ;
        lemme_arrondi_encadre(false, 1 * u, 100_000_000);
        lemme_arrondi_sous(false, 1 * u, 100_000_000, un);
        lemma_pow2_adds(1000, 74);
        lemma_pow2_strictly_increases(32, 74);
        assert(1 * u >= f.magnitude() * 100_000_000) by (nonlinear_arith)
            requires
                u == f.magnitude() * pow2(74),
                pow2(74) >= 100_000_000,
        ;
        lemme_arrondi_sur(false, 1 * u, 100_000_000, f);
    }
    lemme_un_demi();
    let demi = Flottant::fraction(1, 2);
    let h = demi.fois(tol);
    lemme_produit_encadre(demi, tol);
    lemma_pow2_unfold(1074);
    lemma_pow2_unfold(1000);
    reveal(Flottant::produit);
    assert(demi.magnitude() * tol.magnitude() <= tol.magnitude() * u) by (nonlinear_arith)
        requires
            u == 2 * demi.magnitude(),
    ;
    lemme_arrondi_sous(false, demi.magnitude() * tol.magnitude(), u, tol);
    let g = lemme_puissance(999);
    assert(demi.magnitude() * tol.magnitude() >= g.magnitude() * u) by (nonlinear_arith)
        requires
            u == 2 * demi.magnitude(),
            tol.magnitude() >= 2 * g.magnitude(),
    ;
    lemme_arrondi_sur(false, demi.magnitude() * tol.magnitude(), u, g);
    lemma_pow2_strictly_increases(10, 999);
    let (tm, hm) = (tol.magnitude() as int, h.magnitude() as int);
    let q = demi.magnitude() as int;
    assert(2 * (PRECISION * hm) <= (PRECISION + 1) * tm + PRECISION) by (nonlinear_arith)
        requires
            PRECISION * (hm * u) <= PRECISION * (q * tm) + q * tm + (PRECISION / 2) * u,
            u == 2 * q,
            q > 0,
            2 * (PRECISION / 2) == PRECISION,
    ;
    lemma_pow2_adds(64, 1010);
    lemma_pow2_pos(1010);
    assert(u >= 0x1_0000_0000_0000_0000) by (nonlinear_arith)
        requires
            u == pow2(64) * pow2(1010),
            pow2(64) == 0x1_0000_0000_0000_0000,
            pow2(1010) >= 1,
    ;
    let p: int = 0x20_0000_0000_0000;
    assert(1000 * (tm * 100_000_000) <= 1001 * u + 60_000_000_000) by (nonlinear_arith)
        requires
            p * (tm * 100_000_000) <= p * u + u + (p / 2) * 100_000_000,
            p == 0x20_0000_0000_0000,
            u >= 0,
    ;
    assert(2000 * hm <= 1001 * tm + 1000) by (nonlinear_arith)
        requires
            2 * (p * hm) <= (p + 1) * tm + p,
            p == 0x20_0000_0000_0000,
            tm >= 0,
    ;
}

/// Ce que la recherche annule : le prix moins la prime.
pub open spec fn erreur_de_prix(
    ln: spec_fn(Flottant) -> Flottant,
    exp: spec_fn(Flottant) -> Flottant,
    erfc: spec_fn(Flottant) -> Flottant,
    prime: Flottant,
    f: Flottant,
    k: Flottant,
    t: Flottant,
    r: Flottant,
    sens: Sens,
) -> spec_fn(Flottant) -> Flottant {
    |vol: Flottant| prime_de(ln, exp, erfc, f, k, vol, t, r, sens).moins(prime)
}

/// La prime se cherche : elle est finie, il reste du temps, et elle passe l'intrinsèque
/// actualisé.
pub open spec fn prime_explicable(
    exp: spec_fn(Flottant) -> Flottant,
    prime: Flottant,
    f: Flottant,
    k: Flottant,
    t: Flottant,
    r: Flottant,
    sens: Sens,
) -> bool {
    &&& prime.fini()
    &&& !t.infeg(Flottant::nul())
    &&& !prime.infeg(sens.valeur_intrinseque(f, k).fois(exp(r.neg().fois(t))))
}

/// La volatilité trouvée est dans l'intervalle de recherche, quels que soient le prix, la
/// prime, et les fonctions qui les calculent.
pub proof fn la_volatilite_trouvee_est_dans_l_intervalle(
    ln: spec_fn(Flottant) -> Flottant,
    exp: spec_fn(Flottant) -> Flottant,
    erfc: spec_fn(Flottant) -> Flottant,
    prime: Flottant,
    f: Flottant,
    k: Flottant,
    t: Flottant,
    r: Flottant,
    sens: Sens,
)
    ensures
        volatilite_voulue(ln, exp, erfc, prime, f, k, t, r, sens) matches Some(v) ==> {
            &&& vol_min().inferieur_ou_egal(v) && v.inferieur_ou_egal(vol_max())
            &&& racine_encadree(
                erreur_de_prix(ln, exp, erfc, prime, f, k, t, r, sens),
                v,
                vol_min(),
                vol_max(),
                tolerance(),
            )
        },
{
    let g = erreur_de_prix(ln, exp, erfc, prime, f, k, t, r, sens);
    lemme_bornes_de_recherche();
    la_racine_trouvee_est_encadree(g, vol_min(), vol_max(), tolerance(), ITERATIONS_MAX as nat);
    if let Some(v) = volatilite_voulue(ln, exp, erfc, prime, f, k, t, r, sens) {
        lemme_du_bon_cote(v);
    }
}

proof fn lemme_du_bon_cote(v: Flottant)
    requires
        entre(v, vol_min(), vol_max()),
    ensures
        vol_min().inferieur_ou_egal(v),
        v.inferieur_ou_egal(vol_max()),
        v.fini(),
        v.magnitude() <= 5 * pow2(1074),
{
    lemme_bornes_de_recherche();
    clef_ordonne_les_valeurs(vol_max(), vol_min());
    assert(v.fini());
    clef_ordonne_les_valeurs(vol_max(), v);
    clef_ordonne_les_valeurs(v, vol_min());
}

/// Une volatilité est trouvée si et seulement si la prime se cherche, que les prix aux deux
/// bouts de l'intervalle l'encadrent, et que l'un des candidats accordés est assez bon.
pub proof fn une_volatilite_se_trouve_ou_non(
    ln: spec_fn(Flottant) -> Flottant,
    exp: spec_fn(Flottant) -> Flottant,
    erfc: spec_fn(Flottant) -> Flottant,
    prime: Flottant,
    f: Flottant,
    k: Flottant,
    t: Flottant,
    r: Flottant,
    sens: Sens,
)
    ensures
        ({
            let g = erreur_de_prix(ln, exp, erfc, prime, f, k, t, r, sens);
            volatilite_voulue(ln, exp, erfc, prime, f, k, t, r, sens) is Some
                <==> prime_explicable(exp, prime, f, k, t, r, sens) && encadre(
                g(vol_min()),
                g(vol_max()),
            ) && aboutit(g, depart(g, vol_min(), vol_max()), tolerance(), ITERATIONS_MAX as nat)
        }),
{
    let g = erreur_de_prix(ln, exp, erfc, prime, f, k, t, r, sens);
    une_racine_se_trouve_ou_non(g, vol_min(), vol_max(), tolerance(), ITERATIONS_MAX as nat);
}

/// Dans l'intervalle de recherche, le prix est sous la prime avant `bas`, et au-dessus après
/// `haut`.
pub open spec fn prime_franchie(
    ln: spec_fn(Flottant) -> Flottant,
    exp: spec_fn(Flottant) -> Flottant,
    erfc: spec_fn(Flottant) -> Flottant,
    prime: Flottant,
    f: Flottant,
    k: Flottant,
    t: Flottant,
    r: Flottant,
    sens: Sens,
    bas: Flottant,
    haut: Flottant,
) -> bool {
    forall|vol: Flottant|
        vol_min().inferieur_ou_egal(vol) && vol.inferieur_ou_egal(vol_max()) ==> {
            let e = #[trigger] erreur_de_prix(ln, exp, erfc, prime, f, k, t, r, sens)(vol);
            &&& vol.inferieur(bas) ==> e.inferieur(Flottant::nul())
            &&& haut.inferieur(vol) ==> e.positif()
        }
}

/// Deux points que la tolérance de recherche confond sont à moins de deux cent-millionièmes.
proof fn lemme_proches(v: Flottant, c: Flottant)
    requires
        entre(v, vol_min(), vol_max()),
        entre(c, vol_min(), vol_max()),
        Flottant::fraction(1, 2).fois(c.moins(v)).abs().infeg(
            Flottant::entier(2).fois(Flottant::fraction(1, 4_503_599_627_370_496)).fois(
                v.abs(),
            ).plus(Flottant::fraction(1, 2).fois(tolerance())),
        ),
    ensures
        50_000_000 * ecart(v, c) <= pow2(1074),
{
    let u = pow2(1074);
    let g = |x: Flottant| x;
    let s = Encadrement { b: v, c, ..depart(g, v, c) };
    let tol = tolerance();
    let h = Flottant::fraction(1, 2).fois(tol);
    let xm = s.demi();
    lemme_bornes_de_recherche();
    lemme_du_bon_cote(v);
    lemme_du_bon_cote(c);
    clef_ordonne_les_valeurs(vol_max(), v);
    clef_ordonne_les_valeurs(v, vol_min());
    clef_ordonne_les_valeurs(vol_max(), c);
    clef_ordonne_les_valeurs(c, vol_min());
    assert(ecart(v, c) <= ecart(vol_min(), vol_max()));
    lemme_demi(v, c);
    lemme_marge(s, tol);
    lemme_oppose(xm);
    let marge = s.marge(tol);
    lemma2_to64();
    lemma_pow2_adds(64, 1010);
    lemma_pow2_pos(1010);
    assert(u >= 0x1_0000_0000_0000_0000) by (nonlinear_arith)
        requires
            u == pow2(64) * pow2(1010),
            pow2(64) == 0x1_0000_0000_0000_0000,
            pow2(1010) >= 1,
    ;
    lemma_pow2_adds(1074, 26);
    lemma_pow2_strictly_increases(1100, 2097);
    assert(6 * u <= pow2(2097)) by (nonlinear_arith)
        requires
            pow2(1100) == u * pow2(26),
            pow2(26) >= 6,
            pow2(1100) < pow2(2097),
    ;
    assert(marge.fini());
    clef_ordonne_les_valeurs(marge, xm.abs());
    let (mm, r) = (marge.magnitude() as int, ecart(v, c) as int);
    assert(xm.magnitude() <= mm);
    assert(PRECISION * mm <= (PRECISION + 1) * h.magnitude() + 25 * u + 2 * PRECISION);
    assert(100_000_000 * mm <= 51 * u / 100 + 1) by (nonlinear_arith)
        requires
            PRECISION * mm <= (PRECISION + 1) * h.magnitude() + 25 * u + 2 * PRECISION,
            200_000_000 * h.magnitude() <= 101 * u / 100,
            u >= 0x1_0000_0000_0000_0000,
            PRECISION == 0x20_0000_0000_0000,
    ;
    assert(1000 * r <= 2002 * mm + 3000);
}

/// La volatilité injectée se retrouve.
///
/// Si, dans l'intervalle de recherche, le prix ne passe par la prime qu'entre `bas` et `haut`,
/// la volatilité trouvée est à moins de deux cent-millionièmes de cette zone. Et si la zone ne
/// touche pas les bouts, où le prix est fini, une volatilité est trouvée dès que l'un des
/// candidats accordés est assez bon.
pub proof fn la_volatilite_injectee_se_retrouve(
    ln: spec_fn(Flottant) -> Flottant,
    exp: spec_fn(Flottant) -> Flottant,
    erfc: spec_fn(Flottant) -> Flottant,
    prime: Flottant,
    f: Flottant,
    k: Flottant,
    t: Flottant,
    r: Flottant,
    sens: Sens,
    bas: Flottant,
    haut: Flottant,
)
    requires
        bas.fini(),
        haut.fini(),
        prime_franchie(ln, exp, erfc, prime, f, k, t, r, sens, bas, haut),
    ensures
        volatilite_voulue(ln, exp, erfc, prime, f, k, t, r, sens) matches Some(v) ==> {
            &&& 50_000_000 * (bas.valeur() - v.valeur()) <= pow2(1074)
            &&& 50_000_000 * (v.valeur() - haut.valeur()) <= pow2(1074)
        },
        ({
            let g = erreur_de_prix(ln, exp, erfc, prime, f, k, t, r, sens);
            &&& vol_min().inferieur(bas)
            &&& haut.inferieur(vol_max())
            &&& g(vol_min()).fini()
            &&& g(vol_max()).fini()
            &&& prime_explicable(exp, prime, f, k, t, r, sens)
            &&& aboutit(g, depart(g, vol_min(), vol_max()), tolerance(), ITERATIONS_MAX as nat)
        }) ==> volatilite_voulue(ln, exp, erfc, prime, f, k, t, r, sens) is Some,
{
    let g = erreur_de_prix(ln, exp, erfc, prime, f, k, t, r, sens);
    lemma_pow2_pos(1074);
    lemme_bornes_de_recherche();
    clef_ordonne_les_valeurs(vol_max(), vol_min());
    une_volatilite_se_trouve_ou_non(ln, exp, erfc, prime, f, k, t, r, sens);
    assert(vol_min().inferieur(bas) ==> g(vol_min()).inferieur(Flottant::nul()));
    assert(haut.inferieur(vol_max()) ==> g(vol_max()).positif());
    la_volatilite_trouvee_est_dans_l_intervalle(ln, exp, erfc, prime, f, k, t, r, sens);
    if let Some(v) = volatilite_voulue(ln, exp, erfc, prime, f, k, t, r, sens) {
        lemme_du_bon_cote(v);
        clef_ordonne_les_valeurs(v, bas);
        clef_ordonne_les_valeurs(haut, v);
        if !g(v).egal(Flottant::nul()) {
            let c = choose|c: Flottant|
                {
                    &&& entre(c, vol_min(), vol_max())
                    &&& g(v).positif() != #[trigger] g(c).positif()
                    &&& Flottant::fraction(1, 2).fois(c.moins(v)).abs().infeg(
                        Flottant::entier(2).fois(
                            Flottant::fraction(1, 4_503_599_627_370_496),
                        ).fois(v.abs()).plus(Flottant::fraction(1, 2).fois(tolerance())),
                    )
                };
            lemme_du_bon_cote(c);
            lemme_proches(v, c);
            clef_ordonne_les_valeurs(c, bas);
            clef_ordonne_les_valeurs(haut, c);
        }
    }
}

} // verus!
