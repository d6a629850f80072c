//! Sur les entiers, l'arithmétique arrondie est exacte tant qu'elle tient sur cinquante-trois
//! bits.

#[allow(unused_imports)]
use crate::erreur::{lemme_arrondi_encadre, lemme_signe_a_part};
#[allow(unused_imports)]
use crate::flottant::{
    arrondi, lemme_arrondi_a_l_echelle, lemme_arrondi_nul, lemme_magnitude_nulle, rapport,
    un_entier_est_exact, Flottant,
};
#[allow(unused_imports)]
use vstd::arithmetic::power2::*;
use vstd::prelude::*;

verus! {

/// Un entier que le format représente exactement.
pub open spec fn petit(x: int) -> bool {
    -0x20_0000_0000_0000 < x < 0x20_0000_0000_0000
}

/// La valeur d'un petit entier est cet entier.
pub proof fn un_petit_entier_est_exact(x: int)
    requires
        petit(x),
    ensures
        rapport(x, 1).fini(),
        rapport(x, 1).valeur() == x * pow2(1074),
        rapport(x, 1).negatif() == (x < 0),
        rapport(x, 1).magnitude() == (if x < 0 { -x } else { x }) * pow2(1074),
        rapport(x, 1).rang() == 0 <==> x == 0,
{
    let n = if x < 0 { -x } else { x };
    un_entier_est_exact(n as nat);
    reveal(rapport);
    let u = pow2(1074);
    lemma_pow2_pos(1074);
    assert(x < 0 ==> x * u == -(n * u)) by (nonlinear_arith)
        requires
            x < 0 ==> n == -x,
    ;
    if x < 0 {
        lemme_arrondi_encadre(true, n as nat * u, 1);
        lemme_signe_a_part(true, n as nat * u, 1);
        lemme_meme_magnitude(arrondi(true, n as nat * u, 1), arrondi(false, n as nat * u, 1));
    }
    lemme_magnitude_nulle(rapport(x, 1));
    assert(n * u == 0 <==> n == 0) by (nonlinear_arith)
        requires
            u > 0,
    ;
}

proof fn lemme_meme_magnitude(f: Flottant, g: Flottant)
    requires
        f.rang() == g.rang(),
    ensures
        f.magnitude() == g.magnitude(),
        f.fini() == g.fini(),
{
    reveal(Flottant::magnitude);
}

/// La somme de deux petits entiers est leur somme.
pub proof fn la_somme_de_petits_entiers_est_exacte(x: int, y: int)
    requires
        petit(x),
        petit(y),
    ensures
        rapport(x, 1).somme(rapport(y, 1)) == rapport(x + y, 1),
{
    un_petit_entier_est_exact(x);
    un_petit_entier_est_exact(y);
    let u = pow2(1074);
    lemma_pow2_pos(1074);
    assert(x * u + y * u == (x + y) * u) by (nonlinear_arith);
    let s = x + y;
    assert((s > 0 ==> s * u > 0) && (s < 0 ==> s * u < 0) && (s == 0 ==> s * u == 0)
        && -(s * u) == (-s) * u) by (nonlinear_arith)
        requires
            u > 0,
    ;
    reveal(Flottant::somme);
    reveal(rapport);
    if s == 0 {
        lemme_arrondi_nul(false, 0, 1, 0);
        assert(0nat * u == 0);
    }
}

/// La différence de deux petits entiers est leur différence.
pub proof fn la_difference_de_petits_entiers_est_exacte(x: int, y: int)
    requires
        petit(x),
        petit(y),
    ensures
        rapport(x, 1).difference(rapport(y, 1)) == rapport(x - y, 1),
{
    un_petit_entier_est_exact(x);
    un_petit_entier_est_exact(y);
    un_petit_entier_est_exact(-y);
    if y != 0 {
        reveal(rapport);
        let n = if y < 0 { -y } else { y };
        lemme_signe_a_part(true, n as nat * pow2(1074), 1);
        lemme_signe_a_part(false, n as nat * pow2(1074), 1);
        assert(rapport(y, 1).oppose() == rapport(-y, 1));
        la_somme_de_petits_entiers_est_exacte(x, -y);
    } else {
        let u = pow2(1074);
        crate::ordre::lemme_oppose(rapport(0, 1));
        let z = rapport(0, 1).oppose();
        lemma_pow2_pos(1074);
        assert((x > 0 ==> x * u > 0) && (x < 0 ==> x * u < 0) && (x == 0 ==> x * u == 0)
            && -(x * u) == (-x) * u) by (nonlinear_arith)
            requires
                u > 0,
        ;
        reveal(Flottant::somme);
        reveal(rapport);
        if x == 0 {
            lemme_arrondi_nul(false, 0, 1, 0);
            assert(0nat * u == 0);
        }
    }
}

/// Un arrondi ne dépend que du rapport.
proof fn lemme_arrondi_simplifie(negatif: bool, n: nat, c: nat)
    requires
        c > 0,
    ensures
        arrondi(negatif, n * c, c) == arrondi(negatif, n, 1),
{
    lemme_arrondi_a_l_echelle(n, c);
    lemme_signe_a_part(negatif, n * c, c);
    lemme_signe_a_part(negatif, n, 1);
    lemme_arrondi_encadre(negatif, n * c, c);
    lemme_arrondi_encadre(negatif, n, 1);
}

/// Le produit de deux petits entiers est leur produit, s'il n'est pas nul.
pub proof fn le_produit_de_petits_entiers_est_exact(x: int, y: int)
    requires
        petit(x),
        petit(y),
        petit(x * y),
    ensures
        x * y != 0 || (x >= 0 && y >= 0) ==> rapport(x, 1).produit(rapport(y, 1)) == rapport(
            x * y,
            1,
        ),
        x * y == 0 ==> rapport(x, 1).produit(rapport(y, 1)).rang() == 0,
{
    un_petit_entier_est_exact(x);
    un_petit_entier_est_exact(y);
    un_petit_entier_est_exact(x * y);
    let u = pow2(1074);
    lemma_pow2_pos(1074);
    let (a, b) = (if x < 0 { -x } else { x }, if y < 0 { -y } else { y });
    let n = (a * b) as nat;
    assert(a * b >= 0) by (nonlinear_arith)
        requires
            a >= 0,
            b >= 0,
    ;
    assert((a * u) * (b * u) == (n * u) * u) by (nonlinear_arith)
        requires
            n == a * b,
    ;
    reveal(Flottant::produit);
    let negatif = (x < 0) != (y < 0);
    lemme_arrondi_simplifie(negatif, n * u, u);
    assert(x * y == if negatif { -(n as int) } else { n as int }) by (nonlinear_arith)
        requires
            n == a * b,
            a == if x < 0 { -x } else { x },
            b == if y < 0 { -y } else { y },
            negatif == ((x < 0) != (y < 0)),
    ;
    reveal(rapport);
    if n == 0 {
        assert(0nat * u == 0);
        lemme_arrondi_nul(negatif, 0, 1, 0);
    }
}

/// Un multiple entier se divise exactement.
pub proof fn le_quotient_d_un_multiple_est_exact(p: int, d: int)
    requires
        petit(p),
        petit(d),
        petit(p * d),
        p != 0,
        d != 0,
    ensures
        rapport(p * d, 1).quotient(rapport(d, 1)) == rapport(p, 1),
{
    let m = p * d;
    assert(m != 0) by (nonlinear_arith)
        requires
            m == p * d,
            p != 0,
            d != 0,
    ;
    un_petit_entier_est_exact(p);
    un_petit_entier_est_exact(d);
    un_petit_entier_est_exact(m);
    let u = pow2(1074);
    lemma_pow2_pos(1074);
    let (a, b, c) = (
        if m < 0 { -m } else { m },
        if d < 0 { -d } else { d },
        if p < 0 { -p } else { p },
    );
    assert(a == c * b && (p < 0) == ((m < 0) != (d < 0))) by (nonlinear_arith)
        requires
            m == p * d,
            p != 0,
            d != 0,
            a == if m < 0 { -m } else { m },
            b == if d < 0 { -d } else { d },
            c == if p < 0 { -p } else { p },
    ;
    assert((a * u) * u == (c * u) * (b * u)) by (nonlinear_arith)
        requires
            a == c * b,
    ;
    assert(b * u > 0) by (nonlinear_arith)
        requires
            b > 0,
            u > 0,
    ;
    reveal(Flottant::quotient);
    lemme_arrondi_simplifie(p < 0, c as nat * u, b as nat * u);
    reveal(rapport);
}

/// Tout sur tout fait un, rien sur tout fait zéro.
pub(crate) proof fn lemme_part_extreme(n: int)
    requires
        0 < n,
        petit(n),
    ensures
        rapport(n, 1).quotient(rapport(n, 1)) == rapport(1, 1),
        rapport(0, 1).quotient(rapport(n, 1)).rang() == 0,
{
    un_petit_entier_est_exact(n);
    un_petit_entier_est_exact(0);
    let (z, c) = (rapport(0, 1), rapport(n, 1));
    crate::flottant::lemme_quotient_par_soi(c);
    assert(!z.quotient(c).nan()) by {
        reveal(Flottant::quotient);
        lemme_magnitude_nulle(c);
        lemme_arrondi_encadre(
            z.negatif() != c.negatif(),
            z.magnitude() * pow2(1074),
            c.magnitude(),
        );
    }
    crate::ordre::lemme_zero_absorbe(z, c);
}

} // verus!
