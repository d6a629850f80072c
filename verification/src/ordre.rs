//! L'arithmétique arrondie garde l'ordre, les signes et la symétrie de l'arithmétique exacte.

#[allow(unused_imports)]
use crate::court::un_nombre_fini_est_son_arrondi;
#[allow(unused_imports)]
use crate::erreur::{
    lemme_arrondi_croit, lemme_arrondi_encadre, lemme_arrondi_sous, lemme_signe_a_part,
};
#[allow(unused_imports)]
use crate::flottant::{
    arrondi, arrondi_racine, clef_ordonne_les_valeurs, lemme_arrondi_nul, lemme_arrondi_positif,
    lemme_magnitude_nulle, lemme_produit_nul,
    lemme_racine_entiere, racine_entiere, rapport, un_entier_est_exact, Flottant, CODE_INFINI,
};
#[allow(unused_imports)]
use vstd::arithmetic::power2::*;
use vstd::prelude::*;

verus! {

/// La clef du flottant le plus proche de `v / d` unités.
spec fn position(v: int, d: nat) -> int {
    if v >= 0 {
        arrondi(false, v as nat, d).rang()
    } else {
        -arrondi(false, (-v) as nat, d).rang()
    }
}

proof fn lemme_position(negatif: bool, n: nat, d: nat)
    requires
        d > 0,
    ensures
        ({
            let f = arrondi(negatif, n, d);
            &&& !f.nan()
            &&& f.negatif() == negatif
            &&& f.clef() == position(if negatif { -(n as int) } else { n as int }, d)
        }),
{
    lemme_arrondi_encadre(negatif, n, d);
    lemme_signe_a_part(negatif, n, d);
    if n == 0 {
        lemme_arrondi_nul(false, 0, d, 0);
    }
}

proof fn lemme_position_bornee(v: int, d: nat)
    requires
        d > 0,
    ensures
        -CODE_INFINI <= position(v, d) <= CODE_INFINI,
        v >= 0 ==> position(v, d) >= 0,
        v <= 0 ==> position(v, d) <= 0,
        position(0, d) == 0,
        position(-v, d) == -position(v, d),
{
    lemme_arrondi_nul(false, 0, d, 0);
    if v >= 0 {
        lemme_arrondi_encadre(false, v as nat, d);
    } else {
        lemme_arrondi_encadre(false, (-v) as nat, d);
    }
}

proof fn lemme_position_croit(v1: int, d1: nat, v2: int, d2: nat)
    requires
        d1 > 0,
        d2 > 0,
        v1 * d2 <= v2 * d1,
    ensures
        position(v1, d1) <= position(v2, d2),
{
    lemme_position_bornee(v1, d1);
    lemme_position_bornee(v2, d2);
    if v1 >= 0 {
        assert(v2 >= 0) by (nonlinear_arith)
            requires
                v1 * d2 <= v2 * d1,
                v1 >= 0,
                d1 > 0,
                d2 > 0,
        ;
        lemme_arrondi_croit(v1 as nat, d1, v2 as nat, d2);
    } else if v2 < 0 {
        assert((-v2) * d1 <= (-v1) * d2) by (nonlinear_arith)
            requires
                v1 * d2 <= v2 * d1,
        ;
        lemme_arrondi_croit((-v2) as nat, d2, (-v1) as nat, d1);
    }
}

/// La clef d'un nombre fini est celle de sa valeur.
proof fn lemme_position_exacte(a: Flottant)
    requires
        a.fini(),
    ensures
        a.clef() == position(a.valeur(), 1),
{
    un_nombre_fini_est_son_arrondi(a, 1);
    assert(a.magnitude() * 1 == a.magnitude());
    lemme_position(a.negatif(), a.magnitude(), 1);
}

/// Deux nombres de même valeur sont le même, ou sont deux zéros.
pub(crate) proof fn lemme_meme_valeur(a: Flottant, b: Flottant)
    requires
        a.de_meme_valeur(b),
    ensures
        a == b || (a.rang() == 0 && b.rang() == 0),
        a.rang() == b.rang(),
        a.fini() == b.fini(),
{
}

proof fn lemme_somme_finie(a: Flottant, b: Flottant)
    requires
        a.fini(),
        b.fini(),
    ensures
        !a.somme(b).nan(),
        a.somme(b).clef() == position(a.valeur() + b.valeur(), 1),
{
    reveal(Flottant::somme);
    let v = a.valeur() + b.valeur();
    lemme_position_bornee(0, 1);
    if v > 0 {
        lemme_position(false, v as nat, 1);
    } else if v < 0 {
        lemme_position(true, (-v) as nat, 1);
    }
}

/// L'addition commute.
pub(crate) proof fn lemme_somme_commute(a: Flottant, b: Flottant)
    ensures
        a.somme(b) == b.somme(a),
{
    reveal(Flottant::somme);
}

/// Ajouter zéro ne change pas une valeur.
pub(crate) proof fn lemme_somme_zero(a: Flottant, z: Flottant)
    requires
        !a.nan(),
        z.rang() == 0,
    ensures
        a.somme(z).de_meme_valeur(a),
        z.somme(a).de_meme_valeur(a),
{
    lemme_somme_commute(a, z);
    lemme_magnitude_nulle(z);
    if a.fini() {
        lemme_somme_finie(a, z);
        lemme_position_exacte(a);
    } else {
        reveal(Flottant::somme);
    }
}

/// L'addition garde l'ordre.
pub(crate) proof fn lemme_somme_croit(a: Flottant, b: Flottant, c: Flottant)
    requires
        a.inferieur_ou_egal(b),
        !a.somme(c).nan(),
        !b.somme(c).nan(),
    ensures
        a.somme(c).inferieur_ou_egal(b.somme(c)),
{
    reveal(Flottant::somme);
    if a.fini() && b.fini() && c.fini() {
        clef_ordonne_les_valeurs(a, b);
        lemme_somme_finie(a, c);
        lemme_somme_finie(b, c);
        lemme_position_croit(a.valeur() + c.valeur(), 1, b.valeur() + c.valeur(), 1);
    } else if c.fini() {
        if a.fini() {
            lemme_somme_finie(a, c);
            lemme_position_bornee(a.valeur() + c.valeur(), 1);
        }
        if b.fini() {
            lemme_somme_finie(b, c);
            lemme_position_bornee(b.valeur() + c.valeur(), 1);
        }
    }
}

/// L'opposé d'une somme est la somme des opposés.
pub(crate) proof fn lemme_somme_opposee(a: Flottant, b: Flottant)
    ensures
        a.oppose().somme(b.oppose()).nan() == a.somme(b).nan(),
        !a.somme(b).nan() ==> a.oppose().somme(b.oppose()).clef() == -a.somme(b).clef(),
{
    lemme_oppose(a);
    lemme_oppose(b);
    if a.fini() && b.fini() {
        lemme_somme_finie(a, b);
        lemme_somme_finie(a.oppose(), b.oppose());
        lemme_position_bornee(a.valeur() + b.valeur(), 1);
    } else {
        reveal(Flottant::somme);
    }
}

/// L'opposé a la valeur opposée.
pub(crate) proof fn lemme_oppose(a: Flottant)
    ensures
        a.oppose().rang() == a.rang(),
        a.oppose().clef() == -a.clef(),
        a.oppose().nan() == a.nan(),
        a.oppose().fini() == a.fini(),
        a.oppose().negatif() == !a.negatif(),
        a.oppose().magnitude() == a.magnitude(),
        a.oppose().valeur() == -a.valeur(),
        a.oppose().oppose() == a,
        a.valeur_absolue().rang() == a.rang(),
        a.valeur_absolue().clef() == a.rang(),
        a.valeur_absolue().magnitude() == a.magnitude(),
{
    reveal(Flottant::magnitude);
}

/// Retrancher dans l'autre sens donne l'opposé.
pub(crate) proof fn lemme_difference_opposee(a: Flottant, b: Flottant)
    ensures
        b.difference(a).nan() == a.difference(b).nan(),
        !a.difference(b).nan() ==> b.difference(a).clef() == -a.difference(b).clef(),
{
    lemme_somme_opposee(a, b.oppose());
    lemme_oppose(b);
    lemme_somme_commute(a.oppose(), b);
}

/// La différence de deux nombres finis a le signe de leur ordre, et croît avec eux.
pub(crate) proof fn lemme_difference_ordonnee(a: Flottant, b: Flottant)
    requires
        a.fini(),
        b.fini(),
        a.inferieur_ou_egal(b),
    ensures
        !b.difference(a).nan(),
        b.difference(a).clef() >= 0,
        a.difference(b).clef() <= 0,
        a.de_meme_valeur(b) ==> b.difference(a).clef() == 0,
{
    lemme_oppose(a);
    lemme_oppose(b);
    clef_ordonne_les_valeurs(a, b);
    lemme_somme_finie(b, a.oppose());
    lemme_position_bornee(b.valeur() - a.valeur(), 1);
    lemme_difference_opposee(b, a);
}

proof fn lemme_produit_fini(a: Flottant, b: Flottant)
    requires
        a.fini(),
        b.fini(),
    ensures
        !a.produit(b).nan(),
        a.produit(b).clef() == position(a.valeur() * b.valeur(), pow2(1074)),
        a.produit(b).negatif() == (a.negatif() != b.negatif()),
{
    reveal(Flottant::produit);
    lemma_pow2_pos(1074);
    let n = a.magnitude() * b.magnitude();
    let negatif = a.negatif() != b.negatif();
    lemme_position(negatif, n, pow2(1074));
    assert(a.valeur() * b.valeur() == if negatif { -(n as int) } else { n as int })
        by (nonlinear_arith)
        requires
            n == a.magnitude() * b.magnitude(),
            negatif == (a.negatif() != b.negatif()),
            a.valeur() == if a.negatif() { -(a.magnitude() as int) } else { a.magnitude() as int },
            b.valeur() == if b.negatif() { -(b.magnitude() as int) } else { b.magnitude() as int },
    ;
}

/// La multiplication commute.
pub(crate) proof fn lemme_produit_commute(a: Flottant, b: Flottant)
    ensures
        a.produit(b) == b.produit(a),
{
    reveal(Flottant::produit);
    assert(a.magnitude() * b.magnitude() == b.magnitude() * a.magnitude()) by (nonlinear_arith);
}

/// Le produit par un opposé est l'opposé du produit.
pub(crate) proof fn lemme_produit_oppose(a: Flottant, b: Flottant)
    ensures
        a.oppose().produit(b).nan() == a.produit(b).nan(),
        !a.produit(b).nan() ==> a.oppose().produit(b).clef() == -a.produit(b).clef(),
{
    lemme_oppose(a);
    if a.fini() && b.fini() {
        lemme_produit_fini(a, b);
        lemme_produit_fini(a.oppose(), b);
        lemma_pow2_pos(1074);
        lemme_position_bornee(a.valeur() * b.valeur(), pow2(1074));
        assert((-a.valeur()) * b.valeur() == -(a.valeur() * b.valeur())) by (nonlinear_arith);
    } else {
        reveal(Flottant::produit);
    }
}

/// Le signe d'un produit.
pub(crate) proof fn lemme_signe_du_produit(a: Flottant, b: Flottant)
    requires
        !a.produit(b).nan(),
    ensures
        a.clef() >= 0 && b.clef() >= 0 ==> a.produit(b).clef() >= 0,
        a.clef() <= 0 && b.clef() <= 0 ==> a.produit(b).clef() >= 0,
        a.clef() <= 0 && b.clef() >= 0 ==> a.produit(b).clef() <= 0,
        a.clef() >= 0 && b.clef() <= 0 ==> a.produit(b).clef() <= 0,
{
    reveal(Flottant::produit);
    lemma_pow2_pos(1074);
    lemme_magnitude_nulle(a);
    lemme_magnitude_nulle(b);
    if a.fini() && b.fini() {
        lemme_produit_fini(a, b);
        if a.rang() == 0 || b.rang() == 0 {
            assert(a.valeur() * b.valeur() == 0) by (nonlinear_arith)
                requires
                    a.valeur() == 0 || b.valeur() == 0,
            ;
            lemme_position_bornee(0, pow2(1074));
        }
    }
}

/// Multiplier par un nombre positif garde l'ordre.
pub(crate) proof fn lemme_produit_croit(a: Flottant, b: Flottant, c: Flottant)
    requires
        a.inferieur_ou_egal(b),
        c.clef() >= 0,
        !a.produit(c).nan(),
        !b.produit(c).nan(),
    ensures
        a.produit(c).inferieur_ou_egal(b.produit(c)),
{
    lemma_pow2_pos(1074);
    let u = pow2(1074);
    lemme_signe_du_produit(a, c);
    lemme_signe_du_produit(b, c);
    if a.fini() && b.fini() && c.fini() {
        clef_ordonne_les_valeurs(a, b);
        lemme_magnitude_nulle(c);
        lemme_produit_fini(a, c);
        lemme_produit_fini(b, c);
        assert((a.valeur() * c.valeur()) * u <= (b.valeur() * c.valeur()) * u) by (nonlinear_arith)
            requires
                a.valeur() <= b.valeur(),
                c.valeur() >= 0,
                u > 0,
        {
            assert(a.valeur() * c.valeur() <= b.valeur() * c.valeur());
        }
        lemme_position_croit(a.valeur() * c.valeur(), u, b.valeur() * c.valeur(), u);
    } else {
        reveal(Flottant::produit);
        if a.fini() && c.fini() {
            lemme_produit_fini(a, c);
            lemme_position_bornee(a.valeur() * c.valeur(), u);
        }
        if b.fini() && c.fini() {
            lemme_produit_fini(b, c);
            lemme_position_bornee(b.valeur() * c.valeur(), u);
        }
    }
}

proof fn lemme_quotient_fini(a: Flottant, b: Flottant)
    requires
        a.fini(),
        b.fini(),
        b.rang() != 0,
    ensures
        !a.quotient(b).nan(),
        b.magnitude() > 0,
        a.quotient(b).clef() == position(
            if b.negatif() { -a.valeur() } else { a.valeur() } * pow2(1074),
            b.magnitude(),
        ),
{
    reveal(Flottant::quotient);
    lemma_pow2_pos(1074);
    lemme_magnitude_nulle(b);
    let u = pow2(1074);
    let n = a.magnitude() * u;
    let negatif = a.negatif() != b.negatif();
    lemme_position(negatif, n, b.magnitude());
    let s = if b.negatif() { -a.valeur() } else { a.valeur() };
    assert(s * u == if negatif { -(n as int) } else { n as int }) by (nonlinear_arith)
        requires
            n == a.magnitude() * u,
            s == if negatif { -(a.magnitude() as int) } else { a.magnitude() as int },
    ;
}

/// Diviser par un nombre positif garde l'ordre.
pub(crate) proof fn lemme_quotient_croit(a: Flottant, b: Flottant, c: Flottant)
    requires
        a.inferieur_ou_egal(b),
        c.clef() > 0,
        !a.quotient(c).nan(),
        !b.quotient(c).nan(),
    ensures
        a.quotient(c).inferieur_ou_egal(b.quotient(c)),
{
    lemma_pow2_pos(1074);
    let u = pow2(1074);
    if c.fini() {
        lemme_magnitude_nulle(c);
        let m = c.magnitude();
        if a.fini() {
            lemme_quotient_fini(a, c);
            lemme_position_bornee(a.valeur() * u, m);
        }
        if b.fini() {
            lemme_quotient_fini(b, c);
            lemme_position_bornee(b.valeur() * u, m);
        }
        if a.fini() && b.fini() {
            clef_ordonne_les_valeurs(a, b);
            assert((a.valeur() * u) * m <= (b.valeur() * u) * m) by (nonlinear_arith)
                requires
                    a.valeur() <= b.valeur(),
                    m >= 0,
                    u >= 0,
            {
                assert(a.valeur() * u <= b.valeur() * u);
            }
            lemme_position_croit(a.valeur() * u, m, b.valeur() * u, m);
        } else {
            reveal(Flottant::quotient);
        }
    } else {
        reveal(Flottant::quotient);
    }
}

/// Un nombre positif divisé par plus grand est plus petit.
pub(crate) proof fn lemme_quotient_decroit(a: Flottant, c: Flottant, d: Flottant)
    requires
        a.fini(),
        a.clef() >= 0,
        c.fini(),
        d.fini(),
        c.clef() > 0,
        c.inferieur_ou_egal(d),
    ensures
        a.quotient(d).inferieur_ou_egal(a.quotient(c)),
        a.quotient(d).clef() >= 0,
{
    lemma_pow2_pos(1074);
    let u = pow2(1074);
    lemme_magnitude_nulle(a);
    lemme_magnitude_nulle(c);
    lemme_magnitude_nulle(d);
    clef_ordonne_les_valeurs(c, d);
    lemme_quotient_fini(a, c);
    lemme_quotient_fini(a, d);
    let n = a.valeur() * u;
    assert(n >= 0) by (nonlinear_arith)
        requires
            n == a.valeur() * u,
            a.valeur() >= 0,
            u >= 0,
    ;
    assert(n * c.magnitude() <= n * d.magnitude()) by (nonlinear_arith)
        requires
            n >= 0,
            c.magnitude() <= d.magnitude(),
    ;
    lemme_position_croit(n, d.magnitude(), n, c.magnitude());
    lemme_position_bornee(n, d.magnitude());
}

/// Le quotient de deux nombres positifs est positif.
pub(crate) proof fn lemme_signe_du_quotient(a: Flottant, c: Flottant)
    requires
        c.clef() > 0,
        !a.quotient(c).nan(),
    ensures
        a.clef() >= 0 ==> a.quotient(c).clef() >= 0,
        a.clef() <= 0 ==> a.quotient(c).clef() <= 0,
{
    reveal(Flottant::quotient);
    lemma_pow2_pos(1074);
    lemme_magnitude_nulle(a);
    if a.fini() && c.fini() {
        lemme_quotient_fini(a, c);
        let n = a.valeur() * pow2(1074);
        assert((a.valeur() >= 0 ==> n >= 0) && (a.valeur() <= 0 ==> n <= 0)) by (nonlinear_arith)
            requires
                n == a.valeur() * pow2(1074),
                pow2(1074) > 0,
        ;
        lemme_position_bornee(n, c.magnitude());
    }
}

/// Diviser un opposé donne l'opposé.
pub(crate) proof fn lemme_quotient_oppose(a: Flottant, c: Flottant)
    ensures
        a.oppose().quotient(c).nan() == a.quotient(c).nan(),
        !a.quotient(c).nan() ==> a.oppose().quotient(c).clef() == -a.quotient(c).clef(),
{
    lemme_oppose(a);
    if a.fini() && c.fini() && c.rang() != 0 {
        lemme_quotient_fini(a, c);
        lemme_quotient_fini(a.oppose(), c);
        let u = pow2(1074) as int;
        let s = if c.negatif() { -a.valeur() } else { a.valeur() };
        assert((-s) * u == -(s * u)) by (nonlinear_arith);
        lemme_position_bornee(s * u, c.magnitude());
    } else {
        reveal(Flottant::quotient);
    }
}

proof fn lemme_carre_croit(a: nat, b: nat)
    requires
        a * a < (b + 1) * (b + 1),
    ensures
        a <= b,
{
    assert(a <= b) by (nonlinear_arith)
        requires
            a * a < (b + 1) * (b + 1),
            a >= 0,
            b >= 0,
    ;
}

/// La racine carrée garde l'ordre des nombres finis positifs.
pub(crate) proof fn lemme_racine_croit(a: Flottant, b: Flottant)
    requires
        a.fini(),
        b.fini(),
        a.clef() >= 0,
        a.inferieur_ou_egal(b),
    ensures
        a.racine_carree().inferieur_ou_egal(b.racine_carree()),
        a.racine_carree().clef() >= 0,
{
    reveal(Flottant::racine_carree);
    reveal(arrondi_racine);
    lemma_pow2_pos(1074);
    lemme_magnitude_nulle(a);
    lemme_magnitude_nulle(b);
    clef_ordonne_les_valeurs(a, b);
    let u = pow2(1074);
    let (x, y) = (a.magnitude() * u, b.magnitude() * u);
    assert(x <= y) by (nonlinear_arith)
        requires
            x == a.magnitude() * u,
            y == b.magnitude() * u,
            a.magnitude() <= b.magnitude(),
    ;
    let (r, q) = (racine_entiere(x), racine_entiere(y));
    lemme_racine_entiere(x);
    lemme_racine_entiere(y);
    lemme_carre_croit(r, q);
    let (n1, d1) = if r * r == x {
        (r, 1nat)
    } else {
        (2 * r + 1, 2nat)
    };
    let (n2, d2) = if q * q == y {
        (q, 1nat)
    } else {
        (2 * q + 1, 2nat)
    };
    if r == q && r * r != x {
        assert(q * q == r * r);
        assert(q * q != y);
    }
    assert(n1 * d2 <= n2 * d1) by {
        if d1 == 1 && d2 == 1 {
            assert(r * 1 <= q * 1);
        } else if d1 == 1 {
            assert(r * 2 <= (2 * q + 1) * 1);
        } else if d2 == 1 {
            assert(r < q);
            assert((2 * r + 1) * 1 <= q * 2);
        } else {
            assert((2 * r + 1) * 2 <= (2 * q + 1) * 2);
        }
    }
    lemme_arrondi_croit(n1, d1, n2, d2);
    lemme_arrondi_encadre(false, n1, d1);
    lemme_arrondi_encadre(false, n2, d2);
}

/// La racine d'un carré parfait est exacte.
pub(crate) proof fn lemme_racine_exacte(k: nat)
    requires
        k * k < 0x20_0000_0000_0000,
        k > 0,
    ensures
        rapport((k * k) as int, 1).racine_carree() == rapport(k as int, 1),
{
    reveal(Flottant::racine_carree);
    reveal(arrondi_racine);
    reveal(rapport);
    lemma_pow2_pos(1074);
    let u = pow2(1074);
    assert(k <= k * k) by (nonlinear_arith)
        requires
            k >= 1,
    ;
    un_entier_est_exact(k * k);
    let c = rapport((k * k) as int, 1);
    lemme_magnitude_nulle(c);
    let n = c.magnitude() * u;
    assert(n == (k * u) * (k * u)) by (nonlinear_arith)
        requires
            n == (k * k * u) * u,
    ;
    lemme_racine_entiere(n);
    let r = racine_entiere(n);
    let m = k * u;
    assert(m * m < (r + 1) * (r + 1));
    lemme_carre_croit(m, r);
    assert(r * r < (m + 1) * (m + 1)) by (nonlinear_arith)
        requires
            r * r <= m * m,
            m >= 0,
    ;
    lemme_carre_croit(r, m);
}

/// Retrancher un nombre de son double le rend.
pub(crate) proof fn lemme_double_moins_simple(a: Flottant, b: Flottant)
    requires
        a.fini(),
        b.fini(),
        b.valeur() == 2 * a.valeur(),
        a.rang() != 0,
    ensures
        b.difference(a) == a,
{
    lemme_oppose(a);
    lemme_magnitude_nulle(a);
    un_nombre_fini_est_son_arrondi(a, 1);
    assert(a.magnitude() * 1 == a.magnitude());
    reveal(Flottant::somme);
}

/// La racine d'un nombre strictement positif l'est aussi.
pub(crate) proof fn lemme_racine_positive(a: Flottant)
    requires
        a.fini(),
        a.positif(),
    ensures
        a.racine_carree().positif(),
{
    reveal(Flottant::racine_carree);
    reveal(arrondi_racine);
    lemma_pow2_pos(1074);
    lemme_magnitude_nulle(a);
    let u = pow2(1074);
    let n = a.magnitude() * u;
    assert(n >= 1) by (nonlinear_arith)
        requires
            n == a.magnitude() * u,
            a.magnitude() >= 1,
            u >= 1,
    ;
    let r = racine_entiere(n);
    lemme_racine_entiere(n);
    lemme_carre_croit(1, r);
    if r * r == n {
        lemme_arrondi_positif(r, 1);
    } else {
        lemme_arrondi_positif(2 * r + 1, 2);
    }
}

/// Une racine finie reste finie.
pub(crate) proof fn lemme_racine_bornee(a: Flottant)
    requires
        a.fini(),
        rapport(1, 1).inferieur_ou_egal(a),
    ensures
        a.racine_carree().fini(),
{
    reveal(Flottant::racine_carree);
    reveal(arrondi_racine);
    un_entier_est_exact(1);
    lemma_pow2_pos(1074);
    lemme_magnitude_nulle(a);
    clef_ordonne_les_valeurs(rapport(1, 1), a);
    let u = pow2(1074);
    let m = a.magnitude();
    let n = m * u;
    let r = racine_entiere(n);
    lemme_racine_entiere(n);
    assert(1 * u == u);
    assert(n < (m + 1) * (m + 1)) by (nonlinear_arith)
        requires
            n == m * u,
            u <= m,
    ;
    lemme_carre_croit(r, m);
    if r * r == n {
        lemme_arrondi_sous(false, r, 1, a);
    } else {
        assert(r < m) by {
            if r == m {
                assert(r * r == m * m);
                assert(m * m >= n) by (nonlinear_arith)
                    requires
                        n == m * u,
                        u <= m,
                ;
            }
        }
        lemme_arrondi_sous(false, 2 * r + 1, 2, a);
    }
}

/// Une distance arrondie strictement plus courte l'est exactement ; une distance nulle est
/// strictement plus courte que toute autre.
pub(crate) proof fn lemme_distances(a: Flottant, b: Flottant, m: Flottant)
    requires
        a.fini(),
        b.fini(),
        m.fini(),
    ensures
        ({
            let (x, y) = (a.valeur() - m.valeur(), b.valeur() - m.valeur());
            let (p, q) = (if x < 0 { -x } else { x }, if y < 0 { -y } else { y });
            let (da, db) = (a.difference(m).valeur_absolue(), b.difference(m).valeur_absolue());
            &&& !da.nan() && !db.nan()
            &&& da.clef() < db.clef() ==> p < q
            &&& p <= q ==> da.clef() <= db.clef()
            &&& p == 0 && q > 0 ==> da.clef() < db.clef()
            &&& p == 0 ==> da.clef() == 0
        }),
{
    let (x, y) = (a.valeur() - m.valeur(), b.valeur() - m.valeur());
    let (p, q) = (if x < 0 { -x } else { x }, if y < 0 { -y } else { y });
    lemme_oppose(m);
    lemme_somme_finie(a, m.oppose());
    lemme_somme_finie(b, m.oppose());
    lemme_oppose(a.difference(m));
    lemme_oppose(b.difference(m));
    lemme_position_bornee(x, 1);
    lemme_position_bornee(y, 1);
    if p <= q {
        lemme_position_croit(p, 1, q, 1);
    }
    if q <= p {
        lemme_position_croit(q, 1, p, 1);
    }
    if q > 0 {
        lemme_arrondi_positif(q as nat, 1);
    }
}

/// Le produit ne dépend que des valeurs.
pub(crate) proof fn lemme_produit_congru(a: Flottant, b: Flottant, c: Flottant)
    requires
        a.de_meme_valeur(b),
        !a.produit(c).nan(),
    ensures
        a.produit(c).de_meme_valeur(b.produit(c)),
{
    if a != b {
        reveal(Flottant::produit);
        lemme_produit_nul(a, b);
        lemme_produit_commute(a, c);
        lemme_produit_commute(b, c);
        lemme_produit_nul(c, a);
        lemme_produit_nul(c, b);
    }
}

/// Rien moins un nombre, multiplié, est l'opposé de ce nombre multiplié.
pub(crate) proof fn lemme_rien_moins(x: Flottant, y: Flottant, c: Flottant)
    requires
        x.rang() == 0,
        !y.produit(c).nan(),
    ensures
        x.difference(y).de_meme_valeur(y.oppose()),
        x.difference(y).produit(c).de_meme_valeur(y.produit(c).oppose()),
{
    lemme_oppose(y);
    assert(!y.nan()) by {
        reveal(Flottant::produit);
    }
    lemme_somme_zero(y.oppose(), x);
    lemme_produit_oppose(y, c);
    lemme_oppose(y.produit(c));
    lemme_produit_congru(y.oppose(), x.difference(y), c);
}

/// Un nombre moins rien, multiplié, est ce nombre multiplié.
pub(crate) proof fn lemme_moins_rien(x: Flottant, y: Flottant, c: Flottant)
    requires
        y.rang() == 0,
        !x.produit(c).nan(),
    ensures
        x.difference(y).de_meme_valeur(x),
        x.difference(y).produit(c).de_meme_valeur(x.produit(c)),
{
    lemme_oppose(y);
    assert(!x.nan()) by {
        reveal(Flottant::produit);
    }
    lemme_somme_zero(x, y.oppose());
    lemme_produit_congru(x, x.difference(y), c);
}

/// Deux facteurs de valeurs opposées donnent des produits de valeurs opposées.
pub(crate) proof fn lemme_produit_inverse(a: Flottant, b: Flottant, c: Flottant)
    requires
        a.nan() == b.nan(),
        !a.nan() ==> b.clef() == -a.clef(),
    ensures
        a.produit(c).nan() == b.produit(c).nan(),
        !a.produit(c).nan() ==> b.produit(c).clef() == -a.produit(c).clef(),
{
    lemme_oppose(a);
    lemme_produit_oppose(a, c);
    if a.nan() {
        reveal(Flottant::produit);
    } else if a.produit(c).nan() {
        if a.rang() == 0 {
            reveal(Flottant::produit);
        }
    } else {
        lemme_produit_congru(a.oppose(), b, c);
    }
}

/// Zéro, multiplié ou divisé, reste zéro s'il reste un nombre.
pub(crate) proof fn lemme_zero_absorbe(z: Flottant, x: Flottant)
    requires
        z.rang() == 0,
    ensures
        !z.produit(x).nan() ==> z.produit(x).rang() == 0,
        !z.quotient(x).nan() ==> z.quotient(x).rang() == 0,
{
    reveal(Flottant::quotient);
    if !z.produit(x).nan() {
        reveal(Flottant::produit);
        lemme_produit_commute(z, x);
        lemme_produit_nul(x, z);
    }
    if !z.quotient(x).nan() && x.fini() {
        lemme_magnitude_nulle(z);
        lemme_magnitude_nulle(x);
        let n = z.magnitude() * pow2(1074);
        assert(n == 0) by (nonlinear_arith)
            requires
                n == z.magnitude() * pow2(1074),
                z.magnitude() == 0,
        ;
        assert(n * pow2(0) == 0);
        lemme_arrondi_nul(z.negatif() != x.negatif(), n, x.magnitude(), 0);
    }
}

/// La somme de deux nombres finis est un nombre.
pub(crate) proof fn lemme_somme_definie(a: Flottant, b: Flottant)
    requires
        a.fini(),
        b.fini(),
    ensures
        !a.somme(b).nan(),
{
    lemme_somme_finie(a, b);
}

/// Deux nombres finis différents ont une différence, qui a le signe de leur ordre.
pub(crate) proof fn lemme_difference_stricte(a: Flottant, b: Flottant)
    requires
        a.fini(),
        b.fini(),
        a.inferieur(b),
    ensures
        b.difference(a).positif(),
        a.difference(b).clef() < 0,
        !a.difference(b).nan(),
{
    lemme_oppose(a);
    clef_ordonne_les_valeurs(a, b);
    lemme_somme_finie(b, a.oppose());
    lemme_arrondi_positif((b.valeur() - a.valeur()) as nat, 1);
    lemme_difference_opposee(b, a);
}

} // verus!
