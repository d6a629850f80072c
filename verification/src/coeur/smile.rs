//! La pente du smile retrouve la droite dont les volatilités viennent.

#[allow(unused_imports)]
use super::analyse::{pente_des_points, point_skew, total, vol_moyenne};
use super::chaine::Ligne;
#[allow(unused_imports)]
use super::profils::{
    flottants, le_total_d_entiers_est_leur_somme, somme_entiere, sommes_petites,
};
#[allow(unused_imports)]
use crate::entiers::{
    la_difference_de_petits_entiers_est_exacte, le_produit_de_petits_entiers_est_exact,
    le_quotient_d_un_multiple_est_exact, petit, un_petit_entier_est_exact,
};
use crate::flottant::Flottant;
#[allow(unused_imports)]
use crate::flottant::rapport;
use vstd::prelude::*;

verus! {

/// Trop peu de points ne font pas une pente.
pub proof fn moins_de_trois_points_n_ont_pas_de_pente(points: Seq<(Flottant, Flottant)>)
    requires
        points.len() < 3,
    ensures
        pente_des_points(points) == Flottant::nul(),
{
}

/// Une ligne ne donne de point que si elle publie une volatilité et que sa monnaie est un nombre
/// à quinze pour cent ou moins ; ce point est sa monnaie, le logarithme du strike sur le spot,
/// et sa volatilité.
pub proof fn un_point_est_une_monnaie_et_une_volatilite(
    ln: spec_fn(Flottant) -> Flottant,
    l: Ligne,
    spot: Flottant,
)
    ensures
        ({
            let m = ln(l.strike.par(spot));
            match point_skew(ln, l, spot) {
                Some(p) => {
                    &&& p.0 == m
                    &&& Some(p.1) == vol_moyenne(l)
                    &&& m.fini()
                    &&& m.abs().inferieur_ou_egal(Flottant::fraction(15, 100))
                },
                None => {
                    ||| vol_moyenne(l) is None
                    ||| !m.fini()
                    ||| Flottant::fraction(15, 100).inferieur(m.abs())
                },
            }
        }),
{
    let m = ln(l.strike.par(spot));
    crate::ordre::lemme_oppose(m);
    reveal(rapport);
    vstd::arithmetic::power2::lemma_pow2_pos(1074);
    crate::erreur::lemme_arrondi_encadre(
        false,
        15 * vstd::arithmetic::power2::pow2(1074),
        100,
    );
}

/// Les carrés, les produits, et les points d'une droite sur des abscisses entières.
pub open spec fn carres(m: Seq<int>) -> Seq<int> {
    Seq::new(m.len(), |i: int| m[i] * m[i])
}

pub open spec fn ordonnees(m: Seq<int>, b: int, p: int) -> Seq<int> {
    Seq::new(m.len(), |i: int| b + p * m[i])
}

pub open spec fn produits(m: Seq<int>, v: Seq<int>) -> Seq<int> {
    Seq::new(m.len(), |i: int| m[i] * v[i])
}

pub open spec fn points_entiers(m: Seq<int>, v: Seq<int>) -> Seq<(Flottant, Flottant)> {
    Seq::new(m.len(), |i: int| (rapport(m[i], 1), rapport(v[i], 1)))
}

proof fn lemme_sommes_positives(v: Seq<int>)
    requires
        forall|i: int| 0 <= i < v.len() ==> #[trigger] v[i] >= 0,
    ensures
        somme_entiere(v) >= 0,
        forall|n: int|
            #![trigger v.take(n)]
            0 <= n <= v.len() ==> 0 <= somme_entiere(v.take(n)) <= somme_entiere(v),
        forall|i: int| 0 <= i < v.len() ==> #[trigger] v[i] <= somme_entiere(v),
    decreases v.len(),
{
    assert(v.take(v.len() as int) =~= v);
    if v.len() > 0 {
        let t = v.drop_last();
        assert forall|i: int| 0 <= i < t.len() implies #[trigger] t[i] >= 0 by {
            assert(v[i] >= 0);
        }
        lemme_sommes_positives(t);
        assert(v[v.len() - 1] >= 0);
        assert forall|n: int| #![trigger v.take(n)] 0 <= n <= v.len() implies 0
            <= somme_entiere(v.take(n)) <= somme_entiere(v) by {
            if n < v.len() {
                assert(v.take(n) =~= t.take(n));
            }
        }
        assert forall|i: int| 0 <= i < v.len() implies #[trigger] v[i] <= somme_entiere(v) by {
            if i < t.len() {
                assert(t[i] == v[i]);
            }
        }
    }
}

proof fn lemme_total(v: Seq<int>)
    requires
        v.len() > 0,
        forall|i: int| 0 <= i < v.len() ==> #[trigger] v[i] >= 0,
        petit(somme_entiere(v)),
    ensures
        total(flottants(v)) == rapport(somme_entiere(v), 1),
{
    lemme_sommes_positives(v);
    assert forall|i: int| 0 <= i < v.len() implies petit(#[trigger] v[i]) by {}
    assert(sommes_petites(v)) by {
        assert forall|n: int| #![trigger v.take(n)] 0 <= n <= v.len() implies petit(
            somme_entiere(v.take(n)),
        ) by {}
    }
    le_total_d_entiers_est_leur_somme(v);
}

/// Les sommes des ordonnées et des produits, d'après celles des abscisses et des carrés.
proof fn lemme_droite(m: Seq<int>, b: int, p: int)
    ensures
        somme_entiere(ordonnees(m, b, p)) == m.len() * b + p * somme_entiere(m),
        somme_entiere(produits(m, ordonnees(m, b, p))) == b * somme_entiere(m) + p
            * somme_entiere(carres(m)),
    decreases m.len(),
{
    let v = ordonnees(m, b, p);
    if m.len() == 0 {
        assert(0 * b + p * 0 == 0) by (nonlinear_arith);
        assert(b * 0 + p * 0 == 0) by (nonlinear_arith);
    } else {
        let t = m.drop_last();
        let x = m.last();
        lemme_droite(t, b, p);
        assert(v.drop_last() =~= ordonnees(t, b, p));
        assert(produits(m, v).drop_last() =~= produits(t, ordonnees(t, b, p)));
        assert(carres(m).drop_last() =~= carres(t));
        let (n, sm, sc) = (t.len() as int, somme_entiere(t), somme_entiere(carres(t)));
        assert(n * b + p * sm + (b + p * x) == (n + 1) * b + p * (sm + x)) by (nonlinear_arith);
        assert(b * sm + p * sc + x * (b + p * x) == b * (sm + x) + p * (sc + x * x))
            by (nonlinear_arith);
    }
}

/// Sur des monnaies et des volatilités entières, la pente des points d'une droite est la pente
/// de cette droite, son signe compris.
pub proof fn la_pente_d_une_droite_se_retrouve(m: Seq<int>, b: int, p: int)
    requires
        m.len() >= 3,
        petit(m.len() as int),
        petit(p),
        forall|i: int|
            #![trigger m[i]]
            0 <= i < m.len() ==> m[i] >= 0 && b + p * m[i] >= 0,
        ({
            let v = ordonnees(m, b, p);
            let (n, sm, sv) = (m.len() as int, somme_entiere(m), somme_entiere(v));
            let (sc, sp) = (somme_entiere(carres(m)), somme_entiere(produits(m, v)));
            let d = n * sc - sm * sm;
            &&& petit(sm) && petit(sv) && petit(sc) && petit(sp)
            &&& petit(n * sc) && petit(sm * sm) && petit(n * sp) && petit(sm * sv)
            &&& petit(d) && petit(p * d)
            &&& d != 0
        }),
    ensures
        pente_des_points(points_entiers(m, ordonnees(m, b, p))).de_meme_valeur(rapport(p, 1)),
{
    let v = ordonnees(m, b, p);
    let pts = points_entiers(m, v);
    let (n, sm, sv) = (m.len() as int, somme_entiere(m), somme_entiere(v));
    let (sc, sp) = (somme_entiere(carres(m)), somme_entiere(produits(m, v)));
    let d = n * sc - sm * sm;
    assert forall|i: int| 0 <= i < m.len() implies #[trigger] v[i] >= 0 by {
        assert(m[i] >= 0);
    }
    assert forall|i: int| 0 <= i < m.len() implies #[trigger] carres(m)[i] >= 0 by {
        assert(m[i] * m[i] >= 0) by (nonlinear_arith);
    }
    assert forall|i: int| 0 <= i < m.len() implies #[trigger] produits(m, v)[i] >= 0 by {
        assert(v[i] >= 0 && m[i] >= 0);
        assert(m[i] * v[i] >= 0) by (nonlinear_arith)
            requires
                m[i] >= 0,
                v[i] >= 0,
        ;
    }
    lemme_total(m);
    lemme_total(v);
    lemme_total(carres(m));
    lemme_total(produits(m, v));
    lemme_sommes_positives(m);
    lemme_sommes_positives(v);
    lemme_sommes_positives(carres(m));
    lemme_sommes_positives(produits(m, v));
    assert(Seq::new(pts.len(), |i: int| pts[i].0) =~= flottants(m));
    assert(Seq::new(pts.len(), |i: int| pts[i].1) =~= flottants(v));
    assert forall|i: int| 0 <= i < m.len() implies rapport(m[i], 1).fois(rapport(v[i], 1))
        == #[trigger] rapport(produits(m, v)[i], 1) by {
        assert(v[i] >= 0 && m[i] >= 0);
        assert(produits(m, v)[i] <= sp);
        le_produit_de_petits_entiers_est_exact(m[i], v[i]);
    }
    assert forall|i: int| 0 <= i < m.len() implies rapport(m[i], 1).fois(rapport(m[i], 1))
        == #[trigger] rapport(carres(m)[i], 1) by {
        assert(m[i] >= 0);
        assert(carres(m)[i] <= sc);
        le_produit_de_petits_entiers_est_exact(m[i], m[i]);
    }
    assert(Seq::new(pts.len(), |i: int| pts[i].0.fois(pts[i].1)) =~= flottants(produits(m, v)));
    assert(Seq::new(pts.len(), |i: int| pts[i].0.fois(pts[i].0)) =~= flottants(carres(m)));
    le_produit_de_petits_entiers_est_exact(n, sc);
    le_produit_de_petits_entiers_est_exact(sm, sm);
    le_produit_de_petits_entiers_est_exact(n, sp);
    le_produit_de_petits_entiers_est_exact(sm, sv);
    la_difference_de_petits_entiers_est_exacte(n * sc, sm * sm);
    la_difference_de_petits_entiers_est_exacte(n * sp, sm * sv);
    lemme_droite(m, b, p);
    assert(n * sp - sm * sv == p * d) by (nonlinear_arith)
        requires
            sv == n * b + p * sm,
            sp == b * sm + p * sc,
            d == n * sc - sm * sm,
    ;
    lemme_pas_negligeable(d);
    un_petit_entier_est_exact(d);
    un_petit_entier_est_exact(p);
    if p != 0 {
        le_quotient_d_un_multiple_est_exact(p, d);
    } else {
        assert(p * d == 0) by (nonlinear_arith)
            requires
                p == 0,
        ;
        un_petit_entier_est_exact(0);
        let (z, c) = (rapport(0, 1), rapport(d, 1));
        assert(!z.par(c).nan()) by {
            reveal(Flottant::quotient);
            crate::flottant::lemme_magnitude_nulle(c);
            crate::erreur::lemme_arrondi_encadre(
                z.negatif() != c.negatif(),
                z.magnitude() * vstd::arithmetic::power2::pow2(1074),
                c.magnitude(),
            );
        }
        crate::ordre::lemme_zero_absorbe(z, c);
    }
}

proof fn lemme_pas_negligeable(d: int)
    requires
        petit(d),
        d != 0,
    ensures
        !rapport(d, 1).abs().inferieur(Flottant::fraction(1, 4_503_599_627_370_496)),
{
    un_petit_entier_est_exact(d);
    let n = if d < 0 { -d } else { d };
    un_petit_entier_est_exact(n);
    let u = vstd::arithmetic::power2::pow2(1074);
    vstd::arithmetic::power2::lemma_pow2_pos(1074);
    reveal(rapport);
    crate::ordre::lemme_oppose(rapport(d, 1));
    crate::erreur::lemme_signe_a_part(d < 0, n as nat * u, 1);
    assert((1 * u) * 1 <= (n as nat * u) * 4_503_599_627_370_496) by (nonlinear_arith)
        requires
            n >= 1,
            u >= 0,
    {
        assert(u <= n * u);
    }
    crate::erreur::lemme_arrondi_croit(1 * u, 4_503_599_627_370_496, n as nat * u, 1);
    crate::erreur::lemme_arrondi_encadre(false, 1 * u, 4_503_599_627_370_496);
}

} // verus!
