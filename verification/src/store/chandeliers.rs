//! Ce qu'un chandelier, un point de niveaux et une péremption disent de ce qu'ils résument.

#[allow(unused_imports)]
use super::series::{
    barres_apres, chandeliers, datee, peremption, point_date, points_apres, points_par_seau,
    prolongee, seau_de, Barre, Pas, PointNiveaux,
};
use crate::calendrier::Instant;
use crate::flottant::Flottant;
#[allow(unused_imports)]
use crate::flottant::{lemme_quotient_par_soi, rapport};
#[allow(unused_imports)]
use crate::ordre::{
    lemme_difference_opposee, lemme_difference_ordonnee, lemme_double_moins_simple, lemme_oppose,
    lemme_zero_absorbe,
};
use vstd::prelude::*;

verus! {

/// Les volumes de barres, additionnés de la première à la dernière.
pub open spec fn volumes(s: Seq<Barre>) -> Flottant
    decreases s.len(),
{
    if s.len() <= 1 {
        s[0].volume
    } else {
        volumes(s.drop_last()).plus(s.last().volume)
    }
}

/// Un chandelier résume des barres : il s'ouvre avec la première, se ferme avec la dernière,
/// monte aussi haut et descend aussi bas qu'elles, et cumule leurs volumes.
pub open spec fn resume(c: Barre, s: Seq<Barre>) -> bool {
    &&& s.len() > 0
    &&& c.open == s[0].open
    &&& c.close == s.last().close
    &&& c.volume == volumes(s)
    &&& exists|k: int| 0 <= k < s.len() && c.high == (#[trigger] s[k]).high
    &&& exists|k: int| 0 <= k < s.len() && c.low == (#[trigger] s[k]).low
    &&& forall|k: int| 0 <= k < s.len() ==> (#[trigger] s[k]).high.inferieur_ou_egal(c.high)
    &&& forall|k: int| 0 <= k < s.len() ==> c.low.inferieur_ou_egal((#[trigger] s[k]).low)
}

/// Les extrêmes de toutes les barres sont des nombres.
pub open spec fn extremes_definis(s: Seq<Barre>) -> bool {
    forall|i: int|
        0 <= i < s.len() ==> !(#[trigger] s[i]).high.nan() && !s[i].low.nan()
}

/// Un découpage de `n` rangs en `m` tranches qui se suivent.
pub open spec fn decoupe(bords: Seq<int>, m: nat, n: nat) -> bool {
    &&& bords.len() == m + 1
    &&& bords[0] == 0
    &&& bords[m as int] == n
}

/// Un chandelier résume les barres de `a` à `b`, exclu, qui ont toutes son seau.
pub open spec fn resume_la_tranche(c: Barre, s: Seq<Barre>, a: int, b: int, pas: Pas) -> bool {
    &&& 0 <= a < b <= s.len()
    &&& resume(c, s.subrange(a, b))
    &&& forall|k: int|
        a <= k < b ==> c.instant.micros == seau_de((#[trigger] s[k]).instant, pas) as i64
}

proof fn lemme_tranche_plus_loin(c: Barre, s: Seq<Barre>, a: int, b: int, pas: Pas)
    requires
        s.len() > 0,
        resume_la_tranche(c, s.drop_last(), a, b, pas),
    ensures
        resume_la_tranche(c, s, a, b, pas),
{
    let t = s.drop_last();
    assert(s.subrange(a, b) =~= t.subrange(a, b));
    assert forall|k: int| a <= k < b implies c.instant.micros == seau_de(
        (#[trigger] s[k]).instant,
        pas,
    ) as i64 by {
        assert(t[k] == s[k]);
    }
}

proof fn lemme_tranche_prolongee(c: Barre, s: Seq<Barre>, a: int, pas: Pas)
    requires
        s.len() > 0,
        resume_la_tranche(c, s.drop_last(), a, s.len() - 1, pas),
        c.instant == datee(s.last(), pas).instant,
        !s.last().high.nan(),
        !s.last().low.nan(),
    ensures
        resume_la_tranche(prolongee(c, s.last()), s, a, s.len() as int, pas),
{
    let t = s.drop_last();
    let n = s.len() as int;
    let p = t.subrange(a, n - 1);
    assert(s.subrange(a, n) =~= p.push(s.last()));
    lemme_resume_prolonge(c, p, s.last());
    assert forall|k: int| a <= k < n implies c.instant.micros == seau_de(
        (#[trigger] s[k]).instant,
        pas,
    ) as i64 by {
        if k < n - 1 {
            assert(t[k] == s[k]);
        }
    }
}

proof fn lemme_tranche_neuve(s: Seq<Barre>, pas: Pas)
    requires
        s.len() > 0,
        !s.last().high.nan(),
        !s.last().low.nan(),
    ensures
        resume_la_tranche(datee(s.last(), pas), s, s.len() - 1, s.len() as int, pas),
{
    let b = s.last();
    let q = s.subrange(s.len() - 1, s.len() as int);
    assert(q =~= seq![b]);
    assert(q[0] == b);
}

/// Les chandeliers découpent les barres en suites : celles d'un chandelier ont toutes le même
/// seau, dont il porte l'instant, celles du suivant un autre, et il les résume.
pub proof fn un_chandelier_resume_les_barres_de_son_seau(s: Seq<Barre>, pas: Pas) -> (bords: Seq<
    int,
>)
    requires
        extremes_definis(s),
    ensures
        decoupe(bords, chandeliers(s, pas).len(), s.len()),
        forall|c: int|
            0 <= c < chandeliers(s, pas).len() ==> resume_la_tranche(
                #[trigger] chandeliers(s, pas)[c],
                s,
                bords[c],
                bords[c + 1],
                pas,
            ),
        forall|c: int|
            0 < c < chandeliers(s, pas).len() ==> (#[trigger] chandeliers(s, pas)[c]).instant
                != chandeliers(s, pas)[c - 1].instant,
    decreases s.len(),
{
    if s.len() == 0 {
        seq![0int]
    } else {
        let t = s.drop_last();
        assert(extremes_definis(t)) by {
            assert forall|i: int| 0 <= i < t.len() implies !(#[trigger] t[i]).high.nan()
                && !t[i].low.nan() by {
                assert(t[i] == s[i]);
            }
        }
        let avant = un_chandelier_resume_les_barres_de_son_seau(t, pas);
        let (v, r) = (chandeliers(t, pas), chandeliers(s, pas));
        let (m, n) = (v.len() as int, s.len() as int);
        assert(!s[n - 1].high.nan() && !s[n - 1].low.nan());
        let suite = m > 0 && v.last().instant == datee(s.last(), pas).instant;
        let bords = if suite {
            avant.update(m, n)
        } else {
            avant.push(n)
        };
        assert forall|c: int| 0 <= c < r.len() implies resume_la_tranche(
            #[trigger] r[c],
            s,
            bords[c],
            bords[c + 1],
            pas,
        ) by {
            if c < r.len() - 1 {
                assert(r[c] == v[c]);
                lemme_tranche_plus_loin(v[c], s, avant[c], avant[c + 1], pas);
            } else if suite {
                assert(v[m - 1] == v.last());
                lemme_tranche_prolongee(v[m - 1], s, avant[m - 1], pas);
            } else {
                lemme_tranche_neuve(s, pas);
            }
        }
        assert forall|c: int| 0 < c < r.len() implies (#[trigger] r[c]).instant != r[c
            - 1].instant by {
            assert(r[c - 1].instant == v[c - 1].instant);
            if c < m {
                assert(r[c].instant == v[c].instant);
                assert(v[c].instant != v[c - 1].instant);
            }
        }
        bords
    }
}

proof fn lemme_resume_prolonge(c: Barre, p: Seq<Barre>, b: Barre)
    requires
        resume(c, p),
        !b.high.nan(),
        !b.low.nan(),
    ensures
        resume(prolongee(c, b), p.push(b)),
{
    let q = p.push(b);
    let d = prolongee(c, b);
    let n = p.len() as int;
    assert(q[n] == b);
    assert(q.drop_last() =~= p);
    let kh = choose|k: int| 0 <= k < p.len() && c.high == (#[trigger] p[k]).high;
    let kl = choose|k: int| 0 <= k < p.len() && c.low == (#[trigger] p[k]).low;
    assert(p[kh].high.inferieur_ou_egal(c.high));
    assert(c.low.inferieur_ou_egal(p[kl].low));
    assert(q[kh] == p[kh] && q[kl] == p[kl]);
    if d.high == c.high {
        assert(d.high == q[kh].high);
    } else {
        assert(d.high == q[n].high);
    }
    if d.low == c.low {
        assert(d.low == q[kl].low);
    } else {
        assert(d.low == q[n].low);
    }
    assert forall|k: int| 0 <= k < q.len() implies (#[trigger] q[k]).high.inferieur_ou_egal(
        d.high,
    ) by {
        if k < n {
            assert(q[k] == p[k]);
            assert(p[k].high.inferieur_ou_egal(c.high));
        }
    }
    assert forall|k: int| 0 <= k < q.len() implies d.low.inferieur_ou_egal(
        (#[trigger] q[k]).low,
    ) by {
        if k < n {
            assert(q[k] == p[k]);
            assert(c.low.inferieur_ou_egal(p[k].low));
        }
    }
}

/// Un point est le dernier de la tranche de `a` à `b`, exclu, daté du seau qu'ils ont tous.
pub open spec fn dernier_de_la_tranche(
    p: PointNiveaux,
    s: Seq<PointNiveaux>,
    a: int,
    b: int,
    pas: Pas,
) -> bool {
    &&& 0 <= a < b <= s.len()
    &&& p == (PointNiveaux { instant: p.instant, ..s[b - 1] })
    &&& forall|k: int|
        a <= k < b ==> p.instant.micros == seau_de((#[trigger] s[k]).instant, pas) as i64
}

proof fn lemme_dernier(s: Seq<PointNiveaux>, p: PointNiveaux, a: int, b: int, pas: Pas)
    requires
        s.len() > 0,
        dernier_de_la_tranche(p, s.drop_last(), a, b, pas),
    ensures
        dernier_de_la_tranche(p, s, a, b, pas),
        b == s.len() - 1 && p.instant == point_date(s.last(), pas).instant
            ==> dernier_de_la_tranche(point_date(s.last(), pas), s, a, s.len() as int, pas),
{
    let t = s.drop_last();
    assert forall|k: int| 0 <= k < t.len() implies #[trigger] s[k] == t[k] by {}
    assert(t[b - 1] == s[b - 1]);
    assert forall|k: int| a <= k < b implies p.instant.micros == seau_de(
        (#[trigger] s[k]).instant,
        pas,
    ) as i64 by {
        assert(t[k] == s[k]);
    }
}

/// Les points d'un même seau se suivent, et c'est le dernier qui le représente, daté du début du
/// seau ; deux points rendus qui se suivent n'ont pas le même.
pub proof fn le_dernier_point_du_seau_l_emporte(s: Seq<PointNiveaux>, pas: Pas) -> (bords: Seq<int>)
    ensures
        decoupe(bords, points_par_seau(s, pas).len(), s.len()),
        forall|c: int|
            0 <= c < points_par_seau(s, pas).len() ==> dernier_de_la_tranche(
                #[trigger] points_par_seau(s, pas)[c],
                s,
                bords[c],
                bords[c + 1],
                pas,
            ),
        forall|c: int|
            0 < c < points_par_seau(s, pas).len() ==> (#[trigger] points_par_seau(
                s,
                pas,
            )[c]).instant != points_par_seau(s, pas)[c - 1].instant,
    decreases s.len(),
{
    if s.len() == 0 {
        seq![0int]
    } else {
        let t = s.drop_last();
        let avant = le_dernier_point_du_seau_l_emporte(t, pas);
        let (v, r) = (points_par_seau(t, pas), points_par_seau(s, pas));
        let (m, n) = (v.len() as int, s.len() as int);
        let suite = m > 0 && v.last().instant == point_date(s.last(), pas).instant;
        let bords = if suite {
            avant.update(m, n)
        } else {
            avant.push(n)
        };
        assert forall|c: int| 0 <= c < r.len() implies dernier_de_la_tranche(
            #[trigger] r[c],
            s,
            bords[c],
            bords[c + 1],
            pas,
        ) by {
            if c < r.len() - 1 {
                assert(r[c] == v[c]);
                lemme_dernier(s, v[c], avant[c], avant[c + 1], pas);
            } else if suite {
                assert(v[m - 1] == v.last());
                lemme_dernier(s, v[m - 1], avant[m - 1], avant[m], pas);
            } else {
                assert(s[n - 1] == s.last());
            }
        }
        assert forall|c: int| 0 < c < r.len() implies (#[trigger] r[c]).instant != r[c
            - 1].instant by {
            assert(r[c - 1].instant == v[c - 1].instant);
            if c < m {
                assert(r[c].instant == v[c].instant);
                assert(v[c].instant != v[c - 1].instant);
            }
        }
        bords
    }
}

/// Élaguer garde, dans leur ordre, les barres et les points à partir de la borne.
pub proof fn elaguer_retient_ce_qui_ne_precede_pas_la_borne(
    s: Seq<Barre>,
    p: Seq<PointNiveaux>,
    borne: Instant,
)
    ensures
        barres_apres(s, borne) == s.filter(|b: Barre| b.instant.micros >= borne.micros),
        points_apres(p, borne) == p.filter(|x: PointNiveaux| x.instant.micros >= borne.micros),
    decreases s.len() + p.len(),
{
    reveal(Seq::filter);
    if s.len() > 0 {
        elaguer_retient_ce_qui_ne_precede_pas_la_borne(s.drop_last(), p, borne);
    } else if p.len() > 0 {
        elaguer_retient_ce_qui_ne_precede_pas_la_borne(s, p.drop_last(), borne);
    }
}

/// Un prix n'est périmé que s'il s'écarte de plus d'un demi pour cent de la clôture de la
/// dernière barre, en fraction du prix servi. Sans barre, ou sans prix, rien n'est périmé.
pub proof fn un_prix_est_perime_loin_de_la_derniere_cloture(spot: Flottant, barres: Seq<Barre>)
    ensures
        barres.len() == 0 ==> peremption(spot, barres) is None,
        spot.inferieur_ou_egal(Flottant::nul()) ==> peremption(spot, barres) is None,
        peremption(spot, barres) matches Some(p) ==> {
            &&& barres.len() > 0
            &&& p.spot == spot
            &&& p.dernier_traite == barres.last().close
            &&& p.instant_traite == barres.last().instant
            &&& rapport(5, 1000).inferieur(p.fraction)
        },
        barres.len() > 0 && spot.fini() && spot.positif() && barres.last().close.fini()
            && barres.last().close.positif() ==> {
            let c = barres.last().close;
            &&& c.valeur() == spot.valeur() ==> peremption(spot, barres) is None
            &&& c.valeur() == 2 * spot.valeur() ==> (peremption(spot, barres) matches Some(p)
                && p.fraction == rapport(1, 1))
            &&& peremption(spot, barres) is None ==> spot.moins(c).abs().par(
                spot,
            ).inferieur_ou_egal(rapport(5, 1000))
        },
{
    if barres.len() > 0 {
        let c = barres.last().close;
        if spot.fini() && spot.positif() && c.fini() && c.positif() {
            lemme_oppose(spot.moins(c));
            lemme_seuil();
            lemme_fraction(spot, c);
            if c.valeur() == spot.valeur() {
                crate::flottant::clef_ordonne_les_valeurs(c, spot);
                lemme_difference_ordonnee(c, spot);
                lemme_zero_absorbe(spot.moins(c).abs(), spot);
            }
            if c.valeur() == 2 * spot.valeur() {
                lemme_double_moins_simple(spot, c);
                lemme_difference_opposee(c, spot);
                assert(spot.moins(c).abs() == spot);
                lemme_quotient_par_soi(spot);
            }
        }
    }
}

proof fn lemme_fraction(spot: Flottant, c: Flottant)
    requires
        spot.fini(),
        spot.positif(),
        c.fini(),
    ensures
        !spot.moins(c).nan(),
        !spot.moins(c).abs().par(spot).nan(),
{
    if spot.inferieur_ou_egal(c) {
        lemme_difference_ordonnee(spot, c);
        lemme_difference_opposee(c, spot);
    } else {
        lemme_difference_ordonnee(c, spot);
    }
    let d = spot.moins(c).abs();
    lemme_oppose(spot.moins(c));
    reveal(Flottant::quotient);
    crate::flottant::lemme_magnitude_nulle(spot);
    if d.fini() {
        crate::erreur::lemme_arrondi_encadre(
            d.negatif() != spot.negatif(),
            d.magnitude() * vstd::arithmetic::power2::pow2(1074),
            spot.magnitude(),
        );
    }
}

proof fn lemme_seuil()
    ensures
        rapport(5, 1000).positif(),
        rapport(5, 1000).inferieur(rapport(1, 1)),
{
    reveal(rapport);
    let u = vstd::arithmetic::power2::pow2(1074);
    vstd::arithmetic::power2::lemma2_to64();
    vstd::arithmetic::power2::lemma_pow2_strictly_increases(16, 1074);
    assert(5 * u >= 1000);
    crate::flottant::lemme_arrondi_positif(5 * u, 1000);
    crate::erreur::lemme_arrondi_encadre(false, 5 * u, 1000);
    let h = crate::erreur::lemme_puissance(1073);
    vstd::arithmetic::power2::lemma_pow2_unfold(1074);
    crate::flottant::un_entier_est_exact(1);
    assert(5 * u <= h.magnitude() * 1000);
    crate::erreur::lemme_arrondi_sous(false, 5 * u, 1000, h);
    let f = rapport(5, 1000);
    vstd::arithmetic::power2::lemma_pow2_pos(1073);
    crate::flottant::clef_ordonne_les_valeurs(f, rapport(1, 1));
    crate::flottant::clef_ordonne_les_valeurs(f, h);
}

} // verus!
