//! Les deux séries que la page trace : les chandeliers, et les niveaux.

use super::demande::{horizon_servi, nom_pas};
#[allow(unused_imports)]
use super::demande::{horizon_accorde, pas_ecrit};
#[allow(unused_imports)]
use crate::calendrier::SECONDE;
use crate::flottant::Flottant;
use crate::store::series::{agreger_barres, agreger_niveaux, Barre, Pas, PointNiveaux};
#[allow(unused_imports)]
use crate::store::series::{barres_usuelles, chandeliers, points_par_seau, points_usuels};
use vstd::prelude::*;

verus! {

/// Une barre, telle que la page l'attend.
#[derive(Clone, Copy, Debug, PartialEq, Eq, Structural)]
pub struct Bougie {
    /// Secondes depuis l'époque.
    pub time: i64,
    pub open: Flottant,
    pub high: Flottant,
    pub low: Flottant,
    pub close: Flottant,
}

pub open spec fn bougie_de(b: Barre) -> Bougie {
    Bougie {
        time: (b.instant.micros as int / SECONDE as int) as i64,
        open: b.open,
        high: b.high,
        low: b.low,
        close: b.close,
    }
}

/// La série des chandeliers, à un pas.
#[derive(Clone, Debug, PartialEq, Eq)]
pub struct SerieBarres {
    /// Le pas effectivement appliqué, tel que l'écran l'écrit.
    pub pas: String,
    /// La minute de la dernière transaction, avant tout regroupement : le début du dernier
    /// seau annoncerait une transaction vieille de plusieurs heures.
    pub derniere_transaction: Option<i64>,
    pub points: Vec<Bougie>,
}

/// La série des chandeliers. Les barres sont celles du fichier, triées.
pub fn barres(lues: &[Barre], pas: Pas) -> (s: SerieBarres)
    requires
        barres_usuelles(lues@),
    ensures
        s.pas@ == pas_ecrit(pas),
        s.derniere_transaction == (if lues@.len() == 0 {
            None
        } else {
            Some((lues@.last().instant.micros as int / SECONDE as int) as i64)
        }),
        s.points@ == Seq::new(
            chandeliers(lues@, pas).len(),
            |i: int| bougie_de(chandeliers(lues@, pas)[i]),
        ),
{
    let derniere: Option<i64> = if lues.len() == 0 {
        None
    } else {
        Some(lues[lues.len() - 1].instant.secondes())
    };
    let agregees: Vec<Barre> = agreger_barres(lues, pas);
    let mut points: Vec<Bougie> = Vec::new();
    let mut i: usize = 0;
    while i < agregees.len()
        invariant
            i <= agregees@.len(),
            points@ =~= Seq::new(i as nat, |k: int| bougie_de(agregees@[k])),
        decreases agregees@.len() - i,
    {
        let b: Barre = agregees[i];
        points.push(
            Bougie {
                time: b.instant.secondes(),
                open: b.open,
                high: b.high,
                low: b.low,
                close: b.close,
            },
        );
        i += 1;
    }
    SerieBarres { pas: nom_pas(pas), derniere_transaction: derniere, points }
}

/// La série des niveaux, à un horizon.
#[derive(Clone, Debug, PartialEq, Eq)]
pub struct SerieNiveaux {
    /// Les horizons présents dans le fichier, triés.
    pub horizons: Vec<i64>,
    /// L'horizon effectivement servi. Rien quand le fichier n'en nomme aucun.
    pub horizon: Option<i64>,
    /// Le pas appliqué, le même que celui des chandeliers.
    pub pas: String,
    /// Les points de cet horizon.
    pub points: Vec<PointNiveaux>,
}

/// Des horizons rangés, sans doublon.
pub open spec fn ranges(v: Seq<i64>) -> bool {
    forall|i: int, j: int| 0 <= i < j < v.len() ==> #[trigger] v[i] < #[trigger] v[j]
}

/// Un point nomme cet horizon.
pub open spec fn nomme(p: PointNiveaux, h: i64) -> bool {
    p.dte_max matches Some(f) && f.en_i64() == h
}

/// Un horizon est nommé par l'un des points.
pub open spec fn horizon_present(v: Seq<PointNiveaux>, h: i64) -> bool {
    exists|i: int| 0 <= i < v.len() && nomme(#[trigger] v[i], h)
}

fn inserer_horizon(v: &mut Vec<i64>, x: i64)
    requires
        ranges(old(v)@),
    ensures
        ranges(final(v)@),
        forall|h: i64| #[trigger] final(v)@.contains(h) <==> old(v)@.contains(h) || h == x,
{
    let ghost avant = v@;
    let mut k: usize = 0;
    while k < v.len() && v[k] < x
        invariant
            k <= v@.len(),
            v@ == avant,
            ranges(avant),
            forall|i: int| 0 <= i < k ==> #[trigger] avant[i] < x,
        decreases v@.len() - k,
    {
        k += 1;
    }
    if k < v.len() && v[k] == x {
        assert(avant[k as int] == x);
        return;
    }
    v.insert(k, x);
    proof {
        let apres = v@;
        assert(apres == avant.insert(k as int, x));
        assert forall|h: i64| #[trigger] apres.contains(h) <==> avant.contains(h) || h == x by {
            if avant.contains(h) {
                let i = choose|i: int| 0 <= i < avant.len() && avant[i] == h;
                assert(apres[if i < k {
                    i
                } else {
                    i + 1
                }] == h);
            }
            assert(apres[k as int] == x);
            if apres.contains(h) {
                let i = choose|i: int| 0 <= i < apres.len() && apres[i] == h;
                if i < k {
                    assert(avant[i] == h);
                } else if i > k {
                    assert(avant[i - 1] == h);
                }
            }
        }
    }
}

fn horizons_de(lus: &[PointNiveaux]) -> (v: Vec<i64>)
    ensures
        ranges(v@),
        forall|h: i64| #[trigger] v@.contains(h) <==> horizon_present(lus@, h),
{
    let mut v: Vec<i64> = Vec::new();
    let mut i: usize = 0;
    while i < lus.len()
        invariant
            i <= lus@.len(),
            ranges(v@),
            forall|h: i64| #[trigger]
                v@.contains(h) <==> exists|k: int| 0 <= k < i && nomme(#[trigger] lus@[k], h),
        decreases lus@.len() - i,
    {
        let ghost avant = v@;
        if let Some(f) = lus[i].dte_max {
            let h: i64 = f.vers_i64();
            inserer_horizon(&mut v, h);
        }
        proof {
            assert forall|h: i64| #[trigger] v@.contains(h) <==> exists|k: int|
                0 <= k < i + 1 && nomme(#[trigger] lus@[k], h) by {
                if v@.contains(h) {
                    if avant.contains(h) {
                        let k = choose|k: int| 0 <= k < i && nomme(#[trigger] lus@[k], h);
                        assert(nomme(lus@[k], h));
                    } else {
                        assert(nomme(lus@[i as int], h));
                    }
                }
                if exists|k: int| 0 <= k < i + 1 && nomme(#[trigger] lus@[k], h) {
                    let k = choose|k: int| 0 <= k < i + 1 && nomme(#[trigger] lus@[k], h);
                    if k < i {
                        assert(avant.contains(h));
                    }
                }
            }
        }
        i += 1;
    }
    v
}

/// Le point est-il de cet horizon ?
pub open spec fn est_a_l_horizon(p: PointNiveaux, h: i64) -> bool {
    p.dte_max matches Some(f) && f.de_meme_valeur(Flottant::entier(h))
}

/// Les points d'un horizon, dans leur ordre. Tant que le fichier n'en nomme aucun, ils
/// passent tous ; dès qu'un horizon apparaît, les points muets sont écartés.
pub open spec fn points_servis(v: Seq<PointNiveaux>, horizon: Option<i64>) -> Seq<PointNiveaux>
    decreases v.len(),
{
    match horizon {
        None => v,
        Some(h) => if v.len() == 0 {
            v
        } else {
            let debut = points_servis(v.drop_last(), horizon);
            if est_a_l_horizon(v.last(), h) {
                debut.push(v.last())
            } else {
                debut
            }
        },
    }
}

fn filtrer(lus: &[PointNiveaux], horizon: Option<i64>) -> (v: Vec<PointNiveaux>)
    requires
        points_usuels(lus@),
    ensures
        v@ == points_servis(lus@, horizon),
        points_usuels(v@),
{
    let mut v: Vec<PointNiveaux> = Vec::new();
    let mut i: usize = 0;
    while i < lus.len()
        invariant
            i <= lus@.len(),
            points_usuels(lus@),
            points_usuels(v@),
            v@ == points_servis(lus@.take(i as int), horizon),
        decreases lus@.len() - i,
    {
        let p: PointNiveaux = lus[i];
        proof {
            assert(lus@.take(i + 1).drop_last() =~= lus@.take(i as int));
            assert(lus@.take(i + 1).last() == p);
            assert(lus@.take(i + 1) =~= lus@.take(i as int).push(p));
        }
        let garde: bool = match (horizon, p.dte_max) {
            (None, _) => true,
            (Some(h), Some(f)) => f.egal(Flottant::entier(h)),
            (Some(_), None) => false,
        };
        if garde {
            v.push(p);
        }
        i += 1;
    }
    assert(lus@.take(i as int) =~= lus@);
    v
}

/// La série des niveaux. Le même pas que les chandeliers, par la même découpe : les deux
/// séries tombent sur les mêmes horodatages.
pub fn niveaux(lus: &[PointNiveaux], demande: Option<i64>, pas: Pas) -> (s: SerieNiveaux)
    requires
        points_usuels(lus@),
    ensures
        ranges(s.horizons@),
        forall|h: i64| #[trigger] s.horizons@.contains(h) <==> horizon_present(lus@, h),
        s.horizon == horizon_accorde(s.horizons@, demande),
        s.pas@ == pas_ecrit(pas),
        s.points@ == points_par_seau(points_servis(lus@, s.horizon), pas),
{
    let horizons: Vec<i64> = horizons_de(lus);
    let horizon: Option<i64> = horizon_servi(horizons.as_slice(), demande);
    let retenus: Vec<PointNiveaux> = filtrer(lus, horizon);
    let points: Vec<PointNiveaux> = agreger_niveaux(retenus.as_slice(), pas);
    SerieNiveaux { horizons, horizon, pas: nom_pas(pas), points }
}

/// Deux horizons ne se mêlent jamais : dès que le fichier en nomme un, tous les points
/// servis sont de l'horizon annoncé.
pub proof fn un_seul_horizon_est_servi(v: Seq<PointNiveaux>, h: i64)
    ensures
        forall|i: int|
            0 <= i < points_servis(v, Some(h)).len() ==> est_a_l_horizon(
                #[trigger] points_servis(v, Some(h))[i],
                h,
            ),
    decreases v.len(),
{
    if v.len() > 0 {
        un_seul_horizon_est_servi(v.drop_last(), h);
        let (d, r) = (points_servis(v.drop_last(), Some(h)), points_servis(v, Some(h)));
        assert forall|i: int| 0 <= i < r.len() implies est_a_l_horizon(#[trigger] r[i], h) by {
            if i < d.len() {
                assert(r[i] == d[i]);
            }
        }
    }
}

} // verus!
