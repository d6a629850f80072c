//! Ce que la confrontation des deux rapports compte.

#[allow(unused_imports)]
use super::cftc::{
    amplitudes, champ_de, compte, confrontation_de, delta_de, entier_de, exploitees, ligne_du,
    mediane_entiere, ois, rapport_de, semaine_tenable, semaines_de, version_de, Confrontation,
    ObjetVu, RapportVu, Semaine,
};
#[allow(unused_imports)]
use crate::tri::{le_tri_garde_les_elements, le_tri_range_sans_rien_perdre, ordre_faible, triee};
use vstd::prelude::*;

verus! {

proof fn lemme_compte(s: Seq<Semaine>, p: spec_fn(Semaine) -> bool)
    ensures
        compte(s, p) == s.filter(p).len(),
    decreases s.len(),
{
    reveal(Seq::filter);
    if s.len() > 0 {
        lemme_compte(s.drop_last(), p);
    }
}

/// Une semaine est conforme quand les options ajoutent à la position nette des teneurs : la
/// version combinée y est au-dessus de celle des futures seuls. Elle est contraire au-dessous, et
/// nette courte quand la version combinée est négative.
pub proof fn une_semaine_conforme_a_des_options_nettes_longues(c: Confrontation, p: Seq<Semaine>)
    requires
        confrontation_de(c, p),
    ensures
        c.semaines == p.len(),
        c.conformes == p.filter(|s: Semaine| s.0.net > s.1.net).len(),
        c.contraires == p.filter(|s: Semaine| s.0.net < s.1.net).len(),
        c.nuls == p.filter(|s: Semaine| s.0.net == s.1.net).len(),
        c.nettes_courtes == p.filter(|s: Semaine| s.0.net < 0).len(),
        p.len() > 0 ==> c.debut@ == p[0].0.jour && c.fin@ == p[p.len() - 1].0.jour,
{
    lemme_memes(p, |s: Semaine| delta_de(s) > 0, |s: Semaine| s.0.net > s.1.net);
    lemme_memes(p, |s: Semaine| delta_de(s) < 0, |s: Semaine| s.0.net < s.1.net);
    lemme_memes(p, |s: Semaine| delta_de(s) == 0, |s: Semaine| s.0.net == s.1.net);
    lemme_compte(p, |s: Semaine| s.0.net < 0);
}

proof fn lemme_memes(
    s: Seq<Semaine>,
    p: spec_fn(Semaine) -> bool,
    q: spec_fn(Semaine) -> bool,
)
    requires
        forall|x: Semaine| #[trigger] p(x) == q(x),
    ensures
        compte(s, p) == s.filter(q).len(),
    decreases s.len(),
{
    reveal(Seq::filter);
    if s.len() > 0 {
        lemme_memes(s.drop_last(), p, q);
    }
}

/// `m` est au milieu de `v` : un de ses éléments, au rang de la moitié une fois rangés.
pub open spec fn au_milieu(v: Seq<i64>, m: i64) -> bool {
    exists|t: Seq<i64>|
        {
            &&& #[trigger] t.to_multiset() == v.to_multiset()
            &&& t.len() == v.len()
            &&& t[v.len() as int / 2] == m
            &&& forall|i: int, j: int| 0 <= i <= j < t.len() ==> t[i] <= t[j]
        }
}

/// La médiane d'entiers est au milieu d'eux.
pub proof fn la_mediane_est_au_milieu(v: Seq<i64>)
    requires
        v.len() > 0,
    ensures
        au_milieu(v, mediane_entiere(v)),
        v.contains(mediane_entiere(v)),
{
    let avant = |a: i64, b: i64| a < b;
    assert(ordre_faible(avant));
    le_tri_range_sans_rien_perdre(v, avant);
    le_tri_garde_les_elements(v, avant);
    let t = triee(v, avant);
    assert forall|i: int, j: int| 0 <= i <= j < t.len() implies t[i] <= t[j] by {
        if i < j {
            assert(!avant(t[j], t[i]));
        }
    }
    assert(t.contains(t[v.len() as int / 2]));
    assert(t.to_multiset() == v.to_multiset());
}

/// L'amplitude médiane est celle des écarts de position nette, en valeur absolue, et l'intérêt
/// ouvert médian celui que les options ajoutent.
pub proof fn les_medianes_sont_celles_des_ecarts(c: Confrontation, p: Seq<Semaine>)
    requires
        confrontation_de(c, p),
        p.len() > 0,
        forall|i: int| 0 <= i < p.len() ==> semaine_tenable(#[trigger] p[i]),
    ensures
        au_milieu(
            Seq::new(
                p.len(),
                |i: int|
                    if p[i].0.net < p[i].1.net {
                        (p[i].1.net - p[i].0.net) as i64
                    } else {
                        (p[i].0.net - p[i].1.net) as i64
                    },
            ),
            c.amplitude_mediane,
        ),
        au_milieu(
            Seq::new(p.len(), |i: int| (p[i].0.open_interest - p[i].1.open_interest) as i64),
            c.oi_optionnel_median,
        ),
{
    let a = Seq::new(
        p.len(),
        |i: int|
            if p[i].0.net < p[i].1.net {
                (p[i].1.net - p[i].0.net) as i64
            } else {
                (p[i].0.net - p[i].1.net) as i64
            },
    );
    assert(a =~= amplitudes(p));
    assert(Seq::new(p.len(), |i: int| (p[i].0.open_interest - p[i].1.open_interest) as i64)
        =~= ois(p));
    la_mediane_est_au_milieu(amplitudes(p));
    la_mediane_est_au_milieu(ois(p));
}

/// Une semaine appariée a le même jour des deux côtés, sa ligne combinée vient de la version
/// combinée, l'autre de celle des futures ; et tout jour présent des deux côtés fait une semaine.
pub proof fn une_semaine_est_presente_des_deux_cotes(c: Seq<RapportVu>, f: Seq<RapportVu>)
    ensures
        forall|i: int|
            0 <= i < semaines_de(c, f).len() ==> {
                let s = #[trigger] semaines_de(c, f)[i];
                &&& s.0.jour == s.1.jour
                &&& c.contains(s.0)
                &&& f.contains(s.1)
            },
        forall|i: int, j: int|
            0 <= i < c.len() && 0 <= j < f.len() && (#[trigger] c[i]).jour == (
            #[trigger] f[j]).jour ==> exists|k: int|
                0 <= k < semaines_de(c, f).len() && (#[trigger] semaines_de(c, f)[k]).0 == c[i],
    decreases c.len(),
{
    if c.len() > 0 {
        let t = c.drop_last();
        let x = c.last();
        une_semaine_est_presente_des_deux_cotes(t, f);
        lemme_ligne(f, x.jour);
        let (u, r) = (semaines_de(t, f), semaines_de(c, f));
        assert forall|i: int| 0 <= i < r.len() implies {
            let s = #[trigger] r[i];
            &&& s.0.jour == s.1.jour
            &&& c.contains(s.0)
            &&& f.contains(s.1)
        } by {
            if i < u.len() {
                assert(r[i] == u[i]);
                let k = choose|k: int| 0 <= k < t.len() && t[k] == u[i].0;
                assert(c[k] == r[i].0);
            } else {
                assert(c[c.len() - 1] == x);
            }
        }
        assert forall|i: int, j: int|
            0 <= i < c.len() && 0 <= j < f.len() && (#[trigger] c[i]).jour == (
            #[trigger] f[j]).jour implies exists|k: int|
            0 <= k < r.len() && (#[trigger] r[k]).0 == c[i] by {
            if i < t.len() {
                assert(t[i] == c[i]);
                let k = choose|k: int| 0 <= k < u.len() && (#[trigger] u[k]).0 == t[i];
                assert(r[k] == u[k]);
            } else {
                assert(ligne_du(f, x.jour) is Some);
                assert(r[r.len() - 1].0 == x);
            }
        }
    }
}

proof fn lemme_ligne(v: Seq<RapportVu>, jour: Seq<char>)
    ensures
        ligne_du(v, jour) matches Some(x) ==> v.contains(x) && x.jour == jour,
        ligne_du(v, jour) is None ==> forall|j: int|
            0 <= j < v.len() ==> (#[trigger] v[j]).jour != jour,
    decreases v.len(),
{
    if v.len() > 0 {
        let t = v.drop_last();
        lemme_ligne(t, jour);
        assert(v[v.len() - 1] == v.last());
        assert forall|j: int| 0 <= j < t.len() implies #[trigger] v[j] == t[j] by {}
        if let Some(x) = ligne_du(t, jour) {
            let k = choose|k: int| 0 <= k < t.len() && t[k] == x;
            assert(v[k] == x);
        }
    }
}

/// La position nette d'un rapport est ce que les teneurs ont d'acheté moins ce qu'ils ont de
/// vendu, au jour écrit en dix caractères ; un rapport auquel un champ manque ne s'exploite pas.
pub proof fn la_position_nette_est_l_achete_moins_le_vendu(o: ObjetVu)
    ensures
        rapport_de(o) matches Some(x) ==> {
            &&& entier_de(o, "dealer_positions_long_all"@) is Some
            &&& entier_de(o, "dealer_positions_short_all"@) is Some
            &&& x.net + entier_de(o, "dealer_positions_short_all"@)->0 == entier_de(
                o,
                "dealer_positions_long_all"@,
            )->0
            &&& entier_de(o, "open_interest_all"@) == Some(x.open_interest)
            &&& x.jour.len() <= 10
            &&& champ_de(o, "report_date_as_yyyy_mm_dd"@) matches Some(j)
                && x.jour.is_prefix_of(j)
        },
        rapport_de(o) is None <==> entier_de(o, "dealer_positions_long_all"@) is None || entier_de(
            o,
            "dealer_positions_short_all"@,
        ) is None || entier_de(o, "open_interest_all"@) is None || champ_de(
            o,
            "report_date_as_yyyy_mm_dd"@,
        ) is None,
{
}

/// Une seule ligne d'une autre version fait refuser toute la réponse ; sinon chaque ligne
/// exploitable y est, dans l'ordre.
pub proof fn une_ligne_d_une_autre_version_fait_tout_refuser(v: Seq<ObjetVu>, attendu: Seq<char>)
    ensures
        exploitees(v, attendu) is Err <==> exists|i: int|
            0 <= i < v.len() && version_de(#[trigger] v[i]) != attendu,
        exploitees(v, attendu) matches Ok(s) ==> s.len() == v.filter(
            |o: ObjetVu| rapport_de(o) is Some,
        ).len() && forall|i: int| 0 <= i < s.len() ==> exists|k: int|
            0 <= k < v.len() && rapport_de(#[trigger] v[k]) == Some(#[trigger] s[i]),
    decreases v.len(),
{
    reveal(Seq::filter);
    if v.len() > 0 {
        let t = v.drop_last();
        une_ligne_d_une_autre_version_fait_tout_refuser(t, attendu);
        assert(v[v.len() - 1] == v.last());
        if exists|i: int| 0 <= i < t.len() && version_de(#[trigger] t[i]) != attendu {
            let i = choose|i: int| 0 <= i < t.len() && version_de(#[trigger] t[i]) != attendu;
            assert(version_de(v[i]) != attendu);
        }
        if exists|i: int| 0 <= i < v.len() && version_de(#[trigger] v[i]) != attendu {
            let i = choose|i: int| 0 <= i < v.len() && version_de(#[trigger] v[i]) != attendu;
            if i < t.len() {
                assert(version_de(t[i]) != attendu);
            }
        }
        if let Ok(s) = exploitees(v, attendu) {
            let a = exploitees(t, attendu)->Ok_0;
            assert forall|i: int| 0 <= i < s.len() implies exists|k: int|
                0 <= k < v.len() && rapport_de(#[trigger] v[k]) == Some(#[trigger] s[i]) by {
                if i < a.len() {
                    let k = choose|k: int|
                        0 <= k < t.len() && rapport_de(#[trigger] t[k]) == Some(a[i]);
                    assert(rapport_de(v[k]) == Some(s[i]));
                } else {
                    assert(rapport_de(v[v.len() - 1]) == Some(s[i]));
                }
            }
        }
    }
}

} // verus!
