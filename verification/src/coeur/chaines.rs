//! Ce qu'une chaîne garde de ses lignes brutes.

#[allow(unused_imports)]
use super::chaine::{
    echeances_vues, est_nouvelle, ligne_avant, lignes_gardees, Chaine, ChaineInvalide, Cote, Ligne,
};
use super::temps::InstantReleve;
use crate::flottant::Flottant;
#[allow(unused_imports)]
use crate::tri::{le_tri_range_sans_rien_perdre, ordre_faible};
use vstd::prelude::*;

verus! {

/// Le même nombre s'il est fini, zéro sinon.
pub open spec fn nettoye(brut: Flottant, propre: Flottant) -> bool {
    if brut.fini() {
        propre == brut
    } else {
        propre.rang() == 0
    }
}

/// Assainir garde chaque nombre fini à sa place, et met zéro à celle des autres.
pub proof fn assainir_ne_touche_pas_aux_nombres_finis(c: Cote)
    ensures
        nettoye(c.iv, c.assaini().iv),
        nettoye(c.gamma, c.assaini().gamma),
        nettoye(c.delta, c.assaini().delta),
        nettoye(c.open_interest, c.assaini().open_interest),
        nettoye(c.vega, c.assaini().vega),
        nettoye(c.theta, c.assaini().theta),
        nettoye(c.volume, c.assaini().volume),
        c.assaini().assaini() == c.assaini(),
{
}

/// Les lignes gardées sont celles dont le strike est fini et strictement positif, dans leur
/// ordre, chacun de leurs côtés assaini, et rien d'autre n'y change.
pub proof fn les_lignes_gardees_ont_un_strike(s: Seq<Ligne>)
    ensures
        lignes_gardees(s) == s.filter(
            |l: Ligne| l.strike.fini() && Flottant::nul().inferieur(l.strike),
        ).map_values(
            |l: Ligne|
                Ligne {
                    echeance: l.echeance,
                    strike: l.strike,
                    call: l.call.assaini(),
                    put: l.put.assaini(),
                },
        ),
    decreases s.len(),
{
    reveal(Seq::filter);
    let p = |l: Ligne| l.strike.fini() && Flottant::nul().inferieur(l.strike);
    let f = |l: Ligne|
        Ligne {
            echeance: l.echeance,
            strike: l.strike,
            call: l.call.assaini(),
            put: l.put.assaini(),
        };
    if s.len() > 0 {
        let t = s.drop_last();
        les_lignes_gardees_ont_un_strike(t);
        if p(s.last()) {
            assert(t.filter(p).push(s.last()).map_values(f) =~= t.filter(p).map_values(f).push(
                f(s.last()),
            ));
        }
    } else {
        assert(s.filter(p).map_values(f) =~= lignes_gardees(s));
    }
}

/// Une chaîne construite range ses lignes par échéance puis par strike, sans en perdre, et ne se
/// refuse que sans prix ou sans ligne.
pub proof fn une_chaine_range_ses_lignes_sans_en_perdre(
    r: Result<Chaine, ChaineInvalide>,
    lignes: Seq<Ligne>,
    spot: Flottant,
    releve: InstantReleve,
)
    requires
        est_nouvelle(r, lignes, spot, releve),
    ensures
        r is Ok <==> spot.fini() && Flottant::nul().inferieur(spot) && lignes_gardees(lignes).len()
            > 0,
        r matches Err(e) ==> (e == ChaineInvalide::SpotInvalide <==> !spot.fini()
            || !Flottant::nul().inferieur(spot)),
        r matches Ok(c) ==> {
            &&& c.spot == spot
            &&& c.releve == releve
            &&& c.vue().to_multiset() == lignes_gardees(lignes).to_multiset()
            &&& c.vue().len() == lignes_gardees(lignes).len()
            &&& forall|i: int, j: int|
                0 <= i < j < c.vue().len() ==> {
                    let (a, b) = (#[trigger] c.vue()[i], #[trigger] c.vue()[j]);
                    &&& a.echeance.0.micros <= b.echeance.0.micros
                    &&& a.echeance.0.micros == b.echeance.0.micros ==> a.strike.clef()
                        <= b.strike.clef()
                }
        },
{
    let avant = |a: Ligne, b: Ligne| ligne_avant(a, b);
    assert(ordre_faible(avant));
    le_tri_range_sans_rien_perdre(lignes_gardees(lignes), avant);
    if let Ok(c) = r {
        assert forall|i: int, j: int| 0 <= i < j < c.vue().len() implies {
            let (a, b) = (#[trigger] c.vue()[i], #[trigger] c.vue()[j]);
            &&& a.echeance.0.micros <= b.echeance.0.micros
            &&& a.echeance.0.micros == b.echeance.0.micros ==> a.strike.clef() <= b.strike.clef()
        } by {
            assert(!avant(c.vue()[j], c.vue()[i]));
        }
    }
}

/// Les échéances d'une chaîne rangée : chacune une fois, dans l'ordre, sans qu'il en manque.
pub proof fn les_echeances_sont_distinctes_et_rangees(s: Seq<Ligne>)
    requires
        forall|i: int, j: int|
            0 <= i < j < s.len() ==> (#[trigger] s[i]).echeance.0.micros <= (
            #[trigger] s[j]).echeance.0.micros,
    ensures
        forall|i: int, j: int|
            0 <= i < j < echeances_vues(s).len() ==> (#[trigger] echeances_vues(s)[i]).0.micros < (
            #[trigger] echeances_vues(s)[j]).0.micros,
        forall|k: int| 0 <= k < s.len() ==> echeances_vues(s).contains((#[trigger] s[k]).echeance),
        forall|i: int|
            0 <= i < echeances_vues(s).len() ==> exists|k: int|
                0 <= k < s.len() && (#[trigger] s[k]).echeance == #[trigger] echeances_vues(s)[i],
        s.len() > 0 ==> echeances_vues(s).len() > 0 && echeances_vues(s).last()
            == s.last().echeance,
    decreases s.len(),
{
    if s.len() > 0 {
        let t = s.drop_last();
        let e = s.last().echeance;
        assert forall|i: int, j: int| 0 <= i < j < t.len() implies (
        #[trigger] t[i]).echeance.0.micros <= (#[trigger] t[j]).echeance.0.micros by {
            assert(s[i].echeance.0.micros <= s[j].echeance.0.micros);
        }
        les_echeances_sont_distinctes_et_rangees(t);
        let v = echeances_vues(t);
        let w = echeances_vues(s);
        assert(s[s.len() - 1].echeance == e);
        if t.len() > 0 {
            assert(t.last() == s[t.len() - 1]);
            assert(s[t.len() - 1].echeance.0.micros <= s[s.len() - 1].echeance.0.micros);
            assert(v.last() == t.last().echeance);
        }
        assert forall|i: int, j: int| 0 <= i < j < w.len() implies (#[trigger] w[i]).0.micros < (
        #[trigger] w[j]).0.micros by {
            assert(w[i] == v[i]);
            if j < v.len() {
                assert(w[j] == v[j]);
            } else {
                assert(v[v.len() - 1].0 != e.0);
                if i < v.len() - 1 {
                    assert(v[i].0.micros < v[v.len() - 1].0.micros);
                }
            }
        }
        assert forall|k: int| 0 <= k < s.len() implies w.contains((#[trigger] s[k]).echeance) by {
            if k < t.len() {
                assert(v.contains(t[k].echeance));
                let i = choose|i: int| 0 <= i < v.len() && v[i] == t[k].echeance;
                assert(w[i] == s[k].echeance);
            } else {
                assert(w[w.len() - 1] == e);
            }
        }
        assert forall|i: int| 0 <= i < w.len() implies exists|k: int|
            0 <= k < s.len() && (#[trigger] s[k]).echeance == #[trigger] w[i] by {
            if i < v.len() {
                assert(w[i] == v[i]);
                let k = choose|k: int| 0 <= k < t.len() && (#[trigger] t[k]).echeance == v[i];
                assert(s[k].echeance == w[i]);
            } else {
                assert(s[s.len() - 1].echeance == w[i]);
            }
        }
    }
}

} // verus!
