//! Ce que les réponses d'IB deviennent : des barres, des contrats cotés, des échéances.

#[allow(unused_imports)]
use super::barres::{barre_traduite, barres_traduites, BarreIb, Horodatage};
#[allow(unused_imports)]
use super::client::{cotes_de, Detail, Droit};
#[allow(unused_imports)]
use super::decisions::{echeance_de, heure_lue, reexprime, rogne_ou_vide, RefusEcheance};
#[allow(unused_imports)]
use crate::calendrier::{CALENDRIER_DEBUT, CALENDRIER_FIN};
#[allow(unused_imports)]
use crate::coeur::black76::Sens;
#[allow(unused_imports)]
use crate::coeur::temps::EcheanceNy;
use vstd::prelude::*;

verus! {

/// Une barre garde ses prix, son volume et son instant, compté en microsecondes ; celle qui n'a
/// pas d'heure est écartée.
pub proof fn une_barre_servie_garde_ses_prix(b: BarreIb)
    ensures
        barre_traduite(b) matches Some(x) ==> {
            &&& x.open == b.open
            &&& x.high == b.high
            &&& x.low == b.low
            &&& x.close == b.close
            &&& x.volume == b.volume
            &&& b.date matches Horodatage::DateTime(s) && x.instant.micros == s * 1_000_000
        },
        b.date is Date ==> barre_traduite(b) is None,
        b.date matches Horodatage::DateTime(s) ==> (barre_traduite(b) is Some
            <==> CALENDRIER_DEBUT <= s * 1_000_000 <= CALENDRIER_FIN),
{
}

/// Les barres d'un historique sont celles qui ont un instant, dans leur ordre.
pub proof fn les_barres_servies_gardent_leur_ordre(v: Seq<BarreIb>)
    ensures
        ({
            let f = v.filter(|b: BarreIb| barre_traduite(b) is Some);
            barres_traduites(v) == Seq::new(f.len(), |i: int| barre_traduite(f[i])->0)
        }),
    decreases v.len(),
{
    reveal(Seq::filter);
    if v.len() > 0 {
        les_barres_servies_gardent_leur_ordre(v.drop_last());
    }
    let f = v.filter(|b: BarreIb| barre_traduite(b) is Some);
    assert(barres_traduites(v) =~= Seq::new(f.len(), |i: int| barre_traduite(f[i])->0));
}

/// Un contrat coté garde l'identifiant, le prix d'exercice et le droit de sa fiche, à l'échéance
/// demandée ; les fiches sans droit sont écartées, et les autres y sont toutes, dans l'ordre.
pub proof fn un_contrat_cote_garde_son_droit(v: Seq<Detail>, echeance: EcheanceNy)
    requires
        v.len() <= usize::MAX,
    ensures
        ({
            let r = cotes_de(v, echeance);
            &&& forall|i: int|
                0 <= i < r.len() ==> {
                    let (k, c) = #[trigger] r[i];
                    &&& k < v.len()
                    &&& c.con_id == v[k as int].con_id
                    &&& c.cle.strike == v[k as int].strike
                    &&& c.cle.echeance == echeance
                    &&& c.cle.sens == Sens::Call ==> v[k as int].droit == Some(Droit::Call)
                    &&& c.cle.sens == Sens::Put ==> v[k as int].droit == Some(Droit::Put)
                }
            &&& forall|i: int, j: int|
                0 <= i < j < r.len() ==> (#[trigger] r[i]).0 < (#[trigger] r[j]).0
            &&& r.len() == v.filter(|d: Detail| d.droit is Some).len()
        }),
    decreases v.len(),
{
    reveal(Seq::filter);
    if v.len() > 0 {
        let t = v.drop_last();
        un_contrat_cote_garde_son_droit(t, echeance);
        let (a, r) = (cotes_de(t, echeance), cotes_de(v, echeance));
        assert forall|i: int| 0 <= i < r.len() implies {
            let (k, c) = #[trigger] r[i];
            &&& k < v.len()
            &&& c.con_id == v[k as int].con_id
            &&& c.cle.strike == v[k as int].strike
            &&& c.cle.echeance == echeance
            &&& c.cle.sens == Sens::Call ==> v[k as int].droit == Some(Droit::Call)
            &&& c.cle.sens == Sens::Put ==> v[k as int].droit == Some(Droit::Put)
        } by {
            if i < a.len() {
                assert(r[i] == a[i]);
                assert(v[a[i].0 as int] == t[a[i].0 as int]);
            }
        }
        assert forall|i: int, j: int| 0 <= i < j < r.len() implies (#[trigger] r[i]).0 < (
        #[trigger] r[j]).0 by {
            assert(r[i] == a[i]);
            if j < a.len() {
                assert(r[j] == a[j]);
            }
        }
    }
}

/// Une échéance sans heure tombe à seize heures de New York, quel que soit le fuseau dit ; une
/// heure sans fuseau est de New York, et tombe dans son jour.
pub proof fn une_echeance_tombe_dans_son_jour(
    jour: int,
    heure: Option<Seq<char>>,
    fuseau: Option<Seq<char>>,
)
    requires
        -100_000_000 < jour < 100_000_000,
    ensures
        rogne_ou_vide(heure).len() == 0 ==> echeance_de(jour, heure, fuseau) == Some(
            Ok::<int, RefusEcheance>(jour * 86_400_000_000 + 57_600_000_000),
        ),
        rogne_ou_vide(heure).len() > 0 && rogne_ou_vide(fuseau).len() == 0 ==> (heure_lue(
            rogne_ou_vide(heure),
        ) matches Some(s) ==> 0 <= s < 86_400 && echeance_de(jour, heure, fuseau) == Some(
            Ok::<int, RefusEcheance>(jour * 86_400_000_000 + s * 1_000_000),
        )),
        rogne_ou_vide(heure).len() > 0 && heure_lue(rogne_ou_vide(heure)) is None ==> echeance_de(
            jour,
            heure,
            fuseau,
        ) == Some(Err::<int, RefusEcheance>(RefusEcheance::Heure(rogne_ou_vide(heure)))),
{
    let h = rogne_ou_vide(heure);
    if let Some(s) = heure_lue(h) {
        lemme_heure(h);
    }
}

/// Une heure lue est une heure du jour.
proof fn lemme_heure(h: Seq<char>)
    ensures
        heure_lue(h) matches Some(s) ==> 0 <= s < 86_400,
{
}

/// Réexprimer un instant dans un fuseau en décalage lui ajoute ce décalage, en secondes.
pub proof fn reexprimer_ajoute_le_decalage(utc: int, d: int)
    ensures
        reexprime(utc, None) is None,
        reexprime(utc, Some(d)) matches Some(l) ==> l - utc == d * 1_000_000,
        CALENDRIER_DEBUT <= utc + d * 1_000_000 <= CALENDRIER_FIN ==> reexprime(
            utc,
            Some(d),
        ) is Some,
{
}

} // verus!
