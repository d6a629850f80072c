//! Ce que les lignes assemblées et fusionnées disent des valeurs dont elles viennent.

#[allow(unused_imports)]
use super::assemblage::{
    avec_contrat, avec_gamma, cote_de, est_la_ligne, iv_en_decimal, ligne_completee, lignes_fondues,
    lignes_par_strike, prix_servis, rang_ligne, recu_pour, spot_de,
};
#[allow(unused_imports)]
use super::client::{Calcul, Tick, Valeurs};
#[allow(unused_imports)]
use super::decisions::ContratOption;
#[allow(unused_imports)]
use crate::coeur::black76::{gamma_de, Sens};
#[allow(unused_imports)]
use crate::coeur::chaine::{cote_nul, Cote, Ligne};
#[allow(unused_imports)]
use crate::coeur::temps::{EcheanceNy, InstantReleve};
#[allow(unused_imports)]
use crate::entiers::{le_quotient_d_un_multiple_est_exact, petit, un_petit_entier_est_exact};
use crate::flottant::Flottant;
#[allow(unused_imports)]
use crate::flottant::{clef_ordonne_les_valeurs, rapport};
use vstd::prelude::*;

verus! {

/// Une volatilité de trois ou moins se lit telle quelle ; au-delà elle est un pourcentage, et
/// cent fois un décimal redonne ce décimal.
pub proof fn une_volatilite_se_lit_en_decimal(brute: Flottant, k: int)
    requires
        0 < k,
        petit(k),
        petit(k * 100),
    ensures
        brute.inferieur_ou_egal(rapport(3, 1)) ==> iv_en_decimal(brute) == brute,
        iv_en_decimal(rapport(k * 100, 1)) == rapport(k, 1),
{
    un_petit_entier_est_exact(3);
    un_petit_entier_est_exact(k * 100);
    clef_ordonne_les_valeurs(rapport(3, 1), rapport(k * 100, 1));
    vstd::arithmetic::power2::lemma_pow2_pos(1074);
    assert(3 * vstd::arithmetic::power2::pow2(1074) < (k * 100)
        * vstd::arithmetic::power2::pow2(1074)) by (nonlinear_arith)
        requires
            vstd::arithmetic::power2::pow2(1074) > 0,
            k > 0,
    ;
    le_quotient_d_un_multiple_est_exact(k, 100);
}

/// Un côté garde chaque valeur reçue à sa place, et zéro là où rien n'est venu.
pub proof fn un_cote_garde_ce_qui_est_recu(v: Valeurs)
    ensures
        ({
            let c = cote_de(v);
            &&& c.gamma == v.gamma.unwrap_or(Flottant::nul())
            &&& c.delta == v.delta.unwrap_or(Flottant::nul())
            &&& c.vega == v.vega.unwrap_or(Flottant::nul())
            &&& c.theta == v.theta.unwrap_or(Flottant::nul())
            &&& c.open_interest == v.open_interest.unwrap_or(Flottant::nul())
            &&& c.volume == v.volume.unwrap_or(Flottant::nul())
            &&& v.iv is None ==> c.iv == Flottant::nul()
            &&& v.iv matches Some(iv) ==> iv.inferieur_ou_egal(rapport(3, 1)) ==> c.iv == iv
        }),
{
}

/// Un côté du socle que le vif a rafraîchi.
pub open spec fn rafraichie(ancien: Cote, neuf: Cote, c: Cote) -> bool {
    &&& c.delta == ancien.delta
    &&& c.vega == ancien.vega
    &&& c.theta == ancien.theta
    &&& c.open_interest == ancien.open_interest
    &&& neuf.iv.positif() ==> c.iv == neuf.iv
    &&& !neuf.iv.positif() ==> c.iv == ancien.iv
    &&& neuf.gamma.positif() ==> c.gamma == neuf.gamma
    &&& !neuf.gamma.positif() ==> c.gamma == ancien.gamma
    &&& ancien.volume.fini() && neuf.volume.fini() ==> {
        &&& ancien.volume.inferieur_ou_egal(c.volume)
        &&& neuf.volume.inferieur_ou_egal(c.volume)
        &&& c.volume == ancien.volume || c.volume == neuf.volume
    }
}

/// Le vif rafraîchit la ligne de même échéance et de même strike, son call par le call et son
/// put par le put ; les lignes qu'il ne porte pas restent telles quelles. Seules la volatilité,
/// le gamma et le volume peuvent changer, et une cote absente n'efface rien.
pub proof fn le_vif_rafraichit_ligne_par_ligne(socle: Seq<Ligne>, vif: Seq<Ligne>, i: int, k: int)
    requires
        0 <= i < socle.len(),
        0 <= k < vif.len(),
    ensures
        lignes_fondues(socle, vif).len() == socle.len(),
        ({
            let (l, f) = (socle[i], lignes_fondues(socle, vif)[i]);
            &&& f.echeance == l.echeance
            &&& f.strike == l.strike
            &&& (forall|j: int|
                0 <= j < vif.len() ==> (#[trigger] vif[j]).echeance != l.echeance || vif[j].strike
                    != l.strike) ==> f == l
            &&& (forall|j: int|
                0 <= j < vif.len() ==> ((#[trigger] vif[j]).echeance == l.echeance && vif[j].strike
                    == l.strike <==> j == k)) ==> rafraichie(l.call, vif[k].call, f.call)
                && rafraichie(l.put, vif[k].put, f.put)
        }),
{
    let l = socle[i];
    lemme_rang(vif, l.echeance, l.strike);
}

/// Le rang d'une ligne est celui d'une ligne du même strike, et il n'y en a un que s'il y a une
/// telle ligne.
proof fn lemme_rang(v: Seq<Ligne>, echeance: EcheanceNy, strike: Flottant)
    ensures
        rang_ligne(v, echeance, strike) matches Some(k) ==> 0 <= k < v.len() && v[k].echeance
            == echeance && v[k].strike == strike,
        rang_ligne(v, echeance, strike) is None ==> forall|j: int|
            0 <= j < v.len() ==> (#[trigger] v[j]).echeance != echeance || v[j].strike != strike,
    decreases v.len(),
{
    if v.len() > 0 && !est_la_ligne(v.last(), echeance, strike) {
        let t = v.drop_last();
        lemme_rang(t, echeance, strike);
        if rang_ligne(v, echeance, strike) is None {
            assert forall|j: int| 0 <= j < v.len() implies (#[trigger] v[j]).echeance != echeance
                || v[j].strike != strike by {
                if j < t.len() {
                    assert(t[j] == v[j]);
                }
            }
        }
    }
}

/// Le côté d'une ligne.
pub open spec fn du_cote(l: Ligne, sens: Sens) -> Cote {
    if sens == Sens::Call {
        l.call
    } else {
        l.put
    }
}

/// Ce contrat est de ce strike, à cette échéance.
pub open spec fn au_strike_de(c: ContratOption, l: Ligne) -> bool {
    c.cle.echeance == l.echeance && c.cle.strike == l.strike
}

/// Deux contrats de même clé.
pub open spec fn se_confondent(a: ContratOption, b: ContratOption) -> bool {
    &&& a.cle.echeance == b.cle.echeance
    &&& a.cle.strike == b.cle.strike
    &&& a.cle.sens == b.cle.sens
}

/// Une ligne porte le contrat : son côté est ce que ses valeurs décrivent.
pub open spec fn porte(v: Seq<Ligne>, c: ContratOption, x: Valeurs) -> bool {
    exists|j: int|
        0 <= j < v.len() && au_strike_de(c, #[trigger] v[j]) && du_cote(v[j], c.cle.sens)
            == cote_de(x)
}

/// Aucun strike n'a deux lignes à la même échéance.
pub open spec fn distinctes(v: Seq<Ligne>) -> bool {
    forall|i: int, j: int|
        0 <= i < j < v.len() ==> (#[trigger] v[i]).echeance != (#[trigger] v[j]).echeance
            || v[i].strike != v[j].strike
}

/// Le contrat a sa ligne.
pub open spec fn a_sa_ligne(c: ContratOption, v: Seq<Ligne>) -> bool {
    exists|j: int| 0 <= j < v.len() && au_strike_de(c, #[trigger] v[j])
}

/// La ligne a un contrat.
pub open spec fn a_un_contrat(l: Ligne, contrats: Seq<ContratOption>) -> bool {
    exists|k: int| 0 <= k < contrats.len() && au_strike_de(#[trigger] contrats[k], l)
}

/// Il y a une ligne par échéance et par strike : jamais deux pour le même, une pour chaque
/// contrat, et aucune sans contrat.
pub proof fn il_y_a_une_ligne_par_echeance_et_strike(
    contrats: Seq<ContratOption>,
    m: Map<i32, Valeurs>,
)
    ensures
        distinctes(lignes_par_strike(contrats, m)),
        forall|k: int|
            0 <= k < contrats.len() ==> a_sa_ligne(
                #[trigger] contrats[k],
                lignes_par_strike(contrats, m),
            ),
        forall|j: int|
            0 <= j < lignes_par_strike(contrats, m).len() ==> a_un_contrat(
                #[trigger] lignes_par_strike(contrats, m)[j],
                contrats,
            ),
    decreases contrats.len(),
{
    if contrats.len() > 0 {
        let (t, c) = (contrats.drop_last(), contrats.last());
        il_y_a_une_ligne_par_echeance_et_strike(t, m);
        let (a, b) = (lignes_par_strike(t, m), lignes_par_strike(contrats, m));
        lemme_rang(a, c.cle.echeance, c.cle.strike);
        lemme_avec_contrat(a, c, recu_pour(m, c.con_id));
        lemme_contrat_de_plus(a, b, t, contrats);
    }
}

/// Le pas : les mêmes places, et une de plus au besoin.
proof fn lemme_contrat_de_plus(
    a: Seq<Ligne>,
    b: Seq<Ligne>,
    t: Seq<ContratOption>,
    contrats: Seq<ContratOption>,
)
    requires
        contrats.len() > 0,
        t == contrats.drop_last(),
        distinctes(a),
        forall|k: int| 0 <= k < t.len() ==> a_sa_ligne(#[trigger] t[k], a),
        forall|j: int| 0 <= j < a.len() ==> a_un_contrat(#[trigger] a[j], t),
        a.len() <= b.len() <= a.len() + 1,
        forall|j: int|
            0 <= j < a.len() ==> (#[trigger] b[j]).echeance == a[j].echeance && b[j].strike
                == a[j].strike,
        b.len() == a.len() ==> a_sa_ligne(contrats.last(), a),
        b.len() > a.len() ==> au_strike_de(contrats.last(), b.last()) && !a_sa_ligne(
            contrats.last(),
            a,
        ),
    ensures
        distinctes(b),
        forall|k: int| 0 <= k < contrats.len() ==> a_sa_ligne(#[trigger] contrats[k], b),
        forall|j: int| 0 <= j < b.len() ==> a_un_contrat(#[trigger] b[j], contrats),
{
    assert forall|i: int, j: int| 0 <= i < j < b.len() implies (#[trigger] b[i]).echeance != (
    #[trigger] b[j]).echeance || b[i].strike != b[j].strike by {
        if j < a.len() {
            assert(a[i].echeance != a[j].echeance || a[i].strike != a[j].strike);
        } else {
            assert(!au_strike_de(contrats.last(), a[i]));
        }
    }
    assert forall|k: int| 0 <= k < contrats.len() implies a_sa_ligne(#[trigger] contrats[k], b) by {
        if k < t.len() {
            assert(t[k] == contrats[k]);
            let j = choose|j: int| 0 <= j < a.len() && au_strike_de(t[k], #[trigger] a[j]);
            assert(au_strike_de(contrats[k], b[j]));
        } else if b.len() > a.len() {
            assert(au_strike_de(contrats[k], b[b.len() - 1]));
        } else {
            let j = choose|j: int|
                0 <= j < a.len() && au_strike_de(contrats.last(), #[trigger] a[j]);
            assert(au_strike_de(contrats[k], b[j]));
        }
    }
    assert forall|j: int| 0 <= j < b.len() implies a_un_contrat(#[trigger] b[j], contrats) by {
        if j < a.len() {
            assert(a_un_contrat(a[j], t));
            let k = choose|k: int| 0 <= k < t.len() && au_strike_de(#[trigger] t[k], a[j]);
            assert(au_strike_de(contrats[k], b[j]));
        } else {
            assert(au_strike_de(contrats[contrats.len() - 1], b[j]));
        }
    }
}

/// Un contrat de plus ne déplace aucune ligne, et n'en ouvre une que si son strike n'en a pas.
proof fn lemme_avec_contrat(v: Seq<Ligne>, c: ContratOption, recu: Option<Valeurs>)
    ensures
        ({
            let w = avec_contrat(v, c, recu);
            let r = rang_ligne(v, c.cle.echeance, c.cle.strike);
            &&& w.len() == v.len() + if r is Some { 0int } else { 1 }
            &&& forall|j: int|
                0 <= j < v.len() ==> (#[trigger] w[j]).echeance == v[j].echeance && w[j].strike
                    == v[j].strike
            &&& forall|j: int|
                0 <= j < v.len() && !au_strike_de(c, v[j]) ==> #[trigger] w[j] == v[j]
            &&& forall|j: int|
                0 <= j < v.len() ==> (c.cle.sens == Sens::Call ==> (#[trigger] w[j]).put
                    == v[j].put) && (c.cle.sens == Sens::Put ==> w[j].call == v[j].call)
            &&& r is None ==> w[v.len() as int].echeance == c.cle.echeance && w[v.len() as int].strike
                == c.cle.strike && du_cote(
                w[v.len() as int],
                if c.cle.sens == Sens::Call {
                    Sens::Put
                } else {
                    Sens::Call
                },
            ) == cote_nul()
            &&& recu matches Some(x) ==> porte(w, c, x)
            &&& recu is None ==> forall|j: int| 0 <= j < v.len() ==> #[trigger] w[j] == v[j]
            &&& recu is None && r is None ==> w[v.len() as int].call == cote_nul()
                && w[v.len() as int].put == cote_nul()
        }),
{
    lemme_rang(v, c.cle.echeance, c.cle.strike);
    let w = avec_contrat(v, c, recu);
    let k = match rang_ligne(v, c.cle.echeance, c.cle.strike) {
        Some(k) => k,
        None => v.len() as int,
    };
    if let Some(x) = recu {
        assert(au_strike_de(c, w[k]) && du_cote(w[k], c.cle.sens) == cote_de(x));
    }
}

/// Le dernier contrat reçu d'une clé fait le côté de sa ligne : un call fait le call, un put
/// fait le put, et ce que d'autres contrats servent n'y change rien.
pub proof fn un_contrat_fait_son_cote(
    contrats: Seq<ContratOption>,
    m: Map<i32, Valeurs>,
    k: int,
)
    requires
        0 <= k < contrats.len(),
        m.contains_key(contrats[k].con_id),
        forall|j: int|
            k < j < contrats.len() ==> !se_confondent(#[trigger] contrats[j], contrats[k]),
    ensures
        porte(lignes_par_strike(contrats, m), contrats[k], m[contrats[k].con_id]),
    decreases contrats.len(),
{
    let (t, c) = (contrats.drop_last(), contrats.last());
    let (a, b) = (lignes_par_strike(t, m), lignes_par_strike(contrats, m));
    lemme_avec_contrat(a, c, recu_pour(m, c.con_id));
    if k < t.len() {
        assert forall|j: int| k < j < t.len() implies !se_confondent(#[trigger] t[j], t[k]) by {
            assert(t[j] == contrats[j]);
        }
        un_contrat_fait_son_cote(t, m, k);
        let j = choose|j: int|
            0 <= j < a.len() && au_strike_de(t[k], #[trigger] a[j]) && du_cote(a[j], t[k].cle.sens)
                == cote_de(m[t[k].con_id]);
        assert(!se_confondent(contrats[contrats.len() - 1], contrats[k]));
        assert(au_strike_de(contrats[k], b[j]) && du_cote(b[j], contrats[k].cle.sens) == cote_de(
            m[contrats[k].con_id],
        ));
    }
}

/// Un côté dont aucun contrat n'a rien servi est vide.
pub proof fn un_cote_sans_rien_recu_est_vide(
    contrats: Seq<ContratOption>,
    m: Map<i32, Valeurs>,
    j: int,
    sens: Sens,
)
    requires
        0 <= j < lignes_par_strike(contrats, m).len(),
        forall|k: int|
            0 <= k < contrats.len() ==> !(au_strike_de(
                #[trigger] contrats[k],
                lignes_par_strike(contrats, m)[j],
            ) && contrats[k].cle.sens == sens && m.contains_key(contrats[k].con_id)),
    ensures
        du_cote(lignes_par_strike(contrats, m)[j], sens) == cote_nul(),
    decreases contrats.len(),
{
    if contrats.len() > 0 {
        let (t, c) = (contrats.drop_last(), contrats.last());
        let (a, b) = (lignes_par_strike(t, m), lignes_par_strike(contrats, m));
        lemme_rang(a, c.cle.echeance, c.cle.strike);
        lemme_avec_contrat(a, c, recu_pour(m, c.con_id));
        assert(contrats[contrats.len() - 1] == c);
        if j < a.len() {
            assert forall|k: int| 0 <= k < t.len() implies !(au_strike_de(#[trigger] t[k], a[j])
                && t[k].cle.sens == sens && m.contains_key(t[k].con_id)) by {
                assert(t[k] == contrats[k]);
            }
            un_cote_sans_rien_recu_est_vide(t, m, j, sens);
        }
    }
}

/// Compléter une ligne ne touche qu'aux gammas manquants : un gamma publié reste, et celui qui
/// manque est celui de Black-76 au prix et à la volatilité de la ligne, sans taux.
pub proof fn completer_ne_touche_qu_aux_gammas_manquants(
    ln: spec_fn(Flottant) -> Flottant,
    exp: spec_fn(Flottant) -> Flottant,
    l: Ligne,
    spot: Flottant,
    releve: InstantReleve,
)
    ensures
        ({
            let f = ligne_completee(ln, exp, l, spot, releve);
            &&& f.echeance == l.echeance
            &&& f.strike == l.strike
            &&& f.call == (Cote { gamma: f.call.gamma, ..l.call })
            &&& f.put == (Cote { gamma: f.put.gamma, ..l.put })
            &&& l.call.gamma.rang() != 0 ==> f.call.gamma == l.call.gamma
            &&& l.put.gamma.rang() != 0 ==> f.put.gamma == l.put.gamma
            &&& !l.call.iv.positif() ==> f.call == l.call
            &&& !l.put.iv.positif() ==> f.put == l.put
            &&& l.call == l.put ==> f.call == f.put
        }),
        forall|c: Cote, t: Flottant|
            c.gamma.rang() == 0 && c.iv.positif() ==> (#[trigger] avec_gamma(
                ln,
                exp,
                c,
                spot,
                l.strike,
                t,
            )).gamma == gamma_de(ln, exp, spot, l.strike, c.iv, t, Flottant::nul()),
{
}

/// Les prix servis sont ceux des ticks, sans les absurdes : un prix y est si et seulement si un
/// contrat l'a servi et qu'il est positif.
pub proof fn les_prix_servis_sont_ceux_des_ticks(ids: Seq<i32>, m: Map<i32, Valeurs>, p: Flottant)
    ensures
        prix_servis(ids, m).contains(p) <==> p.positif() && exists|i: int|
            0 <= i < ids.len() && m[#[trigger] ids[i]].sous_jacent == Some(p),
    decreases ids.len(),
{
    if ids.len() > 0 {
        let t = ids.drop_last();
        les_prix_servis_sont_ceux_des_ticks(t, m, p);
        let (a, b) = (prix_servis(t, m), prix_servis(ids, m));
        if let Some(x) = m[ids.last()].sous_jacent {
            crate::tri::lemme_push_contient(a, x, p);
        }
        if p.positif() {
            if exists|i: int| 0 <= i < t.len() && m[#[trigger] t[i]].sous_jacent == Some(p) {
                let i = choose|i: int| 0 <= i < t.len() && m[#[trigger] t[i]].sous_jacent == Some(p);
                assert(m[ids[i]].sous_jacent == Some(p));
            }
            if exists|i: int| 0 <= i < ids.len() && m[#[trigger] ids[i]].sous_jacent == Some(p) {
                let i = choose|i: int|
                    0 <= i < ids.len() && m[#[trigger] ids[i]].sous_jacent == Some(p);
                if i < t.len() {
                    assert(m[t[i]].sous_jacent == Some(p));
                }
            }
            if m[ids.last()].sous_jacent == Some(p) {
                assert(m[ids[ids.len() - 1]].sous_jacent == Some(p));
            }
        }
    }
}

/// Un prix imposé l'emporte sur ceux des ticks ; sans prix imposé ni tick, il n'y en a pas.
pub proof fn un_prix_impose_l_emporte(p: Flottant, m: Map<i32, Valeurs>)
    ensures
        spot_de(Some(p), m) == Some(p),
        (forall|id: i32| (#[trigger] m[id]).sous_jacent is None) ==> spot_de(None, m) is None,
{
    if forall|id: i32| (#[trigger] m[id]).sous_jacent is None {
        lemme_aucun_prix(super::assemblage::identifiants(m), m);
    }
}

proof fn lemme_aucun_prix(ids: Seq<i32>, m: Map<i32, Valeurs>)
    requires
        forall|id: i32| (#[trigger] m[id]).sous_jacent is None,
    ensures
        prix_servis(ids, m).len() == 0,
    decreases ids.len(),
{
    if ids.len() > 0 {
        lemme_aucun_prix(ids.drop_last(), m);
    }
}

/// Un tick du modèle remplit chaque champ de la grandeur du même nom : le delta entre dès moins
/// un, le theta sans borne, les autres dès zéro. Il ne touche ni à l'open interest ni au volume.
pub proof fn un_tick_du_modele_remplit_ses_champs(v: Valeurs, numero: i32, c: Calcul, x: Flottant)
    requires
        numero == 13 || numero == 83,
        x.fini(),
    ensures
        ({
            let w = v.avec(Tick::OptionComputation(numero, c));
            let positif = Flottant::nul().inferieur_ou_egal(x);
            &&& w.open_interest == v.open_interest
            &&& w.volume == v.volume
            &&& c.implied_volatility == Some(x) ==> w.iv == if positif { Some(x) } else { v.iv }
            &&& c.gamma == Some(x) ==> w.gamma == if positif { Some(x) } else { v.gamma }
            &&& c.vega == Some(x) ==> w.vega == if positif { Some(x) } else { v.vega }
            &&& c.underlying_price == Some(x) ==> w.sous_jacent == if positif {
                Some(x)
            } else {
                v.sous_jacent
            }
            &&& c.delta == Some(x) ==> w.delta == if rapport(-1, 1).inferieur_ou_egal(x) {
                Some(x)
            } else {
                v.delta
            }
            &&& c.theta == Some(x) ==> w.theta == Some(x)
            &&& c.implied_volatility is None ==> w.iv == v.iv
            &&& c.gamma is None ==> w.gamma == v.gamma
            &&& c.vega is None ==> w.vega == v.vega
            &&& c.underlying_price is None ==> w.sous_jacent == v.sous_jacent
            &&& c.delta is None ==> w.delta == v.delta
            &&& c.theta is None ==> w.theta == v.theta
        }),
{
}

/// Les autres ticks de calcul ne changent rien, et une taille ne touche qu'à l'open interest,
/// par ses quatre numéros.
pub proof fn les_autres_ticks_ne_changent_que_l_open_interest(
    v: Valeurs,
    numero: i32,
    c: Calcul,
    taille: Flottant,
)
    ensures
        numero != 13 && numero != 83 ==> v.avec(Tick::OptionComputation(numero, c)) == v,
        numero == 22 || numero == 27 || numero == 28 || numero == 86 ==> v.avec(
            Tick::Size(numero, taille),
        ) == (Valeurs { open_interest: Some(taille), ..v }),
        !(numero == 22 || numero == 27 || numero == 28 || numero == 86) ==> v.avec(
            Tick::Size(numero, taille),
        ) == v,
        v.avec(Tick::Autre) == v,
{
}

} // verus!
