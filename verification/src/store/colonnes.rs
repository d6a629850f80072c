//! Ce que les colonnes des fichiers portent sous leur nom.

#[allow(unused_imports)]
use super::historique::{
    cases_de, champ_de, horizon_ecrit, lemme_rang_du_nom, noms, valeur_nommee, LigneHistorique,
};
#[allow(unused_imports)]
use super::lot::{lemme_rang_unique, Lot, Valeurs};
#[allow(unused_imports)]
use super::releve::{est_lot_de, lemme_noms_distincts, nom_colonne, valeurs_de};
#[allow(unused_imports)]
use super::series::{
    colonne_de_barres, colonne_de_niveaux, est_lot_de_barres, est_lot_de_niveaux, lemme_noms_barre,
    lemme_noms_point, nom_barre, nom_point, Barre, PointNiveaux,
};
#[allow(unused_imports)]
use crate::coeur::chaine::Chaine;
#[allow(unused_imports)]
use crate::court::court_de;
#[allow(unused_imports)]
use crate::fixe::ecrit;
use crate::flottant::Flottant;
use vstd::prelude::*;

verus! {

/// La colonne de ce nom porte ces nombres, ligne par ligne.
pub open spec fn porte_sous(
    lot: Lot,
    nom: Seq<char>,
    n: nat,
    valeur: spec_fn(int) -> Option<Flottant>,
) -> bool {
    lot.colonne(nom) matches Some(Valeurs::Nombres(x)) && x@.len() == n && forall|j: int|
        0 <= j < n ==> #[trigger] x@[j] == valeur(j)
}

/// La colonne de ce nom porte ces instants, ligne par ligne.
pub open spec fn date_sous(lot: Lot, nom: Seq<char>, n: nat, valeur: spec_fn(int) -> i64) -> bool {
    lot.colonne(nom) matches Some(Valeurs::Instants(x)) && x@.len() == n && forall|j: int|
        0 <= j < n ==> #[trigger] x@[j] == valeur(j)
}

/// La colonne de rang `i` d'un relevé se trouve par son nom.
proof fn lemme_colonne_du_releve(lot: Lot, c: Chaine, i: int)
    requires
        est_lot_de(lot, c),
        0 <= i < 28,
    ensures
        lot.colonne(nom_colonne(i)) == Some(lot.colonnes@[i].valeurs),
        valeurs_de(lot.colonnes@[i].valeurs, i, c),
{
    assert(lot.colonnes@[i].nom@ == nom_colonne(i));
    assert forall|j: int| 0 <= j < lot.colonnes@.len() && j != i implies (
    #[trigger] lot.colonnes@[j]).nom@ != nom_colonne(i) by {
        lemme_noms_distincts(i, j);
    }
    lemme_rang_unique(lot.colonnes@, nom_colonne(i), i);
}

/// Dans un relevé, chaque colonne porte ce que son nom dit : les colonnes `Call` le côté des
/// calls, les colonnes `Put` celui des puts, et chacune sa grandeur.
pub proof fn une_colonne_du_releve_porte_ce_que_son_nom_dit(lot: Lot, c: Chaine)
    requires
        est_lot_de(lot, c),
    ensures
        ({
            let (v, n) = (c.vue(), c.vue().len());
            &&& date_sous(lot, "ExpirationDate"@, n, |j: int| v[j].echeance.0.micros)
            &&& date_sous(lot, "_quote_date"@, n, |j: int| c.releve.0.micros)
            &&& porte_sous(lot, "_spot"@, n, |j: int| Some(c.spot))
            &&& porte_sous(lot, "StrikePrice"@, n, |j: int| Some(v[j].strike))
            &&& porte_sous(lot, "CallIV"@, n, |j: int| Some(v[j].call.iv))
            &&& porte_sous(lot, "CallGamma"@, n, |j: int| Some(v[j].call.gamma))
            &&& porte_sous(lot, "CallDelta"@, n, |j: int| Some(v[j].call.delta))
            &&& porte_sous(lot, "CallOpenInt"@, n, |j: int| Some(v[j].call.open_interest))
            &&& porte_sous(lot, "CallVega"@, n, |j: int| Some(v[j].call.vega))
            &&& porte_sous(lot, "CallTheta"@, n, |j: int| Some(v[j].call.theta))
            &&& porte_sous(lot, "CallVol"@, n, |j: int| Some(v[j].call.volume))
            &&& porte_sous(lot, "PutIV"@, n, |j: int| Some(v[j].put.iv))
            &&& porte_sous(lot, "PutGamma"@, n, |j: int| Some(v[j].put.gamma))
            &&& porte_sous(lot, "PutDelta"@, n, |j: int| Some(v[j].put.delta))
            &&& porte_sous(lot, "PutOpenInt"@, n, |j: int| Some(v[j].put.open_interest))
            &&& porte_sous(lot, "PutVega"@, n, |j: int| Some(v[j].put.vega))
            &&& porte_sous(lot, "PutTheta"@, n, |j: int| Some(v[j].put.theta))
            &&& porte_sous(lot, "PutVol"@, n, |j: int| Some(v[j].put.volume))
        }),
{
    assert forall|i: int| 0 <= i < 28 implies lot.colonne(#[trigger] nom_colonne(i)) == Some(
        lot.colonnes@[i].valeurs,
    ) && valeurs_de(lot.colonnes@[i].valeurs, i, c) by {
        lemme_colonne_du_releve(lot, c, i);
    }
    assert(nom_colonne(0) == "ExpirationDate"@ && nom_colonne(27) == "_quote_date"@);
    assert(nom_colonne(26) == "_spot"@ && nom_colonne(12) == "StrikePrice"@);
    assert(nom_colonne(8) == "CallIV"@ && nom_colonne(18) == "PutIV"@);
    assert(nom_colonne(10) == "CallGamma"@ && nom_colonne(20) == "PutGamma"@);
    assert(nom_colonne(9) == "CallDelta"@ && nom_colonne(19) == "PutDelta"@);
    assert(nom_colonne(11) == "CallOpenInt"@ && nom_colonne(21) == "PutOpenInt"@);
    assert(nom_colonne(22) == "CallVega"@ && nom_colonne(23) == "PutVega"@);
    assert(nom_colonne(24) == "CallTheta"@ && nom_colonne(25) == "PutTheta"@);
    assert(nom_colonne(7) == "CallVol"@ && nom_colonne(17) == "PutVol"@);
}

/// La colonne de rang `i` d'une série de barres se trouve par son nom.
proof fn lemme_colonne_de_barres(lot: Lot, s: Seq<Barre>, i: int)
    requires
        est_lot_de_barres(lot, s),
        0 <= i < 5,
    ensures
        lot.colonne(nom_barre(i)) == Some(lot.colonnes@[i + 1].valeurs),
        colonne_de_barres(lot.colonnes@[i + 1].valeurs, i, s),
{
    assert(lot.colonnes@[i + 1].nom@ == nom_barre(i));
    lemme_noms_barre(i, i);
    assert forall|j: int| 0 <= j < lot.colonnes@.len() && j != i + 1 implies (
    #[trigger] lot.colonnes@[j]).nom@ != nom_barre(i) by {
        if j > 0 {
            assert(lot.colonnes@[(j - 1) + 1].nom@ == nom_barre(j - 1));
            lemme_noms_barre(i, j - 1);
        }
    }
    lemme_rang_unique(lot.colonnes@, nom_barre(i), i + 1);
}

/// Dans la série des barres, chaque colonne porte ce que son nom dit.
pub proof fn une_colonne_de_barres_porte_ce_que_son_nom_dit(lot: Lot, s: Seq<Barre>)
    requires
        est_lot_de_barres(lot, s),
    ensures
        ({
            let n = s.len();
            &&& porte_sous(lot, "open"@, n, |j: int| Some(s[j].open))
            &&& porte_sous(lot, "high"@, n, |j: int| Some(s[j].high))
            &&& porte_sous(lot, "low"@, n, |j: int| Some(s[j].low))
            &&& porte_sous(lot, "close"@, n, |j: int| Some(s[j].close))
            &&& porte_sous(lot, "volume"@, n, |j: int| Some(s[j].volume))
        }),
{
    lemme_colonne_de_barres(lot, s, 0);
    lemme_colonne_de_barres(lot, s, 1);
    lemme_colonne_de_barres(lot, s, 2);
    lemme_colonne_de_barres(lot, s, 3);
    lemme_colonne_de_barres(lot, s, 4);
}

/// La colonne de rang `i` d'une série de niveaux se trouve par son nom.
proof fn lemme_colonne_de_niveaux(lot: Lot, s: Seq<PointNiveaux>, i: int)
    requires
        est_lot_de_niveaux(lot, s),
        0 <= i < 20,
    ensures
        lot.colonne(nom_point(i)) == Some(lot.colonnes@[i + 1].valeurs),
        colonne_de_niveaux(lot.colonnes@[i + 1].valeurs, i, s),
{
    assert(lot.colonnes@[i + 1].nom@ == nom_point(i));
    lemme_noms_point(i, i);
    assert forall|j: int| 0 <= j < lot.colonnes@.len() && j != i + 1 implies (
    #[trigger] lot.colonnes@[j]).nom@ != nom_point(i) by {
        if j > 0 {
            assert(lot.colonnes@[(j - 1) + 1].nom@ == nom_point(j - 1));
            lemme_noms_point(i, j - 1);
        }
    }
    lemme_rang_unique(lot.colonnes@, nom_point(i), i + 1);
}

/// Dans la série des niveaux, chaque colonne porte ce que son nom dit, et laisse vide ce qui
/// manque.
pub proof fn une_colonne_de_niveaux_porte_ce_que_son_nom_dit(lot: Lot, s: Seq<PointNiveaux>)
    requires
        est_lot_de_niveaux(lot, s),
    ensures
        ({
            let n = s.len();
            &&& porte_sous(lot, "spot"@, n, |j: int| Some(s[j].spot))
            &&& porte_sous(lot, "zero_gamma"@, n, |j: int| s[j].zero_gamma)
            &&& porte_sous(lot, "gex"@, n, |j: int| Some(s[j].gex))
            &&& porte_sous(lot, "charm"@, n, |j: int| Some(s[j].charm))
            &&& porte_sous(lot, "vanna"@, n, |j: int| Some(s[j].vanna))
            &&& porte_sous(lot, "call_wall"@, n, |j: int| s[j].call_wall)
            &&& porte_sous(lot, "put_wall"@, n, |j: int| s[j].put_wall)
            &&& porte_sous(lot, "call_wall_oi"@, n, |j: int| s[j].call_wall_oi)
            &&& porte_sous(lot, "put_wall_oi"@, n, |j: int| s[j].put_wall_oi)
            &&& porte_sous(lot, "iv_atm"@, n, |j: int| s[j].iv_atm)
            &&& porte_sous(lot, "skew"@, n, |j: int| s[j].skew)
            &&& porte_sous(lot, "max_pain"@, n, |j: int| s[j].max_pain)
            &&& porte_sous(lot, "delta"@, n, |j: int| s[j].delta)
            &&& porte_sous(lot, "vega"@, n, |j: int| s[j].vega)
            &&& porte_sous(lot, "theta"@, n, |j: int| s[j].theta)
            &&& porte_sous(lot, "dte_max"@, n, |j: int| s[j].dte_max)
            &&& porte_sous(lot, "call_wall_vol"@, n, |j: int| s[j].call_wall_vol)
            &&& porte_sous(lot, "put_wall_vol"@, n, |j: int| s[j].put_wall_vol)
            &&& porte_sous(lot, "long_gamma"@, n, |j: int| s[j].long_gamma)
            &&& porte_sous(lot, "short_gamma"@, n, |j: int| s[j].short_gamma)
        }),
{
    assert forall|i: int| 0 <= i < 20 implies lot.colonne(#[trigger] nom_point(i)) == Some(
        lot.colonnes@[i + 1].valeurs,
    ) && colonne_de_niveaux(lot.colonnes@[i + 1].valeurs, i, s) by {
        lemme_colonne_de_niveaux(lot, s, i);
    }
    assert(nom_point(0) == "spot"@ && nom_point(1) == "zero_gamma"@ && nom_point(2) == "gex"@);
    assert(nom_point(3) == "charm"@ && nom_point(4) == "vanna"@ && nom_point(5) == "call_wall"@);
    assert(nom_point(6) == "put_wall"@ && nom_point(7) == "call_wall_oi"@);
    assert(nom_point(8) == "put_wall_oi"@ && nom_point(9) == "iv_atm"@);
    assert(nom_point(10) == "skew"@ && nom_point(11) == "max_pain"@ && nom_point(12) == "delta"@);
    assert(nom_point(13) == "vega"@ && nom_point(14) == "theta"@ && nom_point(15) == "dte_max"@);
    assert(nom_point(16) == "call_wall_vol"@ && nom_point(17) == "put_wall_vol"@);
    assert(nom_point(18) == "long_gamma"@ && nom_point(19) == "short_gamma"@);
}

/// Dans l'historique, chaque case se lit sous le nom de sa colonne.
pub proof fn une_case_de_l_historique_se_lit_sous_son_nom(l: LigneHistorique, quand: Seq<char>)
    ensures
        ({
            let c = cases_de(l, quand);
            &&& valeur_nommee(noms(), c, "timestamp"@) == quand
            &&& valeur_nommee(noms(), c, "ticker"@) == l.ticker@
            &&& valeur_nommee(noms(), c, "source_gamma"@) == l.source_gamma@
            &&& valeur_nommee(noms(), c, "time_convention"@) == l.convention@
            &&& valeur_nommee(noms(), c, "dte_max"@) == horizon_ecrit(l.dte_max)
            &&& valeur_nommee(noms(), c, "spot"@) == court_de(l.spot)
            &&& valeur_nommee(noms(), c, "total_gex"@) == court_de(l.gex)
            &&& valeur_nommee(noms(), c, "zero_gamma"@) == champ_de(l.zero_gamma)
            &&& valeur_nommee(noms(), c, "call_wall"@) == champ_de(l.call_wall)
            &&& valeur_nommee(noms(), c, "put_wall"@) == champ_de(l.put_wall)
            &&& valeur_nommee(noms(), c, "call_wall_oi"@) == champ_de(l.call_wall_oi)
            &&& valeur_nommee(noms(), c, "put_wall_oi"@) == champ_de(l.put_wall_oi)
            &&& valeur_nommee(noms(), c, "charm"@) == court_de(l.charm)
            &&& valeur_nommee(noms(), c, "vanna"@) == court_de(l.vanna)
            &&& valeur_nommee(noms(), c, "strikes"@) == ecrit(l.strikes as nat)
            &&& valeur_nommee(noms(), c, "expiries"@) == ecrit(l.echeances as nat)
            &&& valeur_nommee(noms(), c, "iv_atm"@) == champ_de(l.iv_atm)
        }),
{
    let c = cases_de(l, quand);
    assert forall|i: int| 0 <= i < 26 implies valeur_nommee(noms(), c, #[trigger] noms()[i])
        == c[i] by {
        lemme_rang_du_nom(i);
    }
    assert(noms()[0] == "timestamp"@ && noms()[1] == "ticker"@ && noms()[2] == "dte_max"@);
    assert(noms()[3] == "source_gamma"@ && noms()[4] == "time_convention"@);
    assert(noms()[5] == "spot"@ && noms()[6] == "total_gex"@ && noms()[7] == "zero_gamma"@);
    assert(noms()[8] == "call_wall"@ && noms()[9] == "put_wall"@);
    assert(noms()[10] == "call_wall_oi"@ && noms()[11] == "put_wall_oi"@);
    assert(noms()[12] == "charm"@ && noms()[13] == "vanna"@ && noms()[14] == "strikes"@);
    assert(noms()[15] == "expiries"@ && noms()[16] == "iv_atm"@);
}

} // verus!
