//! Ce que l'écran montre, rapporté à ce que l'analyse a mesuré.

#[allow(unused_imports)]
use super::demande::horizon_accorde;
#[allow(unused_imports)]
use super::profil::{bandeau_de, est_profil_de, muets_de, volume_servi, Profil};
#[allow(unused_imports)]
use super::series::{bougie_de, points_servis};
#[allow(unused_imports)]
use crate::coeur::analyse::{
    analyse_juste, profil_en, strikes_definis, total, AgregatStrike, Analyse, LigneExposee,
    Parametres,
};
#[allow(unused_imports)]
use crate::coeur::chaine::Chaine;
#[allow(unused_imports)]
use crate::coeur::seance::{
    les_murs_de_l_analyse_sont_dans_leur_bande, les_totaux_sont_ceux_des_lignes,
};
#[allow(unused_imports)]
use crate::coeur::strikes::{
    au_strike, cumul, cumule_les_lignes, est_le_plus_gros, resistance, support, table_definie,
};
use crate::flottant::Flottant;
#[allow(unused_imports)]
use crate::store::series::{Barre, PointNiveaux};
use vstd::prelude::*;

verus! {

/// Les niveaux de l'écran sont ceux que les lignes font : le mur de calls et celui de puts
/// portent le plus de gamma de leur côté du spot, leurs pendants le plus de volume, et les
/// strikes majeurs sont les extrêmes du GEX net.
pub proof fn les_niveaux_de_l_ecran_sont_ceux_des_lignes(
    p: Profil,
    a: Analyse,
    horizon: Option<i64>,
    ln: spec_fn(Flottant) -> Flottant,
    exp: spec_fn(Flottant) -> Flottant,
    chaine: Chaine,
    params: Parametres,
)
    requires
        est_profil_de(p, a, horizon),
        analyse_juste(a, ln, exp, chaine, params),
        strikes_definis(a.lignes@),
        table_definie(a.par_strike@),
    ensures
        p.maintenant is Some,
        ({
            let (t, m) = (a.par_strike@, p.maintenant->0);
            let (haut, bas) = (
                resistance(chaine.spot, params.plage_murs),
                support(chaine.spot, params.plage_murs),
            );
            let (haut_vol, bas_vol) = (
                resistance(chaine.spot, params.plage_murs_oi),
                support(chaine.spot, params.plage_murs_oi),
            );
            &&& p.etat.spot == Some(chaine.spot)
            &&& p.horizon == horizon
            &&& m.gex == total(Seq::new(a.lignes@.len(), |i: int| a.lignes@[i].gex))
            &&& m.zero_gamma == p.zero_gamma
            &&& m.max_pain == a.max_pain
            &&& p.attendu == a.attendu
            &&& est_le_plus_gros(t, haut, |x: AgregatStrike| x.call_gex, m.call_wall)
            &&& est_le_plus_gros(t, bas, |x: AgregatStrike| x.put_gex.neg(), m.put_wall)
            &&& est_le_plus_gros(t, haut_vol, |x: AgregatStrike| x.call_vol, m.call_wall_vol)
            &&& est_le_plus_gros(t, bas_vol, |x: AgregatStrike| x.put_vol, m.put_wall_vol)
            &&& est_le_plus_gros(
                t,
                |x: AgregatStrike| true,
                |x: AgregatStrike| x.gex,
                m.long_gamma,
            )
            &&& est_le_plus_gros(
                t,
                |x: AgregatStrike| true,
                |x: AgregatStrike| x.gex.neg(),
                m.short_gamma,
            )
        }),
{
    les_murs_de_l_analyse_sont_dans_leur_bande(a, ln, exp, chaine, params);
    les_totaux_sont_ceux_des_lignes(a, ln, exp, chaine, params);
}

/// Chaque strike de l'écran cumule les lignes de ce strike : son GEX, et l'open interest de
/// chaque côté.
pub proof fn un_strike_de_l_ecran_cumule_ses_lignes(
    p: Profil,
    a: Analyse,
    horizon: Option<i64>,
    ln: spec_fn(Flottant) -> Flottant,
    exp: spec_fn(Flottant) -> Flottant,
    chaine: Chaine,
    params: Parametres,
    i: int,
)
    requires
        est_profil_de(p, a, horizon),
        analyse_juste(a, ln, exp, chaine, params),
        strikes_definis(a.lignes@),
        table_definie(a.par_strike@),
        0 <= i < p.strikes@.len(),
    ensures
        p.etat.strikes == p.strikes@.len(),
        ({
            let x = p.strikes@[i];
            let s = a.lignes@.filter(au_strike(x.strike));
            &&& s.len() > 0
            &&& x.gex == cumul(s, |l: LigneExposee| l.gex)
            &&& x.call_oi == cumul(s, |l: LigneExposee| l.ligne.call.open_interest)
            &&& x.put_oi == cumul(s, |l: LigneExposee| l.ligne.put.open_interest)
        }),
{
    les_murs_de_l_analyse_sont_dans_leur_bande(a, ln, exp, chaine, params);
    let t = a.par_strike@[i];
    assert(cumule_les_lignes(t, a.lignes@.filter(au_strike(t.strike))));
}

/// Le régime se peint sur toute la grille : à chaque niveau, le GEX que les lignes y feraient.
pub proof fn le_regime_se_peint_sur_toute_la_grille(
    p: Profil,
    a: Analyse,
    horizon: Option<i64>,
    ln: spec_fn(Flottant) -> Flottant,
    exp: spec_fn(Flottant) -> Flottant,
    chaine: Chaine,
    params: Parametres,
)
    requires
        est_profil_de(p, a, horizon),
        analyse_juste(a, ln, exp, chaine, params),
    ensures
        p.regime@.len() == a.niveaux@.len(),
        p.croisements@ == a.croisements@,
        forall|i: int|
            0 <= i < p.regime@.len() ==> {
                let x = #[trigger] p.regime@[i];
                &&& x.niveau == a.niveaux@[i]
                &&& x.carburant == a.carburant@[i]
                &&& x.gex == profil_en(ln, exp, a.lignes@, x.niveau, chaine.spot, params)
            },
{
}

/// Le bandeau se tait quand rien ne manque, et parle dès qu'une mesure est absente : l'open
/// interest d'abord, le volume ensuite, puis les greeks que la source ne publie pas.
pub proof fn le_bandeau_dit_ce_qui_manque(a: Analyse, cote: bool)
    ensures
        bandeau_de(a, cote) is None <==> cote && volume_servi(a.par_strike@) && a.delta.rang() != 0
            && a.vega.rang() != 0 && a.theta.rang() != 0,
        forall|i: int| 0 <= i < muets_de(a).len() ==> {
            let m = #[trigger] muets_de(a)[i];
            ||| m == "delta"@ && a.delta.rang() == 0
            ||| m == "vega"@ && a.vega.rang() == 0
            ||| m == "thêta"@ && a.theta.rang() == 0
        },
        muets_de(a).len() == (if a.delta.rang() == 0 { 1int } else { 0 }) + (if a.vega.rang() == 0 {
            1int
        } else { 0 }) + (if a.theta.rang() == 0 { 1int } else { 0 }),
        !cote ==> forall|b: Analyse| #[trigger] bandeau_de(b, cote) == bandeau_de(a, cote),
{
}

/// Une bougie garde sa barre, l'instant compté en secondes.
pub proof fn une_bougie_garde_sa_barre(b: Barre)
    requires
        b.instant.micros >= 0,
    ensures
        ({
            let c = bougie_de(b);
            &&& c.open == b.open
            &&& c.high == b.high
            &&& c.low == b.low
            &&& c.close == b.close
            &&& c.time * 1_000_000 <= b.instant.micros < (c.time + 1) * 1_000_000
        }),
{
}

/// Les points servis sont tous ceux de l'horizon, dans leur ordre ; sans horizon nommé, tous.
pub proof fn tous_les_points_de_l_horizon_sont_servis(v: Seq<PointNiveaux>, h: i64)
    ensures
        points_servis(v, None) == v,
        points_servis(v, Some(h)) == v.filter(
            |p: PointNiveaux|
                p.dte_max matches Some(f) && f.de_meme_valeur(
                    crate::flottant::rapport(h as int, 1),
                ),
        ),
    decreases v.len(),
{
    reveal(Seq::filter);
    if v.len() > 0 {
        tous_les_points_de_l_horizon_sont_servis(v.drop_last(), h);
    }
}

/// L'horizon servi est présent : celui qu'on demande s'il l'est, le plus long sinon.
pub proof fn l_horizon_servi_est_present(horizons: Seq<i64>, demande: Option<i64>)
    requires
        forall|i: int, j: int|
            0 <= i < j < horizons.len() ==> #[trigger] horizons[i] < #[trigger] horizons[j],
    ensures
        horizons.len() == 0 ==> horizon_accorde(horizons, demande) is None,
        horizons.len() > 0 ==> (horizon_accorde(horizons, demande) matches Some(h)
            && horizons.contains(h) && (demande matches Some(d) ==> horizons.contains(d) ==> h == d)
            && ((demande is None || !horizons.contains(demande->0)) ==> forall|i: int|
            0 <= i < horizons.len() ==> #[trigger] horizons[i] <= h)),
{
    if horizons.len() > 0 {
        assert(horizons[horizons.len() - 1] == horizons.last());
    }
}

} // verus!
