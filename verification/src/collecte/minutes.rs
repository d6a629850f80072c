//! Ce que la session écrit chaque minute, rapporté à la chaîne dont cela vient.

#[allow(unused_imports)]
use super::decisions::rebalayage_du;
#[allow(unused_imports)]
use super::session::{
    a_balayer, cote_quelque_part, debut_de_minute, fonte_de, milieu_haut, point_voulu,
    points_des_horizons, porte_l_id, premier_id, rangs_retenus, rattaches, repere_de, socle_fait,
    spot_recent, strikes_de, tentative_depuis, Etat, Fonte, Socle, Suite,
};
use crate::calendrier::Instant;
#[allow(unused_imports)]
use crate::coeur::analyse::{
    analyse_juste, lignes_vives, strikes_definis, total, AgregatStrike, Analyse, Parametres,
};
#[allow(unused_imports)]
use crate::coeur::chaine::{Chaine, ChaineInvalide, Ligne};
#[allow(unused_imports)]
use crate::coeur::seance::{
    les_murs_de_l_analyse_sont_dans_leur_bande, les_totaux_sont_ceux_des_lignes,
};
#[allow(unused_imports)]
use crate::coeur::temps::InstantReleve;
#[allow(unused_imports)]
use crate::coeur::strikes::{est_le_plus_gros, resistance, support, table_definie};
use crate::flottant::Flottant;
#[allow(unused_imports)]
use crate::flottant::rapport;
#[allow(unused_imports)]
use crate::ib::decisions::ContratOption;
#[allow(unused_imports)]
use crate::store::series::Barre;
#[allow(unused_imports)]
use crate::store::validation::valeur_avant;
#[allow(unused_imports)]
use crate::tri::{le_tri_garde_les_elements, le_tri_range_sans_rien_perdre, ordre_faible, triee};
use vstd::prelude::*;

verus! {

/// Un point dit ce que son horizon mesure : chaque mur porte le plus de son côté du spot, les
/// strikes majeurs sont les extrêmes du GEX net, les totaux sont ceux des lignes, et le zero
/// gamma, le max pain, la volatilité et le skew sont ceux de l'analyse.
pub proof fn un_point_dit_ce_que_son_horizon_mesure(
    a: Analyse,
    ln: spec_fn(Flottant) -> Flottant,
    exp: spec_fn(Flottant) -> Flottant,
    chaine: Chaine,
    params: Parametres,
    minute: Instant,
    horizon: i64,
)
    requires
        analyse_juste(a, ln, exp, chaine, params),
        strikes_definis(a.lignes@),
        table_definie(a.par_strike@),
    ensures
        ({
            let p = point_voulu(ln, exp, chaine, params, minute, horizon);
            let (t, s, n) = (a.par_strike@, a.lignes@, a.lignes@.len());
            let (haut, bas) = (
                resistance(chaine.spot, params.plage_murs),
                support(chaine.spot, params.plage_murs),
            );
            let (haut_oi, bas_oi) = (
                resistance(chaine.spot, params.plage_murs_oi),
                support(chaine.spot, params.plage_murs_oi),
            );
            &&& p.instant == minute
            &&& p.spot == chaine.spot
            &&& p.dte_max == Some(rapport(horizon as int, 1))
            &&& p.zero_gamma == a.zero_gamma
            &&& p.max_pain == a.max_pain
            &&& p.iv_atm == a.iv_atm
            &&& p.skew == a.skew
            &&& p.gex == total(Seq::new(n, |i: int| s[i].gex))
            &&& p.charm == total(Seq::new(n, |i: int| s[i].charm))
            &&& p.vanna == total(Seq::new(n, |i: int| s[i].vanna))
            &&& p.delta == Some(total(Seq::new(n, |i: int| s[i].delta)))
            &&& p.vega == Some(total(Seq::new(n, |i: int| s[i].vega)))
            &&& p.theta == Some(total(Seq::new(n, |i: int| s[i].theta)))
            &&& est_le_plus_gros(t, haut, |x: AgregatStrike| x.call_gex, p.call_wall)
            &&& est_le_plus_gros(t, bas, |x: AgregatStrike| x.put_gex.neg(), p.put_wall)
            &&& est_le_plus_gros(t, haut_oi, |x: AgregatStrike| x.call_oi, p.call_wall_oi)
            &&& est_le_plus_gros(t, bas_oi, |x: AgregatStrike| x.put_oi, p.put_wall_oi)
            &&& est_le_plus_gros(t, haut_oi, |x: AgregatStrike| x.call_vol, p.call_wall_vol)
            &&& est_le_plus_gros(t, bas_oi, |x: AgregatStrike| x.put_vol, p.put_wall_vol)
            &&& est_le_plus_gros(
                t,
                |x: AgregatStrike| true,
                |x: AgregatStrike| x.gex,
                p.long_gamma,
            )
            &&& est_le_plus_gros(
                t,
                |x: AgregatStrike| true,
                |x: AgregatStrike| x.gex.neg(),
                p.short_gamma,
            )
        }),
{
    les_murs_de_l_analyse_sont_dans_leur_bande(a, ln, exp, chaine, params);
    les_totaux_sont_ceux_des_lignes(a, ln, exp, chaine, params);
}

/// Chaque horizon qui contient une échéance a son point, dans l'ordre des horizons, et les autres
/// n'en ont pas.
pub proof fn chaque_horizon_vivant_a_son_point(
    ln: spec_fn(Flottant) -> Flottant,
    exp: spec_fn(Flottant) -> Flottant,
    chaine: Chaine,
    taille: Flottant,
    dte_min: i64,
    horizons: Seq<i64>,
    minute: Instant,
)
    requires
        points_des_horizons(ln, exp, chaine, taille, dte_min, horizons, minute) is Some,
    ensures
        ({
            let v = points_des_horizons(ln, exp, chaine, taille, dte_min, horizons, minute)->0;
            let vivants = horizons.filter(
                |h: i64|
                    lignes_vives(chaine.vue(), chaine.releve, Some(h), dte_min).len() > 0,
            );
            &&& v.len() == vivants.len()
            &&& forall|i: int|
                0 <= i < v.len() ==> (#[trigger] v[i]).instant == minute && v[i].dte_max == Some(
                    rapport(vivants[i] as int, 1),
                )
        }),
    decreases horizons.len(),
{
    reveal(Seq::filter);
    if horizons.len() > 0 {
        chaque_horizon_vivant_a_son_point(
            ln,
            exp,
            chaine,
            taille,
            dte_min,
            horizons.drop_last(),
            minute,
        );
    }
}

/// Rien ne cote tant qu'aucun côté n'a d'intérêt ouvert, et tout côté qui en a suffit.
pub proof fn un_cote_ouvert_suffit_a_coter(v: Seq<Ligne>, i: int)
    requires
        0 <= i < v.len(),
        v[i].call.open_interest.fini(),
        v[i].put.open_interest.fini(),
        v[i].call.open_interest.clef() >= 0,
        v[i].put.open_interest.clef() >= 0,
        v[i].call.open_interest.positif() || v[i].put.open_interest.positif(),
    ensures
        cote_quelque_part(v),
{
    let (c, p) = (v[i].call.open_interest, v[i].put.open_interest);
    let z = Flottant::nul();
    crate::ordre::lemme_somme_definie(c, p);
    crate::ordre::lemme_somme_commute(c, p);
    crate::ordre::lemme_somme_zero(c, z);
    crate::ordre::lemme_somme_zero(p, z);
    crate::ordre::lemme_somme_croit(z, p, c);
    crate::ordre::lemme_somme_croit(z, c, p);
}

/// La minute d'un point est celle de l'instant : elle tombe sur une minute ronde, et l'instant est
/// dedans.
pub proof fn un_point_tombe_sur_sa_minute(instant: Instant)
    requires
        instant.micros >= -9_000_000_000_000_000_000,
    ensures
        debut_de_minute(instant).micros % 60_000_000 == 0,
        debut_de_minute(instant).micros <= instant.micros < debut_de_minute(instant).micros
            + 60_000_000,
{
    let m = instant.micros as int;
    assert((m / 60_000_000) * 60_000_000 <= m < (m / 60_000_000) * 60_000_000 + 60_000_000);
}

/// Le repère est le spot dès qu'il est connu, quoi que disent les barres et la grille ; sinon la
/// dernière clôture, et la grille en dernier.
pub proof fn le_spot_connu_est_le_repere(
    spot: Flottant,
    barres: Seq<Barre>,
    tous: Seq<ContratOption>,
)
    ensures
        spot.positif() ==> repere_de(spot, barres, tous) == spot,
        !spot.positif() && barres.len() > 0 && barres[barres.len() - 1].close.positif()
            ==> repere_de(spot, barres, tous) == barres[barres.len() - 1].close,
        !spot.positif() && barres.len() == 0 && tous.len() > 0 ==> exists|i: int|
            0 <= i < tous.len() && repere_de(spot, barres, tous) == (#[trigger] tous[i]).cle.strike,
{
    if !spot.positif() && barres.len() == 0 && tous.len() > 0 {
        let v = strikes_de(tous);
        let avant = |a: Flottant, b: Flottant| valeur_avant(a, b);
        le_tri_garde_les_elements(v, avant);
        let m = milieu_haut(v);
        assert(triee(v, avant).contains(m));
        assert(v.contains(m));
        let i = choose|i: int| 0 <= i < v.len() && v[i] == m;
        assert(tous[i].cle.strike == m);
    }
}

/// Le milieu d'un échantillon, une fois rangé : son élément du rang de la moitié.
pub proof fn le_milieu_est_au_rang_de_la_moitie(v: Seq<Flottant>)
    requires
        v.len() > 0,
    ensures
        v.contains(milieu_haut(v)),
        exists|t: Seq<Flottant>|
            {
                &&& #[trigger] t.to_multiset() == v.to_multiset()
                &&& t.len() == v.len()
                &&& t[v.len() as int / 2] == milieu_haut(v)
                &&& forall|i: int, j: int|
                    0 <= i <= j < t.len() ==> (#[trigger] t[i]).clef() <= (#[trigger] t[j]).clef()
            },
{
    let avant = |a: Flottant, b: Flottant| valeur_avant(a, b);
    assert(ordre_faible(avant));
    le_tri_range_sans_rien_perdre(v, avant);
    le_tri_garde_les_elements(v, avant);
    let t = triee(v, avant);
    assert forall|i: int, j: int| 0 <= i <= j < t.len() implies (#[trigger] t[i]).clef() <= (
    #[trigger] t[j]).clef() by {
        if i < j {
            assert(!avant(t[j], t[i]));
        }
    }
    assert(t.contains(t[v.len() as int / 2]));
    assert(t.to_multiset() == v.to_multiset());
}

/// Le balayage garde exactement les contrats de la plage, par leur rang et dans l'ordre.
pub proof fn le_balayage_garde_les_contrats_retenus(
    tous: Seq<ContratOption>,
    retenus: Seq<ContratOption>,
)
    requires
        tous.len() <= usize::MAX,
    ensures
        ({
            let r = rangs_retenus(tous, retenus);
            &&& forall|i: int, j: int| 0 <= i < j < r.len() ==> #[trigger] r[i] < #[trigger] r[j]
            &&& forall|i: int| 0 <= i < r.len() ==> (#[trigger] r[i] as int) < tous.len()
            &&& forall|k: int|
                0 <= k < tous.len() ==> (r.contains(k as usize) <==> exists|i: int|
                    0 <= i < retenus.len() && (#[trigger] retenus[i]).con_id == (
                    #[trigger] tous[k]).con_id)
        }),
    decreases tous.len(),
{
    if tous.len() > 0 {
        let t = tous.drop_last();
        le_balayage_garde_les_contrats_retenus(t, retenus);
        let (a, r) = (rangs_retenus(t, retenus), rangs_retenus(tous, retenus));
        let n = (tous.len() - 1) as usize;
        assert forall|k: int| 0 <= k < tous.len() implies (r.contains(k as usize)
            <==> exists|i: int|
            0 <= i < retenus.len() && (#[trigger] retenus[i]).con_id == (
            #[trigger] tous[k]).con_id) by {
            if r.len() > a.len() {
                crate::tri::lemme_push_contient(a, n, k as usize);
            }
            if k < t.len() {
                assert(t[k] == tous[k]);
            } else {
                assert(!a.contains(n)) by {
                    if a.contains(n) {
                        let i = choose|i: int| 0 <= i < a.len() && a[i] == n;
                        assert((a[i] as int) < t.len());
                    }
                }
                assert(porte_l_id(retenus, tous[k].con_id) <==> exists|i: int|
                    0 <= i < retenus.len() && (#[trigger] retenus[i]).con_id == tous[k].con_id);
            }
        }
    }
}

/// Sans plage, tout se balaie.
pub proof fn sans_plage_tout_se_balaie(
    spot: Flottant,
    barres: Seq<Barre>,
    tous: Seq<ContratOption>,
    k: int,
)
    requires
        0 <= k < tous.len() <= usize::MAX,
    ensures
        a_balayer(spot, barres, tous, None).len() == tous.len(),
        a_balayer(spot, barres, tous, None)[k] == k,
{
}

/// Le prix récent est celui d'un contrat qui l'a servi ; sans prix servi, l'ancien reste.
pub proof fn le_prix_recent_est_un_prix_servi(
    ancien: Flottant,
    m: Map<i32, crate::ib::client::Valeurs>,
)
    ensures
        ({
            let vus = crate::ib::assemblage::prix_servis(
                crate::ib::assemblage::identifiants(m),
                m,
            );
            &&& vus.len() == 0 ==> spot_recent(ancien, m) == ancien
            &&& vus.len() > 0 ==> vus.contains(spot_recent(ancien, m))
        }),
{
    let vus = crate::ib::assemblage::prix_servis(crate::ib::assemblage::identifiants(m), m);
    if vus.len() > 0 {
        let avant = |a: Flottant, b: Flottant| valeur_avant(a, b);
        le_tri_garde_les_elements(vus, avant);
        assert(triee(vus, avant).contains(milieu_haut(vus)));
    }
}

/// L'arrêt passe avant tout, une passerelle morte avant le balayage, et le balayage avant
/// l'entretien.
pub proof fn l_arret_passe_avant_tout(e: Etat, vivante: bool, instant: Instant)
    ensures
        e.suite_de(true, vivante, instant) == Suite::Arreter,
        e.suite_de(false, false, instant) == Suite::Rompre,
        e.date_socle is None ==> e.suite_de(false, true, instant) == Suite::Balayer,
        e.suite_de(false, true, instant) == Suite::Entretenir ==> !rebalayage_du(
            e.date_socle,
            instant,
        ),
        e.suite_de(false, true, instant) != Suite::Arreter,
        e.suite_de(false, true, instant) != Suite::Rompre,
{
}

/// Une fonte qui aboutit a autant de lignes que le socle en garde, au prix donné, et ne dit le vif
/// absent que la première fois qu'il manque.
pub proof fn un_vif_absent_ne_se_dit_qu_une_fois(
    r: Result<Fonte, ChaineInvalide>,
    vif: Result<Chaine, ChaineInvalide>,
    socle: Chaine,
    spot: Flottant,
    deja_dit: bool,
)
    requires
        fonte_de(r, vif, socle, spot, deja_dit),
        r is Ok,
    ensures
        r->Ok_0.vif_absent ==> vif is Err && !deja_dit,
        vif is Err && !deja_dit ==> r->Ok_0.vif_absent,
        r->Ok_0.chaine.spot == spot,
        vif is Err ==> r->Ok_0.chaine.releve == socle.releve,
        vif matches Ok(c) ==> r->Ok_0.chaine.releve == c.releve,
{
}

/// Une session qui a tenu repart de zéro, une autre garde son compte.
pub proof fn une_session_saine_repart_de_zero(tentative: u32, tenue: u64, plus: u64)
    requires
        tenue <= plus,
    ensures
        tentative_depuis(tentative, tenue) == 0 || tentative_depuis(tentative, tenue) == tentative,
        tentative_depuis(tentative, tenue) == 0 ==> tentative_depuis(tentative, plus) == 0,
        tentative_depuis(tentative, 0) == tentative,
{
}

/// Un socle se fait au prix des ticks dès qu'il y en a un qui convient ; le prix de secours est la
/// dernière clôture, et le socle qui s'en sert est à ce prix.
pub proof fn un_socle_dit_le_prix_de_secours_qu_il_a_pris(
    s: Socle,
    ln: spec_fn(Flottant) -> Flottant,
    exp: spec_fn(Flottant) -> Flottant,
    contrats: Seq<ContratOption>,
    m: Map<i32, crate::ib::client::Valeurs>,
    barres: Seq<Barre>,
    releve: InstantReleve,
)
    requires
        socle_fait(Ok(s), ln, exp, contrats, m, barres, releve),
    ensures
        s.chaine.releve == releve,
        s.secours is None ==> crate::ib::assemblage::spot_de(None, m) == Some(s.chaine.spot),
        s.secours matches Some(p) ==> {
            &&& s.chaine.spot == p
            &&& barres.len() > 0
            &&& barres[barres.len() - 1].close == p
            &&& p.positif()
        },
{
}

/// Des contrats pris au catalogue s'y rattachent tels quels, quand aucun identifiant n'y sert
/// deux fois.
pub proof fn un_contrat_du_catalogue_se_rattache_a_lui_meme(
    choisis: Seq<ContratOption>,
    catalogue: Seq<ContratOption>,
)
    requires
        forall|i: int| 0 <= i < choisis.len() ==> catalogue.contains(#[trigger] choisis[i]),
        forall|i: int, j: int|
            0 <= i < catalogue.len() && 0 <= j < catalogue.len() && (#[trigger] catalogue[i]).con_id
                == (#[trigger] catalogue[j]).con_id ==> i == j,
    ensures
        rattaches(choisis, catalogue) == choisis,
    decreases choisis.len(),
{
    if choisis.len() > 0 {
        let t = choisis.drop_last();
        assert forall|i: int| 0 <= i < t.len() implies catalogue.contains(#[trigger] t[i]) by {
            assert(t[i] == choisis[i]);
        }
        un_contrat_du_catalogue_se_rattache_a_lui_meme(t, catalogue);
        let c = choisis[choisis.len() - 1];
        assert(catalogue.contains(c));
        let k = choose|k: int| 0 <= k < catalogue.len() && catalogue[k] == c;
        lemme_premier(catalogue, k);
        assert(t.push(c) =~= choisis);
    }
}

/// Le premier qui porte un identifiant unique est celui qui le porte.
proof fn lemme_premier(v: Seq<ContratOption>, k: int)
    requires
        0 <= k < v.len(),
        forall|i: int, j: int|
            0 <= i < v.len() && 0 <= j < v.len() && (#[trigger] v[i]).con_id == (
            #[trigger] v[j]).con_id ==> i == j,
    ensures
        premier_id(v, v[k].con_id) == Some(v[k]),
    decreases v.len(),
{
    if k > 0 {
        assert(v[0].con_id != v[k].con_id);
        let t = v.skip(1);
        assert forall|i: int, j: int|
            0 <= i < t.len() && 0 <= j < t.len() && (#[trigger] t[i]).con_id == (
            #[trigger] t[j]).con_id implies i == j by {
            assert(v[i + 1].con_id == v[j + 1].con_id);
        }
        lemme_premier(t, k - 1);
    }
}

} // verus!
