//! Ce que l'écran demande et reçoit.

use chrono::NaiveDateTime;
use gex::calendrier::Instant;
use gex::coeur::analyse::{analyser, Analyse};
use gex::coeur::chaine::{Chaine, ChaineInvalide, Cote, Ligne};
use gex::coeur::temps::{EcheanceNy, InstantReleve};
use gex::ecran::demande::{horizon_retenu, horizon_servi, nom_horizon, nom_pas, Demande};
use gex::ecran::profil::{
    avertissement, greeks_muets, horizon_vide, parametres, plage_regime, profil, sans_releve,
    NIVEAUX_REGIME,
};
use gex::ecran::series::{barres, niveaux};
use gex::flottant::Flottant;
use gex::store::series::{Barre, Pas, PointNiveaux};

fn f(x: f64) -> Flottant {
    Flottant::depuis_bits(x.to_bits())
}

fn n(x: Flottant) -> f64 {
    f64::from_bits(x.bits)
}

fn ln(x: Flottant) -> Flottant {
    f(n(x).ln())
}

fn exp(x: Flottant) -> Flottant {
    f(n(x).exp())
}

fn instant(s: &str) -> Instant {
    let d = NaiveDateTime::parse_from_str(s, "%Y-%m-%d %H:%M:%S").unwrap();
    Instant {
        micros: d.and_utc().timestamp_micros(),
    }
}

/// Le plus long par défaut : c'est celui du collecteur, et le plus complet.
#[test]
fn sans_demande_le_plus_long_est_servi() {
    assert_eq!(horizon_servi(&[0, 1, 7, 30], None), Some(30));
    assert_eq!(horizon_servi(&[0], None), Some(0));
}

/// Un horizon demandé et présent est servi tel quel.
#[test]
fn un_horizon_present_est_servi() {
    assert_eq!(horizon_servi(&[0, 1, 7, 30], Some(1)), Some(1));
    assert_eq!(horizon_servi(&[0, 1, 7, 30], Some(0)), Some(0));
}

/// Servir un tableau vide se lirait « rien ne cotait » alors que la donnée existe.
#[test]
fn un_horizon_absent_retombe_sur_le_plus_long() {
    assert_eq!(horizon_servi(&[0, 1, 7, 30], Some(3)), Some(30));
    assert_eq!(horizon_servi(&[0, 1, 7, 30], Some(-1)), Some(30));
}

/// Un fichier écrit avant que l'horizon soit enregistré n'en nomme aucun.
#[test]
fn un_fichier_sans_horizon_n_en_nomme_aucun() {
    assert_eq!(horizon_servi(&[], None), None);
    assert_eq!(horizon_servi(&[], Some(7)), None);
}

/// L'horizon en toutes lettres, pour les messages de l'écran.
#[test]
fn l_horizon_se_dit_en_toutes_lettres() {
    assert_eq!(nom_horizon(Some(0)), "0 jour (0DTE)");
    assert_eq!(nom_horizon(Some(1)), "1 jour");
    assert_eq!(nom_horizon(Some(30)), "30 jours");
    assert_eq!(nom_horizon(None), "toutes échéances");
}

#[test]
fn l_horizon_retenu_a_un_plafond() {
    assert_eq!(horizon_retenu(None, 30), Some(30));
    assert_eq!(horizon_retenu(Some(-1), 30), None);
    assert_eq!(horizon_retenu(Some(7), 30), Some(7));
    assert_eq!(horizon_retenu(Some(1_000_000), 30), Some(3650));
}

fn demande(pas: Option<&str>) -> Demande {
    Demande {
        dte_max: None,
        pas: pas.map(str::to_string),
    }
}

/// Un pas illisible retombe sur la minute.
#[test]
fn un_pas_illisible_retombe_sur_la_minute() {
    assert_eq!(demande(None).pas(), Pas::Minutes(1));
    assert_eq!(demande(Some("3s")).pas(), Pas::Minutes(1));
    assert_eq!(demande(Some("4h")).pas(), Pas::Minutes(240));
}

/// Le pas écrit se relit.
#[test]
fn le_pas_ecrit_se_relit_tel_quel() {
    for pas in [Pas::Minutes(1), Pas::Minutes(15), Pas::Minutes(240), Pas::Seance] {
        assert_eq!(Pas::depuis(&nom_pas(pas)), Some(pas));
    }
}

fn barre(quand: &str, close: f64) -> Barre {
    Barre {
        instant: instant(quand),
        open: f(close - 5.0),
        high: f(close + 8.0),
        low: f(close - 9.0),
        close: f(close),
        volume: f(10.0),
    }
}

/// La dernière transaction est celle de la dernière barre, même agrégée.
#[test]
fn la_serie_de_barres_date_sa_derniere_transaction() {
    let lues = [
        barre("2026-08-26 14:00:00", 100.0),
        barre("2026-08-26 14:03:00", 103.0),
    ];
    let s = barres(&lues, Pas::Minutes(5));
    assert_eq!(s.pas, "5m");
    assert_eq!(s.points.len(), 1);
    assert_eq!(s.points[0].time, instant("2026-08-26 14:00:00").micros / 1_000_000);
    assert_eq!(n(s.points[0].close), 103.0);
    assert_eq!(
        s.derniere_transaction,
        Some(instant("2026-08-26 14:03:00").micros / 1_000_000)
    );
    assert_eq!(barres(&[], Pas::Minutes(5)).derniere_transaction, None);
}

fn point(quand: &str, horizon: Option<f64>) -> PointNiveaux {
    PointNiveaux {
        instant: instant(quand),
        spot: f(29_218.5),
        zero_gamma: None,
        gex: f(-1e8),
        charm: f(0.0),
        vanna: f(0.0),
        call_wall: None,
        put_wall: None,
        call_wall_oi: None,
        put_wall_oi: None,
        iv_atm: None,
        skew: None,
        max_pain: None,
        delta: None,
        vega: None,
        theta: None,
        dte_max: horizon.map(f),
        call_wall_vol: None,
        put_wall_vol: None,
        long_gamma: None,
        short_gamma: None,
    }
}

/// Un seul horizon est servi, et tous sont nommés.
#[test]
fn la_serie_de_niveaux_ne_melange_pas_les_horizons() {
    let lus = [
        point("2026-08-26 14:00:00", Some(7.0)),
        point("2026-08-26 14:00:00", Some(30.0)),
        point("2026-08-26 14:01:00", Some(7.0)),
    ];
    let s = niveaux(&lus, Some(7), Pas::Minutes(1));
    assert_eq!(s.horizons, vec![7, 30]);
    assert_eq!(s.horizon, Some(7));
    assert_eq!(s.points.len(), 2);
    assert!(s.points.iter().all(|p| p.dte_max == Some(f(7.0))));
    assert_eq!(niveaux(&lus, None, Pas::Minutes(1)).horizon, Some(30));
}

fn chaine(oi: f64, delta: f64) -> Chaine {
    let lignes: Vec<Ligne> = (0..9)
        .map(|k| {
            let cote = Cote {
                iv: f(0.2),
                gamma: f(0.0005),
                delta: f(delta),
                open_interest: f(oi),
                vega: f(12.0),
                theta: f(-50.0),
                volume: f(40.0),
                ..Default::default()
            };
            Ligne {
                echeance: EcheanceNy(instant("2026-08-28 16:00:00")),
                strike: f(28_900.0 + 100.0 * k as f64),
                call: cote,
                put: Cote {
                    open_interest: f(oi * 2.0),
                    ..cote
                },
            }
        })
        .collect();
    Chaine::nouvelle(lignes, f(29_300.0), InstantReleve(instant("2026-08-25 20:30:16"))).unwrap()
}

fn analyse(oi: f64, delta: f64) -> Analyse {
    analyser(&chaine(oi, delta), &parametres(f(20.0), Some(30)), &ln, &exp).unwrap()
}

#[test]
fn le_profil_reprend_l_analyse() {
    let a = analyse(100.0, 0.5);
    let p = profil(&a, Some(30));
    assert_eq!(p.horizon, Some(30));
    assert_eq!(p.strikes.len(), a.par_strike.len());
    assert_eq!(p.regime.len(), NIVEAUX_REGIME);
    assert_eq!(p.zero_gamma, a.zero_gamma);
    assert_eq!(p.maintenant.as_ref().unwrap().gex, a.gex);
    assert_eq!(p.maintenant.as_ref().unwrap().max_pain, a.max_pain);
    assert_eq!(p.maintenant.as_ref().unwrap().long_gamma, a.gamma_majeur.long);
    assert_eq!(p.maintenant.as_ref().unwrap().short_gamma, a.gamma_majeur.court);
    assert_eq!(p.maintenant.as_ref().unwrap().call_wall_vol, a.murs.call_vol);
    assert_eq!(p.maintenant.as_ref().unwrap().put_wall_vol, a.murs.put_vol);
    assert_eq!(p.attendu, a.attendu);
    assert_eq!(p.regime[7].gex, a.profil[7]);
    assert_eq!(p.regime[7].carburant, a.carburant[7]);
    assert!(a.attendu.is_some());
    assert_eq!(p.etat.spot, Some(a.spot));
    assert_eq!(p.etat.avertissement, None);
    assert_eq!(parametres(f(20.0), None).plage, plage_regime());
}

/// Un relevé sans open interest n'a pas un GEX nul : il n'en a pas.
#[test]
fn un_releve_sans_open_interest_avertit() {
    let a = analyse(0.0, 0.5);
    assert!(avertissement(&a, false).is_some());
    assert!(profil(&a, Some(30)).etat.avertissement.is_some());
}

/// Un greek exactement nul n'est pas une position neutre.
#[test]
fn un_greek_muet_se_nomme() {
    let a = analyse(100.0, 0.0);
    let noms: Vec<String> = greeks_muets(&a).into_iter().map(|v| v.into_iter().collect()).collect();
    assert_eq!(noms, vec!["delta".to_string()]);
    assert!(avertissement(&a, true).unwrap().contains("delta"));
    assert!(greeks_muets(&analyse(100.0, 0.5)).is_empty());
}

/// Un marché ouvert où aucun strike n'a traité n'existe pas.
#[test]
fn un_releve_sans_volume_avertit() {
    let mut a = analyse(100.0, 0.5);
    for s in a.par_strike.iter_mut() {
        s.call_vol = f(0.0);
        s.put_vol = f(0.0);
    }
    assert!(avertissement(&a, true).unwrap().starts_with("Aucun volume sur les 9 strikes"));
    a.par_strike[3].put_vol = f(1.0);
    assert_eq!(avertissement(&a, true), None);
    // Ce sont les strikes qui comptent, non les lignes dont ils viennent.
    for l in a.lignes.iter_mut() {
        l.ligne.call.volume = f(0.0);
        l.ligne.put.volume = f(0.0);
    }
    assert_eq!(avertissement(&a, true), None);
}

#[test]
fn un_ecran_sans_releve_dit_quoi_lancer() {
    let p = sans_releve("d/NQ/courant.parquet", "NQ", Some(30));
    assert_eq!(
        p.etat.avertissement.as_deref(),
        Some("Aucun relevé en d/NQ/courant.parquet. Lance : gex-collector NQ")
    );
    assert!(p.strikes.is_empty());
    assert_eq!(p.attendu, None);
    let vide = horizon_vide(&chaine(100.0, 0.5), ChaineInvalide::Vide, Some(0));
    assert_eq!(vide.etat.spot, Some(f(29_300.0)));
    assert!(vide
        .etat
        .avertissement
        .unwrap()
        .starts_with("Aucune échéance dans l'horizon 0 jour (0DTE) : "));
}
