//! Les relevés, les séries, l'historique, sa validation et les archives.

use chrono::NaiveDateTime;
use gex::calendrier::Instant;
use gex::coeur::chaine::{Chaine, ChaineInvalide, Cote, Ligne};
use gex::coeur::temps::{EcheanceNy, InstantReleve};
use gex::flottant::Flottant;
use gex::store::archives::{
    a_effacer, chemin_archive, chemin_horodate, elaguer_archives, est_perimee, radical,
};
use gex::store::cftc::{confronter, lire, lire_si_tenable, ErreurCftc, Rapport};
use gex::store::chemins::chemin_courant;
use gex::store::historique::{enregistrer, migrer, LigneHistorique, Migration, COLONNES};
use gex::store::lot::{Colonne, Lot, Valeurs};
use gex::store::releve::{en_lot, lire_releve, ErreurReleve};
use gex::store::series::{
    a_la_minute, agreger_barres, agreger_niveaux, borne_de_retention, chemin_barres,
    chemin_niveaux, colonnes_barres, colonnes_niveaux, elaguer_barres, elaguer_niveaux,
    faut_il_ecrire_un_point, lire_barres, lire_niveaux, recoller, seau, seau_de_seance,
    spot_perime, Barre, Pas, PointNiveaux, RETENTION_JOURS,
};
use gex::store::validation::{
    comparer, comparer_derive, intervalle_minimal, jours_entre, lire_historique, mediane, observer,
    taux_de_franchissement, ErreurValidation, Observation, Releve,
};

fn f(x: f64) -> Flottant {
    Flottant::depuis_bits(x.to_bits())
}

fn n(x: Flottant) -> f64 {
    f64::from_bits(x.bits)
}

fn v(x: &[f64]) -> Vec<Flottant> {
    x.iter().map(|y| f(*y)).collect()
}

fn instant(s: &str) -> Instant {
    let d = NaiveDateTime::parse_from_str(s, "%Y-%m-%d %H:%M:%S").unwrap();
    Instant {
        micros: d.and_utc().timestamp_micros(),
    }
}

// --- Les séries

fn barre(quand: &str, close: f64) -> Barre {
    Barre {
        instant: instant(quand),
        open: f(close - 5.0),
        high: f(close + 8.0),
        low: f(close - 9.0),
        close: f(close),
        volume: f(1_200.0),
    }
}

/// Onze heures de niveaux calculés contre 29 152 pendant que le sous-jacent traitait à
/// 29 511.
#[test]
fn un_prix_fige_est_repere() {
    let barres = vec![
        barre("2026-09-03 20:44:00", 29_510.75),
        barre("2026-09-03 20:45:00", 29_511.00),
    ];
    let p = spot_perime(f(29_152.06), &barres).expect("l'écart vaut 1,2 %, il doit être vu");
    assert_eq!(n(p.dernier_traite), 29_511.00);
    assert!((n(p.points()) - 358.94).abs() < 0.01, "{}", n(p.points()));
    assert!(
        n(p.fraction) > 0.012 && n(p.fraction) < 0.013,
        "{}",
        n(p.fraction)
    );
    let phrase = p.phrase();
    assert!(phrase.contains("29152.06"), "{phrase}");
    assert!(phrase.contains("20:45 UTC"), "{phrase}");
    assert_eq!(phrase, p.phrase_a("20:45 UTC"));
}

/// Un garde-fou qui crierait sur quelques points s'apprendrait à ignorer.
#[test]
fn un_ecart_ordinaire_ne_declenche_pas() {
    let barres = vec![barre("2026-09-03 20:45:00", 29_500.00)];
    assert_eq!(spot_perime(f(29_499.25), &barres), None);
    assert_eq!(spot_perime(f(29_420.00), &barres), None, "0,27 % : toléré");
    assert!(
        spot_perime(f(29_300.00), &barres).is_some(),
        "0,68 % : au-delà du seuil"
    );
}

/// Sans barre, il n'y a pas de contrôle, et surtout pas un contrôle réussi.
#[test]
fn sans_barre_aucune_confrontation() {
    assert_eq!(spot_perime(f(29_152.06), &[]), None);
    assert_eq!(
        spot_perime(f(0.0), &[barre("2026-09-03 20:45:00", 29_500.0)]),
        None
    );
}

fn point(quand: &str, zero: Option<f64>) -> PointNiveaux {
    PointNiveaux {
        instant: instant(quand),
        spot: f(29_218.5),
        zero_gamma: zero.map(f),
        gex: f(-478_840_000.0),
        charm: f(-154_030_000.0),
        vanna: f(9_100_000.0),
        call_wall: None,
        put_wall: Some(f(29_050.0)),
        call_wall_oi: None,
        iv_atm: None,
        skew: None,
        max_pain: Some(f(29_100.0)),
        delta: Some(f(15_470_400_000.0)),
        vega: Some(f(-962_400.0)),
        theta: Some(f(-1_204_000.0)),
        dte_max: Some(f(30.0)),
        call_wall_vol: Some(f(29_650.0)),
        put_wall_vol: Some(f(29_050.0)),
        put_wall_oi: Some(f(29_000.0)),
        long_gamma: Some(f(29_300.0)),
        short_gamma: Some(f(29_050.0)),
    }
}

/// Comparer des durées écoulées dériverait.
#[test]
fn un_point_par_minute_pas_par_duree_ecoulee() {
    let avant = instant("2026-08-26 09:15:02");
    assert!(!faut_il_ecrire_un_point(
        Some(avant),
        instant("2026-08-26 09:15:59")
    ));
    assert!(faut_il_ecrire_un_point(
        Some(avant),
        instant("2026-08-26 09:16:01")
    ));
    // Deux secondes plus tard mais dans la minute suivante : on écrit.
    assert!(faut_il_ecrire_un_point(
        Some(instant("2026-08-26 09:15:58")),
        instant("2026-08-26 09:16:00")
    ));
}

/// Les barres d'IB tombent sur la minute pile.
#[test]
fn un_instant_est_ramene_au_debut_de_sa_minute() {
    assert_eq!(
        a_la_minute(instant("2026-08-26 07:45:46")),
        instant("2026-08-26 07:45:00")
    );
    // Déjà sur la minute : rien ne change.
    assert_eq!(
        a_la_minute(instant("2026-08-26 07:45:00")),
        instant("2026-08-26 07:45:00")
    );
}

#[test]
fn le_premier_point_s_ecrit_toujours() {
    assert!(faut_il_ecrire_un_point(None, instant("2026-08-26 09:15:02")));
}

/// Le passage d'heure et de jour ne doit pas passer pour la même minute.
#[test]
fn le_changement_d_heure_ou_de_jour_compte() {
    assert!(faut_il_ecrire_un_point(
        Some(instant("2026-08-26 09:15:30")),
        instant("2026-08-26 10:15:30")
    ));
    assert!(faut_il_ecrire_un_point(
        Some(instant("2026-08-26 09:15:30")),
        instant("2026-08-27 09:15:30")
    ));
}

/// IB renvoie la dernière barre plusieurs fois pendant qu'elle se forme.
#[test]
fn une_barre_qui_se_forme_ecrase_sa_version_precedente() {
    let anciennes = vec![barre("2026-08-26 09:15:00", 29_200.0)];
    let nouvelles = vec![barre("2026-08-26 09:15:00", 29_250.0)];
    let recollees = recoller(&anciennes, &nouvelles);
    assert_eq!(recollees.len(), 1);
    assert_eq!(n(recollees[0].close), 29_250.0);
}

/// Après une reconnexion, l'historique recouvre ce qu'on avait, et l'ordre n'est pas
/// garanti.
#[test]
fn le_recollage_trie_et_comble() {
    let anciennes = vec![
        barre("2026-08-26 09:15:00", 29_200.0),
        barre("2026-08-26 09:16:00", 29_210.0),
    ];
    let nouvelles = vec![
        barre("2026-08-26 09:18:00", 29_230.0),
        barre("2026-08-26 09:17:00", 29_220.0),
        barre("2026-08-26 09:16:00", 29_215.0),
    ];
    let recollees = recoller(&anciennes, &nouvelles);
    assert_eq!(recollees.len(), 4);
    assert!(recollees
        .windows(2)
        .all(|p| p[0].instant.micros < p[1].instant.micros));
    assert_eq!(
        n(recollees[1].close),
        29_215.0,
        "la version fraîche l'emporte"
    );
}

/// Un texte inconnu se refuse plutôt que de retomber en silence sur la minute.
#[test]
fn le_pas_se_lit_ou_se_refuse() {
    assert_eq!(Pas::depuis("1m"), Some(Pas::Minutes(1)));
    assert_eq!(Pas::depuis("15m"), Some(Pas::Minutes(15)));
    assert_eq!(Pas::depuis("4h"), Some(Pas::Minutes(240)));
    assert_eq!(Pas::depuis("1J"), Some(Pas::Seance));
    assert_eq!(Pas::depuis("1d"), Some(Pas::Seance));
    assert_eq!(Pas::depuis("3s"), None);
    assert_eq!(Pas::depuis("0m"), None);
    assert_eq!(Pas::depuis(""), None);
}

#[test]
fn un_pas_demesure_ne_se_decoupe_pas() {
    assert!(Pas::tenable("4h"));
    assert!(Pas::tenable(""));
    assert!(Pas::tenable("9223372036854775807m"));
    assert!(!Pas::tenable("9223372036854775807h"));
    assert!(Pas::tenable("4é"));
    assert_eq!(Pas::depuis("4é"), None);
    assert_eq!(Pas::depuis("1é"), None);
    assert_eq!(Pas::depuis("é"), None);
}

#[test]
fn un_pas_dure_ses_minutes() {
    assert_eq!(Pas::Minutes(15).secondes(), 900);
    assert_eq!(Pas::Minutes(0).secondes(), 60);
    assert_eq!(Pas::Seance.secondes(), 86_400);
}

/// Ouverture de la première, clôture de la dernière, extrêmes des extrêmes.
#[test]
fn cinq_minutes_font_un_chandelier() {
    let cinq: Vec<Barre> = (0..5)
        .map(|i| Barre {
            instant: instant(&format!("2026-08-26 14:0{i}:00")),
            open: f(100.0 + i as f64),
            high: f(110.0 + i as f64),
            low: f(90.0 - i as f64),
            close: f(105.0 + i as f64),
            volume: f(10.0),
        })
        .collect();
    let a = agreger_barres(&cinq, Pas::Minutes(5));
    assert_eq!(a.len(), 1);
    assert_eq!(a[0].instant, instant("2026-08-26 14:00:00"));
    assert_eq!(n(a[0].open), 100.0, "l'ouverture est celle de la première");
    assert_eq!(n(a[0].close), 109.0, "la clôture est celle de la dernière");
    assert_eq!(n(a[0].high), 114.0);
    assert_eq!(n(a[0].low), 86.0);
    assert_eq!(n(a[0].volume), 50.0);
}

/// Le seau se calcule sur le temps, jamais sur le rang.
#[test]
fn un_trou_ne_decale_pas_les_seaux() {
    let barres = vec![
        barre("2026-08-26 14:00:00", 100.0),
        barre("2026-08-26 14:01:00", 101.0),
        // 14:02, 14:03 et 14:04 manquent.
        barre("2026-08-26 14:05:00", 105.0),
        barre("2026-08-26 14:06:00", 106.0),
    ];
    let a = agreger_barres(&barres, Pas::Minutes(5));
    assert_eq!(a.len(), 2, "deux seaux, pas un seul de quatre barres");
    assert_eq!(a[0].instant, instant("2026-08-26 14:00:00"));
    assert_eq!(a[1].instant, instant("2026-08-26 14:05:00"));
}

/// À la minute, l'agrégation ne change rien du tout.
#[test]
fn la_minute_rend_la_serie_intacte() {
    let barres = vec![
        barre("2026-08-26 14:00:00", 100.0),
        barre("2026-08-26 14:01:00", 101.0),
    ];
    assert_eq!(agreger_barres(&barres, Pas::Minutes(1)), barres);
}

/// 20:59 appartient encore à la séance ouverte la veille à 21 h ; 21:00 ouvre la suivante.
#[test]
fn le_journalier_suit_la_seance_et_non_minuit_utc() {
    let barres = vec![
        barre("2026-08-26 20:59:00", 100.0),
        barre("2026-08-26 21:00:00", 200.0),
        barre("2026-08-27 00:00:00", 300.0),
        barre("2026-08-27 20:00:00", 400.0),
    ];
    let a = agreger_barres(&barres, Pas::Seance);
    assert_eq!(a.len(), 2, "deux séances");
    assert_eq!(a[0].instant, instant("2026-08-25 21:00:00"));
    assert_eq!(n(a[0].close), 100.0);
    assert_eq!(a[1].instant, instant("2026-08-26 21:00:00"));
    // `barre` pose l'ouverture cinq points sous la clôture : 195 est bien l'ouverture de
    // la barre de 21:00, donc celle de la séance.
    assert_eq!(n(a[1].open), 195.0, "la séance ouvre à 21 h UTC, pas à minuit");
    assert_eq!(n(a[1].close), 400.0);
}

/// Le dernier point du seau l'emporte, jamais une moyenne.
#[test]
fn les_niveaux_gardent_le_dernier_point_du_seau() {
    let mut tot = point("2026-08-26 14:01:00", Some(29_100.0));
    tot.call_wall = Some(f(29_800.0));
    let mut tard = point("2026-08-26 14:04:00", Some(29_400.0));
    tard.call_wall = Some(f(29_900.0));
    let hors = point("2026-08-26 14:06:00", Some(29_500.0));

    let a = agreger_niveaux(&[tot, tard, hors], Pas::Minutes(5));
    assert_eq!(a.len(), 2);
    assert_eq!(a[0].instant, instant("2026-08-26 14:00:00"));
    assert_eq!(a[0].zero_gamma, Some(f(29_400.0)), "le dernier du seau");
    assert_eq!(a[0].call_wall, Some(f(29_900.0)));
    assert_eq!(a[1].instant, instant("2026-08-26 14:05:00"));
}

/// Sans les mêmes horodatages, l'alignement de l'écran s'effondre.
#[test]
fn barres_et_niveaux_partagent_leurs_seaux() {
    let b = barre("2026-08-26 14:07:00", 100.0);
    let p = point("2026-08-26 14:07:00", Some(29_100.0));
    for pas in [
        Pas::Minutes(5),
        Pas::Minutes(15),
        Pas::Minutes(240),
        Pas::Seance,
    ] {
        assert_eq!(
            agreger_barres(&[b], pas)[0].instant,
            agreger_niveaux(&[p], pas)[0].instant,
            "seaux divergents pour {pas:?}"
        );
    }
}

/// Le seau se compte depuis l'ouverture de la séance.
#[test]
fn le_seau_se_compte_depuis_l_ouverture() {
    let debut = instant("2026-08-25 21:00:00");
    let quand = instant("2026-08-26 14:07:00");
    assert_eq!(
        seau_de_seance(debut, quand, Pas::Minutes(240)),
        instant("2026-08-26 13:00:00")
    );
    assert_eq!(
        seau(quand, Pas::Minutes(240)),
        seau_de_seance(debut, quand, Pas::Minutes(240))
    );
    assert_eq!(seau(quand, Pas::Seance), debut);
}

/// Une série qui grossit sans fin est un piège différé.
#[test]
fn l_elagage_borne_la_serie() {
    let barres = vec![
        barre("2026-07-01 09:15:00", 28_000.0),
        barre("2026-08-20 09:15:00", 29_000.0),
        barre("2026-08-26 09:15:00", 29_200.0),
    ];
    let borne = borne_de_retention(instant("2026-08-26 12:00:00"), RETENTION_JOURS);
    let gardees = elaguer_barres(&barres, borne);
    assert_eq!(gardees.len(), 2, "le 1er juillet est hors des trente jours");
    assert_eq!(n(gardees[0].close), 29_000.0);
}

#[test]
fn une_retention_nulle_ne_garde_que_le_present() {
    let borne = borne_de_retention(instant("2026-08-26 12:00:00"), 0);
    assert_eq!(borne, instant("2026-08-26 12:00:00"));
}

#[test]
fn l_elagage_des_niveaux_suit_la_meme_borne() {
    let points = vec![
        point("2026-07-01 09:15:00", Some(28_000.0)),
        point("2026-08-26 09:15:00", Some(29_400.0)),
    ];
    let borne = borne_de_retention(instant("2026-08-26 12:00:00"), RETENTION_JOURS);
    assert_eq!(elaguer_niveaux(&points, borne).len(), 1);
}

#[test]
fn les_barres_se_relisent_a_l_identique() {
    let barres = vec![
        barre("2026-08-26 09:15:00", 29_200.0),
        barre("2026-08-26 09:16:00", 29_210.5),
    ];
    let relues = lire_barres(&[colonnes_barres(&barres)]).unwrap();
    assert_eq!(relues, barres);
}

/// Zéro est un prix, et la relecture le prendrait pour un zero gamma au plancher.
#[test]
fn un_niveau_absent_se_relit_absent() {
    let points = vec![
        point("2026-08-26 09:15:00", None),
        point("2026-08-26 09:16:00", Some(29_400.0)),
    ];
    let relus = lire_niveaux(&[colonnes_niveaux(&points)]).unwrap();
    assert_eq!(relus, points);
    assert_eq!(relus[0].zero_gamma, None);
    assert_eq!(relus[0].call_wall, None);
    assert_eq!(relus[1].zero_gamma, Some(f(29_400.0)));
}

/// Une série écrite avant l'ajout d'une colonne reste lisible.
#[test]
fn un_ancien_fichier_sans_la_colonne_reste_lisible() {
    let p = point("2026-08-26 09:15:00", Some(29_400.0));
    let nombres = |nom: &str, x: Option<Flottant>| Colonne {
        nom: nom.to_string(),
        valeurs: Valeurs::Nombres(vec![x]),
    };
    // Le schéma d'avant : tout sauf `max_pain`.
    let entier = colonnes_niveaux(&[p]);
    let temps = entier
        .colonnes
        .iter()
        .find(|c| matches!(c.valeurs, Valeurs::Instants(_)))
        .unwrap()
        .clone();
    let ancien = Lot {
        lignes: 1,
        colonnes: vec![
            temps,
            nombres("spot", Some(p.spot)),
            nombres("zero_gamma", p.zero_gamma),
            nombres("gex", Some(p.gex)),
            nombres("charm", Some(p.charm)),
            nombres("vanna", Some(p.vanna)),
            nombres("call_wall", p.call_wall),
            nombres("put_wall", p.put_wall),
            nombres("call_wall_oi", p.call_wall_oi),
            nombres("put_wall_oi", p.put_wall_oi),
            nombres("iv_atm", p.iv_atm),
            nombres("skew", p.skew),
        ],
    };

    let relus = lire_niveaux(&[ancien]).unwrap();
    assert_eq!(relus.len(), 1);
    assert_eq!(relus[0].max_pain, None, "colonne absente, pas un zéro");
    assert_eq!(relus[0].delta, None);
    assert_eq!(relus[0].theta, None);
    // L'horizon inconnu doit rester inconnu.
    assert_eq!(relus[0].dte_max, None, "horizon inconnu, pas supposé");
    assert_eq!(
        relus[0].zero_gamma,
        Some(f(29_400.0)),
        "le reste est intact"
    );
    assert_eq!(relus[0].put_wall_oi, p.put_wall_oi);
    assert_eq!(relus[0].long_gamma, None, "colonne absente, pas un zéro");
    assert_eq!(relus[0].short_gamma, None);
}

/// Au tout premier démarrage il n'y a rien à lire, et ce n'est pas une panne.
#[test]
fn une_serie_absente_se_lit_vide() {
    assert!(lire_barres(&[]).unwrap().is_empty());
    assert!(lire_niveaux(&[]).unwrap().is_empty());
}

#[test]
fn une_serie_vide_s_ecrit_et_se_relit() {
    assert!(lire_barres(&[colonnes_barres(&[])]).unwrap().is_empty());
}

#[test]
fn les_series_ont_leur_chemin() {
    assert_eq!(chemin_barres("snapshots", "nq"), "snapshots/NQ/barres.parquet");
    assert_eq!(chemin_niveaux("snapshots", "nq"), "snapshots/NQ/niveaux.parquet");
}

// --- Les relevés

fn chaine_relevee() -> Chaine {
    let lignes: Vec<Ligne> = [29_000.0_f64, 29_100.0, 29_200.0]
        .iter()
        .map(|k| Ligne {
            echeance: EcheanceNy(instant("2026-08-27 16:00:00")),
            strike: f(*k),
            call: Cote {
                iv: f(0.22),
                gamma: f(0.00086),
                delta: f(0.344),
                open_interest: f(300.0),
                vega: f(7.125),
                theta: f(-58.47),
                volume: f(120.0),
            },
            put: Cote {
                iv: f(0.24),
                gamma: f(0.00086),
                delta: f(-0.656),
                open_interest: f(900.0),
                vega: f(7.0),
                theta: f(-55.0),
                volume: f(240.0),
            },
        })
        .collect();
    Chaine::nouvelle(
        lignes,
        f(29_227.89),
        InstantReleve(instant("2026-08-26 05:52:14")),
    )
    .unwrap()
}

/// Le format est le joint entre le collecteur et tout ce qui relira ces fichiers.
#[test]
fn ce_qui_est_ecrit_se_relit_a_l_identique() {
    let avant = chaine_relevee();
    let apres = lire_releve(&[en_lot(&avant)]).unwrap();
    assert_eq!(apres.lignes().len(), avant.lignes().len());
    assert!((n(apres.spot) - n(avant.spot)).abs() < 1e-9);
    assert_eq!(apres.releve, avant.releve);
    for (a, b) in apres.lignes().iter().zip(avant.lignes()) {
        assert_eq!(a.echeance, b.echeance);
        assert!((n(a.strike) - n(b.strike)).abs() < 1e-9);
        assert!((n(a.call.iv) - n(b.call.iv)).abs() < 1e-12);
        assert!((n(a.call.gamma) - n(b.call.gamma)).abs() < 1e-12);
        assert!((n(a.call.open_interest) - n(b.call.open_interest)).abs() < 1e-9);
        assert!((n(a.put.theta) - n(b.put.theta)).abs() < 1e-12);
        assert!((n(a.put.delta) - n(b.put.delta)).abs() < 1e-12);
        assert!(
            (n(a.call.volume) - n(b.call.volume)).abs() < 1e-9,
            "volume call perdu"
        );
        assert!(
            (n(a.put.volume) - n(b.put.volume)).abs() < 1e-9,
            "volume put perdu"
        );
        assert!(n(b.call.volume) > 0.0, "la chaîne d'essai doit en porter");
    }
    assert_eq!(apres, avant);
}

/// Le défaut qui avait coûté dix-neuf pour cent du GEX quand l'échéance arrivait sans
/// elle.
#[test]
fn l_heure_de_reglement_survit_a_l_ecriture() {
    let relu = lire_releve(&[en_lot(&chaine_relevee())]).unwrap();
    assert_eq!(
        relu.lignes()[0].echeance,
        EcheanceNy(instant("2026-08-27 16:00:00"))
    );
}

#[test]
fn un_releve_sans_ses_colonnes_les_nomme() {
    let sans = Lot {
        lignes: 0,
        colonnes: vec![],
    };
    let e = lire_releve(&[sans]).unwrap_err();
    assert!(matches!(e, ErreurReleve::ColonneAbsente(_)), "{e:?}");
    assert!(!e.message().is_empty());
}

#[test]
fn une_colonne_du_mauvais_type_se_dit() {
    let mut lot = en_lot(&chaine_relevee());
    for c in lot.colonnes.iter_mut() {
        if matches!(c.valeurs, Valeurs::Instants(_)) {
            c.valeurs = Valeurs::Textes(vec!["x".to_string(); 3]);
        }
    }
    let e = lire_releve(&[lot]).unwrap_err();
    assert!(matches!(e, ErreurReleve::TypeInattendu(_)), "{e:?}");
}

#[test]
fn un_releve_vide_est_refuse() {
    assert_eq!(
        lire_releve(&[]).unwrap_err(),
        ErreurReleve::ColonneAbsente("_spot")
    );
    let mut lot = en_lot(&chaine_relevee());
    for c in lot.colonnes.iter_mut() {
        if c.nom == "StrikePrice" {
            c.valeurs = Valeurs::Nombres(vec![Some(f(0.0)); 3]);
        }
    }
    let e = lire_releve(&[lot]).unwrap_err();
    assert_eq!(e, ErreurReleve::Chaine(ChaineInvalide::Vide));
    assert_eq!(e.message(), ChaineInvalide::Vide.message());
}

#[test]
fn le_chemin_courant_est_fixe() {
    let p = chemin_courant("snapshots", "nq");
    assert!(p.ends_with("NQ/courant.parquet") || p.ends_with("NQ\\courant.parquet"), "{p:?}");
}

// --- Les archives

/// Les fichiers se trient par leur horodatage, à la minute.
#[test]
fn l_archive_est_horodatee_a_la_minute() {
    let cible = chemin_archive("d", "NQ", chaine_relevee().releve.0);
    assert!(
        cible.ends_with("2026-08-26_0552.parquet"),
        "horodatage inattendu : {cible:?}"
    );
    assert_eq!(cible, chemin_horodate("d", "NQ", "2026-08-26_0552"));
}

fn noms(v: &[&str]) -> Vec<String> {
    v.iter().map(|x| format!("{x}.parquet")).collect()
}

/// Une archive plus vieille que la borne s'en va, une récente reste.
#[test]
fn les_archives_trop_vieilles_s_effacent() {
    let presents = noms(&["2026-07-01_0900", "2026-08-20_1430", "2026-08-26_0552"]);
    let borne = instant("2026-08-25 00:00:00");
    assert_eq!(elaguer_archives(&presents, borne), vec![0, 1]);
    assert!(!a_effacer("2026-08-26_0552.parquet", borne));
    assert!(a_effacer("2026-07-01_0900.parquet", borne));
}

/// Un élagage qui prendrait les fichiers de la séance pour des archives effacerait tout.
#[test]
fn l_elagage_ne_touche_pas_les_fichiers_de_seance() {
    let presents = noms(&["courant", "barres", "niveaux", "notes", "2026-07-01_0900"]);
    // Une borne très postérieure : tout serait effacé si le nom ne décidait pas.
    let efface = elaguer_archives(&presents, instant("2030-01-01 00:00:00"));
    assert_eq!(efface, vec![4], "seule l'archive horodatée devait partir");
}

/// Au tout premier démarrage il n'y a rien à élaguer.
#[test]
fn un_dossier_absent_n_elague_rien() {
    assert!(elaguer_archives(&[], instant("2026-08-25 00:00:00")).is_empty());
}

#[test]
fn une_archive_se_reconnait_a_son_nom() {
    assert_eq!(radical("2026-07-01_0900.parquet").as_deref(), Some("2026-07-01_0900"));
    assert_eq!(radical("2026-07-01_0900.csv"), None);
    let borne = instant("2026-08-25 00:00:00");
    assert!(est_perimee(Some(instant("2026-08-24 23:59:00")), borne));
    assert!(!est_perimee(Some(borne), borne));
    assert!(!est_perimee(None, borne));
}

// --- L'historique

fn ligne() -> LigneHistorique {
    LigneHistorique {
        instant: instant("2026-08-25 20:30:16"),
        ticker: "NQ".to_string(),
        dte_max: Some(30),
        source_gamma: "iv".to_string(),
        convention: "heures".to_string(),
        spot: f(29_305.75),
        gex: f(-357_422_192.637_701_45),
        zero_gamma: None,
        call_wall: None,
        put_wall: Some(f(29_200.0)),
        call_wall_oi: None,
        put_wall_oi: Some(f(28_750.0)),
        charm: f(-15_932_881.866_839_863),
        vanna: f(3_177_811.561_580_234_7),
        strikes: 142,
        echeances: 3,
        iv_atm: Some(f(0.184)),
    }
}

#[test]
fn la_ligne_a_exactement_les_colonnes_du_schema() {
    let csv = ligne().en_csv();
    assert_eq!(
        csv.split(',').count(),
        COLONNES.len(),
        "le schéma a {} colonnes, la ligne en écrit {}",
        COLONNES.len(),
        csv.split(',').count()
    );
}

#[test]
fn la_ligne_s_ecrit_exactement() {
    assert_eq!(
        ligne().en_csv(),
        format!(
            "2026-08-25 20:30,NQ,30,iv,heures,{},{},,,29200,,28750,{},{},142,3,0.184,,,,,,,,,",
            29_305.75_f64, -357_422_192.637_701_45_f64, -15_932_881.866_839_863_f64,
            3_177_811.561_580_234_7_f64
        )
    );
}

/// Deux fichiers dont le format diffère ne se trient plus ensemble.
#[test]
fn l_horodatage_est_a_la_minute() {
    assert!(ligne()
        .en_csv()
        .starts_with("2026-08-25 20:30,NQ,30,iv,heures,"));
}

fn rang(colonne: &str) -> usize {
    COLONNES.iter().position(|c| *c == colonne).unwrap()
}

/// Un niveau absent laisse la colonne vide, jamais un zéro.
#[test]
fn un_niveau_absent_laisse_la_colonne_vide() {
    let csv = ligne().en_csv();
    let champs: Vec<&str> = csv.split(',').collect();
    assert_eq!(champs[rang("zero_gamma")], "");
    assert_eq!(champs[rang("put_wall")], "29200");
}

/// Une colonne vide se lirait comme une donnée manquante.
#[test]
fn un_horizon_sans_borne_s_ecrit_all() {
    let mut l = ligne();
    l.dte_max = None;
    let champs: Vec<String> = l.en_csv().split(',').map(str::to_string).collect();
    assert_eq!(champs[rang("dte_max")], "all");
}

#[test]
fn le_contexte_de_seance_reste_vide_sur_futures() {
    let csv = ligne().en_csv();
    let champs: Vec<&str> = csv.split(',').collect();
    for nom in [
        "open",
        "high",
        "low",
        "close",
        "prev_close",
        "volume",
        "dollar_volume",
        "iv30",
        "gex_sur_volume",
    ] {
        assert_eq!(champs[rang(nom)], "", "colonne {nom} devrait être vide");
    }
}

/// Ce que le fichier contient après un enregistrement.
fn inscrire(fichier: Option<String>, l: &LigneHistorique) -> String {
    let reprise = migrer(fichier.as_deref()).unwrap();
    let mut contenu = reprise.contenu.or(fichier).unwrap_or_default();
    contenu.push_str(&enregistrer(&reprise.migration, &l.en_csv()));
    contenu
}

#[test]
fn l_en_tete_n_est_ecrit_qu_une_fois() {
    let contenu = inscrire(Some(inscrire(None, &ligne())), &ligne());
    let lignes: Vec<&str> = contenu.lines().collect();
    assert_eq!(lignes.len(), 3, "en-tête + deux relevés");
    assert_eq!(lignes[0], COLONNES.join(","));
    assert_eq!(lignes[1], lignes[2]);
}

fn ancien(entete: &str, lignes: &[&str]) -> String {
    let mut contenu = entete.to_string();
    for l in lignes {
        contenu.push('\n');
        contenu.push_str(l);
    }
    contenu.push('\n');
    contenu
}

fn champ_de(contenu: &str, ligne: usize, colonne: &str) -> String {
    let lignes: Vec<&str> = contenu.lines().collect();
    lignes[ligne].split(',').nth(rang(colonne)).unwrap().to_string()
}

#[test]
fn un_en_tete_deja_a_jour_ne_declenche_rien() {
    let contenu = inscrire(None, &ligne());
    let r = migrer(Some(&contenu)).unwrap();
    assert_eq!(r.migration, Migration::Aucune);
    assert_eq!(r.contenu, None);
}

/// Les valeurs suivent leur nom de colonne, jamais leur position.
#[test]
fn les_valeurs_suivent_leur_nom_et_non_leur_position() {
    let vieux = ancien(
        "ticker,timestamp,total_gex,spot",
        &["NQ,2026-08-25 20:30,-357422192,29305.75"],
    );
    let r = migrer(Some(&vieux)).unwrap();
    let contenu = r.contenu.unwrap();

    assert_eq!(contenu.lines().next().unwrap(), COLONNES.join(","));
    assert_eq!(champ_de(&contenu, 1, "ticker"), "NQ");
    assert_eq!(champ_de(&contenu, 1, "timestamp"), "2026-08-25 20:30");
    assert_eq!(champ_de(&contenu, 1, "spot"), "29305.75");
    assert_eq!(champ_de(&contenu, 1, "total_gex"), "-357422192");
    // Les colonnes que l'ancien fichier n'avait pas restent vides, jamais à zéro.
    assert_eq!(champ_de(&contenu, 1, "zero_gamma"), "");

    let Migration::Faite {
        ajoutees, releves, ..
    } = r.migration
    else {
        panic!("la migration aurait dû avoir lieu");
    };
    assert_eq!(releves, 1);
    assert!(ajoutees.contains(&"zero_gamma".to_string()));
    assert!(!ajoutees.contains(&"spot".to_string()));
}

/// Perdre une colonne serait silencieux.
#[test]
fn une_colonne_inconnue_arrete_la_migration() {
    let vieux = ancien(
        "timestamp,ticker,spot,total_gex,une_mesure_oubliee",
        &["2026-08-25 20:30,NQ,29305.75,-357422192,42"],
    );
    let erreur = migrer(Some(&vieux)).unwrap_err();
    assert_eq!(erreur.noms, vec!["une_mesure_oubliee".to_string()]);
    assert!(
        erreur.message().contains("une_mesure_oubliee"),
        "l'erreur doit nommer la colonne en cause : {}",
        erreur.message()
    );
}

/// Le fichier d'avant est irremplaçable.
#[test]
fn la_migration_garde_une_copie_d_avant() {
    let vieux = ancien("timestamp,ticker", &["2026-08-25 20:30,NQ"]);
    let Migration::Faite { sauvegarde, .. } = migrer(Some(&vieux)).unwrap().migration else {
        panic!("la migration aurait dû avoir lieu");
    };
    // Nommée par l'ancien nombre de colonnes : deux migrations successives ne se
    // recouvrent pas.
    assert!(sauvegarde.ends_with("avant-2-colonnes"), "{sauvegarde}");
}

/// Une ligne écrite sous un schéma plus ancien peut s'arrêter avant les colonnes de contexte.
#[test]
fn une_ligne_plus_courte_que_son_en_tete_passe() {
    let vieux = ancien("timestamp,ticker,spot,total_gex", &["2026-08-25 20:30,NQ"]);
    let contenu = migrer(Some(&vieux)).unwrap().contenu.unwrap();
    assert_eq!(champ_de(&contenu, 1, "ticker"), "NQ");
    assert_eq!(champ_de(&contenu, 1, "spot"), "");
}

#[test]
fn un_fichier_vide_est_traite_comme_neuf() {
    assert_eq!(migrer(Some("")).unwrap().migration, Migration::Cree);
    let contenu = inscrire(Some(String::new()), &ligne());
    assert_eq!(contenu.lines().next().unwrap(), COLONNES.join(","));
    assert_eq!(contenu.lines().count(), 2);
}

/// Un relevé neuf dans un fichier au vieil en-tête décalerait toutes les colonnes.
#[test]
fn ecrire_dans_un_vieux_fichier_le_met_d_abord_a_niveau() {
    let vieux = ancien(
        "timestamp,ticker,spot,total_gex",
        &["2026-08-20 20:30,NQ,29000,-1000"],
    );
    let contenu = inscrire(Some(vieux), &ligne());
    let lignes: Vec<&str> = contenu.lines().collect();

    assert_eq!(lignes.len(), 3, "en-tête + l'ancien relevé + le nouveau");
    for (i, l) in lignes.iter().enumerate() {
        assert_eq!(
            l.split(',').count(),
            COLONNES.len(),
            "la ligne {i} n'a pas le compte de colonnes du schéma"
        );
    }
    assert_eq!(champ_de(&contenu, 1, "spot"), "29000");
    assert_eq!(champ_de(&contenu, 2, "spot"), "29305.75");
}

/// Migrer ce qui vient de l'être ne change rien.
#[test]
fn une_seconde_migration_ne_fait_rien() {
    let vieux = ancien("timestamp,ticker", &["2026-08-25 20:30,NQ", "", "  "]);
    let contenu = migrer(Some(&vieux)).unwrap().contenu.unwrap();
    assert_eq!(contenu.lines().count(), 2, "les lignes vides ne sont pas reportées");
    assert_eq!(migrer(Some(&contenu)).unwrap().migration, Migration::Aucune);
}

// --- La validation

fn releve(instant: &str, spot: f64, gex: f64) -> Releve {
    Releve {
        instant: instant.to_string(),
        ticker: "NQ".to_string(),
        dte_max: "30".to_string(),
        source_gamma: "iv".to_string(),
        convention: "heures".to_string(),
        spot: f(spot),
        gex: f(gex),
        zero_gamma: Some(f(29_400.0)),
        call_wall: Some(f(29_600.0)),
        put_wall: Some(f(29_000.0)),
        charm: Some(f(-154_030_000.0)),
        vanna: Some(f(9_100_000.0)),
        iv_atm: Some(f(0.184)),
        max_pain: Some(f(29_850.0)),
    }
}

/// Deux exécutions du même jour ne sont pas deux observations.
#[test]
fn une_seance_ne_compte_qu_une_fois() {
    let releves = vec![
        releve("2026-08-24 14:00", 29_000.0, -1e8),
        releve("2026-08-24 20:00", 29_050.0, -1e8),
        releve("2026-08-25 20:00", 29_300.0, -1e8),
        releve("2026-08-26 20:00", 29_200.0, 1e8),
    ];
    let obs = observer(&releves, intervalle_minimal());
    assert_eq!(obs.len(), 2, "trois journées distinctes, donc deux paires");
}

/// Un dte_max de 7 et de 30 peuvent donner des GEX de signes opposés.
#[test]
fn les_perimetres_ne_se_melangent_pas() {
    let mut autre = releve("2026-08-25 20:00", 29_300.0, -1e8);
    autre.dte_max = "7".to_string();
    let releves = vec![
        releve("2026-08-24 20:00", 29_000.0, -1e8),
        autre,
        releve("2026-08-26 20:00", 29_200.0, -1e8),
    ];
    let obs = observer(&releves, intervalle_minimal());
    // Le dte_max 30 fournit une paire ; le dte_max 7 est seul, donc aucune.
    assert_eq!(obs.len(), 1);
}

/// Le mouvement entre deux relevés du même quart d'heure est du bruit de cotation.
#[test]
fn deux_releves_trop_proches_ne_font_pas_une_observation() {
    let releves = vec![
        releve("2026-08-24 20:00", 29_000.0, -1e8),
        releve("2026-08-24 20:15", 29_010.0, -1e8),
    ];
    assert!(observer(&releves, intervalle_minimal()).is_empty());
}

/// Un mouvement sur trois jours n'est pas comparable à un mouvement sur un jour.
#[test]
fn le_mouvement_est_ramene_a_la_journee() {
    let releves = vec![
        releve("2026-08-24 20:00", 29_000.0, -1e8),
        releve("2026-08-28 20:00", 29_290.0, -1e8),
    ];
    let obs = observer(&releves, intervalle_minimal());
    // 1 % sur quatre jours -> 1 % / 2
    assert!((n(obs[0].mouvement_par_jour) - 0.005).abs() < 1e-9);
}

#[test]
fn l_ecart_se_compte_en_jours() {
    assert_eq!(n(jours_entre("2026-08-24 20:00", "2026-08-25 08:00")), 0.5);
}

/// Un NaN se lirait comme « contraire au modèle » alors qu'il ne dit rien.
#[test]
fn un_rapport_indefini_est_dit_plutot_que_calcule() {
    let c = comparer(&v(&[0.01, 0.02, 0.03]), &v(&[0.0, 0.0, 0.0]));
    assert_eq!(c.ecart, None);
}

#[test]
fn un_echantillon_trop_court_n_est_pas_concluant() {
    let c = comparer(&v(&[0.02; 5]), &v(&[0.01; 5]));
    assert!((n(c.ecart.unwrap()) - 1.0).abs() < 1e-12);
    assert!(!c.concluant, "dix relevés ne concluent pas");
    let long = comparer(&v(&[0.02; 15]), &v(&[0.01; 15]));
    assert!(long.concluant);
}

#[test]
fn moins_de_trois_releves_ne_se_comparent_pas() {
    assert_eq!(comparer(&v(&[0.02, 0.03]), &v(&[0.01; 5])).ecart, None);
}

#[test]
fn le_taux_de_franchissement_se_mesure() {
    assert_eq!(
        taux_de_franchissement(&[true, false, false, false]),
        Some(f(0.25))
    );
    assert_eq!(taux_de_franchissement(&[]), None);
}

#[test]
fn l_historique_se_relit() {
    let l = LigneHistorique {
        instant: instant("2026-08-26 06:32:12"),
        ticker: "NQ".to_string(),
        dte_max: Some(30),
        source_gamma: "iv".to_string(),
        convention: "heures".to_string(),
        spot: f(29_218.5),
        gex: f(-478_840_000.0),
        zero_gamma: None,
        call_wall: None,
        put_wall: Some(f(29_050.0)),
        call_wall_oi: None,
        put_wall_oi: Some(f(29_000.0)),
        charm: f(-154_030_000.0),
        vanna: f(9_100_000.0),
        iv_atm: Some(f(0.184)),
        strikes: 71,
        echeances: 2,
    };
    let relus = lire_historique(&inscrire(None, &l)).unwrap();
    assert_eq!(relus.len(), 1);
    assert_eq!(relus[0].ticker, "NQ");
    assert!((n(relus[0].spot) - 29_218.5).abs() < 1e-9);
    assert_eq!(relus[0].zero_gamma, None);
    assert_eq!(relus[0].put_wall, Some(f(29_050.0)));
    assert_eq!(relus[0].instant, "2026-08-26 06:32");
    assert_eq!(relus[0].iv_atm, Some(f(0.184)));
    // Un second relevé s'ajoute au premier sans le changer.
    let mut autre = l.clone();
    autre.spot = f(0.1 + 0.2);
    let deux = lire_historique(&inscrire(Some(inscrire(None, &l)), &autre)).unwrap();
    assert_eq!(deux.len(), 2);
    assert_eq!(deux[0], relus[0]);
    assert_eq!(deux[1].spot, f(0.1 + 0.2));
}

#[test]
fn un_historique_sans_ses_colonnes_est_refuse() {
    assert_eq!(
        lire_historique("").unwrap_err(),
        ErreurValidation::Schema("fichier vide".to_string())
    );
    assert!(matches!(
        lire_historique("a,b,c\n1,2,3\n").unwrap_err(),
        ErreurValidation::Schema(_)
    ));
}

#[test]
fn un_historique_absent_nomme_ce_qui_l_ecrit() {
    let e = ErreurValidation::Fichier("introuvable".to_string());
    assert!(e.message().contains("gex NQ"), "{}", e.message());
}

/// Deux relevés d'un jour d'écart, dont on choisit le charm, la vanna et la volatilité aux
/// deux bouts.
fn paire(spot0: f64, spot1: f64, charm: f64, vanna: f64, iv0: f64, iv1: f64) -> Observation {
    let mut a = releve("2026-08-24 20:00", spot0, -1e8);
    let mut b = releve("2026-08-25 20:00", spot1, -1e8);
    a.charm = Some(f(charm));
    a.vanna = Some(f(vanna));
    a.iv_atm = Some(f(iv0));
    b.iv_atm = Some(f(iv1));
    observer(&[a, b], intervalle_minimal())[0]
}

/// Un charm négatif fait acheter les teneurs, ce qui pousse vers le haut.
#[test]
fn le_sens_attendu_du_charm_est_l_oppose_de_son_signe() {
    // charm négatif, le prix monte : conforme.
    assert_eq!(
        paire(29_000.0, 29_300.0, -1e8, 9e6, 0.18, 0.18).sens_du_charm,
        Some(true)
    );
    // charm négatif, le prix baisse : contraire.
    assert_eq!(
        paire(29_000.0, 28_700.0, -1e8, 9e6, 0.18, 0.18).sens_du_charm,
        Some(false)
    );
    // charm positif, le prix baisse : conforme à nouveau.
    assert_eq!(
        paire(29_000.0, 28_700.0, 1e8, -9e6, 0.18, 0.18).sens_du_charm,
        Some(true)
    );
}

/// Un prix figé ne va dans aucun sens.
#[test]
fn un_prix_fige_ne_compte_dans_aucun_sens() {
    let o = paire(29_000.0, 29_000.0, -1e8, 9e6, 0.18, 0.20);
    assert_eq!(o.sens_du_charm, None);
    assert_eq!(o.sens_de_la_vanna, None);
}

/// La volatilité monte et descend, donc le produit change de signe.
#[test]
fn le_flux_de_vanna_change_de_signe_avec_la_volatilite() {
    let vol_monte = paire(29_000.0, 29_300.0, -1e8, 9e6, 0.18, 0.20);
    let vol_baisse = paire(29_000.0, 29_300.0, -1e8, 9e6, 0.20, 0.18);
    let (Some(f1), Some(f2)) = (vol_monte.flux_vanna, vol_baisse.flux_vanna) else {
        panic!("les deux flux doivent exister");
    };
    assert!(n(f1) > 0.0 && n(f2) < 0.0, "flux {} et {}", n(f1), n(f2));
    // Et le même mouvement de prix se lit donc à l'opposé selon le sens de la volatilité.
    assert_eq!(vol_monte.sens_de_la_vanna, Some(false));
    assert_eq!(vol_baisse.sens_de_la_vanna, Some(true));
}

/// L'absence se dit `None`, jamais zéro.
#[test]
fn sans_volatilite_aux_deux_bouts_il_n_y_a_pas_de_flux() {
    let mut a = releve("2026-08-24 20:00", 29_000.0, -1e8);
    let b = releve("2026-08-25 20:00", 29_300.0, -1e8);
    a.iv_atm = None;
    let o = observer(&[a, b], intervalle_minimal())[0];
    assert_eq!(o.flux_vanna, None);
    assert_eq!(o.sens_de_la_vanna, None);
    // Le charm, lui, n'a pas besoin de la volatilité.
    assert!(o.sens_du_charm.is_some());
}

/// Le gamma dit combien le prix bouge, le charm vers où.
#[test]
fn le_mouvement_signe_garde_le_sens_que_l_absolu_efface() {
    let hausse = paire(29_000.0, 29_300.0, -1e8, 9e6, 0.18, 0.18);
    let baisse = paire(29_000.0, 28_700.0, -1e8, 9e6, 0.18, 0.18);
    assert!(n(hausse.mouvement_signe) > 0.0);
    assert!(n(baisse.mouvement_signe) < 0.0);
    // L'amplitude, elle, ne les distingue pas.
    assert!(n(hausse.mouvement_par_jour) > 0.0 && n(baisse.mouvement_par_jour) > 0.0);
}

/// Deux dérives opposées donneraient un quotient négatif : l'écart se dit par
/// soustraction.
#[test]
fn la_derive_se_compare_par_soustraction() {
    let d = comparer_derive(&v(&[0.02, 0.03, 0.04]), &v(&[-0.01, -0.02, -0.03]));
    assert_eq!(n(d.mediane_a), 0.03);
    assert_eq!(n(d.mediane_b), -0.02);
    assert_eq!(d.ecart, Some(f(0.05)));
    // Sous trois de chaque côté, aucun écart n'est rendu.
    assert_eq!(comparer_derive(&v(&[0.02]), &v(&[-0.01])).ecart, None);
}

/// Deux relevés d'un jour d'écart, dont on choisit le max pain de départ.
fn paire_mp(spot0: f64, spot1: f64, max_pain: Option<f64>) -> Observation {
    let mut a = releve("2026-08-24 20:00", spot0, -1e8);
    let b = releve("2026-08-25 20:00", spot1, -1e8);
    a.max_pain = max_pain.map(f);
    observer(&[a, b], intervalle_minimal())[0]
}

#[test]
fn le_rapprochement_du_max_pain_se_mesure_dans_les_deux_sens() {
    // Le prix part sous le max pain et monte vers lui.
    assert_eq!(
        paire_mp(29_000.0, 29_500.0, Some(29_850.0)).vers_le_max_pain,
        Some(true)
    );
    // Il part sous et s'en éloigne encore.
    assert_eq!(
        paire_mp(29_000.0, 28_500.0, Some(29_850.0)).vers_le_max_pain,
        Some(false)
    );
    // Et par au-dessus : le rapprochement n'a pas de côté privilégié.
    assert_eq!(
        paire_mp(30_000.0, 29_900.0, Some(29_850.0)).vers_le_max_pain,
        Some(true)
    );
}

/// Juger sur celui qu'on découvre après le mouvement reviendrait à prédire le passé.
#[test]
fn c_est_le_max_pain_d_avant_qui_est_retenu() {
    let mut a = releve("2026-08-24 20:00", 29_000.0, -1e8);
    let mut b = releve("2026-08-25 20:00", 29_500.0, -1e8);
    a.max_pain = Some(f(29_850.0));
    // Un max pain d'arrivée qui rendrait le verdict opposé s'il était lu.
    b.max_pain = Some(f(28_000.0));
    assert_eq!(
        observer(&[a, b], intervalle_minimal())[0].vers_le_max_pain,
        Some(true)
    );
}

/// La distance distingue une attraction d'un simple retour à la moyenne.
#[test]
fn la_distance_de_depart_est_relative_au_spot() {
    let o = paire_mp(29_000.0, 29_500.0, Some(29_290.0));
    let d = n(o.distance_max_pain.unwrap());
    assert!((d - 0.01).abs() < 1e-9, "distance {d} au lieu de 1 %");
}

#[test]
fn sans_max_pain_il_n_y_a_rien_a_mesurer() {
    let o = paire_mp(29_000.0, 29_500.0, None);
    assert_eq!(o.vers_le_max_pain, None);
    assert_eq!(o.distance_max_pain, None);
}

#[test]
fn la_mediane_coupe_l_echantillon_en_deux() {
    assert_eq!(n(mediane(&v(&[1.0, 2.0, 3.0]))), 2.0);
    assert_eq!(n(mediane(&v(&[1.0, 2.0, 3.0, 4.0]))), 2.5);
    assert_eq!(n(mediane(&[])), 0.0);
}

// --- Les positions déclarées

fn json(version: &str, lignes: &[(&str, i64, i64, i64)]) -> String {
    let corps: Vec<String> = lignes
        .iter()
        .map(|(jour, long, court, oi)| {
            format!(
                r#"{{"report_date_as_yyyy_mm_dd":"{jour}T00:00:00.000",
                   "contract_market_name":"NASDAQ MINI",
                   "futonly_or_combined":"{version}",
                   "dealer_positions_long_all":"{long}",
                   "dealer_positions_short_all":"{court}",
                   "open_interest_all":"{oi}"}}"#
            )
        })
        .collect();
    format!("[{}]", corps.join(","))
}

/// Les lire comme des nombres rendrait zéro partout.
#[test]
fn les_nombres_arrivent_en_chaines_et_sont_lus_quand_meme() {
    let r = lire(
        &json("Combined", &[("2026-08-25", 57875, 123505, 338076)]),
        "Combined",
    )
    .unwrap();
    assert_eq!(r[0].net, 57875 - 123505);
    assert_eq!(r[0].open_interest, 338076);
    assert_eq!(r[0].jour, "2026-08-25");
}

/// Les intervertir donnerait une différence nulle, parfaitement crédible et fausse.
#[test]
fn un_fichier_de_la_mauvaise_version_est_refuse() {
    let e = lire(&json("FutOnly", &[("2026-08-25", 1, 2, 3)]), "Combined").unwrap_err();
    let m = e.message();
    assert!(m.contains("FutOnly") && m.contains("Combined"), "{m}");
}

#[test]
fn les_semaines_sortent_dans_l_ordre() {
    let r = lire(
        &json(
            "Combined",
            &[
                ("2026-08-25", 1, 2, 9),
                ("2026-08-11", 1, 2, 9),
                ("2026-08-18", 1, 2, 9),
            ],
        ),
        "Combined",
    )
    .unwrap();
    let jours: Vec<&str> = r.iter().map(|x| x.jour.as_str()).collect();
    assert_eq!(jours, ["2026-08-11", "2026-08-18", "2026-08-25"]);
}

#[test]
fn le_delta_d_options_est_la_difference_des_deux_versions() {
    let c = lire(
        &json("Combined", &[("2026-08-25", 57875, 123505, 338076)]),
        "Combined",
    )
    .unwrap();
    let g = lire(
        &json("FutOnly", &[("2026-08-25", 59255, 122503, 301987)]),
        "FutOnly",
    )
    .unwrap();
    let r = confronter(&c, &g);
    assert_eq!(r.semaines, 1);
    // (57875-123505) - (59255-122503) = -65630 + 63248 = -2382
    assert_eq!(r.amplitude_mediane, 2382);
    assert_eq!(r.contraires, 1);
    assert_eq!(r.conformes, 0);
    assert_eq!(r.oi_optionnel_median, 338076 - 301987);
    assert_eq!(r.nettes_courtes, 1);
    assert_eq!(r.conformes + r.contraires + r.nuls, r.semaines);
    assert_eq!(r.part_conforme(), Some(f(0.0)));
}

/// La différence n'a de sens qu'entre deux photos du même mardi.
#[test]
fn seules_les_semaines_communes_comptent() {
    let c = lire(
        &json(
            "Combined",
            &[("2026-08-18", 10, 5, 100), ("2026-08-25", 10, 5, 100)],
        ),
        "Combined",
    )
    .unwrap();
    let g = lire(&json("FutOnly", &[("2026-08-25", 4, 5, 90)]), "FutOnly").unwrap();
    let r = confronter(&c, &g);
    assert_eq!(r.semaines, 1);
    assert_eq!(r.debut, "2026-08-25");
    assert_eq!(r.fin, "2026-08-25");
}

/// Un pourcentage sur zéro semaine aurait l'air d'une mesure.
#[test]
fn sans_semaine_commune_aucune_part_n_est_rendue() {
    let c = lire(&json("Combined", &[("2026-08-18", 1, 2, 9)]), "Combined").unwrap();
    let g = lire(&json("FutOnly", &[("2026-08-25", 1, 2, 9)]), "FutOnly").unwrap();
    assert_eq!(confronter(&c, &g).part_conforme(), None);
}

/// Intervertir les deux versions échange conformes et contraires, et garde le reste.
#[test]
fn intervertir_les_versions_echange_les_comptes() {
    let ligne = |jour: &str, net: i64| Rapport {
        jour: jour.to_string(),
        net,
        open_interest: 1_000,
    };
    let c = [
        ligne("2026-08-04", 10),
        ligne("2026-08-11", -7),
        ligne("2026-08-18", 25),
        ligne("2026-08-25", 3),
        ligne("2026-09-01", 99),
    ];
    let g = [
        ligne("2026-08-25", 3),
        ligne("2026-08-18", 5),
        ligne("2026-08-11", -4),
        ligne("2026-08-04", 9),
    ];
    let (r, s) = (confronter(&c, &g), confronter(&g, &c));
    assert_eq!((r.conformes, r.contraires, r.nuls, r.semaines), (2, 1, 1, 4));
    assert_eq!((s.conformes, s.contraires, s.nuls, s.semaines), (1, 2, 1, 4));
    assert_eq!(r.amplitude_mediane, 3);
    assert_eq!(s.amplitude_mediane, 3);
}

#[test]
fn un_document_vide_est_refuse_plutot_que_rendu_vide() {
    assert!(lire("[]", "Combined").is_err());
    assert!(lire("pas du json", "Combined").is_err());
}

/// Des positions qui débordent ne se soustraient pas.
#[test]
fn des_positions_demesurees_ne_se_lisent_pas() {
    let trop = json("Combined", &[("2026-08-25", i64::MIN, 1, 9)]);
    assert_eq!(lire_si_tenable(&trop, "Combined"), None);
    let bon = json("Combined", &[("2026-08-25", 3, 1, 9)]);
    assert_eq!(lire_si_tenable(&bon, "Combined"), Some(lire(&bon, "Combined")));
    assert!(matches!(
        lire("pas du json", "Combined"),
        Err(ErreurCftc::Format(_))
    ));
}
