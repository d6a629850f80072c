//! Ce que la collecte décide, reçoit et assemble.

use chrono::{NaiveDate, NaiveDateTime};
use gex::calendrier::{Instant, Jour};
use gex::coeur::black76::Sens;
use gex::coeur::chaine::{Chaine, ChaineInvalide, Cote, Ligne};
use gex::coeur::temps::{EcheanceNy, InstantReleve};
use gex::flottant::Flottant;
use gex::ib::assemblage::{build_chain, fusionner, iv_normalisee};
use gex::ib::barres::{barres, en_utc, profondeur, traduire, BarreIb, Horodatage, PROFONDEUR_JOURS};
use gex::ib::client::{
    contrats_du_jour, echeances_de_classes, front_month, positif, recevoir, sens_de, signe, Calcul,
    Detail, Droit, ErreurIb, Tick, Valeurs, ADRESSE_DEFAUT, ATTENTE_LOT, CLIENT_ID_DEFAUT,
    TICKS_GENERIQUES, TICK_MODELE, TICK_MODELE_DIFFERE, TICK_OPEN_INTEREST,
    TICK_OPEN_INTEREST_CALL, TICK_OPEN_INTEREST_FUTURE, TICK_OPEN_INTEREST_PUT,
};
use gex::ib::decisions::{
    avec_conid, echeances_utiles, instant_echeance, instant_echeance_si_resoluble, lire_heure,
    lots, perimetre, reexprimer, selection_vif, separer_echeance, CleContrat, ContratOption,
    ErreurEcheance, BUDGET_LIGNES,
};
use ibapi::contracts::tick_types::TickType;
use std::collections::HashMap;

fn f(x: f64) -> Flottant {
    Flottant::depuis_bits(x.to_bits())
}

fn n(x: Flottant) -> f64 {
    f64::from_bits(x.bits)
}

fn ln(x: Flottant) -> Flottant {
    f(n(x).ln())
}

fn exp(x: Flottant) -> Flottant {
    f(n(x).exp())
}

fn date(s: &str) -> Jour {
    let d = NaiveDate::parse_from_str(s, "%Y-%m-%d").unwrap();
    let origine = NaiveDate::from_ymd_opt(1970, 1, 1).unwrap();
    Jour {
        numero: d.signed_duration_since(origine).num_days() as i32,
    }
}

fn instant(s: &str) -> Instant {
    let d = NaiveDateTime::parse_from_str(s, "%Y-%m-%d %H:%M:%S").unwrap();
    Instant {
        micros: d.and_utc().timestamp_micros(),
    }
}

fn ech(s: &str) -> EcheanceNy {
    EcheanceNy(instant(s))
}

fn contrat_du(con_id: i32, echeance: &str, strike: f64, sens: Sens) -> ContratOption {
    ContratOption {
        con_id,
        cle: CleContrat {
            echeance: ech(echeance),
            strike: f(strike),
            sens,
        },
    }
}

// --- L'heure de l'échéance

/// L'hebdomadaire NQ expire à 15h00 Central.
#[test]
fn une_hebdomadaire_expire_a_seize_heures_new_york() {
    let e = instant_echeance(date("2026-08-26"), Some("15:00:00"), Some("US/Central")).unwrap();
    assert_eq!(e, ech("2026-08-26 16:00:00"));
}

/// La mensuelle est réglée le matin, six heures et demie plus tôt.
#[test]
fn une_mensuelle_est_reglee_le_matin() {
    let e = instant_echeance(date("2026-09-18"), Some("08:30:00"), Some("US/Central")).unwrap();
    assert_eq!(e, ech("2026-09-18 09:30:00"));
}

#[test]
fn sans_heure_on_suppose_la_cloture() {
    for servi in [None, Some(""), Some("   ")] {
        let e = instant_echeance(date("2026-08-25"), servi, Some("US/Central")).unwrap();
        assert_eq!(e, ech("2026-08-25 16:00:00"));
    }
}

#[test]
fn un_fuseau_inconnu_eclate() {
    let e = instant_echeance(date("2026-08-26"), Some("15:00:00"), Some("Mars/Olympus"));
    assert!(matches!(e, Err(ErreurEcheance::FuseauInconnu(_))));
}

#[test]
fn une_heure_illisible_eclate() {
    for mauvaise in ["quinze heures", "15h00", "-1:00:00"] {
        assert!(
            matches!(
                instant_echeance(date("2026-08-26"), Some(mauvaise), Some("US/Central")),
                Err(ErreurEcheance::HeureIllisible(_))
            ),
            "{mauvaise} aurait dû être refusée"
        );
    }
}

/// La version prudente rend la même chose, et rien sur une heure que son fuseau ne joue
/// pas.
#[test]
fn une_heure_qui_ne_se_resout_pas_ne_date_rien() {
    assert_eq!(
        instant_echeance_si_resoluble(date("2026-08-26"), Some("15:00:00"), Some("US/Central")),
        Some(Ok(ech("2026-08-26 16:00:00")))
    );
    // Les Samoa ont sauté le 30 décembre 2011 tout entier.
    assert_eq!(
        instant_echeance_si_resoluble(date("2011-12-30"), Some("12:00:00"), Some("Pacific/Apia")),
        None
    );
}

#[test]
fn chaque_refus_d_echeance_s_explique() {
    assert_eq!(
        ErreurEcheance::HeureIllisible("15h00".to_string()).message(),
        "Heure d'échéance illisible chez IB : \"15h00\""
    );
    assert!(ErreurEcheance::FuseauInconnu("Mars/Olympus".to_string())
        .message()
        .contains("\"Mars/Olympus\""));
}

#[test]
fn une_heure_se_lit_en_trois_morceaux() {
    let heure = |s: &str| lire_heure(&s.chars().collect::<Vec<char>>());
    assert!(heure("15:00:00").is_some());
    assert_eq!(heure("15h00"), None);
    assert_eq!(heure("25:00:00"), None);
    assert_eq!(heure(""), None);
}

#[test]
fn un_instant_se_reexprime_par_son_decalage() {
    assert_eq!(
        reexprimer(instant("2026-08-26 20:00:00"), Some(-14_400)),
        Some(ech("2026-08-26 16:00:00"))
    );
    assert_eq!(reexprimer(instant("2026-08-26 20:00:00"), None), None);
}

// --- Échéances utiles

#[test]
fn le_champ_d_echeance_d_ib_se_separe_en_trois() {
    let (jour, heure, fuseau) = separer_echeance("20260827 15:00:00 US/Central");
    assert_eq!(jour, Some(date("2026-08-27")));
    assert_eq!(heure.as_deref(), Some("15:00:00"));
    assert_eq!(fuseau.as_deref(), Some("US/Central"));
    // Et l'échéance datée qu'on en tire
    assert_eq!(
        instant_echeance(jour.unwrap(), heure.as_deref(), fuseau.as_deref()).unwrap(),
        ech("2026-08-27 16:00:00")
    );
}

#[test]
fn un_champ_d_echeance_sans_heure_reste_lisible() {
    let (jour, heure, fuseau) = separer_echeance("20260827");
    assert_eq!(jour, Some(date("2026-08-27")));
    assert_eq!((heure, fuseau), (None, None));
}

#[test]
fn un_champ_d_echeance_illisible_ne_rend_aucune_date() {
    assert_eq!(separer_echeance("").0, None);
    assert_eq!(separer_echeance("bientot").0, None);
}

#[test]
fn l_horizon_se_compte_en_jours_calendaires() {
    let toutes = [
        date("2026-08-25"),
        date("2026-08-26"),
        date("2026-09-18"),
        date("2026-12-18"),
    ];
    let releve = InstantReleve(instant("2026-08-25 20:30:00"));
    // Le jour même est un 0DTE, pas un contrat du passé.
    assert_eq!(
        echeances_utiles(&toutes, releve, Some(30), 0),
        vec![date("2026-08-25"), date("2026-08-26"), date("2026-09-18")]
    );
    assert_eq!(
        echeances_utiles(&toutes, releve, Some(30), 1),
        vec![date("2026-08-26"), date("2026-09-18")]
    );
    assert_eq!(echeances_utiles(&toutes, releve, None, 0).len(), 4);
}

#[test]
fn les_echeances_sont_triees_et_dedoublonnees() {
    let doublons = [date("2026-09-18"), date("2026-08-26"), date("2026-08-26")];
    let releve = InstantReleve(instant("2026-08-25 20:30:00"));
    assert_eq!(
        echeances_utiles(&doublons, releve, Some(30), 0),
        vec![date("2026-08-26"), date("2026-09-18")]
    );
}

// --- Périmètre

#[test]
fn le_perimetre_elague_ce_qui_est_hors_plage() {
    let tous: Vec<ContratOption> = [24_000.0, 25_000.0, 26_000.0, 30_000.0]
        .iter()
        .enumerate()
        .map(|(i, k)| contrat_du(i as i32, "2026-08-26 16:00:00", *k, Sens::Call))
        .collect();
    let retenus = perimetre(&tous, f(25_000.0), f(0.05));
    assert_eq!(
        retenus.iter().map(|c| n(c.cle.strike)).collect::<Vec<_>>(),
        vec![24_000.0, 25_000.0, 26_000.0]
    );
}

/// 25 000 x 1,025 vaut 25 624,999999999996 : sans marge le strike 25 625 disparaît.
#[test]
fn la_borne_flottante_ne_perd_pas_le_dernier_strike() {
    let tous = vec![contrat_du(1, "2026-08-26 16:00:00", 25_625.0, Sens::Call)];
    assert_eq!(perimetre(&tous, f(25_000.0), f(0.025)).len(), 1);
}

#[test]
fn le_perimetre_est_trie_donc_reproductible() {
    let desordre = vec![
        contrat_du(3, "2026-08-28 16:00:00", 25_000.0, Sens::Call),
        contrat_du(2, "2026-08-26 16:00:00", 25_100.0, Sens::Put),
        contrat_du(1, "2026-08-26 16:00:00", 25_100.0, Sens::Call),
        contrat_du(4, "2026-08-26 16:00:00", 25_000.0, Sens::Call),
    ];
    let ordre: Vec<i32> = perimetre(&desordre, f(25_000.0), f(0.2))
        .iter()
        .map(|c| c.con_id)
        .collect();
    assert_eq!(ordre, vec![4, 1, 2, 3]);
}

// --- Lots

#[test]
fn les_lots_decoupent_sans_rien_perdre() {
    let tous: Vec<ContratOption> = (0..95)
        .map(|i| contrat_du(i, "2026-08-26 16:00:00", 25_000.0 + i as f64, Sens::Call))
        .collect();
    let paquets = lots(&tous, BUDGET_LIGNES).unwrap();
    assert_eq!(paquets.len(), 2);
    assert_eq!(paquets[0].len(), 90);
    assert_eq!(paquets[1].len(), 5);
    assert_eq!(paquets.iter().map(Vec::len).sum::<usize>(), 95);
}

#[test]
fn un_perimetre_vide_ne_fait_aucun_lot() {
    let vide: [ContratOption; 0] = [];
    assert!(lots(&vide, BUDGET_LIGNES).unwrap().is_empty());
}

/// Une taille nulle bouclerait indéfiniment : c'est une panne, pas un cas limite.
#[test]
fn une_taille_de_lot_nulle_est_refusee() {
    let vide: [ContratOption; 0] = [];
    assert!(lots(&vide, 0).is_err());
}

// --- Sélection du vif

fn chaine_pesee() -> Chaine {
    let lignes: Vec<Ligne> = [
        // (strike, gamma call, OI call, gamma put, OI put)
        (25_000.0, 0.001, 100.0, 0.001, 50.0),
        (25_100.0, 0.002, 500.0, 0.002, 900.0),
        (25_200.0, 0.003, 10.0, 0.003, 20.0),
        (25_300.0, 0.000, 0.0, 0.000, 0.0),
    ]
    .iter()
    .map(|(k, gc, oic, gp, oip)| Ligne {
        echeance: ech("2026-08-26 16:00:00"),
        strike: f(*k),
        call: Cote {
            gamma: f(*gc),
            open_interest: f(*oic),
            ..Default::default()
        },
        put: Cote {
            gamma: f(*gp),
            open_interest: f(*oip),
            ..Default::default()
        },
    })
    .collect();
    Chaine::nouvelle(
        lignes,
        f(25_100.0),
        InstantReleve(instant("2026-08-25 20:30:00")),
    )
    .unwrap()
}

#[test]
fn le_vif_se_choisit_par_le_gamma_pas_par_la_distance() {
    let vif = selection_vif(&chaine_pesee(), 3);
    // |gamma x OI| : put 25 100 = 1,8 ; call 25 100 = 1,0 ; call 25 000 = 0,1
    assert_eq!(vif.len(), 3);
    assert_eq!(n(vif[0].strike), 25_100.0);
    assert_eq!(vif[0].sens, Sens::Put);
    assert_eq!(n(vif[1].strike), 25_100.0);
    assert_eq!(vif[1].sens, Sens::Call);
}

/// Un strike sans open interest ne consomme pas une ligne : le budget est le bien rare.
#[test]
fn un_poids_nul_ne_consomme_pas_de_ligne() {
    let vif = selection_vif(&chaine_pesee(), 90);
    assert_eq!(vif.len(), 6, "quatre strikes, mais un sans aucun poids");
    assert!(vif.iter().all(|c| n(c.strike) != 25_300.0));
}

#[test]
fn le_budget_est_respecte() {
    assert_eq!(selection_vif(&chaine_pesee(), 2).len(), 2);
    assert!(selection_vif(&chaine_pesee(), 0).is_empty());
}

#[test]
fn avec_conid_recolle_les_identifiants() {
    let catalogue = vec![
        contrat_du(11, "2026-08-26 16:00:00", 25_100.0, Sens::Call),
        contrat_du(22, "2026-08-26 16:00:00", 25_100.0, Sens::Put),
    ];
    let selection = vec![
        CleContrat {
            echeance: ech("2026-08-26 16:00:00"),
            strike: f(25_100.0),
            sens: Sens::Put,
        },
        CleContrat {
            echeance: ech("2026-08-26 16:00:00"),
            strike: f(25_100.0),
            sens: Sens::Call,
        },
    ];
    let souscriptibles = avec_conid(&selection, &catalogue);
    // Call et put au même strike ne doivent pas se confondre, et l'ordre est préservé.
    assert_eq!(
        souscriptibles.iter().map(|c| c.con_id).collect::<Vec<_>>(),
        vec![22, 11]
    );
}

#[test]
fn avec_conid_ecarte_ce_qui_n_est_pas_au_catalogue() {
    let catalogue = vec![contrat_du(11, "2026-08-26 16:00:00", 25_100.0, Sens::Call)];
    let selection = vec![CleContrat {
        echeance: ech("2026-08-26 16:00:00"),
        strike: f(99_999.0),
        sens: Sens::Call,
    }];
    assert!(avec_conid(&selection, &catalogue).is_empty());
}

// --- Le client

/// Se tromper de code ne produirait pas une erreur mais un open interest absent.
#[test]
fn les_trois_codes_d_open_interest_sont_lus() {
    assert_eq!(TickType::OptionCallOpenInterest as i32, 27);
    assert_eq!(TickType::OptionPutOpenInterest as i32, 28);
    assert_eq!(TickType::FuturesOpenInterest as i32, 86);
    for code in [TICK_OPEN_INTEREST_CALL, TICK_OPEN_INTEREST_PUT, TICK_OPEN_INTEREST_FUTURE] {
        let mut v = Valeurs::default();
        v.absorber(&Tick::Size(code, f(56.0)));
        assert_eq!(v.open_interest, Some(f(56.0)), "code {code}");
    }
    assert_eq!(TICK_OPEN_INTEREST_CALL, TickType::OptionCallOpenInterest as i32);
    assert_eq!(TICK_OPEN_INTEREST_PUT, TickType::OptionPutOpenInterest as i32);
    assert_eq!(TICK_OPEN_INTEREST_FUTURE, TickType::FuturesOpenInterest as i32);
    assert_eq!(TICK_OPEN_INTEREST, TickType::OpenInterest as i32);
    assert_eq!(TICK_MODELE, TickType::ModelOption as i32);
    assert_eq!(TICK_MODELE_DIFFERE, TickType::DelayedModelOption as i32);
}

#[test]
fn les_deux_ticks_generiques_sont_demandes() {
    assert_eq!(TICKS_GENERIQUES, ["101", "588"]);
}

#[test]
fn le_sens_se_lit_sur_le_droit() {
    assert_eq!(sens_de(Some(Droit::Call)), Some(Sens::Call));
    assert_eq!(sens_de(Some(Droit::Put)), Some(Sens::Put));
    assert_eq!(sens_de(None), None);
}

fn calcul_vide() -> Calcul {
    Calcul {
        implied_volatility: None,
        delta: None,
        gamma: None,
        vega: None,
        theta: None,
        underlying_price: None,
    }
}

/// IB renvoie des calculs partiels avant le calcul complet.
#[test]
fn un_tick_vide_n_efface_pas_ce_qui_est_deja_recu() {
    let mut v = Valeurs {
        gamma: Some(f(0.0004)),
        iv: Some(f(0.18)),
        ..Default::default()
    };
    v.absorber(&Tick::OptionComputation(TICK_MODELE, calcul_vide()));
    v.absorber(&Tick::Autre);
    assert_eq!(v.gamma, Some(f(0.0004)));
    assert_eq!(v.iv, Some(f(0.18)));
}

/// Seul le modèle compte : le calcul d'une offre ou d'une demande n'est pas lu.
#[test]
fn seul_le_calcul_du_modele_est_lu() {
    let calcul = Calcul {
        implied_volatility: Some(f(0.2)),
        delta: Some(f(-0.5)),
        gamma: Some(f(0.001)),
        vega: Some(f(7.0)),
        theta: Some(f(-58.0)),
        underlying_price: Some(f(29_233.75)),
    };
    let mut v = Valeurs::default();
    v.absorber(&Tick::OptionComputation(10, calcul));
    assert_eq!(v, Valeurs::default());
    v.absorber(&Tick::OptionComputation(TICK_MODELE_DIFFERE, calcul));
    assert_eq!(v.iv, Some(f(0.2)));
    assert_eq!(v.delta, Some(f(-0.5)));
    assert_eq!(v.theta, Some(f(-58.0)));
    assert_eq!(v.sous_jacent, Some(f(29_233.75)));
}

#[test]
fn une_valeur_hors_borne_n_est_pas_recue() {
    assert_eq!(positif(Some(f(-1.0))), None);
    assert_eq!(positif(Some(f(f64::NAN))), None);
    assert_eq!(positif(Some(f(0.5))), Some(f(0.5)));
    assert_eq!(positif(None), None);
    assert_eq!(signe(Some(f(-2.0)), f(-1.0)), None);
    assert_eq!(signe(Some(f(-0.5)), f(-1.0)), Some(f(-0.5)));
    assert_eq!(signe(Some(f(f64::INFINITY)), f(-1.0)), None);
}

#[test]
fn chaque_contrat_garde_ses_ticks() {
    let mut recu: HashMap<i32, Valeurs> = HashMap::new();
    recevoir(&mut recu, 7, &Tick::Size(TICK_OPEN_INTEREST_CALL, f(56.0)));
    recevoir(&mut recu, 8, &Tick::Size(TICK_OPEN_INTEREST_PUT, f(12.0)));
    recevoir(&mut recu, 7, &Tick::Autre);
    assert_eq!(recu.len(), 2);
    assert_eq!(recu[&7].open_interest, Some(f(56.0)));
    assert_eq!(recu[&8].open_interest, Some(f(12.0)));
}

/// À quatre secondes un quart des contrats reste muet.
#[test]
fn le_delai_de_garde_est_genereux() {
    assert!(ATTENTE_LOT >= 10);
}

#[test]
fn l_adresse_et_le_client_par_defaut() {
    assert_eq!(ADRESSE_DEFAUT, "127.0.0.1:7496");
    assert_eq!(CLIENT_ID_DEFAUT, 17);
}

#[test]
fn le_front_month_est_la_premiere_echeance() {
    let v = |s: &[&str]| s.iter().map(|x| x.to_string()).collect::<Vec<String>>();
    assert_eq!(front_month("NQ", &v(&["20261218", "20260918", "20270319"])), Ok(1));
    assert_eq!(
        front_month("ZZ", &[]),
        Err(ErreurIb::ProduitIntrouvable("ZZ".to_string()))
    );
}

#[test]
fn chaque_erreur_d_ib_s_explique() {
    assert_eq!(
        ErreurIb::ProduitIntrouvable("ZZ".to_string()).message(),
        "Aucun future \"ZZ\" coté sur cette place."
    );
    assert_eq!(
        ErreurIb::Requete("non".to_string()).message(),
        "Requête refusée par IB : non"
    );
    assert!(ErreurIb::Connexion("refus".to_string())
        .message()
        .starts_with("Connexion à TWS impossible : refus."));
    let e = ErreurEcheance::HeureIllisible("15h00".to_string());
    assert_eq!(ErreurIb::from(e.clone()).message(), e.message());
}

#[test]
fn les_echeances_des_classes_se_rassemblent() {
    let classes = vec![
        vec!["20260826".to_string(), "20260918".to_string()],
        vec!["20260826".to_string(), "illisible".to_string()],
    ];
    let h = echeances_de_classes(
        &classes,
        InstantReleve(instant("2026-08-25 20:30:00")),
        Some(10),
        0,
    );
    assert_eq!(h.classes, 2);
    assert_eq!(h.distinctes, 2);
    assert_eq!(h.retenues, vec![date("2026-08-26")]);
}

fn detail(con_id: i32, strike: f64, droit: Option<Droit>, champ: &str) -> Detail {
    Detail {
        con_id,
        strike: f(strike),
        droit,
        champ: champ.to_string(),
    }
}

#[test]
fn les_contrats_du_jour_partagent_leur_echeance() {
    let details = vec![
        detail(1, 29_000.0, Some(Droit::Call), "20260826 15:00:00 US/Central"),
        detail(2, 29_000.0, None, "20260826 15:00:00 US/Central"),
        detail(3, 29_000.0, Some(Droit::Put), "20260826"),
    ];
    let e = contrats_du_jour(date("2026-08-26"), &details).unwrap().unwrap();
    assert_eq!(e.echeance, ech("2026-08-26 16:00:00"));
    assert!(e.horaire);
    let ids: Vec<i32> = e.contrats.iter().map(|(_, c)| c.con_id).collect();
    assert_eq!(ids, vec![1, 3]);
    let mauvais = vec![detail(1, 29_000.0, Some(Droit::Call), "20260826 15h00 US/Central")];
    assert!(matches!(
        contrats_du_jour(date("2026-08-26"), &mauvais),
        Some(Err(ErreurIb::Echeance(ErreurEcheance::HeureIllisible(_))))
    ));
}

// --- Les barres

#[test]
fn une_barre_intraday_devient_un_instant_utc() {
    // 26 août 2026, 09:15:00 UTC
    assert_eq!(
        en_utc(Horodatage::DateTime(1_787_735_700)),
        Some(instant("2026-08-26 09:15:00"))
    );
}

/// Une barre journalière n'a pas d'heure : la placer à minuit inventerait un instant.
#[test]
fn une_barre_journaliere_n_a_pas_sa_place() {
    assert_eq!(en_utc(Horodatage::Date), None);
}

#[test]
fn les_barres_journalieres_sont_ecartees() {
    let b = |date: Horodatage| BarreIb {
        date,
        open: f(1.0),
        high: f(3.0),
        low: f(0.5),
        close: f(2.0),
        volume: f(10.0),
    };
    let v = barres(&[b(Horodatage::Date), b(Horodatage::DateTime(1_787_735_700))]);
    assert_eq!(v.len(), 1);
    assert_eq!(Some(v[0]), traduire(&b(Horodatage::DateTime(1_787_735_700))));
    assert_eq!(n(v[0].close), 2.0);
    assert_eq!(profondeur(PROFONDEUR_JOURS), 2);
}

// --- L'assemblage

fn releve_du_matin() -> InstantReleve {
    InstantReleve(instant("2026-08-26 05:52:14"))
}

fn contrat(con_id: i32, strike: f64, sens: Sens) -> ContratOption {
    contrat_du(con_id, "2026-08-27 16:00:00", strike, sens)
}

fn valeurs_typiques() -> Valeurs {
    // Un call NQ à 29 410.
    Valeurs {
        iv: Some(f(0.222_065_285_768_969_33)),
        gamma: Some(f(0.000_859_590_806_125_622_3)),
        delta: Some(f(0.344_146_027_037_320_56)),
        vega: Some(f(7.125_241_309_278_863)),
        theta: Some(f(-58.467_787_225_682_514)),
        open_interest: Some(f(56.0)),
        volume: Some(f(31.0)),
        sous_jacent: Some(f(29_233.75)),
    }
}

fn assembler(
    contrats: &[ContratOption],
    v: &HashMap<i32, Valeurs>,
    prix: Option<f64>,
) -> Result<Chaine, ChaineInvalide> {
    build_chain(contrats, v, releve_du_matin(), prix.map(f), &ln, &exp)
}

#[test]
fn les_deux_cotes_se_rejoignent_sur_un_strike() {
    let contrats = vec![
        contrat(1, 29_400.0, Sens::Call),
        contrat(2, 29_400.0, Sens::Put),
    ];
    let mut v = HashMap::new();
    v.insert(1, valeurs_typiques());
    v.insert(
        2,
        Valeurs {
            open_interest: Some(f(721.0)),
            ..valeurs_typiques()
        },
    );
    let c = assembler(&contrats, &v, None).unwrap();
    assert_eq!(c.lignes().len(), 1, "un seul strike, deux côtés");
    assert_eq!(n(c.lignes()[0].call.open_interest), 56.0);
    assert_eq!(n(c.lignes()[0].put.open_interest), 721.0);
}

/// La médiane protège d'un contrat isolé qui servirait une valeur périmée.
#[test]
fn le_prix_du_sous_jacent_vient_des_ticks() {
    let contrats = vec![
        contrat(1, 29_400.0, Sens::Call),
        contrat(2, 29_500.0, Sens::Call),
    ];
    let mut v = HashMap::new();
    v.insert(1, valeurs_typiques());
    v.insert(
        2,
        Valeurs {
            sous_jacent: Some(f(29_235.75)),
            ..valeurs_typiques()
        },
    );
    let c = assembler(&contrats, &v, None).unwrap();
    assert!((n(c.spot) - 29_234.75).abs() < 1e-9, "spot {}", n(c.spot));
}

#[test]
fn un_prix_impose_prime_sur_les_ticks() {
    let contrats = vec![contrat(1, 29_400.0, Sens::Call)];
    let mut v = HashMap::new();
    v.insert(1, valeurs_typiques());
    let c = assembler(&contrats, &v, Some(30_000.0)).unwrap();
    assert_eq!(n(c.spot), 30_000.0);
}

/// Un GEX calculé sur un spot faux reste un nombre plausible.
#[test]
fn sans_prix_du_tout_on_refuse() {
    let contrats = vec![contrat(1, 29_400.0, Sens::Call)];
    let vide = HashMap::new();
    assert_eq!(
        assembler(&contrats, &vide, None).unwrap_err(),
        ChaineInvalide::SpotInvalide
    );
}

/// IB publie l'IV tantôt en décimal, tantôt en pourcentage.
#[test]
fn une_iv_en_pourcentage_est_ramenee_en_decimal() {
    let contrats = vec![contrat(1, 29_400.0, Sens::Call)];
    let mut v = HashMap::new();
    v.insert(
        1,
        Valeurs {
            iv: Some(f(22.2)),
            ..valeurs_typiques()
        },
    );
    let c = assembler(&contrats, &v, None).unwrap();
    assert!((n(c.lignes()[0].call.iv) - 0.222).abs() < 1e-9);
    assert_eq!(n(iv_normalisee(f(0.5))), 0.5);
}

/// Là où IB ne publie pas de gamma, Black-76 le retrouve depuis l'IV.
#[test]
fn un_gamma_absent_est_recalcule_en_black76() {
    let contrats = vec![contrat(1, 29_400.0, Sens::Call)];
    let mut v = HashMap::new();
    v.insert(
        1,
        Valeurs {
            gamma: None,
            ..valeurs_typiques()
        },
    );
    let c = assembler(&contrats, &v, None).unwrap();
    assert!(
        n(c.lignes()[0].call.gamma) > 0.0,
        "le gamma doit être recalculé"
    );
}

#[test]
fn un_contrat_sans_reponse_reste_a_zero() {
    let contrats = vec![
        contrat(1, 29_400.0, Sens::Call),
        contrat(2, 29_500.0, Sens::Call),
    ];
    let mut v = HashMap::new();
    v.insert(1, valeurs_typiques());
    let c = assembler(&contrats, &v, None).unwrap();
    let muet = c
        .lignes()
        .iter()
        .find(|l| n(l.strike) == 29_500.0)
        .unwrap();
    assert_eq!(n(muet.call.open_interest), 0.0);
    assert_eq!(n(muet.call.iv), 0.0);
}

fn chaine_uniforme(oi: f64, iv: f64, gamma: f64, quand: &str) -> Chaine {
    let lignes: Vec<Ligne> = [29_400.0_f64, 29_500.0]
        .iter()
        .map(|k| Ligne {
            echeance: ech("2026-08-27 16:00:00"),
            strike: f(*k),
            call: Cote {
                iv: f(iv),
                gamma: f(gamma),
                open_interest: f(oi),
                ..Default::default()
            },
            put: Cote {
                iv: f(iv),
                gamma: f(gamma),
                open_interest: f(oi * 2.0),
                ..Default::default()
            },
        })
        .collect();
    Chaine::nouvelle(lignes, f(29_233.75), InstantReleve(instant(quand))).unwrap()
}

/// L'open interest ne bouge pas en séance.
#[test]
fn l_open_interest_vient_du_socle_et_de_nulle_part_ailleurs() {
    let socle = chaine_uniforme(500.0, 0.20, 0.0008, "2026-08-26 05:00:00");
    let vif = chaine_uniforme(9_999.0, 0.25, 0.0009, "2026-08-26 05:52:14");
    let c = fusionner(&socle, &vif, f(29_300.0)).unwrap();
    assert_eq!(n(c.lignes()[0].call.open_interest), 500.0);
    assert_eq!(n(c.lignes()[0].put.open_interest), 1_000.0);
    // L'IV et le gamma, eux, viennent du vif
    assert!((n(c.lignes()[0].call.iv) - 0.25).abs() < 1e-12);
    assert!((n(c.lignes()[0].call.gamma) - 0.0009).abs() < 1e-12);
    // Et l'instant est celui du vif : c'est lui qui date le relevé
    assert_eq!(c.releve.0, instant("2026-08-26 05:52:14"));
    assert_eq!(n(c.spot), 29_300.0);
}

/// Zéro veut dire « pas de donnée », pas « volatilité nulle ».
#[test]
fn un_vif_sans_donnee_n_efface_pas_le_socle() {
    let socle = chaine_uniforme(500.0, 0.20, 0.0008, "2026-08-26 05:00:00");
    let vif = chaine_uniforme(500.0, 0.0, 0.0, "2026-08-26 05:52:14");
    let c = fusionner(&socle, &vif, f(29_300.0)).unwrap();
    assert!((n(c.lignes()[0].call.iv) - 0.20).abs() < 1e-12);
    assert!((n(c.lignes()[0].call.gamma) - 0.0008).abs() < 1e-12);
}

/// On n'invente pas un strike que le socle n'avait pas, faute d'open interest.
#[test]
fn un_strike_absent_du_socle_est_ignore() {
    let socle = chaine_uniforme(500.0, 0.20, 0.0008, "2026-08-26 05:00:00");
    let mut lignes = vif_avec_strike_inconnu();
    lignes.sort_by(|a, b| n(a.strike).partial_cmp(&n(b.strike)).unwrap());
    let vif = Chaine::nouvelle(
        lignes,
        f(29_233.75),
        InstantReleve(instant("2026-08-26 05:52:14")),
    )
    .unwrap();
    let c = fusionner(&socle, &vif, f(29_300.0)).unwrap();
    assert_eq!(c.lignes().len(), socle.lignes().len());
    assert!(c.lignes().iter().all(|l| n(l.strike) != 99_999.0));
}

fn chaine_d_une_ligne(volume: f64, oi: f64, quand: &str) -> Chaine {
    let ligne = Ligne {
        echeance: ech("2026-08-27 16:00:00"),
        strike: f(29_300.0),
        call: Cote {
            iv: f(0.2),
            gamma: f(1e-5),
            open_interest: f(oi),
            volume: f(volume),
            ..Default::default()
        },
        put: Cote::default(),
    };
    Chaine::nouvelle(vec![ligne], f(29_300.0), InstantReleve(instant(quand))).unwrap()
}

/// Le volume est cumulatif sur la séance : figé à l'heure du balayage, il serait faux dès
/// midi.
#[test]
fn le_volume_se_rafraichit_mais_pas_l_open_interest() {
    let socle = chaine_d_une_ligne(40.0, 500.0, "2026-08-27 05:00:00");
    let vif = chaine_d_une_ligne(310.0, 0.0, "2026-08-27 12:00:00");
    let c = fusionner(&socle, &vif, f(29_300.0)).unwrap();
    assert_eq!(
        n(c.lignes()[0].call.volume),
        310.0,
        "le volume doit suivre le vif"
    );
    assert_eq!(
        n(c.lignes()[0].call.open_interest),
        500.0,
        "l'open interest reste celui du socle"
    );
}

/// Un tick de volume pas encore arrivé rend zéro : on prend le plus grand.
#[test]
fn un_volume_absent_du_vif_ne_fait_pas_reculer_le_compteur() {
    let socle = chaine_d_une_ligne(310.0, 0.0, "2026-08-27 05:00:00");
    let vif = chaine_d_une_ligne(0.0, 0.0, "2026-08-27 12:00:00");
    let c = fusionner(&socle, &vif, f(29_300.0)).unwrap();
    assert_eq!(n(c.lignes()[0].call.volume), 310.0);
}

fn vif_avec_strike_inconnu() -> Vec<Ligne> {
    vec![
        Ligne {
            echeance: ech("2026-08-27 16:00:00"),
            strike: f(99_999.0),
            call: Cote {
                iv: f(0.9),
                gamma: f(0.9),
                ..Default::default()
            },
            put: Cote::default(),
        },
        Ligne {
            echeance: ech("2026-08-27 16:00:00"),
            strike: f(29_400.0),
            call: Cote {
                iv: f(0.25),
                gamma: f(0.0009),
                ..Default::default()
            },
            put: Cote::default(),
        },
    ]
}
