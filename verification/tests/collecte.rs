//! Les alertes, les décisions et la session du collecteur.

use chrono::{NaiveDate, NaiveDateTime};
use gex::calendrier::{Instant, Jour};
use gex::coeur::analyse::{analyser, Parametres};
use gex::coeur::black76::Sens;
use gex::coeur::chaine::{Chaine, Cote, Ligne};
use gex::coeur::temps::{EcheanceNy, InstantReleve};
use gex::collecte::alertes::{
    charge_json, marge_defaut, titre_de_mur, Bascule, Etat, Veilleuse, CONFIRMATIONS_DEFAUT,
};
use gex::collecte::decisions::{
    attente_avant_reprise, bande_couverte, faut_il_rebalayer, faut_il_reselectionner,
    horizons_suivis, journee_compensation, marge_bande, socle_reutilisable,
};
use gex::collecte::session::{
    apres_coupure, cout_des_archives, faire_socle, minutes_de_balayage, multiplicateur_discordant,
    points_de_niveaux, prix_des_barres, quelque_chose_cote, retention_des_archives,
    temps_d_archiver, AnnonceBarres, Etat as EtatSession, Reprise, Suite, SESSION_SAINE,
};
use gex::flottant::Flottant;
use gex::ib::client::Valeurs;
use gex::ib::decisions::{CleContrat, ContratOption};
use gex::store::series::{Barre, PointNiveaux};
use serde_json::Value;
use std::collections::HashMap;

fn f(x: f64) -> Flottant {
    Flottant::depuis_bits(x.to_bits())
}

fn n(x: Flottant) -> f64 {
    f64::from_bits(x.bits)
}

fn ln(x: Flottant) -> Flottant {
    f(n(x).ln())
}

fn exp(x: Flottant) -> Flottant {
    f(n(x).exp())
}

fn instant(s: &str) -> Instant {
    let d = NaiveDateTime::parse_from_str(s, "%Y-%m-%d %H:%M:%S").unwrap();
    Instant {
        micros: d.and_utc().timestamp_micros(),
    }
}

fn jour(s: &str) -> Jour {
    let d = NaiveDate::parse_from_str(s, "%Y-%m-%d").unwrap();
    let origine = NaiveDate::from_ymd_opt(1970, 1, 1).unwrap();
    Jour {
        numero: d.signed_duration_since(origine).num_days() as i32,
    }
}

fn etat(spot: f64, gex: f64) -> Etat {
    Etat {
        spot: f(spot),
        gex: f(gex),
        zero_gamma: Some(f(29_000.0)),
        call_wall: Some(f(29_500.0)),
        put_wall: Some(f(28_500.0)),
    }
}

fn neuve(confirmations: u32, marge: f64) -> Veilleuse {
    Veilleuse::neuve(confirmations, f(marge))
}

/// Sans cela, un collecteur qui démarre en gamma négatif annoncerait un basculement qui
/// n'a pas eu lieu, tous les matins.
#[test]
fn le_premier_passage_n_annonce_rien() {
    let mut v = Veilleuse::default();
    assert!(v.observer(&etat(29_100.0, -1e8)).is_empty());
}

/// Un aller-retour du signe est du bruit.
#[test]
fn un_signe_qui_ne_tient_pas_ne_declenche_rien() {
    let mut v = Veilleuse::neuve(3, marge_defaut());
    v.observer(&etat(29_100.0, -1e8));
    assert!(v.observer(&etat(29_100.0, 1e8)).is_empty(), "1er passage");
    assert!(v.observer(&etat(29_100.0, 1e8)).is_empty(), "2e passage");
    // Il repasse négatif avant d'avoir tenu : rien n'a jamais été annoncé.
    assert!(v.observer(&etat(29_100.0, -1e8)).is_empty());
    assert!(v.observer(&etat(29_100.0, -1e8)).is_empty());
}

#[test]
fn un_signe_qui_tient_est_annonce_une_fois() {
    let mut v = Veilleuse::neuve(3, marge_defaut());
    v.observer(&etat(29_100.0, -1e8));
    v.observer(&etat(29_100.0, 1e8));
    v.observer(&etat(29_100.0, 1e8));
    let sorties = v.observer(&etat(29_100.0, 1e8));
    assert_eq!(
        sorties,
        vec![Bascule::RegimeGamma {
            gex: f(1e8),
            negatif: false
        }]
    );
    // Et il ne se répète pas au passage suivant.
    assert!(v.observer(&etat(29_100.0, 1e8)).is_empty());
}

/// Un GEX exactement nul n'est pas un régime.
#[test]
fn un_gex_nul_n_annonce_aucun_regime() {
    let mut v = Veilleuse::neuve(1, marge_defaut());
    v.observer(&etat(29_100.0, -1e8));
    assert!(v.observer(&etat(29_100.0, 0.0)).is_empty());
}

/// Un prix qui longe un niveau le franchirait à chaque cotation.
#[test]
fn un_prix_qui_longe_un_niveau_ne_le_franchit_pas() {
    let mut v = neuve(3, 0.001); // 29 points sur 29 000
    v.observer(&etat(29_100.0, -1e8));
    // Il descend dans la bande morte, puis en ressort du même côté.
    for spot in [29_020.0, 28_990.0, 29_010.0, 29_100.0] {
        assert!(
            v.observer(&etat(spot, -1e8)).is_empty(),
            "spot {spot} n'aurait pas dû déclencher"
        );
    }
}

#[test]
fn un_franchissement_franc_est_annonce() {
    let mut v = neuve(3, 0.001);
    v.observer(&etat(29_100.0, -1e8)); // au-dessus du zero gamma
    let sorties = v.observer(&etat(28_800.0, -1e8)); // franchement en dessous
    assert!(sorties.contains(&Bascule::ZeroGamma {
        niveau: f(29_000.0),
        vers_le_haut: false
    }));
}

#[test]
fn les_deux_murs_se_franchissent_dans_les_deux_sens() {
    let mut v = neuve(3, 0.001);
    v.observer(&etat(29_000.0, -1e8));
    let haut = v.observer(&etat(29_800.0, -1e8));
    assert!(haut.contains(&Bascule::Mur {
        nom: "call wall",
        niveau: f(29_500.0),
        vers_le_haut: true
    }));
    let bas = v.observer(&etat(28_200.0, -1e8));
    assert!(bas.contains(&Bascule::Mur {
        nom: "put wall",
        niveau: f(28_500.0),
        vers_le_haut: false
    }));
}

/// Un niveau absent ne bascule rien, et ne fait pas oublier les autres.
#[test]
fn un_niveau_absent_ne_declenche_ni_n_efface() {
    let mut v = neuve(3, 0.001);
    v.observer(&etat(29_100.0, -1e8));
    let mut sans = etat(29_100.0, -1e8);
    sans.zero_gamma = None;
    assert!(v.observer(&sans).is_empty());
    // Le zero gamma revient, et le prix est passé dessous : le côté d'avant n'a pas été
    // perdu, donc le franchissement se voit.
    let sorties = v.observer(&etat(28_800.0, -1e8));
    assert!(sorties.iter().any(|b| matches!(b, Bascule::ZeroGamma { .. })));
}

#[test]
fn le_titre_dit_le_sens() {
    assert!(Bascule::RegimeGamma {
        gex: f(-1e8),
        negatif: true
    }
    .titre()
    .contains("amplifient"));
    assert!(Bascule::Mur {
        nom: "put wall",
        niveau: f(1.0),
        vers_le_haut: false
    }
    .titre()
    .contains("PAR LE BAS"));
}

/// Le nom d'un mur passe en capitales.
#[test]
fn le_titre_d_un_mur_le_nomme_en_capitales() {
    let b = Bascule::Mur {
        nom: "call wall",
        niveau: f(1.0),
        vers_le_haut: true,
    };
    assert_eq!(b.titre(), titre_de_mur("CALL WALL", true));
    assert!(b.titre().contains("CALL WALL"));
    assert!(b.titre().contains("PAR LE HAUT"));
}

#[test]
fn la_charge_porte_le_niveau_qui_a_bascule() {
    let e = etat(28_800.0, -1e8);
    let b = Bascule::ZeroGamma {
        niveau: f(29_000.0),
        vers_le_haut: false,
    };
    let charge = charge_json(&b, &e, "NQ", 30, "2026-09-02 14:05");
    let v: Value = serde_json::from_str(&charge).expect("JSON valide");
    let titre = v["embeds"][0]["title"].as_str().unwrap();
    assert!(
        titre.starts_with("NQ — ZERO GAMMA FRANCHI PAR LE BAS"),
        "{titre}"
    );
    let corps = v["embeds"][0]["description"].as_str().unwrap();
    assert!(corps.contains("zero gamma 29000.00"), "{corps}");
    assert!(corps.contains("horizon <= 30 j"), "{corps}");
}

/// La charge est celle que l'objet donne, écrit d'un bloc.
#[test]
fn la_charge_est_celle_de_l_objet() {
    let charge = charge_json(
        &Bascule::Mur {
            nom: "put wall",
            niveau: f(28_500.0),
            vers_le_haut: false,
        },
        &etat(28_200.0, -123_456_789.4),
        "NQ \"mini\"",
        7,
        "2026-09-02 14:05",
    );
    let lu: Value = serde_json::from_str(&charge).unwrap();
    assert_eq!(serde_json::to_string(&lu).unwrap(), charge);
    let mut embed = serde_json::Map::new();
    embed.insert(
        "title".to_string(),
        Value::from(lu["embeds"][0]["title"].as_str().unwrap()),
    );
    embed.insert(
        "description".to_string(),
        Value::from(lu["embeds"][0]["description"].as_str().unwrap()),
    );
    embed.insert("color".to_string(), Value::from(0x2b_7b_e0));
    let mut mentions = serde_json::Map::new();
    mentions.insert("parse".to_string(), Value::Array(vec![]));
    let mut tout = serde_json::Map::new();
    tout.insert("embeds".to_string(), Value::Array(vec![Value::Object(embed)]));
    tout.insert("allowed_mentions".to_string(), Value::Object(mentions));
    tout.insert("username".to_string(), Value::from("GEX"));
    assert_eq!(serde_json::to_string(&Value::Object(tout)).unwrap(), charge);
    assert!(lu["embeds"][0]["title"].as_str().unwrap().starts_with("NQ \"mini\""));
}

/// Chaque caractère qui en a besoin s'échappe, et la charge se relit telle quelle.
#[test]
fn la_charge_echappe_ce_qu_il_faut() {
    let controles: String = (0u8..32).map(char::from).collect();
    let produit = format!("{controles}\"\\/é\u{7f}");
    let b = Bascule::ZeroGamma {
        niveau: f(29_300.0),
        vers_le_haut: true,
    };
    let charge = charge_json(&b, &etat(29_310.0, 1.0), &produit, 30, "t");
    let cite = "\\u0000\\u0001\\u0002\\u0003\\u0004\\u0005\\u0006\\u0007\\b\\t\\n\\u000b\\f\\r\\u000e\\u000f\\u0010\\u0011\\u0012\\u0013\\u0014\\u0015\\u0016\\u0017\\u0018\\u0019\\u001a\\u001b\\u001c\\u001d\\u001e\\u001f\\\"\\\\/é\u{7f}";
    assert!(charge.contains(&format!("\"title\":\"{cite} — ")), "{charge}");
    let lu: Value = serde_json::from_str(&charge).unwrap();
    assert!(lu["embeds"][0]["title"].as_str().unwrap().starts_with(&produit));
    assert_eq!(lu["allowed_mentions"]["parse"], Value::Array(vec![]));
}

/// La zone annoncée suit le GEX, pas le sens du franchissement.
#[test]
fn la_zone_suit_le_gex_et_non_le_sens_du_franchissement() {
    let monte_mais_negatif = charge_json(
        &Bascule::ZeroGamma {
            niveau: f(29_000.0),
            vers_le_haut: true,
        },
        &etat(29_200.0, -1e8),
        "NQ",
        30,
        "2026-09-02 14:05",
    );
    let v: Value = serde_json::from_str(&monte_mais_negatif).unwrap();
    let corps = v["embeds"][0]["description"].as_str().unwrap();
    assert!(corps.contains("zone NÉGATIVE"), "{corps}");
    assert!(corps.contains("amplifient"), "{corps}");

    let descend_mais_positif = charge_json(
        &Bascule::ZeroGamma {
            niveau: f(29_000.0),
            vers_le_haut: false,
        },
        &etat(28_800.0, 1e8),
        "NQ",
        30,
        "2026-09-02 14:05",
    );
    let v: Value = serde_json::from_str(&descend_mais_positif).unwrap();
    let corps = v["embeds"][0]["description"].as_str().unwrap();
    assert!(corps.contains("zone POSITIVE"), "{corps}");
    assert!(corps.contains("amortissent"), "{corps}");
}

/// Une donnée recopiée ne doit jamais devenir une commande sur le salon qui la reçoit.
#[test]
fn aucune_mention_n_est_interpretee() {
    let charge = charge_json(
        &Bascule::RegimeGamma {
            gex: f(-1e8),
            negatif: true,
        },
        &etat(29_000.0, -1e8),
        "@everyone",
        30,
        "2026-09-02 14:05",
    );
    let v: Value = serde_json::from_str(&charge).unwrap();
    assert_eq!(v["allowed_mentions"]["parse"].as_array().unwrap().len(), 0);
}

/// Zéro confirmation ferait du premier passage sa propre confirmation.
#[test]
fn le_seuil_de_confirmation_ne_descend_pas_sous_un() {
    let mut v = Veilleuse::neuve(0, marge_defaut());
    v.observer(&etat(29_100.0, -1e8));
    assert_eq!(v.observer(&etat(29_100.0, 1e8)).len(), 1);
}

#[test]
fn la_veilleuse_par_defaut_confirme_trois_fois() {
    assert_eq!(Veilleuse::default().confirmations, CONFIRMATIONS_DEFAUT);
    assert_eq!(Veilleuse::default().marge, marge_defaut());
}

/// 23 h UTC est la bascule : le CME publie l'open interest préliminaire à 18 h Chicago.
#[test]
fn la_journee_de_compensation_bascule_a_l_heure_du_cme() {
    assert_eq!(
        journee_compensation(instant("2026-08-26 22:59:00")),
        jour("2026-08-26")
    );
    assert_eq!(
        journee_compensation(instant("2026-08-26 23:00:00")),
        jour("2026-08-27")
    );
}

#[test]
fn sans_socle_il_faut_balayer() {
    assert!(faut_il_rebalayer(None, instant("2026-08-26 05:00:00")));
}

/// Ne pas payer treize minutes de souscriptions pour relire le même chiffre.
#[test]
fn un_socle_de_la_meme_journee_ne_se_rebalaie_pas() {
    let socle = instant("2026-08-26 05:00:00");
    assert!(!faut_il_rebalayer(Some(socle), instant("2026-08-26 12:00:00")));
    assert!(!faut_il_rebalayer(Some(socle), instant("2026-08-26 22:59:00")));
}

#[test]
fn le_socle_se_rebalaie_apres_la_publication() {
    let socle = instant("2026-08-26 05:00:00");
    assert!(faut_il_rebalayer(Some(socle), instant("2026-08-26 23:00:00")));
    assert!(faut_il_rebalayer(Some(socle), instant("2026-08-27 06:00:00")));
}

#[test]
fn la_bande_encadre_le_vif() {
    assert_eq!(
        bande_couverte(&[f(29_100.0), f(29_500.0), f(29_300.0)]),
        Some((f(29_100.0), f(29_500.0)))
    );
    assert_eq!(bande_couverte(&[]), None);
    assert_eq!(bande_couverte(&[f(f64::NAN)]), None);
}

/// On recycle avant la sortie franche.
#[test]
fn on_recycle_quand_le_spot_approche_du_bord() {
    let bande = Some((f(29_000.0), f(30_000.0))); // largeur 1 000, garde 150
    assert!(!faut_il_reselectionner(f(29_500.0), bande, marge_bande()));
    assert!(!faut_il_reselectionner(f(29_150.0), bande, marge_bande()));
    // 29 100 est dans la bande, mais à moins de 150 du bord
    assert!(faut_il_reselectionner(f(29_100.0), bande, marge_bande()));
    assert!(faut_il_reselectionner(f(30_500.0), bande, marge_bande()));
}

/// Le redémarrage quotidien dure quelques secondes ; la coupure du dimanche attend un
/// humain.
#[test]
fn l_attente_double_puis_plafonne() {
    assert_eq!(attente_avant_reprise(0), 5);
    assert_eq!(attente_avant_reprise(1), 10);
    assert_eq!(attente_avant_reprise(3), 40);
    // Plafonnée : sinon l'attente du dimanche deviendrait des heures.
    assert_eq!(attente_avant_reprise(6), 300);
    assert_eq!(attente_avant_reprise(50), 300);
}

/// Le socle est déjà là, et l'open interest qu'il porte ne bougera pas avant le soir.
#[test]
fn le_socle_du_jour_survit_a_une_reconnexion() {
    let socle = instant("2026-08-26 05:00:00");
    assert!(socle_reutilisable(Some(socle), instant("2026-08-26 14:00:00")));
    // Passé la publication du CME, il est périmé et doit être rebalayé.
    assert!(!socle_reutilisable(Some(socle), instant("2026-08-27 06:00:00")));
    assert!(!socle_reutilisable(None, instant("2026-08-26 14:00:00")));
}

#[test]
fn sans_bande_il_faut_selectionner() {
    assert!(faut_il_reselectionner(f(29_500.0), None, marge_bande()));
    // Une bande dégénérée, d'un seul strike, n'encadre rien
    assert!(faut_il_reselectionner(
        f(29_500.0),
        Some((f(29_500.0), f(29_500.0))),
        marge_bande()
    ));
}

// --- La session

const ECHEANCE: &str = "2026-08-28 16:00:00";
const MATIN: &str = "2026-08-26 05:00:00";

fn contrat(con_id: i32, strike: f64, sens: Sens) -> ContratOption {
    ContratOption {
        con_id,
        cle: CleContrat {
            echeance: EcheanceNy(instant(ECHEANCE)),
            strike: f(strike),
            sens,
        },
    }
}

fn valeurs(iv: f64, oi: f64) -> Valeurs {
    Valeurs {
        iv: Some(f(iv)),
        gamma: Some(f(0.0005)),
        delta: Some(f(0.5)),
        vega: Some(f(12.0)),
        open_interest: Some(f(oi)),
        sous_jacent: Some(f(29_300.0)),
        ..Default::default()
    }
}

fn catalogue() -> (Vec<ContratOption>, HashMap<i32, Valeurs>) {
    let mut contrats = Vec::new();
    let mut recu = HashMap::new();
    for i in 0..7 {
        let strike = 29_000.0 + 100.0 * i as f64;
        contrats.push(contrat(2 * i, strike, Sens::Call));
        contrats.push(contrat(2 * i + 1, strike, Sens::Put));
        recu.insert(2 * i, valeurs(0.2, 100.0 + i as f64));
        recu.insert(2 * i + 1, valeurs(0.21, 200.0 - i as f64));
    }
    (contrats, recu)
}

fn session_avec_socle() -> EtatSession {
    let (contrats, recu) = catalogue();
    let socle = faire_socle(
        &contrats,
        &recu,
        &[],
        InstantReleve(instant(MATIN)),
        &ln,
        &exp,
    )
    .unwrap();
    assert_eq!(socle.secours, None);
    let mut e = EtatSession::vierge();
    e.poser_socle(socle.chaine, contrats, instant(MATIN));
    e
}

fn barre(quand: &str, close: f64) -> Barre {
    Barre {
        instant: instant(quand),
        open: f(close),
        high: f(close + 1.0),
        low: f(close - 1.0),
        close: f(close),
        volume: f(10.0),
    }
}

#[test]
fn une_session_vierge_balaie_d_abord() {
    let e = EtatSession::vierge();
    assert_eq!(e.tour(false, true, instant(MATIN)), Suite::Balayer);
    assert_eq!(e.tour(true, true, instant(MATIN)), Suite::Arreter);
    assert_eq!(e.tour(false, false, instant(MATIN)), Suite::Rompre);
}

#[test]
fn une_session_qui_a_son_socle_s_entretient() {
    let e = session_avec_socle();
    assert_eq!(e.tour(false, true, instant("2026-08-26 12:00:00")), Suite::Entretenir);
    // Passé la publication, l'open interest du socle n'est plus le bon.
    assert_eq!(e.tour(false, true, instant("2026-08-26 23:00:00")), Suite::Balayer);
}

#[test]
fn le_vif_se_choisit_une_fois() {
    let mut e = session_avec_socle();
    assert!(e.choisir_vif(6));
    assert_eq!(e.vif.len(), 6);
    let bande = e.bande().unwrap();
    assert!(n(bande.0) <= 29_300.0 && 29_300.0 <= n(bande.1));
}

#[test]
fn le_vif_se_fond_dans_le_socle() {
    let mut e = session_avec_socle();
    e.choisir_vif(6);
    let mut recu = HashMap::new();
    for c in &e.vif {
        let mut v = valeurs(0.3, 0.0);
        v.open_interest = None;
        v.sous_jacent = Some(f(29_310.0));
        recu.insert(c.con_id, v);
    }
    let fonte = e
        .fondre(&recu, InstantReleve(instant("2026-08-26 12:00:00")), &ln, &exp)
        .unwrap();
    assert!(!fonte.vif_absent);
    assert_eq!(n(e.spot), 29_310.0);
    assert_eq!(fonte.chaine.lignes().len(), 7);
    assert!(fonte.chaine.lignes().iter().any(|l| n(l.call.iv) == 0.3 || n(l.put.iv) == 0.3));
    assert!(fonte.chaine.lignes().iter().all(|l| n(l.put.open_interest) > 0.0));
}

/// Un vif qui ne rend rien laisse le socle ; un prix nul refuse tout.
#[test]
fn un_vif_muet_laisse_le_socle() {
    let mut e = session_avec_socle();
    e.choisir_vif(6);
    let quand = InstantReleve(instant("2026-08-26 12:00:00"));
    let spot = e.spot;
    e.spot = f(0.0);
    let vide: HashMap<i32, Valeurs> = HashMap::new();
    assert!(e.fondre(&vide, quand, &ln, &exp).is_err());
    e.spot = spot;
    let fonte = e.fondre(&vide, quand, &ln, &exp).unwrap();
    assert_eq!(fonte.chaine.lignes().len(), 7);
}

#[test]
fn un_refus_se_dit_une_fois() {
    let mut e = EtatSession::vierge();
    assert!(!e.signaler_refus(false));
    assert!(e.signaler_refus(true));
    assert!(!e.signaler_refus(true));
    // Rouvrir une session ne fait pas oublier ce qui a été dit.
    e.ouvrir();
    assert!(!e.signaler_refus(true));
}

#[test]
fn le_silence_du_marche_se_dit_une_fois_par_silence() {
    let mut e = EtatSession::vierge();
    assert!(e.signaler_cotation(false));
    assert!(!e.signaler_cotation(false));
    assert!(!e.signaler_cotation(true));
    assert!(e.signaler_cotation(false));
}

#[test]
fn une_chaine_sans_cotation_ne_cote_pas() {
    let ligne = Ligne {
        echeance: EcheanceNy(instant(ECHEANCE)),
        strike: f(29_000.0),
        call: Cote::default(),
        put: Cote::default(),
    };
    assert!(!quelque_chose_cote(&[ligne]));
    assert!(!quelque_chose_cote(&[]));
    let mut vive = ligne;
    vive.put.open_interest = f(3.0);
    assert!(quelque_chose_cote(&[ligne, vive]));
}

#[test]
fn les_barres_recollent_et_leur_silence_se_dit_une_fois() {
    let mut e = EtatSession::vierge();
    assert_eq!(e.accueillir_barres(None), AnnonceBarres::Bloquees);
    assert_eq!(e.accueillir_barres(None), AnnonceBarres::Rien);
    let b = [barre("2026-08-26 12:00:00", 29_300.0)];
    assert_eq!(e.accueillir_barres(Some(&b)), AnnonceBarres::Repartent);
    let suite = [
        barre("2026-08-26 12:01:00", 29_310.0),
        barre("2026-08-26 12:00:00", 29_305.0),
    ];
    assert_eq!(e.accueillir_barres(Some(&suite)), AnnonceBarres::Rien);
    assert_eq!(e.barres.len(), 2);
    assert_eq!(n(e.barres[0].close), 29_305.0);
    assert_eq!(n(prix_des_barres(&e.barres).unwrap()), 29_310.0);
    assert_eq!(prix_des_barres(&[]), None);
}

#[test]
fn un_point_par_minute_et_rien_sans_retention() {
    let mut e = EtatSession::vierge();
    let quand = instant("2026-08-26 12:00:10");
    assert!(e.point_a_ecrire(30, quand));
    assert!(!e.point_a_ecrire(0, quand));
    e.noter(&vec![], quand, 30);
    assert!(!e.point_a_ecrire(30, instant("2026-08-26 12:00:59")));
    assert!(e.point_a_ecrire(30, instant("2026-08-26 12:01:00")));
}

#[test]
fn noter_oublie_ce_qui_depasse_la_retention() {
    let mut e = EtatSession::vierge();
    e.reprendre(
        vec![
            barre("2026-08-01 12:00:00", 29_000.0),
            barre("2026-08-26 11:00:00", 29_300.0),
        ],
        vec![],
    );
    e.noter(&vec![], instant("2026-08-26 12:00:00"), 2);
    assert_eq!(e.barres.len(), 1);
    assert_eq!(n(e.barres[0].close), 29_300.0);
}

fn chaine_du_matin() -> Chaine {
    let (contrats, recu) = catalogue();
    faire_socle(&contrats, &recu, &[], InstantReleve(instant(MATIN)), &ln, &exp)
        .unwrap()
        .chaine
}

#[test]
fn un_point_par_horizon_tenu() {
    let c = chaine_du_matin();
    let points: Vec<PointNiveaux> =
        points_de_niveaux(&c, f(20.0), 0, &[1, 30], instant(MATIN), &ln, &exp).unwrap();
    // L'échéance est à deux jours : l'horizon d'un jour ne garde rien.
    assert_eq!(points.len(), 1);
    assert_eq!(points[0].dte_max, Some(f(30.0)));
    assert_eq!(n(points[0].spot), 29_300.0);
    let p = Parametres {
        taille_contrat: f(20.0),
        ..Default::default()
    };
    let a = analyser(&c, &p, &ln, &exp).unwrap();
    assert_eq!(points[0].iv_atm, a.iv_atm);
    assert_eq!(points[0].skew, a.skew);
    assert!(a.iv_atm.is_some() && a.skew.is_some());
    assert_eq!(points[0].long_gamma, a.gamma_majeur.long);
    assert_eq!(points[0].short_gamma, a.gamma_majeur.court);
    assert_eq!(points[0].call_wall_vol, a.murs.call_vol);
    assert_eq!(points[0].put_wall_vol, a.murs.put_vol);
}

/// La même chaîne, sans le moindre open interest.
fn chaine_muette() -> Chaine {
    let c = chaine_du_matin();
    let lignes: Vec<Ligne> = c
        .lignes()
        .iter()
        .map(|l| {
            let mut l = *l;
            l.call.open_interest = f(0.0);
            l.put.open_interest = f(0.0);
            l
        })
        .collect();
    Chaine::nouvelle(lignes, c.spot, c.releve).unwrap()
}

/// Quand rien ne cote, la série des niveaux n'écrit rien ; les barres continuent.
#[test]
fn rien_ne_cote_la_serie_des_niveaux_attend() {
    let muette = chaine_muette();
    assert!(points_de_niveaux(&muette, f(20.0), 0, &[30], instant(MATIN), &ln, &exp)
        .unwrap()
        .is_empty());
    let mut e = EtatSession::vierge();
    let fraiches = [barre("2026-08-26 04:59:00", 29_280.0)];
    let dit = e.ecrire_la_minute(
        Some(&fraiches),
        &muette,
        f(20.0),
        0,
        &[30],
        instant(MATIN),
        30,
        &ln,
        &exp,
    );
    assert_eq!(dit, Some(AnnonceBarres::Rien));
    assert!(e.niveaux.is_empty());
    assert_eq!(e.barres.len(), 1);
    assert!(e.derniere_minute.is_some());
    let dit = e.ecrire_la_minute(
        None,
        &chaine_du_matin(),
        f(20.0),
        0,
        &[30],
        instant(MATIN),
        30,
        &ln,
        &exp,
    );
    assert_eq!(dit, Some(AnnonceBarres::Bloquees));
    assert_eq!(e.niveaux.len(), 1);
    assert_eq!(e.barres.len(), 1);
}

#[test]
fn les_horizons_courts_precedent_celui_de_la_collecte() {
    assert_eq!(horizons_suivis(30), vec![0, 1, 7, 30]);
    assert_eq!(horizons_suivis(7), vec![0, 1, 7]);
    assert_eq!(horizons_suivis(3), vec![0, 1, 3]);
    assert_eq!(horizons_suivis(0), vec![0]);
}

#[test]
fn sans_contrat_le_socle_ne_se_fait_pas() {
    let vide: HashMap<i32, Valeurs> = HashMap::new();
    assert!(faire_socle(&[], &vide, &[], InstantReleve(instant(MATIN)), &ln, &exp).is_err());
}

/// Sans prix du sous-jacent, la dernière barre sert de secours.
#[test]
fn la_derniere_barre_secourt_le_socle() {
    let (contrats, mut recu) = catalogue();
    for v in recu.values_mut() {
        v.sous_jacent = None;
    }
    let b = [barre("2026-08-26 04:59:00", 29_280.0)];
    let s = faire_socle(&contrats, &recu, &b, InstantReleve(instant(MATIN)), &ln, &exp).unwrap();
    assert_eq!(s.secours, Some(f(29_280.0)));
    assert_eq!(n(s.chaine.spot), 29_280.0);
}

#[test]
fn le_balayage_se_restreint_autour_du_prix() {
    let (contrats, _) = catalogue();
    let mut e = EtatSession::vierge();
    assert_eq!(e.restreindre(&contrats, None).len(), contrats.len());
    e.spot = f(29_300.0);
    let gardes = e.restreindre(&contrats, Some(f(0.005)));
    assert!(gardes.len() < contrats.len());
    for i in gardes {
        let k = n(contrats[i].cle.strike);
        assert!((k - 29_300.0).abs() <= 0.005 * 29_300.0);
    }
}

#[test]
fn un_multiplicateur_discordant_se_voit() {
    assert_eq!(multiplicateur_discordant("20", f(20.0)), None);
    assert_eq!(multiplicateur_discordant(" 50 ", f(20.0)), Some(f(50.0)));
    assert_eq!(multiplicateur_discordant("", f(20.0)), None);
}

#[test]
fn le_cout_d_un_balayage_s_annonce_en_minutes() {
    assert_eq!(n(minutes_de_balayage(60, 10)), 60.0 * (10.0 + 2.6) / 60.0);
}

#[test]
fn les_archives_suivent_leur_pas() {
    assert!(!temps_d_archiver(0, None));
    assert!(temps_d_archiver(60, None));
    assert!(!temps_d_archiver(60, Some(59_999)));
    assert!(temps_d_archiver(60, Some(60_000)));
    assert_eq!(retention_des_archives(30, None), 30);
    assert_eq!(retention_des_archives(30, Some(0)), 0);
    assert_eq!(
        n(cout_des_archives(1_000_000, 60, 30)),
        1_000_000.0 * 86_400.0 / 60.0 * 30.0 / 1e9
    );
}

/// Une session qui a tenu repart de zéro ; une session brève allonge l'attente.
#[test]
fn apres_une_coupure_on_attend_selon_la_tenue() {
    assert_eq!(apres_coupure(true, 0, 3), None);
    assert_eq!(
        apres_coupure(false, SESSION_SAINE, 3),
        Some(Reprise { pause: 5, tentative: 1 })
    );
    assert_eq!(
        apres_coupure(false, 1_000, 3),
        Some(Reprise { pause: 40, tentative: 4 })
    );
}
