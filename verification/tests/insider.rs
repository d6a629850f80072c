//! Les déclarations d'initiés.

use chrono::NaiveDate;
use gex::calendrier::Jour;
use gex::flottant::Flottant;
use gex::insider::montant::lire;
use gex::insider::{Detenteur, Montant, Nature, Operation, Sens, Source};

fn f(x: f64) -> Flottant {
    Flottant::depuis_bits(x.to_bits())
}

fn jour(s: &str) -> Jour {
    let d = NaiveDate::parse_from_str(s, "%Y-%m-%d").unwrap();
    let origine = NaiveDate::from_ymd_opt(1970, 1, 1).unwrap();
    Jour {
        numero: d.signed_duration_since(origine).num_days() as i32,
    }
}

fn operation() -> Operation {
    Operation {
        source: Source::Chambre,
        declarant: "Hon. Jane Doe".to_string(),
        role: Some("Member".to_string()),
        date: Some(jour("2026-03-16")),
        date_notification: Some(jour("2026-03-20")),
        symbole: Some("AMZN".to_string()),
        actif: Some("Amazon.com, Inc.".to_string()),
        sens: Sens::Acquisition,
        nature: Nature::Decision,
        detenteur: Detenteur::Declarant,
        montant: Montant::Fourchette {
            bas: f(1_001.0),
            haut: f(15_000.0),
        },
        document: None,
    }
}

#[test]
fn le_delai_se_compte_en_jours() {
    assert_eq!(operation().delai_notification(), Some(4));
}

/// Zéro se lirait comme « notifié immédiatement ».
#[test]
fn sans_date_de_notification_il_n_y_a_pas_de_delai() {
    let mut o = operation();
    o.date_notification = None;
    assert_eq!(o.delai_notification(), None);
}

#[test]
fn sans_date_d_operation_il_n_y_a_pas_de_delai() {
    let mut o = operation();
    o.date = None;
    assert_eq!(o.delai_notification(), None);
}

/// Une notification antérieure à l'opération donne un délai négatif, et non une erreur.
#[test]
fn un_delai_peut_etre_negatif() {
    let mut o = operation();
    o.date_notification = Some(jour("2026-03-01"));
    assert_eq!(o.delai_notification(), Some(-15));
}

#[test]
fn les_delais_reglementaires_different_selon_la_source() {
    assert_eq!(Source::Entreprise.delai_reglementaire(), 2);
    assert_eq!(Source::Chambre.delai_reglementaire(), 45);
    assert_eq!(Source::Senat.delai_reglementaire(), 45);
}

#[test]
fn chaque_source_a_son_nom() {
    assert_eq!(Source::Entreprise.nom(), "entreprise");
    assert_eq!(Source::Chambre.nom(), "chambre");
    assert_eq!(Source::Senat.nom(), "senat");
}

/// Un échange ne fait ni acquérir ni céder.
#[test]
fn un_echange_ne_pese_dans_aucun_total() {
    assert_eq!(Sens::Neutre.signe(), 0);
    assert_eq!(Sens::Acquisition.signe(), 1);
    assert_eq!(Sens::Cession.signe(), -1);
}

/// Une attribution n'est pas un achat, même si les deux augmentent la position.
#[test]
fn seule_une_decision_engage_l_initie() {
    let mut o = operation();
    assert!(o.est_une_decision());
    o.nature = Nature::Remuneration;
    assert!(!o.est_une_decision());
    // Et elle reste une acquisition : les deux axes sont indépendants.
    assert_eq!(o.sens, Sens::Acquisition);
}

#[test]
fn l_intermediaire_d_une_detention_indirecte_est_nomme() {
    assert_eq!(
        Detenteur::Indirect("par un trust familial").nom(),
        "par un trust familial"
    );
    assert_eq!(Detenteur::Declarant.nom(), "le déclarant");
    // « non précisé » n'est pas « le déclarant » : la source n'a rien dit.
    assert_eq!(Detenteur::Inconnu.nom(), "non précisé");
}

#[test]
fn une_fourchette_se_lit_des_deux_cotes() {
    assert_eq!(
        lire("$1,001 - $15,000"),
        Montant::Fourchette {
            bas: f(1_001.0),
            haut: f(15_000.0)
        }
    );
    assert_eq!(
        lire("$15,001 - $50,000"),
        Montant::Fourchette {
            bas: f(15_001.0),
            haut: f(50_000.0)
        }
    );
}

/// « Over $50,000,000 » n'a pas de plafond.
#[test]
fn un_plafond_ouvert_n_est_pas_une_fourchette() {
    let m = lire("Over $50,000,000");
    assert_eq!(m, Montant::AuMoins { bas: f(50_000_000.0) });
    assert_eq!(m.bas(), Some(f(50_000_000.0)));
    assert_eq!(m.haut(), None);
    assert_eq!(m.milieu(), None);
    assert!(!m.est_borne());
}

#[test]
fn le_milieu_n_existe_que_borne_des_deux_cotes() {
    assert_eq!(lire("$1,001 - $15,000").milieu(), Some(f(8_000.5)));
    assert_eq!(lire("").milieu(), None);
}

#[test]
fn un_champ_vide_ou_illisible_est_absent() {
    for brut in ["", "   ", "--", "non communiqué", "$"] {
        assert_eq!(lire(brut), Montant::Absent, "{brut:?}");
    }
}

/// Les deux chambres servent la même syntaxe, aux espaces près.
#[test]
fn les_espaces_ne_changent_rien() {
    let attendu = Montant::Fourchette {
        bas: f(1_001.0),
        haut: f(15_000.0),
    };
    for brut in [
        "$1,001 - $15,000",
        "  $1,001 - $15,000  ",
        "$1,001-$15,000",
        "$1,001 -$15,000",
    ] {
        assert_eq!(lire(brut), attendu, "{brut:?}");
    }
}

#[test]
fn la_casse_de_over_ne_compte_pas() {
    for brut in ["Over $50,000,000", "over $50,000,000", "OVER $50,000,000"] {
        assert_eq!(lire(brut), Montant::AuMoins { bas: f(50_000_000.0) }, "{brut:?}");
    }
}
