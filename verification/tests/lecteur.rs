//! Le lecteur : nombres affichés, rapport, suivi.

use chrono::NaiveDateTime;
use gex::calendrier::Instant;
use gex::coeur::analyse::{analyser, Analyse, Parametres, RegimeVol, SourceGamma};
use gex::coeur::chaine::{Chaine, Cote, Ligne};
use gex::coeur::temps::{Convention, EcheanceNy, InstantReleve};
use gex::flottant::Flottant;
use gex::lecteur::nombres::{a_droite, duree, echelle, groupe, groupe_signe, optionnel, ordre};
use gex::lecteur::rapport::{
    afficher, afficher_a, avertir, compter_echeances, decimales, ecart_depuis, ligne_de,
    ligne_historique,
};
use gex::lecteur::suivi::{
    horizon, options_incompatibles, pause, releve_absent, Suite, Suivi,
};

fn f(x: f64) -> Flottant {
    Flottant::depuis_bits(x.to_bits())
}

fn n(x: Flottant) -> f64 {
    f64::from_bits(x.bits)
}

fn ln(x: Flottant) -> Flottant {
    f(n(x).ln())
}

fn exp(x: Flottant) -> Flottant {
    f(n(x).exp())
}

fn texte(s: Vec<char>) -> String {
    s.into_iter().collect()
}

fn instant(s: &str) -> Instant {
    let d = NaiveDateTime::parse_from_str(s, "%Y-%m-%d %H:%M:%S").unwrap();
    Instant {
        micros: d.and_utc().timestamp_micros(),
    }
}

#[test]
fn les_milliers_sont_groupes() {
    assert_eq!(texte(groupe(f(29_305.75), 2)), "29,305.75");
    assert_eq!(texte(groupe(f(-357.42), 2)), "-357.42");
    assert_eq!(texte(groupe(f(20.0), 0)), "20");
    assert_eq!(texte(groupe(f(1_234_567.0), 0)), "1,234,567");
    assert_eq!(texte(groupe(f(0.5), 4)), "0.5000");
}

/// Retirer les virgules rend l'écriture ordinaire.
#[test]
fn grouper_ne_change_pas_le_nombre() {
    for x in [0.0, 999.995, 1_000.0, -12_345_678.9, 1e18, 0.005] {
        for d in [0usize, 2, 4] {
            let s = texte(groupe(f(x), d)).replace(',', "");
            assert_eq!(s, format!("{x:.d$}"));
        }
    }
}

/// Un zéro n'a pas de signe, même négatif.
#[test]
fn un_zero_negatif_se_groupe_sans_signe() {
    assert_eq!(texte(groupe(f(-0.0), 2)), "0.00");
}

/// Un GEX de plusieurs milliards ne se lit pas en millions.
#[test]
fn l_echelle_suit_l_ordre_de_grandeur() {
    assert_eq!(echelle(&[f(-2.16e9)]).1, "milliards");
    assert_eq!(echelle(&[f(-3.57e8)]).1, "millions");
    assert_eq!(echelle(&[]).1, "millions");
}

#[test]
fn l_ordre_d_une_position_descend_aux_milliers() {
    assert_eq!(ordre(f(2e9)), (f(1e9), "milliards"));
    assert_eq!(ordre(f(-2e6)), (f(1e6), "millions"));
    assert_eq!(ordre(f(2e3)), (f(1e3), "milliers"));
}

/// Un charm positif dit que les dealers doivent vendre, un négatif qu'ils doivent racheter.
#[test]
fn le_signe_est_toujours_ecrit() {
    assert_eq!(texte(groupe_signe(f(3.18), 2)), "+3.18");
    assert_eq!(texte(groupe_signe(f(-15.93), 2)), "-15.93");
    assert_eq!(texte(groupe_signe(f(0.0), 2)), "+0.00");
}

#[test]
fn les_durees_se_lisent_avec_ou_sans_unite() {
    assert_eq!(duree("6h").unwrap(), 21_600);
    assert_eq!(duree("90m").unwrap(), 5_400);
    assert_eq!(duree("30s").unwrap(), 30);
    assert_eq!(duree("300").unwrap(), 300);
    assert_eq!(duree("1.5h").unwrap(), 5_400);
    assert_eq!(duree(" 5M ").unwrap(), 300);
}

/// Un intervalle nul ferait tourner la boucle à plein régime sur le disque.
#[test]
fn une_duree_illisible_est_refusee() {
    assert!(duree("bientot").is_err());
    assert!(duree("").is_err());
    assert!(duree("h").is_err());
    assert_eq!(duree("h").unwrap_err(), "durée invalide : h");
    for illisible in ["nan", "nanh", "-nan", "5x"] {
        assert_eq!(duree(illisible).unwrap_err(), format!("durée invalide : {illisible}"));
    }
    for negative in ["-0", "-5", "-1.5h", "-inf"] {
        assert_eq!(duree(negative).unwrap(), 0, "{negative}");
    }
    assert_eq!(duree("inf").unwrap(), u64::MAX);
}

#[test]
fn un_niveau_absent_s_affiche_en_n_a() {
    assert_eq!(texte(optionnel(None, 2)), "n/a");
    assert_eq!(texte(optionnel(Some(f(29_200.0)), 2)), "29,200.00");
}

#[test]
fn un_texte_s_aligne_a_droite() {
    assert_eq!(texte(a_droite(&['a', 'b'], 4)), "  ab");
    assert_eq!(texte(a_droite(&['a', 'b'], 1)), "ab");
}

fn chaine() -> Chaine {
    let mut lignes = Vec::new();
    for (i, e) in ["2026-08-26 16:00:00", "2026-09-18 09:30:00"].iter().enumerate() {
        for k in 0..9 {
            let strike = 28_900.0 + 100.0 * k as f64;
            let cote = |oi: f64| Cote {
                iv: f(0.2 + 0.01 * i as f64),
                gamma: f(0.0005),
                delta: f(0.5),
                open_interest: f(oi),
                vega: f(12.0),
                ..Default::default()
            };
            lignes.push(Ligne {
                echeance: EcheanceNy(instant(e)),
                strike: f(strike),
                call: cote(100.0 + 10.0 * k as f64),
                put: cote(200.0 - 10.0 * k as f64),
            });
        }
    }
    Chaine::nouvelle(lignes, f(29_300.0), InstantReleve(instant("2026-08-25 20:30:16"))).unwrap()
}

fn params() -> Parametres {
    Parametres {
        taille_contrat: f(20.0),
        ..Default::default()
    }
}

fn analyse() -> Analyse {
    analyser(&chaine(), &params(), &ln, &exp).unwrap()
}

/// Le rapport porte le produit, l'instant, et chacun de ses niveaux.
#[test]
fn le_rapport_porte_ses_niveaux() {
    let a = analyse();
    let r = afficher(&a, "NQ", &params());
    assert_eq!(r, afficher_a(&a, "NQ", &params(), "2026-08-25 20:30"));
    assert!(r.contains("NQ"), "{r}");
    assert!(r.contains("2026-08-25 20:30"), "{r}");
    assert!(r.contains("29,300.00"), "{r}");
    for niveau in [a.murs.call, a.murs.put, a.max_pain] {
        let ecrit = texte(optionnel(niveau, 2));
        assert!(r.contains(&ecrit), "{ecrit} manque dans {r}");
    }
    for mot in ["Max Pain", "Delta", "Vega", "Thêta"] {
        assert!(r.contains(mot), "{mot} manque dans {r}");
    }
    assert!(r.contains(&texte(avertir(&a))));
}

/// Plusieurs croisements sont nommés, et le retenu avec eux.
#[test]
fn les_croisements_sont_nommes() {
    let mut a = analyse();
    a.croisements = vec![f(29_196.62), f(36_508.0)];
    a.zero_gamma = Some(f(29_196.62));
    let r = texte(avertir(&a));
    assert!(
        r.starts_with(
            "\nAttention : le profil croise zéro 2 fois — 29,196.62 / 36,508.00. Le niveau retenu est\nle plus proche du spot (29,196.62) ;\nle régime n'est pas une simple bascule au-dessus / en dessous.\n"
        ),
        "{r}"
    );
}

/// L'écart des deux gammas s'annonce dès qu'il dépasse cinq pour cent, pas à cinq pour cent.
#[test]
fn l_ecart_des_gammas_s_annonce_au_dela_de_cinq_pour_cent() {
    let mut a = analyse();
    let mut e = gex::coeur::analyse::EcartGamma {
        iv: f(105.0),
        publie: f(100.0),
        relatif: f(0.05),
    };
    a.ecart_gamma = Some(e);
    assert!(!texte(avertir(&a)).contains("--gamma-source"));
    e.relatif = f(-0.0501);
    a.ecart_gamma = Some(e);
    assert!(texte(avertir(&a)).contains("soit -5% d'écart"), "{}", texte(avertir(&a)));
}

#[test]
fn le_rapport_compte_les_echeances() {
    assert_eq!(compter_echeances(&analyse().lignes), 2);
    assert_eq!(compter_echeances(&[]), 0);
    assert_eq!(decimales(f(29_300.0)), 2);
    assert_eq!(decimales(f(1.08)), 4);
}

#[test]
fn la_ligne_d_historique_reprend_l_analyse() {
    let a = analyse();
    let l = ligne_historique(&a, "nq", &params());
    assert_eq!(l, ligne_de(&a, "NQ", &params()));
    assert_eq!(l.ticker, "NQ");
    assert_eq!(l.spot, a.spot);
    assert_eq!(l.gex, a.gex);
    assert_eq!(l.strikes, 9);
    assert_eq!(l.echeances, 2);
    assert_eq!(l.source_gamma, "iv");
    assert_eq!(l.convention, "heures");
    assert_eq!(l.call_wall, a.murs.call);
    assert_eq!(l.iv_atm, a.iv_atm);
    assert!(l.iv_atm.is_some());
}

#[test]
fn l_ecart_depuis_le_passage_d_avant_se_dit() {
    let a = analyse();
    let mut b = a.clone();
    b.spot = f(29_310.0);
    let s = ecart_depuis(&a, &b, 2);
    assert!(s.contains("+10.00"), "{s}");
}

#[test]
fn chaque_reglage_a_son_nom() {
    assert_eq!(SourceGamma::Iv.nom(), "iv");
    assert_eq!(Convention::Heures.nom(), "heures");
    assert_eq!(Convention::Bourse.nom(), "bourse");
    assert!(!RegimeVol::StickyStrike.nom().is_empty());
    assert_ne!(RegimeVol::StickyStrike.nom(), RegimeVol::StickyMoneyness.nom());
    assert_ne!(SourceGamma::Iv.nom(), SourceGamma::Publie.nom());
}

/// Un relevé n'entre qu'une fois dans l'historique.
#[test]
fn un_releve_deja_vu_ne_s_enregistre_pas() {
    let un = InstantReleve(instant("2026-08-25 20:30:16"));
    let deux = InstantReleve(instant("2026-08-25 20:31:16"));
    let mut s = Suivi::neuf();
    s.commencer();
    assert_eq!(s.recevoir(un, true), Suite::Enregistrer);
    s.commencer();
    assert_eq!(s.recevoir(un, true), Suite::Inchange);
    s.commencer();
    assert_eq!(s.recevoir(deux, true), Suite::Enregistrer);
    s.commencer();
    assert_eq!(s.recevoir(un, false), Suite::Rien);
    assert_eq!(s.passages, 4);
    assert_eq!(s.enregistres, 2);
}

#[test]
fn la_pause_ne_depasse_pas_ce_qui_reste() {
    assert_eq!(pause(60, 0), None);
    assert_eq!(pause(60, 100), Some(60));
    assert_eq!(pause(60, 10), Some(10));
}

#[test]
fn suivre_une_archive_se_refuse() {
    assert!(options_incompatibles(true, true).unwrap().starts_with("--watch et --replay"));
    assert_eq!(options_incompatibles(true, false), None);
    assert_eq!(options_incompatibles(false, true), None);
}

#[test]
fn un_releve_absent_dit_quoi_lancer() {
    assert_eq!(
        releve_absent("d/NQ/courant.parquet", "NQ"),
        "Aucun relevé à lire en d/NQ/courant.parquet. Lance le collecteur : gex-collector NQ"
    );
    assert_eq!(horizon(true, 30), None);
    assert_eq!(horizon(false, 30), Some(30));
}
