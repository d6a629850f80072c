//! L'analyse d'une chaîne.

use chrono::NaiveDateTime;
use gex::calendrier::Instant;
use gex::coeur::analyse::{
    analyser, analyser_si_defini, carburant, croisements_zero, dte_calendaire, ecart_gamma,
    est_troisieme_vendredi, est_vendredi_mensuel, expositions, filtre_echeances, gamma_majeur,
    grille, iv_atm, max_pain, mouvement_attendu, murs, par_strike, part_courtes, pente_skew,
    profil_gamma, profil_hors_prochaine, skew, totaliser, zero_gamma, AgregatStrike, Analyse, LigneExposee, Parametres, RegimeVol, SourceGamma,
};
use gex::coeur::black76::gamma;
use gex::coeur::chaine::{Chaine, ChaineInvalide, Cote, Ligne};
use gex::coeur::temps::{EcheanceNy, InstantReleve};
use gex::flottant::Flottant;

const SPOT: f64 = 29_300.0;
const TAILLE: f64 = 20.0;
const ECHEANCES: [&str; 3] = [
    "2026-08-26 16:00:00",
    "2026-08-28 16:00:00",
    "2026-09-18 09:30:00",
];

fn f(x: f64) -> Flottant {
    Flottant::depuis_bits(x.to_bits())
}

fn n(x: Flottant) -> f64 {
    f64::from_bits(x.bits)
}

fn ln(x: Flottant) -> Flottant {
    f(n(x).ln())
}

fn exp(x: Flottant) -> Flottant {
    f(n(x).exp())
}

fn instant(s: &str) -> Instant {
    let d = NaiveDateTime::parse_from_str(s, "%Y-%m-%d %H:%M:%S").unwrap();
    Instant {
        micros: d.and_utc().timestamp_micros(),
    }
}

/// Une chaîne construite depuis des paramètres connus : skew négatif, open interest
/// asymétrique, trois échéances dont une mensuelle réglée le matin.
fn chaine_essai() -> Chaine {
    let releve = InstantReleve(instant("2026-08-25 20:30:00"));
    let mut lignes = Vec::new();
    for (i, ech) in ECHEANCES.iter().enumerate() {
        let echeance = EcheanceNy(instant(ech));
        let t = ((echeance.0.micros - releve.0.micros) / 1_000_000) as f64
            / (365.25 * 24.0 * 3600.0);
        let mut k = 28_500.0_f64;
        while k <= 30_100.0 {
            let m = (k / SPOT).ln();
            let iv = 0.20 - 0.15 * m + 0.02 * i as f64;
            let oi_c = 200.0 + 600.0 * ((k - SPOT) / 500.0).max(0.0);
            let oi_p = 200.0 + 900.0 * ((SPOT - k) / 500.0).max(0.0);
            let g = n(gamma(f(SPOT), f(k), f(iv), f(t.max(1e-6)), f(0.0), &ln, &exp)) * 1.03;
            lignes.push(Ligne {
                echeance,
                strike: f(k),
                call: Cote {
                    iv: f(iv),
                    gamma: f(g),
                    delta: f(0.5),
                    open_interest: f(oi_c),
                    vega: f(12.0),
                    theta: f(0.0),
                    ..Default::default()
                },
                put: Cote {
                    iv: f(iv + 0.005),
                    gamma: f(g),
                    delta: f(-0.5),
                    open_interest: f(oi_p),
                    vega: f(11.0),
                    theta: f(0.0),
                    ..Default::default()
                },
            });
            k += 100.0;
        }
    }
    Chaine::nouvelle(lignes, f(SPOT), releve).unwrap()
}

fn params() -> Parametres {
    Parametres {
        taille_contrat: f(TAILLE),
        ..Default::default()
    }
}

fn analyse_essai() -> Analyse {
    analyser(&chaine_essai(), &params(), &ln, &exp).unwrap()
}

fn proche(obtenu: Flottant, attendu: f64, tolerance: f64, quoi: &str) {
    let obtenu = n(obtenu);
    let ecart = ((obtenu - attendu) / attendu).abs();
    assert!(
        ecart <= tolerance,
        "{quoi} : {obtenu:e}, attendu {attendu:e} (écart relatif {ecart:e})"
    );
}

#[test]
fn les_totaux_egalent_le_moteur_python() {
    let a = analyse_essai();
    assert_eq!(a.lignes.len(), 51);
    proche(a.gex, -325_357_778.743_652, 1e-9, "GEX total");
    proche(a.charm, -644_024_957.130_919_8, 1e-9, "charm total");
    proche(a.vanna, 128_832_672.343_955_31, 1e-9, "vanna totale");
    proche(a.delta, 15_470_400_000.0, 1e-12, "delta total");
    proche(a.vega, -962_400.0, 1e-12, "vega total");
}

/// Le thêta se compte comme le vega : long les calls, court les puts.
#[test]
fn le_theta_se_compte_comme_le_vega() {
    let c = chaine_essai();
    let lignes: Vec<Ligne> = c
        .lignes()
        .iter()
        .map(|l| Ligne {
            call: Cote { theta: f(12.0), ..l.call },
            put: Cote { theta: f(11.0), ..l.put },
            ..*l
        })
        .collect();
    let c = Chaine::nouvelle(lignes, c.spot, c.releve).unwrap();
    let a = analyser(&c, &params(), &ln, &exp).unwrap();
    assert_eq!(a.theta, a.vega);
    proche(a.theta, -962_400.0, 1e-12, "thêta total");
}

#[test]
fn le_zero_gamma_egale_le_moteur_python() {
    let a = analyse_essai();
    assert_eq!(a.croisements.len(), 1);
    proche(a.zero_gamma.unwrap(), 29_391.207_190_695_957, 1e-9, "zero gamma");
}

#[test]
fn les_murs_egalent_le_moteur_python() {
    let a = analyse_essai();
    assert_eq!(a.murs.call, Some(f(29_600.0)));
    assert_eq!(a.murs.put, Some(f(28_900.0)));
    assert_eq!(a.murs.call_oi, Some(f(30_100.0)));
    assert_eq!(a.murs.put_oi, Some(f(28_500.0)));
}

#[test]
fn l_ecart_de_gamma_egale_le_moteur_python() {
    let a = analyse_essai();
    let e = a.ecart_gamma.unwrap();
    proche(e.iv, -325_357_778.743_652, 1e-9, "GEX iv");
    proche(e.publie, -331_164_669.103_518_7, 1e-9, "GEX publié");
    proche(e.relatif, 0.017_534_752_048_237_255, 1e-9, "écart relatif");
}

#[test]
fn le_poids_des_courtes_egale_le_moteur_python() {
    let a = analyse_essai();
    proche(
        a.part_courtes.gex.unwrap(),
        0.379_985_209_391_870_64,
        1e-9,
        "part du GEX",
    );
    proche(
        a.part_courtes.charm.unwrap(),
        0.624_817_030_722_563_6,
        1e-9,
        "part du charm",
    );
}

#[test]
fn le_profil_egale_le_moteur_python() {
    let a = analyse_essai();
    assert_eq!(a.niveaux.len(), 60);
    proche(a.niveaux[0], 23_440.0, 1e-12, "niveau bas");
    proche(a.niveaux[59], 35_160.0, 1e-12, "niveau haut");
    for (i, attendu) in [
        (0usize, -1_257_565.398_330_257_5),
        (15, -74_069_723.824_968_86),
        (30, 29_154_833.129_124_83),
        (45, 29_694_811.881_880_693),
        (59, 3_002_394.238_615_25),
    ] {
        proche(a.profil[i], attendu, 1e-9, &format!("profil[{i}]"));
    }
}

/// Un contrat déjà réglé verrait son T planché à une minute, et ce mort dominerait la
/// chaîne entière.
#[test]
fn une_echeance_deja_reglee_est_ecartee() {
    let c = chaine_essai();
    // 2026-08-26 16h00 New York = 20h00 UTC. Vu à 20h30 le 26, elle est morte.
    let tard = Chaine::nouvelle(
        c.lignes().to_vec(),
        f(SPOT),
        InstantReleve(instant("2026-08-26 20:30:00")),
    )
    .unwrap();
    let a = analyser(&tard, &params(), &ln, &exp).unwrap();
    assert!(
        a.lignes
            .iter()
            .all(|l| l.ligne.echeance.0 != instant("2026-08-26 16:00:00")),
        "l'échéance réglée à 16h doit être écartée à 16h30"
    );
}

#[test]
fn dte_compte_des_jours_pas_du_temps_ecoule() {
    // Demain 9h30, vu ce soir 20h04 : un jour, pas zéro.
    assert_eq!(
        dte_calendaire(
            EcheanceNy(instant("2026-08-26 09:30:00")),
            InstantReleve(instant("2026-08-25 20:04:00"))
        ),
        1
    );
}

/// Sans la contrainte de côté, les deux murs tombent sur le strike à la monnaie.
#[test]
fn les_murs_restent_du_bon_cote_du_spot() {
    let a = analyse_essai();
    assert!(n(a.murs.call.unwrap()) >= SPOT);
    assert!(n(a.murs.put.unwrap()) <= SPOT);
    assert!(n(a.murs.call_oi.unwrap()) >= SPOT);
    assert!(n(a.murs.put_oi.unwrap()) <= SPOT);
}

fn agregat(strike: f64) -> AgregatStrike {
    AgregatStrike {
        strike: f(strike),
        call_gex: f(0.0),
        put_gex: f(0.0),
        gex: f(0.0),
        call_oi: f(0.0),
        put_oi: f(0.0),
        call_vol: f(0.0),
        put_vol: f(0.0),
    }
}

/// Les murs par volume se cherchent comme les autres, chacun de son côté.
#[test]
fn le_volume_a_ses_murs() {
    let mut bas = agregat(SPOT - 100.0);
    bas.put_vol = f(30.0);
    bas.call_vol = f(900.0);
    let mut haut = agregat(SPOT + 200.0);
    haut.call_vol = f(40.0);
    haut.put_vol = f(900.0);
    let m = murs(&[bas, haut], f(SPOT), &params());
    assert_eq!(m.call_vol, Some(f(SPOT + 200.0)));
    assert_eq!(m.put_vol, Some(f(SPOT - 100.0)));
    assert_eq!((m.call_oi, m.put_oi), (None, None));
}

/// Le gamma net le plus concentré ne regarde pas de quel côté du spot il tombe.
#[test]
fn le_gamma_majeur_ignore_le_cote() {
    let mut bas = agregat(SPOT - 3_000.0);
    bas.gex = f(5.0);
    let mut milieu = agregat(SPOT);
    milieu.gex = f(-1.0);
    let mut haut = agregat(SPOT + 6_000.0);
    haut.gex = f(-7.0);
    let g = gamma_majeur(&[bas, milieu, haut]);
    assert_eq!(g.long, Some(f(SPOT - 3_000.0)));
    assert_eq!(g.court, Some(f(SPOT + 6_000.0)));
    assert_eq!(gamma_majeur(&[milieu]).long, None, "un GEX négatif n'est pas un gamma long");
    assert_eq!(gamma_majeur(&[]).court, None);
}

/// La volatilité à la monnaie, sa pente et le mouvement attendu viennent de l'échéance la
/// plus proche.
#[test]
fn la_monnaie_vient_de_la_plus_proche_echeance() {
    let a = analyse_essai();
    // Au spot, m = 0 : le call porte 0,20 et le put 0,205.
    let iv = n(a.iv_atm.unwrap());
    assert!((iv - 0.2025).abs() < 1e-12, "{iv}");
    assert!((n(a.skew.unwrap()) + 0.15).abs() < 1e-9);
    let t = n(a.lignes[0].t);
    let attendu = n(a.attendu.unwrap());
    assert!((attendu - SPOT * iv * t.sqrt()).abs() < 1e-9, "{attendu}");
    assert_eq!(iv_atm(&[], f(SPOT)), None);
    assert_eq!(mouvement_attendu(&[], f(SPOT)), None);
    assert_eq!(skew(&[], f(SPOT), &ln), None);
}

/// Sans volatilité publiée, il n'y a ni monnaie ni mouvement attendu.
#[test]
fn sans_volatilite_il_n_y_a_pas_de_monnaie() {
    let mut a = analyse_essai();
    for l in a.lignes.iter_mut() {
        l.ligne.call.iv = f(0.0);
        l.ligne.put.iv = f(0.0);
    }
    assert_eq!(iv_atm(&a.lignes, f(SPOT)), None);
    assert_eq!(mouvement_attendu(&a.lignes, f(SPOT)), None);
    assert_eq!(skew(&a.lignes, f(SPOT), &ln), Some(f(0.0)));
}

/// Un GEX call nul veut dire qu'il n'y a pas de mur.
#[test]
fn sans_gamma_il_n_y_a_pas_de_mur() {
    let vides: Vec<AgregatStrike> = (0..5).map(|i| agregat(SPOT + 100.0 * i as f64)).collect();
    let m = murs(&vides, f(SPOT), &params());
    assert_eq!(m.call, None);
    assert_eq!(m.put, None);
}

/// À gamma égal, le premier strike de la bande l'emporte ; hors de la bande, rien ne
/// compte.
#[test]
fn un_mur_hors_de_la_bande_ne_compte_pas() {
    let mut a = agregat(SPOT + 100.0);
    a.call_gex = f(10.0);
    let mut b = agregat(SPOT + 200.0);
    b.call_gex = f(10.0);
    let mut loin = agregat(SPOT * 1.5);
    loin.call_gex = f(1_000.0);
    let m = murs(&[a, b, loin], f(SPOT), &params());
    assert_eq!(m.call, Some(f(SPOT + 100.0)));
}

/// La pente doit retrouver le skew injecté : -0,15 par unité de ln(K/S).
#[test]
fn la_pente_du_skew_retrouve_le_skew_injecte() {
    let c = chaine_essai();
    let lignes = expositions(&c, &params(), &ln, &exp);
    let pente = n(pente_skew(&lignes, EcheanceNy(instant(ECHEANCES[0])), f(SPOT), &ln));
    // Les deux côtés sont moyennés, et le put porte +0,005 : la pente reste celle du
    // skew, le décalage constant n'y contribue pas.
    assert!((pente + 0.15).abs() < 1e-9, "pente {pente} au lieu de -0,15");
}

/// Le régime remodèle les ailes mais ne déplace quasiment pas un zero gamma proche du
/// spot.
#[test]
fn sticky_moneyness_ne_deplace_pas_le_centre() {
    let c = chaine_essai();
    let strict = analyser(&c, &params(), &ln, &exp).unwrap();
    let glissant = analyser(
        &c,
        &Parametres {
            regime_vol: RegimeVol::StickyMoneyness,
            ..params()
        },
        &ln,
        &exp,
    )
    .unwrap();
    let (a, b) = (n(strict.zero_gamma.unwrap()), n(glissant.zero_gamma.unwrap()));
    assert!(
        (a - b).abs() / SPOT < 0.01,
        "zero gamma déplacé de {} points par le régime de vol",
        (a - b).abs()
    );
    // Au spot courant, le décalage est nul : le profil y est le même.
    let lignes = &strict.lignes;
    let glisse = Parametres {
        regime_vol: RegimeVol::StickyMoneyness,
        source_gamma: SourceGamma::Publie,
        ..params()
    };
    assert_eq!(
        profil_gamma(lignes, &[f(SPOT)], f(SPOT), &params(), &ln, &exp),
        profil_gamma(lignes, &[f(SPOT)], f(SPOT), &glisse, &ln, &exp)
    );
    // Les ailes, elles, doivent bouger : sinon le régime ne ferait rien.
    assert!(n(strict.profil[0]) != n(glissant.profil[0]));
}

fn zero(croisements: &[f64], spot: f64) -> Option<f64> {
    let c: Vec<Flottant> = croisements.iter().map(|x| f(*x)).collect();
    zero_gamma(&c, f(spot)).map(n)
}

/// Le croisement retenu est le plus proche du spot, pas le plus bas.
#[test]
fn le_zero_retenu_est_le_plus_proche_du_spot() {
    assert_eq!(zero(&[91.0, 94.0, 103.0], 100.0), Some(103.0));
    assert_eq!(zero(&[], 100.0), None);
}

/// À distance égale, le premier l'emporte.
#[test]
fn a_distance_egale_le_premier_croisement_l_emporte() {
    assert_eq!(zero(&[91.0, 94.0, 106.0], 100.0), Some(94.0));
}

#[test]
fn les_croisements_sont_interpoles() {
    let niveaux = [f(100.0), f(110.0), f(120.0)];
    let profil = [f(-10.0), f(10.0), f(20.0)];
    let c = croisements_zero(&niveaux, &profil);
    assert_eq!(c.len(), 1);
    assert!((n(c[0]) - 105.0).abs() < 1e-12, "croisement en {}", n(c[0]));
}

fn croisements(profil: &[f64]) -> Vec<f64> {
    let niveaux: Vec<Flottant> =
        (0..profil.len()).map(|i| f(100.0 + 10.0 * i as f64)).collect();
    let p: Vec<Flottant> = profil.iter().map(|y| f(*y)).collect();
    croisements_zero(&niveaux, &p).into_iter().map(n).collect()
}

/// Le carburant est le flux de la couverture, cumulé depuis le spot.
#[test]
fn le_carburant_se_cumule_depuis_le_spot() {
    let v = |x: &[f64]| x.iter().map(|y| f(*y)).collect::<Vec<Flottant>>();
    // Un GEX égal au prix force cent dollars par point, à l'opposé du mouvement.
    let niveaux = v(&[80.0, 90.0, 100.0, 110.0]);
    let c = carburant(&niveaux, &niveaux, f(95.0), f(95.0));
    assert_eq!(c, v(&[1_500.0, 500.0, -500.0, -1_500.0]));
    // En gamma négatif, la couverture achète en montant et vend en descendant.
    let inverse = v(&[-80.0, -90.0, -100.0, -110.0]);
    let c = carburant(&niveaux, &inverse, f(95.0), f(-95.0));
    assert_eq!(c, v(&[-1_500.0, -500.0, 500.0, 1_500.0]));
    // Au spot même, il n'y a rien à traiter.
    assert_eq!(n(carburant(&niveaux, &niveaux, f(100.0), f(100.0))[2]), 0.0);
    assert!(carburant(&[], &[], f(95.0), f(1.0)).is_empty());
    // Hors de la grille, tout se cumule depuis le bord.
    let c = carburant(&niveaux, &niveaux, f(70.0), f(70.0));
    assert_eq!(c, v(&[-1_000.0, -2_000.0, -3_000.0, -4_000.0]));
}

/// Le carburant de l'analyse recoupe la variation du delta dollar que le profil implique.
#[test]
fn le_carburant_suit_le_profil() {
    let a = analyse_essai();
    assert_eq!(a.carburant.len(), a.niveaux.len());
    let haut = a.niveaux.iter().position(|x| n(*x) >= SPOT).unwrap();
    for i in [3, haut - 2, haut + 1, a.niveaux.len() - 1] {
        let j = if i < haut { i + 1 } else { i - 1 };
        let pas = n(a.niveaux[i]) - n(a.niveaux[j]);
        let moyen = (n(a.profil[i]) / n(a.niveaux[i]) + n(a.profil[j]) / n(a.niveaux[j])) / 2.0;
        let ecart = n(a.carburant[i]) - n(a.carburant[j]);
        assert!((ecart + 100.0 * pas * moyen).abs() <= 1e-6 * ecart.abs().max(1.0), "{i}");
    }
}

/// Toucher zéro n'est pas le traverser.
#[test]
fn un_profil_qui_touche_zero_ne_croise_pas() {
    assert!(croisements(&[-10.0, 0.0, -10.0]).is_empty());
    assert!(croisements(&[10.0, 0.0, 0.0, 10.0]).is_empty());
    assert!(croisements(&[0.0, 0.0, 0.0]).is_empty());
    assert!(croisements(&[0.0, 10.0]).is_empty());
    assert!(croisements(&[-10.0, 0.0]).is_empty());
    assert!(croisements(&[-10.0, -0.0, -10.0]).is_empty());
    assert!(croisements(&[-10.0, f64::NAN, 10.0]).is_empty());
}

/// Un zéro de la grille entre deux signes opposés compte une fois, à son niveau.
#[test]
fn un_zero_de_la_grille_compte_une_fois() {
    assert_eq!(croisements(&[-10.0, 0.0, 10.0]), vec![110.0]);
    assert_eq!(croisements(&[10.0, 0.0, -10.0]), vec![110.0]);
    assert_eq!(croisements(&[-10.0, 0.0, 0.0, 10.0]), vec![110.0]);
    assert_eq!(croisements(&[-10.0, 10.0, -10.0]), vec![105.0, 115.0]);
}

#[test]
fn l_agregat_par_strike_cumule_les_echeances() {
    let a = analyse_essai();
    assert_eq!(a.par_strike.len(), 17, "17 strikes distincts");
    let total: f64 = a.par_strike.iter().map(|s| n(s.gex)).sum();
    proche(f(total), n(a.gex), 1e-12, "somme des strikes vs GEX total");
    // Trois échéances, donc l'open interest d'un strike est triplé
    let premier = &a.par_strike[0];
    assert!((n(premier.call_oi) - 3.0 * 200.0).abs() < 1e-9);
}

#[test]
fn un_horizon_trop_court_ne_garde_rien() {
    let r = analyser(
        &chaine_essai(),
        &Parametres {
            dte_max: Some(0),
            dte_min: 0,
            ..params()
        },
        &ln,
        &exp,
    );
    // La plus proche est à un jour : rien ne reste, et c'est une erreur, pas un GEX de
    // zéro.
    assert_eq!(r.unwrap_err(), ChaineInvalide::Vide);
}

#[test]
fn dte_min_ecarte_les_plus_courtes() {
    let a = analyser(
        &chaine_essai(),
        &Parametres {
            dte_min: 2,
            ..params()
        },
        &ln,
        &exp,
    )
    .unwrap();
    assert!(a.lignes.iter().all(|l| l.dte >= 2));
    assert!(a.lignes.len() < 51);
}

#[test]
fn le_troisieme_vendredi_est_reconnu() {
    // 18 septembre 2026 est un vendredi, et le troisième du mois.
    assert!(est_troisieme_vendredi(EcheanceNy(instant(ECHEANCES[2]))));
    // 26 août 2026 est un mercredi.
    assert!(!est_troisieme_vendredi(EcheanceNy(instant(ECHEANCES[0]))));
}

#[test]
fn un_vendredi_est_mensuel_du_quinze_au_vingt_et_un() {
    assert!(est_vendredi_mensuel(4, Some(15)));
    assert!(est_vendredi_mensuel(4, Some(21)));
    assert!(!est_vendredi_mensuel(4, Some(14)));
    assert!(!est_vendredi_mensuel(4, Some(22)));
    assert!(!est_vendredi_mensuel(3, Some(18)));
    assert!(!est_vendredi_mensuel(4, None));
}

#[test]
fn le_profil_hors_prochaine_retire_une_echeance() {
    let a = analyse_essai();
    let sans = profil_hors_prochaine(&a, &params(), false, &ln, &exp).unwrap();
    assert_eq!(sans.len(), a.niveaux.len());
    assert!(sans != a.profil, "retirer une échéance doit changer le profil");
}

/// À un niveau hypothétique, aucun gamma publié n'existe.
#[test]
fn la_source_de_gamma_ne_touche_pas_le_profil() {
    let c = chaine_essai();
    let iv = analyser(&c, &params(), &ln, &exp).unwrap();
    let publie = analyser(
        &c,
        &Parametres {
            source_gamma: SourceGamma::Publie,
            ..params()
        },
        &ln,
        &exp,
    )
    .unwrap();
    assert!(n(iv.gex) != n(publie.gex), "le GEX doit changer");
    assert_eq!(iv.profil, publie.profil, "le profil ne doit pas changer");
}

/// L'analyse prudente rend la même chose, et refuse la même chose.
#[test]
fn l_analyse_prudente_rend_la_meme_chose() {
    let c = chaine_essai();
    let a = analyser_si_defini(&c, &params(), &ln, &exp).unwrap().unwrap();
    let b = analyse_essai();
    assert_eq!(a.gex, b.gex);
    assert_eq!(a.profil, b.profil);
    assert_eq!(a.zero_gamma, b.zero_gamma);
}

/// Un logarithme qui ne rend que des non-nombres ne donne aucun croisement.
#[test]
fn une_fonction_absurde_ne_fait_pas_de_croisement() {
    let c = chaine_essai();
    let rien = |_x: Flottant| f(f64::NAN);
    match analyser_si_defini(&c, &params(), &rien, &rien) {
        None => {}
        Some(r) => assert!(r.unwrap().zero_gamma.is_none()),
    }
}

/// Les morceaux publics de l'analyse, chacun pour soi.
#[test]
fn chaque_morceau_de_l_analyse_se_recoupe() {
    let c = chaine_essai();
    let a = analyse_essai();
    let vives = filtre_echeances(&c, None, 0).unwrap();
    assert_eq!(vives.lignes().len(), 51);
    let lignes: Vec<LigneExposee> = expositions(&vives, &params(), &ln, &exp);
    assert_eq!(lignes, a.lignes);
    assert_eq!(par_strike(&lignes), a.par_strike);
    assert_eq!(grille(f(SPOT), params().plage, 60), a.niveaux);
    assert_eq!(
        profil_gamma(&lignes, &a.niveaux, f(SPOT), &params(), &ln, &exp),
        a.profil
    );
    assert_eq!(part_courtes(&lignes, 1), a.part_courtes);
    assert_eq!(ecart_gamma(&lignes), a.ecart_gamma);
    assert_eq!(max_pain(&lignes), a.max_pain);
    let gex: Vec<Flottant> = lignes.iter().map(|l| l.gex).collect();
    assert_eq!(totaliser(&gex), a.gex);
}

/// Le max pain de l'échéance la plus proche, recalculé à la main.
#[test]
fn le_max_pain_minimise_ce_qui_est_paye() {
    let a = analyse_essai();
    let proches: Vec<&LigneExposee> = a
        .lignes
        .iter()
        .filter(|l| l.ligne.echeance.0 == instant(ECHEANCES[0]))
        .collect();
    let du = |prix: f64| -> f64 {
        proches
            .iter()
            .map(|l| {
                n(l.ligne.call.open_interest) * (prix - n(l.ligne.strike)).max(0.0)
                    + n(l.ligne.put.open_interest) * (n(l.ligne.strike) - prix).max(0.0)
            })
            .sum()
    };
    let retenu = n(a.max_pain.unwrap());
    for l in &proches {
        assert!(du(retenu) <= du(n(l.ligne.strike)));
    }
}
