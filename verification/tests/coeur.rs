//! Le temps, la loi normale, Black 76, les expositions et la chaîne.

use chrono::{NaiveDate, NaiveDateTime};
use gex::calendrier::{Instant, Jour};
use gex::coeur::black76::{gamma, prix, volatilite_implicite, Sens};
use gex::coeur::chaine::{Chaine, ChaineInvalide, Cote, Ligne};
use gex::coeur::contrat::{multiplicateur, produits_connus};
use gex::coeur::greeks::{charm_exposition, gamma_exposition, vanna_exposition};
use gex::coeur::loi_normale::{densite, repartition};
use gex::coeur::temps::{
    debut_de_seance, essayer, jours_ouvres, ouverture_precedente, resoudre, temps_restant,
    Convention, EcheanceNy, Essai, InstantReleve, JOURS_BOURSE, JOURS_CALENDAIRES,
    PLANCHER_SECONDES,
};
use gex::flottant::Flottant;

fn f(x: f64) -> Flottant {
    Flottant::depuis_bits(x.to_bits())
}

fn n(x: Flottant) -> f64 {
    f64::from_bits(x.bits)
}

fn ln(x: Flottant) -> Flottant {
    f(n(x).ln())
}

fn exp(x: Flottant) -> Flottant {
    f(n(x).exp())
}

fn erfc(x: Flottant) -> Flottant {
    f(libm::erfc(n(x)))
}

fn instant(s: &str) -> Instant {
    let d = NaiveDateTime::parse_from_str(s, "%Y-%m-%d %H:%M:%S").unwrap();
    Instant {
        micros: d.and_utc().timestamp_micros(),
    }
}

fn jour(s: &str) -> Jour {
    let d = NaiveDate::parse_from_str(s, "%Y-%m-%d").unwrap();
    let origine = NaiveDate::from_ymd_opt(1970, 1, 1).unwrap();
    Jour {
        numero: d.signed_duration_since(origine).num_days() as i32,
    }
}

fn echeance(s: &str) -> EcheanceNy {
    EcheanceNy(instant(s))
}

fn releve(s: &str) -> InstantReleve {
    InstantReleve(instant(s))
}

fn reste(exp: &str, asof: &str, convention: Convention) -> f64 {
    n(temps_restant(echeance(exp), releve(asof), convention))
}

/// Des cas choisis pour couvrir ce qui casse : l'été, l'hiver, une échéance du matin, et
/// une bascule d'heure traversée.
const ORACLE_HEURES: [(&str, &str, f64); 5] = [
    // hebdomadaire PM, heure d'été (EDT = UTC-4)
    ("2026-08-26 16:00:00", "2026-08-25 20:30:16", 2.682_141_045_154_744e-3),
    // mensuelle AM : réglée le matin, six heures et demie plus tôt
    ("2026-09-18 09:30:00", "2026-08-25 20:30:16", 6.495_383_054_287_164e-2),
    // heure d'hiver (EST = UTC-5)
    ("2026-01-16 16:00:00", "2026-01-15 21:00:00", 2.739_726_027_397_26e-3),
    // traverse le passage à l'heure d'été : 71 heures, pas 72
    ("2026-03-09 16:00:00", "2026-03-06 21:00:00", 8.105_022_831_050_229e-3),
    // une minute avant le règlement
    ("2026-08-25 16:00:00", "2026-08-25 19:59:00", 1.902_587_519_025_875e-6),
];

#[test]
fn convention_heures_egale_le_moteur_python() {
    for (exp, asof, attendu) in ORACLE_HEURES {
        let obtenu = reste(exp, asof, Convention::Heures);
        let ecart = ((obtenu - attendu) / attendu).abs();
        assert!(
            ecart <= 1e-12,
            "T({exp} vu de {asof}) = {obtenu:e}, attendu {attendu:e}"
        );
    }
}

/// Du vendredi 6 mars au lundi 9 mars 2026 il s'écoule 71 heures, pas 72 : l'heure d'été
/// en mange une.
#[test]
fn le_passage_a_l_heure_d_ete_retire_une_heure() {
    let t = reste("2026-03-09 16:00:00", "2026-03-06 21:00:00", Convention::Heures);
    let heures = t * JOURS_CALENDAIRES as f64 * 24.0;
    assert!((heures - 71.0).abs() < 1e-6, "{heures} heures au lieu de 71");
}

/// L'été le décalage vaut 4 heures, l'hiver 5.
#[test]
fn le_decalage_de_new_york_suit_la_saison() {
    assert_eq!(
        echeance("2026-08-26 16:00:00").en_utc(),
        instant("2026-08-26 20:00:00")
    );
    assert_eq!(
        echeance("2026-01-16 16:00:00").en_utc(),
        instant("2026-01-16 21:00:00")
    );
}

/// Une heure qui n'existe pas : la bascule de printemps saute de 2 h à 3 h.
#[test]
fn une_heure_inexistante_est_decalee_en_avant() {
    let saut = echeance("2026-03-08 02:30:00").en_utc();
    assert_eq!(
        saut,
        instant("2026-03-08 07:30:00"),
        "l'heure inexistante doit avancer d'une heure"
    );
}

/// Une heure jouée deux fois vaut pour la première, celle de l'heure d'été.
#[test]
fn une_heure_double_vaut_pour_la_premiere() {
    assert_eq!(
        echeance("2026-11-01 01:30:00").en_utc(),
        instant("2026-11-01 05:30:00")
    );
}

#[test]
fn un_fuseau_inconnu_ne_resout_rien() {
    assert_eq!(resoudre("Nulle/Part", instant("2026-08-26 16:00:00")), None);
    assert_eq!(
        resoudre("Europe/Paris", instant("2026-08-26 16:00:00")),
        Some(instant("2026-08-26 14:00:00"))
    );
}

/// Ce que chaque réponse du fuseau veut dire.
#[test]
fn un_essai_depend_des_decalages() {
    let local = instant("2026-08-26 16:00:00");
    assert_eq!(essayer(local, None), Essai::Introuvable);
    assert_eq!(
        essayer(local, Some(vec![-14_400])),
        Essai::Resolu(instant("2026-08-26 20:00:00"))
    );
    assert_eq!(
        essayer(local, Some(vec![])),
        Essai::PlusTard(instant("2026-08-26 17:00:00"))
    );
}

#[test]
fn convention_bourse_compte_les_jours_ouvres() {
    for (exp, asof, jours) in [
        ("2026-08-26 16:00:00", "2026-08-25 20:30:16", 1.0),
        ("2026-09-18 09:30:00", "2026-08-25 20:30:16", 18.0),
        ("2026-03-09 16:00:00", "2026-03-06 21:00:00", 1.0),
    ] {
        let t = reste(exp, asof, Convention::Bourse) * JOURS_BOURSE as f64;
        assert!((t - jours).abs() < 1e-9, "{exp} : {t} jours ouvrés au lieu de {jours}");
    }
}

/// Le plancher à un jour est conservé pour rester comparable.
#[test]
fn convention_bourse_planche_le_jour_meme_a_un_jour() {
    let t = reste("2026-08-25 16:00:00", "2026-08-25 13:00:00", Convention::Bourse);
    assert!((t * JOURS_BOURSE as f64 - 1.0).abs() < 1e-9);
}

#[test]
fn jours_ouvres_ignore_les_week_ends() {
    let d = jour;
    // vendredi -> lundi : seul le vendredi compte (borne de fin exclue)
    assert_eq!(jours_ouvres(d("2026-03-06"), d("2026-03-09")), 1);
    // une semaine pleine
    assert_eq!(jours_ouvres(d("2026-03-02"), d("2026-03-09")), 5);
    // samedi -> samedi suivant
    assert_eq!(jours_ouvres(d("2026-03-07"), d("2026-03-14")), 5);
    // même jour
    assert_eq!(jours_ouvres(d("2026-03-06"), d("2026-03-06")), 0);
    // à rebours
    assert_eq!(jours_ouvres(d("2026-03-09"), d("2026-03-06")), -1);
}

/// Le plancher protège du zéro exact, où le gamma diverge.
#[test]
fn le_plancher_evite_la_division_par_zero() {
    let t = reste("2026-08-25 16:00:00", "2026-08-25 20:00:00", Convention::Heures);
    assert!(t > 0.0);
    assert!(
        (t * JOURS_CALENDAIRES as f64 * 24.0 * 3600.0 - PLANCHER_SECONDES as f64).abs() < 1e-6
    );
}

/// Le temps restant est positif, même longtemps après l'échéance.
#[test]
fn le_temps_restant_est_toujours_positif() {
    for exp in ["1999-01-04 16:00:00", "2026-08-25 16:00:00", "2040-06-15 16:00:00"] {
        assert!(reste(exp, "2026-08-25 20:00:00", Convention::Heures) > 0.0, "{exp}");
        assert!(reste(exp, "2026-08-25 20:00:00", Convention::Bourse) > 0.0, "{exp}");
    }
}

/// Le plancher de la convention boursière vaut aussi d'une échéance passée.
#[test]
fn le_plancher_de_la_bourse_est_d_un_jour() {
    for (exp, asof) in [
        ("2026-08-25 16:00:00", "2026-08-25 20:00:00"),
        ("2026-03-06 16:00:00", "2026-03-09 13:00:00"),
        ("2026-02-02 16:00:00", "2026-03-09 13:00:00"),
    ] {
        assert_eq!(reste(exp, asof, Convention::Bourse), 1.0 / 262.0, "{exp}");
    }
    assert_eq!(
        reste("2026-03-12 16:00:00", "2026-03-09 13:00:00", Convention::Bourse),
        3.0 / 262.0
    );
}

#[test]
fn chaque_convention_a_son_annee() {
    assert_eq!(Convention::Heures.jours_par_an(), f(365.0));
    assert_eq!(Convention::Bourse.jours_par_an(), f(262.0));
}

/// La séance ouvre à 17 h à New York ; avant, c'est celle de la veille.
#[test]
fn la_seance_ouvre_a_dix_sept_heures() {
    assert_eq!(
        ouverture_precedente(instant("2026-08-25 17:00:00")),
        instant("2026-08-25 17:00:00")
    );
    assert_eq!(
        ouverture_precedente(instant("2026-08-25 16:59:59")),
        instant("2026-08-24 17:00:00")
    );
    assert_eq!(
        debut_de_seance(instant("2026-08-25 20:59:00")),
        instant("2026-08-24 21:00:00")
    );
    assert_eq!(
        debut_de_seance(instant("2026-01-15 22:00:00")),
        instant("2026-01-15 22:00:00")
    );
}

/// Les valeurs de scipy.stats.norm. La queue lointaine tolère 1e-13 : à x = -8, Phi vaut
/// 6e-16.
#[test]
fn repartition_egale_scipy() {
    let cas = [
        (-8.0, 6.220_960_574_271_275e-16, 1e-13),
        (-3.0, 1.349_898_031_630_095e-3, 1e-14),
        (-1.0, 1.586_552_539_314_570_5e-1, 1e-14),
        (0.0, 5.0e-1, 1e-14),
        (1.0, 8.413_447_460_685_429e-1, 1e-14),
        (3.0, 9.986_501_019_683_699e-1, 1e-14),
    ];
    for (x, attendu, tolerance) in cas {
        let obtenu = n(repartition(f(x), &erfc));
        let ecart_relatif: f64 = ((obtenu - attendu) / attendu as f64).abs();
        assert!(
            ecart_relatif <= tolerance,
            "Phi({x}) = {obtenu:e}, attendu {attendu:e} (écart relatif {ecart_relatif:e})"
        );
    }
}

#[test]
fn densite_egale_scipy() {
    let cas = [
        (0.0, 3.989_422_804_014_327e-1),
        (1.0, 2.419_707_245_191_434e-1),
        (-2.5, 1.752_830_049_356_853_5e-2),
    ];
    for (x, attendu) in cas {
        assert!((n(densite(f(x), &exp)) - attendu).abs() <= 1e-15 * attendu);
    }
}

/// La symétrie garantit que la parité call-put tienne.
#[test]
fn repartition_est_symetrique() {
    for x in [0.3_f64, 1.0, 2.7, 5.5] {
        let somme = n(repartition(f(x), &erfc)) + n(repartition(f(-x), &erfc));
        assert!((somme - 1.0).abs() < 1e-15);
    }
}

/// Le cas qui motive erfc plutôt que erf : sans lui, on rendrait 0.
#[test]
fn repartition_reste_fine_loin_dans_la_queue() {
    let p = n(repartition(f(-30.0), &erfc));
    assert!(p > 0.0, "annulation catastrophique dans la queue");
    assert!(p < 1e-190);
}

const F: f64 = 29_267.25;
const VOL: f64 = 0.18;
const T: f64 = 0.019;
const OI: f64 = 500.0;
const TAILLE: f64 = 20.0;

fn gamma_de(f0: f64, k: f64, vol: f64, t: f64) -> f64 {
    n(gamma(f(f0), f(k), f(vol), f(t), f(0.0), &ln, &exp))
}

fn prix_de(f0: f64, k: f64, vol: f64, t: f64, r: f64, sens: Sens) -> f64 {
    n(prix(f(f0), f(k), f(vol), f(t), f(r), sens, &ln, &exp, &erfc))
}

fn vol_de(prime: f64, f0: f64, k: f64, t: f64, r: f64, sens: Sens) -> Option<f64> {
    volatilite_implicite(f(prime), f(f0), f(k), f(t), f(r), sens, &ln, &exp, &erfc).map(n)
}

/// Colonnes : strike, gamma, prime du call, prime du put.
const ORACLE: [(f64, f64, f64, f64); 5] = [
    (28_000.00, 1.094_178_164_645_857e-4, 1277.8029889087, 10.5529889087),
    (29_000.00, 5.107_053_863_433_261e-4, 441.4765816056, 174.2265816056),
    (29_267.25, 5.493_453_136_212_468e-4, 289.6877623753, 289.6877623753),
    (29_500.00, 5.241_228_024_444_843e-4, 189.1608810281, 421.9108810281),
    (30_500.00, 1.407_260_207_652_456e-4, 14.8320621669, 1247.5820621669),
];

#[test]
fn gamma_egale_le_moteur_python() {
    for (k, attendu, _, _) in ORACLE {
        let obtenu = gamma_de(F, k, VOL, T);
        assert!(
            (obtenu - attendu).abs() <= 1e-12 * attendu,
            "gamma(K={k}) = {obtenu:e}, attendu {attendu:e}"
        );
    }
}

#[test]
fn prix_egale_le_moteur_python() {
    for (k, _, call, put) in ORACLE {
        for (sens, attendu) in [(Sens::Call, call), (Sens::Put, put)] {
            let obtenu = prix_de(F, k, VOL, T, 0.0, sens);
            assert!(
                (obtenu - attendu).abs() <= 1e-9 * attendu.abs(),
                "prix({sens:?}, K={k}) = {obtenu}, attendu {attendu}"
            );
        }
    }
}

/// À taux nul, C - P = F - K.
#[test]
fn parite_call_put_tient() {
    for k in [28_000.0, 29_267.25, 30_500.0] {
        let c = prix_de(F, k, VOL, T, 0.0, Sens::Call);
        let p = prix_de(F, k, VOL, T, 0.0, Sens::Put);
        assert!((c - p - (F - k)).abs() < 1e-8, "parité rompue en K={k}");
    }
}

#[test]
fn volatilite_implicite_retrouve_la_vol_injectee() {
    for k in [28_000.0, 29_000.0, 29_267.25, 30_500.0] {
        for sens in [Sens::Call, Sens::Put] {
            let prime = prix_de(F, k, VOL, T, 0.0, sens);
            let retrouvee = vol_de(prime, F, k, T, 0.0, sens)
                .unwrap_or_else(|| panic!("aucune vol trouvée en K={k} {sens:?}"));
            assert!(
                (retrouvee - VOL).abs() < 1e-6,
                "vol retrouvée {retrouvee} au lieu de {VOL} en K={k}"
            );
        }
    }
}

/// C'est la robustesse de Brent qu'on mesure, pas un cas particulier bien choisi.
#[test]
fn volatilite_implicite_tient_sur_toute_la_plage() {
    for vol in [0.05_f64, 0.10, 0.35, 0.80, 1.50] {
        let prime = prix_de(F, 29_500.0, vol, 0.25, 0.02, Sens::Call);
        let retrouvee = vol_de(prime, F, 29_500.0, 0.25, 0.02, Sens::Call).unwrap();
        assert!((retrouvee - vol).abs() < 1e-6, "vol {vol} mal inversée");
    }
}

#[test]
fn volatilite_implicite_refuse_sous_l_intrinseque() {
    // Un call mille points dans la monnaie ne peut pas valoir 1.
    assert!(vol_de(1.0, F, F - 1000.0, T, 0.0, Sens::Call).is_none());
    assert!(vol_de(f64::NAN, F, F, T, 0.0, Sens::Call).is_none());
    assert!(vol_de(100.0, F, F, 0.0, 0.0, Sens::Call).is_none());
}

#[test]
fn volatilite_implicite_reste_dans_son_intervalle() {
    for vol in [2e-6_f64, 1e-3, 0.05, 0.18, 1.5, 4.9, 4.999_999] {
        let prime = prix_de(F, F, vol, T, 0.0, Sens::Call);
        let retrouvee = vol_de(prime, F, F, T, 0.0, Sens::Call).unwrap();
        assert!((1e-6..=5.0).contains(&retrouvee), "vol {retrouvee} hors de l'intervalle");
        assert!((retrouvee - vol).abs() < 1e-6, "vol {vol} mal inversée");
    }
    // Sous le prix du bout bas, ou au-dessus de celui du bout haut, rien n'encadre.
    let trop_bas = prix_de(F, F, 1e-7, T, 0.0, Sens::Call);
    assert!(trop_bas > 0.0);
    assert!(vol_de(trop_bas, F, F, T, 0.0, Sens::Call).is_none());
    let trop_haut = prix_de(F, F, 6.0, T, 0.0, Sens::Call);
    assert!(vol_de(trop_haut, F, F, T, 0.0, Sens::Call).is_none());
}

/// Hors domaine, zéro et non NaN : un NaN contaminerait la somme entière.
#[test]
fn gamma_hors_domaine_vaut_zero() {
    assert_eq!(gamma_de(F, 29_000.0, VOL, 0.0), 0.0);
    assert_eq!(gamma_de(F, 29_000.0, 0.0, T), 0.0);
    assert_eq!(gamma_de(F, -1.0, VOL, T), 0.0);
    assert_eq!(gamma_de(0.0, 29_000.0, VOL, T), 0.0);
}

#[test]
fn prix_a_l_echeance_vaut_l_intrinseque() {
    assert_eq!(prix_de(F, 29_000.0, VOL, 0.0, 0.0, Sens::Call), F - 29_000.0);
    assert_eq!(prix_de(F, 30_000.0, VOL, 0.0, 0.0, Sens::Call), 0.0);
    assert_eq!(prix_de(F, 30_000.0, VOL, 0.0, 0.0, Sens::Put), 30_000.0 - F);
}

fn gamma_expose(s: f64, k: f64, vol: f64, t: f64, sens: Sens, oi: f64) -> f64 {
    n(gamma_exposition(
        f(s), f(k), f(vol), f(t), f(0.0), f(0.0), sens, f(oi), f(TAILLE), &ln, &exp,
    ))
}

fn charm_expose(s: f64, k: f64, vol: f64, t: f64) -> f64 {
    n(charm_exposition(
        f(s), f(k), f(vol), f(t), f(OI), f(TAILLE), f(JOURS_BOURSE as f64), &ln, &exp,
    ))
}

fn vanna_expose(s: f64, k: f64, vol: f64, t: f64) -> f64 {
    n(vanna_exposition(f(s), f(k), f(vol), f(t), f(OI), f(TAILLE), &ln, &exp))
}

/// Colonnes : strike, gamma call, gamma put, charm, vanna.
const ORACLE_EXPOSITIONS: [(f64, f64, f64, f64, f64); 5] = [
    (
        28_000.00,
        9.372_422_941_166_093e6,
        9.372_422_941_166_092e6,
        4.138_027_646_501_923e6,
        -2.288_789_069_365_175e6,
    ),
    (
        29_000.00,
        4.374_558_946_431_272e7,
        4.374_558_946_431_271e7,
        3.895_410_926_132_306e6,
        -2.154_595_065_587_402e6,
    ),
    (
        29_267.25,
        4.705_537_714_392_509e7,
        4.705_537_714_392_509e7,
        -1.454_765_476_586_997e5,
        8.046_469_491_611_19e4,
    ),
    (
        29_500.00,
        4.489_488_765_487_172e7,
        4.489_488_765_487_172e7,
        -3.710_691_390_281_653e6,
        2.052_424_637_869_119e6,
    ),
    (
        30_500.00,
        1.205_419_581_614_567e7,
        1.205_419_581_614_567e7,
        -5.032_510_542_870_929e6,
        2.783_537_498_045_72e6,
    ),
];

fn proche(obtenu: f64, attendu: f64, tolerance: f64, quoi: &str) {
    let ecart = ((obtenu - attendu) / attendu).abs();
    assert!(
        ecart <= tolerance,
        "{quoi} : {obtenu:e}, attendu {attendu:e} (écart relatif {ecart:e})"
    );
}

#[test]
fn expositions_egalent_le_moteur_python() {
    for (k, g_call, g_put, charm, vanna) in ORACLE_EXPOSITIONS {
        proche(
            gamma_expose(F, k, VOL, T, Sens::Call, OI),
            g_call,
            1e-13,
            &format!("gamma call K={k}"),
        );
        proche(
            gamma_expose(F, k, VOL, T, Sens::Put, OI),
            g_put,
            1e-13,
            &format!("gamma put K={k}"),
        );
        proche(charm_expose(F, k, VOL, T), charm, 1e-13, &format!("charm K={k}"));
        proche(vanna_expose(F, k, VOL, T), vanna, 1e-13, &format!("vanna K={k}"));
    }
}

/// Deux formules différentes pour la même quantité.
#[test]
fn gamma_expositions_call_et_put_coincident() {
    for k in [27_000.0, 29_000.0, 29_267.25, 31_500.0] {
        let c = gamma_expose(F, k, VOL, T, Sens::Call, OI);
        let p = gamma_expose(F, k, VOL, T, Sens::Put, OI);
        proche(p, c, 1e-12, &format!("call vs put K={k}"));
    }
}

fn d1(s: f64, k: f64, vol: f64, t: f64) -> f64 {
    ((s / k).ln() + 0.5 * vol * vol * t) / (vol * t.sqrt())
}

/// Le delta dollar d'un call, à r = q = 0.
fn delta_dollar(vol: f64, k: f64, t: f64) -> f64 {
    OI * TAILLE * F * n(repartition(f(d1(F, k, vol, t)), &erfc))
}

/// Le charm recoupé par différence finie plutôt que contre une valeur figée.
#[test]
fn charm_recoupe_la_derivee_du_delta_par_le_temps() {
    let k = 29_500.0;
    let h = 1e-7;
    // Le temps s'écoule : T diminue. d(delta)/d(jour) = -d(delta)/dT / jours_par_an
    let derivee = -(delta_dollar(VOL, k, T + h) - delta_dollar(VOL, k, T - h))
        / (2.0 * h)
        / JOURS_BOURSE as f64;
    proche(charm_expose(F, k, VOL, T), derivee, 1e-6, "charm vs différence finie");
}

/// La vanna, dérivée du delta dollar par la volatilité, ramenée à un point de vol.
#[test]
fn vanna_recoupe_la_derivee_du_delta_par_la_vol() {
    let k = 29_500.0;
    let h = 1e-7;
    let derivee =
        (delta_dollar(VOL + h, k, T) - delta_dollar(VOL - h, k, T)) / (2.0 * h) / 100.0;
    proche(vanna_expose(F, k, VOL, T), derivee, 1e-6, "vanna vs différence finie");
}

/// Le gamma exposure est la dérivée seconde du prix, mise à l'échelle de 1 %.
#[test]
fn gamma_exposition_recoupe_la_derivee_seconde() {
    let k = 29_000.0;
    let h = 1.0;
    let prime = |s: f64| prix_de(s, k, VOL, T, 0.0, Sens::Call);
    let d2p = (prime(F + h) - 2.0 * prime(F) + prime(F - h)) / (h * h);
    let attendu = OI * TAILLE * F * F * 0.01 * d2p;
    let obtenu = gamma_expose(F, k, VOL, T, Sens::Call, OI);
    proche(obtenu, attendu, 1e-5, "gamma vs dérivée seconde");
}

#[test]
fn hors_domaine_les_expositions_valent_zero() {
    for (k, vol, t) in [(29_000.0, VOL, 0.0), (29_000.0, 0.0, T), (-1.0, VOL, T)] {
        assert_eq!(gamma_expose(F, k, vol, t, Sens::Call, OI), 0.0);
        assert_eq!(charm_expose(F, k, vol, t), 0.0);
        assert_eq!(vanna_expose(F, k, vol, t), 0.0);
    }
}

/// Un open interest nul ne contribue pas : c'est ce qui rend les murs lisibles.
#[test]
fn sans_open_interest_aucune_exposition() {
    assert_eq!(gamma_expose(F, 29_000.0, VOL, T, Sens::Call, 0.0), 0.0);
}

fn taille(produit: &str) -> f64 {
    n(multiplicateur(produit).unwrap())
}

#[test]
fn nq_est_le_e_mini_a_vingt() {
    assert_eq!(taille("NQ"), 20.0);
    assert_eq!(taille("nq"), 20.0);
    assert_eq!(taille("  NQ  "), 20.0);
}

#[test]
fn les_autres_produits_du_catalogue() {
    assert_eq!(taille("ES"), 50.0);
    assert_eq!(taille("6E"), 125_000.0);
}

/// Le multiplicateur des actions, x100, n'est jamais une valeur de repli.
#[test]
fn aucun_produit_ne_vaut_cent_par_defaut() {
    assert!(multiplicateur("TSLA").is_err());
    assert!(multiplicateur("SPX").is_err());
    assert!(multiplicateur("").is_err());
}

#[test]
fn le_refus_nomme_les_produits_connus() {
    let err = multiplicateur("ZZZZ").unwrap_err();
    let message = err.message();
    assert!(message.contains("ZZZZ"), "l'erreur doit citer la demande");
    assert!(
        message.contains("NQ"),
        "l'erreur doit lister les produits connus"
    );
    assert!(message.contains("--contract-size"), "et dire quoi faire");
}

/// La demande est citée entre guillemets, les produits sont rangés par ordre alphabétique.
#[test]
fn le_refus_s_ecrit_exactement() {
    let err = multiplicateur(" zz\"z ").unwrap_err();
    assert_eq!(err.demande, "ZZ\"Z");
    let mut connus = produits_connus();
    assert_eq!(connus.len(), 8);
    let tels = connus.clone();
    connus.sort();
    assert_eq!(connus, tels);
    assert_eq!(
        err.message(),
        format!(
            "Multiplicateur inconnu pour \"ZZ\\\"Z\". Produits connus : {}. Passe-le explicitement avec --contract-size.",
            connus.join(", ")
        )
    );
}

fn ligne(echeance: &str, strike: f64) -> Ligne {
    Ligne {
        echeance: EcheanceNy(instant(echeance)),
        strike: f(strike),
        call: Cote {
            iv: f(0.18),
            open_interest: f(100.0),
            ..Default::default()
        },
        put: Cote {
            iv: f(0.20),
            open_interest: f(200.0),
            ..Default::default()
        },
    }
}

fn chaine(lignes: Vec<Ligne>) -> Chaine {
    Chaine::nouvelle(lignes, f(29_305.75), releve("2026-08-25 20:30:16")).unwrap()
}

#[test]
fn les_lignes_sont_triees_par_echeance_puis_strike() {
    let c = chaine(vec![
        ligne("2026-08-27 16:00:00", 29_000.0),
        ligne("2026-08-26 16:00:00", 29_500.0),
        ligne("2026-08-26 16:00:00", 29_000.0),
    ]);
    let vu: Vec<(Instant, f64)> = c
        .lignes()
        .iter()
        .map(|l| (l.echeance.0, n(l.strike)))
        .collect();
    assert_eq!(
        vu,
        vec![
            (instant("2026-08-26 16:00:00"), 29_000.0),
            (instant("2026-08-26 16:00:00"), 29_500.0),
            (instant("2026-08-27 16:00:00"), 29_000.0),
        ]
    );
}

/// Un seul strike mal servi rendrait le GEX total « nan » au lieu d'un montant.
#[test]
fn les_valeurs_non_finies_deviennent_zero() {
    let mut l = ligne("2026-08-26 16:00:00", 29_000.0);
    l.call.iv = f(f64::NAN);
    l.put.open_interest = f(f64::INFINITY);
    l.call.gamma = f(f64::NEG_INFINITY);
    let c = chaine(vec![l]);
    let vue = c.lignes()[0];
    assert_eq!(n(vue.call.iv), 0.0);
    assert_eq!(n(vue.put.open_interest), 0.0);
    assert_eq!(n(vue.call.gamma), 0.0);
    // Ce qui était bon n'a pas bougé
    assert_eq!(n(vue.put.iv), 0.20);
}

#[test]
fn un_strike_absurde_est_ecarte() {
    let c = chaine(vec![
        ligne("2026-08-26 16:00:00", 29_000.0),
        ligne("2026-08-26 16:00:00", f64::NAN),
        ligne("2026-08-26 16:00:00", -50.0),
        ligne("2026-08-26 16:00:00", 0.0),
    ]);
    assert_eq!(c.lignes().len(), 1);
}

/// Un GEX de zéro est un chiffre et non une erreur : personne ne verrait l'échec.
#[test]
fn une_chaine_sans_ligne_exploitable_est_refusee() {
    let vide = Chaine::nouvelle(
        vec![ligne("2026-08-26 16:00:00", f64::NAN)],
        f(29_000.0),
        releve("2026-08-25 20:30:16"),
    );
    assert_eq!(vide.unwrap_err(), ChaineInvalide::Vide);
}

#[test]
fn un_spot_absurde_est_refuse() {
    for spot in [0.0, -1.0, f64::NAN] {
        let r = Chaine::nouvelle(
            vec![ligne("2026-08-26 16:00:00", 29_000.0)],
            f(spot),
            releve("2026-08-25 20:30:16"),
        );
        assert_eq!(r.unwrap_err(), ChaineInvalide::SpotInvalide);
    }
}

#[test]
fn chaque_refus_de_chaine_s_explique() {
    assert_eq!(
        ChaineInvalide::Vide.message(),
        "Aucune ligne exploitable : tous les strikes sont absents ou non finis."
    );
    assert_eq!(
        ChaineInvalide::SpotInvalide.message(),
        "Prix du sous-jacent absent ou negatif : rien ne peut etre calcule sans lui."
    );
}

#[test]
fn les_echeances_sont_distinctes_et_ordonnees() {
    let c = chaine(vec![
        ligne("2026-08-27 16:00:00", 29_000.0),
        ligne("2026-08-26 16:00:00", 29_000.0),
        ligne("2026-08-26 16:00:00", 29_500.0),
    ]);
    assert_eq!(
        c.echeances(),
        vec![
            EcheanceNy(instant("2026-08-26 16:00:00")),
            EcheanceNy(instant("2026-08-27 16:00:00")),
        ]
    );
}

#[test]
fn filtrer_garde_le_spot_et_l_instant() {
    let c = chaine(vec![
        ligne("2026-08-26 16:00:00", 29_000.0),
        ligne("2026-08-27 16:00:00", 29_000.0),
    ]);
    let g = c
        .filtrer(|l: &Ligne| l.echeance.0 == instant("2026-08-27 16:00:00"))
        .unwrap();
    assert_eq!(g.lignes().len(), 1);
    assert_eq!(g.spot, c.spot);
    assert_eq!(g.releve, c.releve);
}

#[test]
fn un_filtre_qui_ne_garde_rien_est_une_erreur() {
    let c = chaine(vec![ligne("2026-08-26 16:00:00", 29_000.0)]);
    assert_eq!(
        c.filtrer(|_: &Ligne| false).unwrap_err(),
        ChaineInvalide::Vide
    );
}
