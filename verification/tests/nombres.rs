//! Les nombres de la bibliothèque confrontés à ceux de la machine.

use gex::court::court;
use gex::decimal::lire_flottant;
use gex::fixe::{ecrire, ecrire_signe, fixe, fixe_avec_signe};
use gex::flottant::Flottant;
use gex::texte::{couper, en_lignes, en_mots, lire_i64, majuscules, minuscules, rogner};

fn f(x: f64) -> Flottant {
    Flottant::depuis_bits(x.to_bits())
}

fn n(x: Flottant) -> f64 {
    f64::from_bits(x.bits)
}

fn chars(s: &str) -> Vec<char> {
    s.chars().collect()
}

fn texte(v: Vec<char>) -> String {
    v.into_iter().collect()
}

/// Une suite reproductible de motifs de bits.
fn motifs(combien: usize) -> Vec<u64> {
    let mut x: u64 = 0x9e37_79b9_7f4a_7c15;
    let mut v = Vec::new();
    for _ in 0..combien {
        x ^= x << 13;
        x ^= x >> 7;
        x ^= x << 17;
        v.push(x);
    }
    v
}

fn cas() -> Vec<f64> {
    let mut v = vec![
        0.0,
        -0.0,
        1.0,
        -1.0,
        0.1,
        0.2,
        0.3,
        1e-300,
        1e300,
        f64::MIN_POSITIVE,
        5e-324,
        -5e-324,
        f64::MAX,
        f64::MIN,
        f64::INFINITY,
        f64::NEG_INFINITY,
        f64::NAN,
        29_305.75,
        -357_422_192.637_701_45,
        f64::from_bits(0x000f_ffff_ffff_ffff),
        f64::from_bits(0x0010_0000_0000_0001),
        9_007_199_254_740_993.0,
    ];
    for b in motifs(60) {
        v.push(f64::from_bits(b));
        // Et des valeurs d'ordre ordinaire, où les additions se rencontrent.
        v.push((b % 1_000_000_007) as f64 / 1_024.0);
    }
    v
}

fn memes(a: Flottant, b: f64, quoi: &str) {
    if b.is_nan() {
        assert!(n(a).is_nan(), "{quoi}");
    } else {
        assert_eq!(a.bits, b.to_bits(), "{quoi} : {} au lieu de {b}", n(a));
    }
}

#[test]
fn les_quatre_operations_sont_celles_de_la_machine() {
    let c = cas();
    for x in &c {
        for y in &c {
            memes(f(*x).plus(f(*y)), x + y, &format!("{x:e} + {y:e}"));
            memes(f(*x).moins(f(*y)), x - y, &format!("{x:e} - {y:e}"));
            memes(f(*x).fois(f(*y)), x * y, &format!("{x:e} * {y:e}"));
            memes(f(*x).par(f(*y)), x / y, &format!("{x:e} / {y:e}"));
        }
    }
}

#[test]
fn la_racine_est_celle_de_la_machine() {
    for x in cas() {
        memes(f(x).racine(), x.sqrt(), &format!("racine de {x:e}"));
    }
}

#[test]
fn les_comparaisons_sont_celles_de_la_machine() {
    let c = cas();
    for x in &c {
        assert_eq!(f(*x).est_nan(), x.is_nan());
        assert_eq!(f(*x).est_fini(), x.is_finite());
        assert_eq!(f(*x).est_positif(), *x > 0.0);
        memes(f(*x).abs(), x.abs(), "valeur absolue");
        memes(f(*x).neg(), -x, "opposé");
        for y in &c {
            assert_eq!(f(*x).inf(f(*y)), x < y, "{x:e} < {y:e}");
            assert_eq!(f(*x).infeg(f(*y)), x <= y, "{x:e} <= {y:e}");
            assert_eq!(f(*x).egal(f(*y)), x == y, "{x:e} == {y:e}");
            if !(*x == 0.0 && *y == 0.0) {
                memes(f(*x).max(f(*y)), x.max(*y), &format!("max {x:e} {y:e}"));
                memes(f(*x).min(f(*y)), x.min(*y), &format!("min {x:e} {y:e}"));
            }
        }
    }
}

/// Les entiers de moins de cinquante-quatre bits, et leurs produits, sont exacts.
#[test]
fn les_petits_entiers_sont_exacts() {
    for x in [0i64, 1, 262, 365, 31_536_000, 9_007_199_254_740_991] {
        assert_eq!(n(Flottant::entier(x)) as i64, x);
    }
    let an = Flottant::entier(365).fois(Flottant::entier(24)).fois(Flottant::entier(3600));
    assert_eq!(an, Flottant::entier(31_536_000));
}

/// La clef range les nombres comme leur valeur.
#[test]
fn la_clef_range_comme_la_valeur() {
    let c = cas();
    for x in c.iter().filter(|x| !x.is_nan()) {
        for y in c.iter().filter(|y| !y.is_nan()) {
            if x < y {
                assert!(f(*x).clef_exec() < f(*y).clef_exec(), "{x:e} {y:e}");
            }
        }
    }
}

#[test]
fn les_conversions_sont_celles_de_la_machine() {
    for x in cas() {
        assert_eq!(f(x).vers_u64(), x as u64, "{x:e}");
        assert_eq!(f(x).vers_i64(), x as i64, "{x:e}");
    }
    for b in motifs(200) {
        assert_eq!(n(Flottant::naturel(b)), b as f64);
        assert_eq!(n(Flottant::entier(b as i64)), b as i64 as f64);
    }
    assert_eq!(n(Flottant::fraction(15, 100)), 0.15);
    assert_eq!(n(Flottant::fraction(-1, 3)), -1.0 / 3.0);
    assert_eq!(n(Flottant::nul()), 0.0);
}

#[test]
fn l_ecriture_courte_est_celle_de_la_machine() {
    for x in cas() {
        assert_eq!(texte(court(f(x))), x.to_string(), "{:x}", x.to_bits());
    }
}

/// Ce qui est écrit au plus court se relit à l'identique.
#[test]
fn l_ecriture_courte_revient() {
    for x in cas() {
        let relu = lire_flottant(&court(f(x))).unwrap();
        memes(relu, x, "relecture");
    }
}

#[test]
fn l_ecriture_fixe_est_celle_de_la_machine() {
    for x in cas() {
        for d in [0usize, 1, 2, 4] {
            assert_eq!(texte(fixe(f(x), d)), format!("{x:.d$}"), "{:x}", x.to_bits());
            assert_eq!(
                texte(fixe_avec_signe(f(x), d)),
                format!("{x:+.d$}"),
                "{:x}",
                x.to_bits()
            );
        }
    }
}

#[test]
fn la_lecture_est_celle_de_la_machine() {
    let mut ecrits: Vec<String> = [
        "", "+", "-", ".", "1", "1.", ".5", "-.5e3", "1e", "1e+", "1e5", "1E-5", "+3.25", "inf",
        "-INF", "Infinity", "nan", "NaN", "infinit", "1_000", "0x10", " 1", "1 ", "1e400",
        "1e-400", "2.2250738585072011e-308", "9007199254740993", "1e99999999999999999999",
        "0e99999999999999999999", "00012.500", "123456789012345678901234567890",
        "4.9406564584124654e-324", "2.4703282292062327e-324", "2.4703282292062328e-324",
    ]
    .iter()
    .map(|s| s.to_string())
    .collect();
    for x in cas() {
        ecrits.push(format!("{x:e}"));
        ecrits.push(format!("{x:.25e}"));
    }
    for s in ecrits {
        let attendu: Option<f64> = s.parse().ok();
        match (lire_flottant(&chars(&s)), attendu) {
            (Some(a), Some(b)) => memes(a, b, &s),
            (None, None) => {}
            (a, b) => panic!("{s:?} : {a:?} au lieu de {b:?}"),
        }
    }
}

#[test]
fn les_entiers_s_ecrivent_et_se_lisent() {
    for b in motifs(200) {
        assert_eq!(texte(ecrire(b)), b.to_string());
        let i = b as i64;
        assert_eq!(texte(ecrire_signe(i)), i.to_string());
        assert_eq!(lire_i64(&chars(&i.to_string())), Some(i));
    }
    for s in ["", "+", "-", "+7", "-0", "9223372036854775808", "-9223372036854775808", "1.0", "é"] {
        assert_eq!(lire_i64(&chars(s)), s.parse::<i64>().ok(), "{s:?}");
    }
}

#[test]
fn les_textes_se_decoupent_comme_ceux_de_std() {
    for s in ["", "\n", "a", "a\n", "a\nb", "a\r\nb\r\n", "\n\n", "a\r", "é\u{2028}b\nc"] {
        let lignes: Vec<String> = en_lignes(&chars(s)).into_iter().map(texte).collect();
        let attendu: Vec<String> = s.lines().map(str::to_string).collect();
        assert_eq!(lignes, attendu, "{s:?}");
        let champs: Vec<String> = couper(&chars(s), '\n').into_iter().map(texte).collect();
        let attendu: Vec<String> = s.split('\n').map(str::to_string).collect();
        assert_eq!(champs, attendu, "{s:?}");
    }
    for s in ["", "  ", "a b", "\u{a0}a\u{3000}b ", "\ta\n"] {
        assert_eq!(texte(rogner(&chars(s))), s.trim(), "{s:?}");
        let mots: Vec<String> = en_mots(&chars(s)).into_iter().map(texte).collect();
        let attendu: Vec<String> = s.split_whitespace().map(str::to_string).collect();
        assert_eq!(mots, attendu, "{s:?}");
    }
    assert_eq!(texte(majuscules(&chars("nq é 6e"))), "NQ é 6E".to_string());
    assert_eq!(texte(minuscules(&chars("OVER É"))), "over É".to_string());
}
