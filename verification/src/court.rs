//! L'écriture décimale la plus courte qui se relise.

use crate::decimal::{puissance_dix, rapport_grand};
#[allow(unused_imports)]
use crate::decimal::{
    chiffre, chiffres_en_tete, decimal, exposant_ecrit, flottant_lu, meme_mot, minuscule,
    naturel_de, nombre_ecrit,
};
use crate::fixe::ecrire_avec_point;
#[allow(unused_imports)]
use crate::fixe::{avec_point, caractere, derniers, ecrit, ecrit_relatif};
use crate::flottant::Flottant;
#[allow(unused_imports)]
use crate::flottant::{
    arrondi, au_plus_proche, lemme_arrondi_nul, lemme_echelle, UNITE_CHAMP, non_nombre,
};
use crate::grand::{diviser_petit, est_nul, multiplier_ajouter};
#[allow(unused_imports)]
use crate::grand::val;
use vstd::arithmetic::div_mod::*;
use vstd::arithmetic::mul::*;
use vstd::arithmetic::power::*;
use vstd::arithmetic::power2::*;
use vstd::prelude::*;

verus! {

/// Le double de la valeur absolue, compté en multiples entiers de `10^e`.
pub open spec fn double_compte(f: Flottant, e: int) -> nat {
    if e < 0 {
        (2 * f.magnitude() * pow(10, (-e) as nat) as nat) / pow2(1074)
    } else {
        ((2 * f.magnitude()) / pow2(1074)) / pow(10, e as nat) as nat
    }
}

/// `c * 10^e` se relit comme la valeur absolue.
pub open spec fn relit(f: Flottant, c: nat, e: int) -> bool {
    c > 0 && decimal(false, c, e) == f.valeur_absolue()
}

/// Le multiple de `10^e` qui se relit, s'il y en a un parmi les deux qui encadrent la
/// valeur : le plus proche si les deux se relisent.
pub open spec fn choix(f: Flottant, e: int) -> Option<nat> {
    let t = double_compte(f, e);
    let c = t / 2;
    if relit(f, c, e) && (t % 2 == 0 || !relit(f, c + 1, e)) {
        Some(c)
    } else if relit(f, c + 1, e) {
        Some(c + 1)
    } else {
        None
    }
}

/// Le plus grand exposant, à partir de `e`, dont un multiple se relit.
pub open spec fn exposant_court(f: Flottant, e: int) -> int
    decreases e + 1074,
{
    if e <= -1074 || choix(f, e) is Some {
        e
    } else {
        exposant_court(f, e - 1)
    }
}

/// Les chiffres de la partie entière : au-delà de leur nombre, un multiple de `10^e`
/// dépasse dix fois la valeur.
pub open spec fn chiffres_entiers(f: Flottant) -> nat {
    ecrit(f.magnitude() / pow2(1074)).len()
}

/// Une suite de zéros.
pub open spec fn zeros(n: nat) -> Seq<char> {
    Seq::new(n, |i: int| '0')
}

/// Le texte de `c * 10^e`.
pub open spec fn texte_multiple(c: nat, e: int) -> Seq<char> {
    if e >= 0 {
        ecrit(c) + zeros(e as nat)
    } else {
        avec_point(c, (-e) as nat)
    }
}

/// Le texte de la valeur absolue d'un nombre fini.
pub open spec fn corps_court(f: Flottant) -> Seq<char> {
    if f.rang() == 0 {
        "0"@
    } else {
        let e = exposant_court(f, chiffres_entiers(f) as int);
        texte_multiple(choix(f, e)->Some_0, e)
    }
}

/// L'écriture la plus courte d'un flottant.
pub open spec fn court_de(f: Flottant) -> Seq<char> {
    if f.nan() {
        "NaN"@
    } else {
        let corps = if f.infini() {
            "inf"@
        } else {
            corps_court(f)
        };
        if f.negatif() {
            seq!['-'] + corps
        } else {
            corps
        }
    }
}

/// Un nombre fini est l'arrondi de sa propre valeur.
pub proof fn un_nombre_fini_est_son_arrondi(f: Flottant, c: nat)
    requires
        f.fini(),
        c > 0,
    ensures
        arrondi(f.negatif(), f.magnitude() * c, c) == f,
        arrondi(false, f.magnitude() * c, c) == f.valeur_absolue(),
{
    reveal(arrondi);
    reveal(Flottant::magnitude);
    let (m, k) = (f.mantisse(), f.pas());
    let p = pow2(k);
    let n = (m * p) * c;
    lemma_pow2_pos(k);
    lemma_pow2_pos(53 + k);
    lemma2_to64_rest();
    lemma_pow2_adds(53, k);
    assert(n < c * pow2(53 + k)) by (nonlinear_arith)
        requires
            n == (m * p) * c,
            m < 0x20_0000_0000_0000,
            pow2(53 + k) == 0x20_0000_0000_0000 * p,
            p > 0,
            c > 0,
    {
        assert(m * p < 0x20_0000_0000_0000 * p);
    }
    if k > 0 {
        lemma_pow2_adds(52, k);
        assert(n >= c * pow2((52 + k) as nat)) by (nonlinear_arith)
            requires
                n == (m * p) * c,
                m >= 0x10_0000_0000_0000,
                pow2((52 + k) as nat) == 0x10_0000_0000_0000 * p,
        {
            assert(m * p >= 0x10_0000_0000_0000 * p);
        }
    }
    lemme_echelle(n, c, k);
    lemma_mul_strictly_positive(c as int, p as int);
    assert(n == m * (c * p)) by (nonlinear_arith)
        requires
            n == (m * p) * c,
    ;
    lemma_fundamental_div_mod_converse(n as int, (c * p) as int, m as int, 0);
    assert(au_plus_proche(n, c * p) == m);
    assert(k * UNITE_CHAMP + m == f.rang()) by (nonlinear_arith)
        requires
            f.rang() < UNITE_CHAMP ==> k == 0 && m == f.rang(),
            f.rang() >= UNITE_CHAMP ==> k == f.rang() / (UNITE_CHAMP as int) - 1 && m == f.rang() % (
            UNITE_CHAMP as int) + UNITE_CHAMP,
            f.rang() >= 0,
            UNITE_CHAMP == 0x10_0000_0000_0000,
    ;
}

/// À l'exposant le plus bas, la valeur est un multiple exact, et se relit.
proof fn lemme_exact(f: Flottant)
    requires
        f.fini(),
        f.rang() != 0,
    ensures
        choix(f, -1074) is Some,
{
    let u = pow2(1074);
    let dix = pow(10, 1074) as nat;
    let cinq = pow(5, 1074) as nat;
    let g = f.magnitude();
    lemma_pow2_pos(1074);
    lemma_pow_positive(10, 1074);
    lemma_pow_positive(5, 1074);
    lemma_pow_distributes(5, 2, 1074);
    lemma_pow2(1074);
    assert(dix == cinq * u);
    crate::flottant::lemme_magnitude_nulle(f);
    let c = g * cinq;
    assert(2 * g * dix == (2 * c) * u) by (nonlinear_arith)
        requires
            dix == cinq * u,
            c == g * cinq,
    ;
    lemma_fundamental_div_mod_converse((2 * g * dix) as int, u as int, (2 * c) as int, 0);
    assert(double_compte(f, -1074) == 2 * c);
    assert(c > 0) by (nonlinear_arith)
        requires
            c == g * cinq,
            g > 0,
            cinq > 0,
    ;
    assert(c * u == g * dix) by (nonlinear_arith)
        requires
            dix == cinq * u,
            c == g * cinq,
    ;
    un_nombre_fini_est_son_arrondi(f, dix);
    reveal(decimal);
    assert(relit(f, c, -1074));
}

proof fn lemme_exposant_court(f: Flottant, e: int)
    requires
        f.fini(),
        f.rang() != 0,
        e >= -1074,
    ensures
        choix(f, exposant_court(f, e)) is Some,
        -1074 <= exposant_court(f, e) <= e,
    decreases e + 1074,
{
    if e <= -1074 {
        lemme_exact(f);
    } else if choix(f, e) is None {
        lemme_exposant_court(f, e - 1);
    }
}

/// `v * 2^pas / 2^1074`, tronqué.
fn decaler(v: &mut Vec<u32>, pas: u32)
    requires
        pas <= 2045,
    ensures
        val(final(v)@) == (val(old(v)@) * pow2(pas as nat)) / pow2(1074),
{
    let ghost x = val(v@);
    let ghost u = pow2(1074);
    proof {
        lemma_pow2_pos(1074);
        lemma_pow2_pos(pas as nat);
        lemma2_to64();
    }
    if pas >= 1074 {
        let mut j: u32 = 1074;
        assert(x * pow2(0) == x);
        while j < pas
            invariant
                1074 <= j <= pas,
                val(v@) == x * pow2((j - 1074) as nat),
            decreases pas - j,
        {
            proof {
                let p = pow2((j - 1074) as nat);
                lemma_pow2_unfold((j + 1 - 1074) as nat);
                assert((x * p) * 2 == x * (2 * p)) by (nonlinear_arith);
            }
            multiplier_ajouter(v, 2, 0);
            j = j + 1;
        }
        proof {
            let w = pow2((pas - 1074) as nat);
            lemma_pow2_adds((pas - 1074) as nat, 1074);
            assert(x * pow2(pas as nat) == (x * w) * u) by (nonlinear_arith)
                requires
                    pow2(pas as nat) == w * u,
            ;
            lemma_fundamental_div_mod_converse(
                ((x * w) * u) as int,
                u as int,
                (x * w) as int,
                0,
            );
        }
    } else {
        let mut j: u32 = 0;
        assert(x / 1 == x);
        while j < 1074 - pas
            invariant
                pas < 1074,
                0 <= j <= 1074 - pas,
                val(v@) == x / pow2(j as nat),
            decreases 1074 - pas - j,
        {
            let ghost p = pow2(j as nat);
            let _r: u32 = diviser_petit(v, 2);
            proof {
                lemma_pow2_pos(j as nat);
                lemma_pow2_unfold((j + 1) as nat);
                lemma_div_denominator(x as int, p as int, 2);
                assert(p * 2 == pow2((j + 1) as nat));
            }
            j = j + 1;
        }
        proof {
            let s = pow2((1074 - pas) as nat);
            let p = pow2(pas as nat);
            lemma_pow2_pos((1074 - pas) as nat);
            lemma_pow2_adds((1074 - pas) as nat, pas as nat);
            lemma_fundamental_div_mod(x as int, s as int);
            let q = x / s;
            let r = x % s;
            assert(x * p == q * (s * p) + r * p) by (nonlinear_arith)
                requires
                    x == s * q + r,
            ;
            assert(0 <= r * p < s * p) by (nonlinear_arith)
                requires
                    0 <= r < s,
                    p > 0,
            ;
            lemma_fundamental_div_mod_converse(
                (x * p) as int,
                (s * p) as int,
                q as int,
                (r * p) as int,
            );
        }
    }
}

/// Le double de la mantisse, comme grand entier.
fn double_mantisse(m: u64) -> (v: Vec<u32>)
    ensures
        val(v@) == 2 * m as nat,
{
    let mut v: Vec<u32> = Vec::new();
    let haut: u32 = (m / 0x1_0000_0000) as u32;
    let bas: u32 = (m % 0x1_0000_0000) as u32;
    proof {
        assert(val(Seq::<u32>::empty()) == 0);
        assert(0nat * 1nat + haut as nat == haut as nat);
    }
    multiplier_ajouter(&mut v, 1, haut);
    multiplier_ajouter(&mut v, 0x8000_0000, 0);
    multiplier_ajouter(&mut v, 2, bas);
    assert(val(v@) == m as nat);
    multiplier_ajouter(&mut v, 2, 0);
    v
}

fn compter_double(f: Flottant, e: i32) -> (v: Vec<u32>)
    requires
        f.fini(),
        -1074 <= e <= 400,
    ensures
        val(v@) == double_compte(f, e as int),
{
    let (m, pas) = f.decomposer();
    let mut v: Vec<u32> = double_mantisse(m);
    let ghost mm = m as nat;
    let ghost p = pow2(pas as nat);
    if e < 0 {
        let k: u32 = (-e) as u32;
        let mut i: u32 = 0;
        proof {
            lemma_pow0(10);
            let un = pow(10, 0) as nat;
            assert((2 * mm) * un == 2 * mm) by (nonlinear_arith)
                requires
                    un == 1,
            ;
        }
        while i < k
            invariant
                i <= k,
                val(v@) == (2 * mm) * pow(10, i as nat) as nat,
            decreases k - i,
        {
            proof {
                reveal(pow);
                lemma_pow_positive(10, i as nat);
                let q = pow(10, i as nat) as nat;
                assert(pow(10, (i + 1) as nat) == 10 * pow(10, i as nat));
                assert(((2 * mm) * q) * 10 == (2 * mm) * (10 * q)) by (nonlinear_arith);
            }
            multiplier_ajouter(&mut v, 10, 0);
            i = i + 1;
        }
        proof {
            let dix = pow(10, k as nat) as nat;
            assert(((2 * mm) * dix) * p == 2 * (mm * p) * dix) by (nonlinear_arith);
        }
        decaler(&mut v, pas);
        v
    } else {
        proof {
            assert((2 * mm) * p == 2 * (mm * p)) by (nonlinear_arith);
        }
        decaler(&mut v, pas);
        let ghost entier = val(v@);
        let mut i: i32 = 0;
        proof {
            lemma_pow0(10);
            assert(entier / 1 == entier);
        }
        while i < e
            invariant
                0 <= i <= e,
                val(v@) == entier / pow(10, i as nat) as nat,
            decreases e - i,
        {
            let ghost q = pow(10, i as nat);
            let _r: u32 = diviser_petit(&mut v, 10);
            proof {
                lemma_pow_positive(10, i as nat);
                lemma_div_denominator(entier as int, q, 10);
                reveal(pow);
                assert(pow(10, (i + 1) as nat) == q * 10);
            }
            i = i + 1;
        }
        v
    }
}

/// `c * 10^e` se relit-il comme la valeur absolue ?
fn relire(f: Flottant, c: &Vec<u32>, e: i32) -> (b: bool)
    requires
        -1074 <= e <= 400,
    ensures
        b == relit(f, val(c@), e as int),
{
    if est_nul(c) {
        return false;
    }
    let ghost m = val(c@);
    let mut num: Vec<u32> = c.clone();
    assert(num@ =~= c@);
    proof {
        reveal(decimal);
    }
    let lu: Flottant = if e >= 0 {
        let mut k: i32 = 0;
        proof {
            lemma_pow0(10);
            let un = pow(10, 0) as nat;
            assert(m * un == m) by (nonlinear_arith)
                requires
                    un == 1,
            ;
        }
        while k < e
            invariant
                0 <= k <= e,
                val(num@) == m * pow(10, k as nat) as nat,
            decreases e - k,
        {
            proof {
                reveal(pow);
                lemma_pow_positive(10, k as nat);
                let p = pow(10, k as nat) as nat;
                assert(pow(10, (k + 1) as nat) == 10 * pow(10, k as nat));
                assert((m * p) * 10 == m * (10 * p)) by (nonlinear_arith);
            }
            multiplier_ajouter(&mut num, 10, 0);
            k = k + 1;
        }
        let den: Vec<u32> = puissance_dix(0);
        proof {
            lemma_pow0(10);
            lemma_pow_positive(10, e as nat);
            let p = pow(10, e as nat) as nat;
            assert(m * p > 0) by (nonlinear_arith)
                requires
                    m > 0,
                    p > 0,
            ;
        }
        rapport_grand(false, num, den)
    } else {
        let den: Vec<u32> = puissance_dix((-e) as u128);
        proof {
            lemma_pow_positive(10, (-e) as nat);
        }
        rapport_grand(false, num, den)
    };
    lu == f.abs()
}

fn choisir(f: Flottant, e: i32) -> (r: Option<Vec<u32>>)
    requires
        f.fini(),
        -1074 <= e <= 400,
    ensures
        match r {
            Some(c) => choix(f, e as int) == Some(val(c@)),
            None => choix(f, e as int) is None,
        },
{
    let mut bas: Vec<u32> = compter_double(f, e);
    let demi: u32 = diviser_petit(&mut bas, 2);
    let mut haut: Vec<u32> = bas.clone();
    assert(haut@ =~= bas@);
    multiplier_ajouter(&mut haut, 1, 1);
    let b: bool = relire(f, &bas, e);
    let h: bool = relire(f, &haut, e);
    if b && (demi == 0 || !h) {
        Some(bas)
    } else if h {
        Some(haut)
    } else {
        None
    }
}

proof fn lemme_longueur(n: nat, k: nat)
    requires
        k >= 1,
        n < pow(10, k),
    ensures
        ecrit(n).len() <= k,
    decreases k,
{
    reveal(pow);
    if n >= 10 {
        assert(k > 1) by {
            if k == 1 {
                lemma_pow1(10);
            }
        }
        lemma_pow_positive(10, (k - 1) as nat);
        assert(pow(10, k) == 10 * pow(10, (k - 1) as nat));
        lemme_longueur(n / 10, (k - 1) as nat);
    }
}

proof fn lemme_chiffres_entiers(f: Flottant)
    requires
        f.fini(),
    ensures
        chiffres_entiers(f) <= 400,
{
    reveal(Flottant::magnitude);
    let (m, k) = (f.mantisse(), f.pas());
    let u = pow2(1074);
    lemma2_to64_rest();
    lemma_pow2_pos(1074);
    lemma_pow2_pos(k);
    if k < 2045 {
        lemma_pow2_strictly_increases(k, 2045);
    }
    lemma_pow2_adds(53, 2045);
    lemma_pow2_adds(1024, 1074);
    assert(m * pow2(k) < pow2(1024) * u) by (nonlinear_arith)
        requires
            m < 0x20_0000_0000_0000,
            pow2(k) <= pow2(2045),
            0x20_0000_0000_0000 * pow2(2045) == pow2(1024) * u,
            pow2(k) > 0,
    {
        assert(m * pow2(k) < 0x20_0000_0000_0000 * pow2(k));
        assert(0x20_0000_0000_0000 * pow2(k) <= 0x20_0000_0000_0000 * pow2(2045));
    }
    let g = f.magnitude();
    lemma_fundamental_div_mod(g as int, u as int);
    let q = g / u;
    assert(q < pow2(1024)) by (nonlinear_arith)
        requires
            g < pow2(1024) * u,
            g == u * q + g % u,
            g % u >= 0,
            u > 0,
    ;
    crate::decimal::lemme_dix_et_deux(400);
    lemma_pow2_strictly_increases(1024, 1200);
    lemme_longueur(q, 400);
}

fn compter_chiffres_entiers(f: Flottant) -> (n: i32)
    requires
        f.fini(),
    ensures
        n == chiffres_entiers(f),
        n <= 400,
{
    let (m, pas) = f.decomposer();
    let mut v: Vec<u32> = double_mantisse(m);
    let _r: u32 = diviser_petit(&mut v, 2);
    decaler(&mut v, pas);
    let t: Vec<char> = ecrire_avec_point(v, 0);
    proof {
        lemme_chiffres_entiers(f);
    }
    t.len() as i32
}

/// Écrit un flottant au plus court.
pub fn court(f: Flottant) -> (v: Vec<char>)
    ensures
        v@ == court_de(f),
{
    if f.est_nan() {
        return crate::texte::caracteres("NaN");
    }
    let mut corps: Vec<char> = if !f.est_fini() {
        crate::texte::caracteres("inf")
    } else if f.abs().bits == 0 {
        crate::texte::caracteres("0")
    } else {
        ecrire_corps(f)
    };
    if f.est_negatif() {
        let mut v: Vec<char> = Vec::new();
        v.push('-');
        v.append(&mut corps);
        assert(v@ =~= court_de(f));
        v
    } else {
        corps
    }
}

fn ecrire_corps(f: Flottant) -> (v: Vec<char>)
    requires
        f.fini(),
        f.rang() != 0,
    ensures
        v@ == corps_court(f),
{
    let depart: i32 = compter_chiffres_entiers(f);
    let mut e: i32 = depart;
    let mut c: Option<Vec<u32>> = choisir(f, e);
    while c.is_none()
        invariant
            f.fini(),
            f.rang() != 0,
            -1074 <= e <= depart <= 400,
            exposant_court(f, depart as int) == exposant_court(f, e as int),
            match c {
                Some(x) => choix(f, e as int) == Some(val(x@)),
                None => choix(f, e as int) is None,
            },
        decreases e + 1074,
    {
        proof {
            if e == -1074 {
                lemme_exact(f);
            }
        }
        e = e - 1;
        c = choisir(f, e);
    }
    let x: Vec<u32> = c.unwrap();
    if e >= 0 {
        let mut v: Vec<char> = ecrire_avec_point(x, 0);
        let ghost tete = v@;
        let mut k: i32 = 0;
        while k < e
            invariant
                0 <= k <= e,
                v@ =~= tete + zeros(k as nat),
            decreases e - k,
        {
            v.push('0');
            k = k + 1;
        }
        v
    } else {
        ecrire_avec_point(x, (-e) as usize)
    }
}

proof fn lemme_ecrit_chiffres(n: nat)
    ensures
        ecrit(n).len() >= 1,
        forall|i: int| 0 <= i < ecrit(n).len() ==> chiffre(#[trigger] ecrit(n)[i]),
        naturel_de(ecrit(n)) == n,
    decreases n,
{
    if n < 10 {
        reveal_with_fuel(naturel_de, 2);
        assert(ecrit(n).drop_last() =~= Seq::<char>::empty());
    } else {
        lemme_ecrit_chiffres(n / 10);
        let t = ecrit(n / 10);
        assert(ecrit(n).drop_last() =~= t);
        assert forall|i: int| 0 <= i < ecrit(n).len() implies chiffre(#[trigger] ecrit(n)[i]) by {
            if i < t.len() {
                assert(ecrit(n)[i] == t[i]);
            }
        }
    }
}

/// Accoler `k` chiffres décale d'autant de rangs.
proof fn lemme_accoler(a: Seq<char>, n: nat, k: nat)
    ensures
        naturel_de(a + derniers(n, k)) == naturel_de(a) * pow(10, k) + n % pow(10, k) as nat,
        forall|i: int| 0 <= i < k ==> chiffre(#[trigger] derniers(n, k)[i]),
        derniers(n, k).len() == k,
    decreases k,
{
    reveal(pow);
    if k == 0 {
        assert(a + derniers(n, 0) =~= a);
        assert(n % 1 == 0);
    } else {
        let k1 = (k - 1) as nat;
        let p = pow(10, k1) as nat;
        lemma_pow_positive(10, k1);
        lemme_accoler(a, n / 10, k1);
        let d1 = derniers(n / 10, k1);
        let d = derniers(n, k);
        assert((a + d).drop_last() =~= a + d1);
        assert((a + d).last() == caractere(n % 10));
        assert(pow(10, k) == 10 * pow(10, k1));
        let na = naturel_de(a);
        let r1 = (n / 10) % p;
        lemma_mod_breakdown(n as int, 10, p as int);
        assert(n % (10 * p) == 10 * r1 + n % 10);
        assert(10 * (na * p + r1) + n % 10 == na * (10 * p) + (10 * r1 + n % 10))
            by (nonlinear_arith);
        assert forall|i: int| 0 <= i < k implies chiffre(#[trigger] d[i]) by {
            if i < k1 {
                assert(d[i] == d1[i]);
            }
        }
    }
}

proof fn lemme_tete_pleine(a: Seq<char>, suite: Seq<char>)
    requires
        forall|i: int| 0 <= i < a.len() ==> chiffre(#[trigger] a[i]),
        suite.len() == 0 || !chiffre(suite[0]),
    ensures
        chiffres_en_tete(a + suite) == a.len(),
    decreases a.len(),
{
    if a.len() == 0 {
        assert(a + suite =~= suite);
    } else {
        assert((a + suite)[0] == a[0]);
        assert((a + suite).skip(1) =~= a.skip(1) + suite);
        assert forall|i: int| 0 <= i < a.skip(1).len() implies chiffre(#[trigger] a.skip(1)[i]) by {
            assert(a.skip(1)[i] == a[i + 1]);
        }
        lemme_tete_pleine(a.skip(1), suite);
    }
}

proof fn lemme_texte_multiple(c: nat, e: int)
    ensures
        ({
            let t = texte_multiple(c, e);
            &&& nombre_ecrit(t) matches Some((chiffres, x)) && decimal(
                false,
                naturel_de(chiffres),
                x,
            ) == decimal(false, c, e) && decimal(true, naturel_de(chiffres), x) == decimal(
                true,
                c,
                e,
            )
            &&& t.len() > 0
            &&& chiffre(t[0])
        }),
{
    reveal(nombre_ecrit);
    reveal(exposant_ecrit);
    reveal(decimal);
    let t = texte_multiple(c, e);
    if e >= 0 {
        let a = ecrit(c);
        lemme_ecrit_chiffres(c);
        lemme_zeros(a, e as nat);
        lemme_tete_pleine(t, Seq::empty());
        assert(t + Seq::<char>::empty() =~= t);
        assert(t.skip(t.len() as int) =~= Seq::<char>::empty());
        assert(t.take(t.len() as int) + Seq::<char>::empty() =~= t);
        lemma_pow0(10);
        let p = pow(10, e as nat) as nat;
        let un = pow(10, 0) as nat;
        assert((c * p) * un == c * p) by (nonlinear_arith)
            requires
                un == 1,
        ;
        lemma_pow_positive(10, e as nat);
    } else {
        let k = (-e) as nat;
        let p = pow(10, k) as nat;
        lemma_pow_positive(10, k);
        let a = ecrit(c / p);
        let d = derniers(c, k);
        lemme_ecrit_chiffres(c / p);
        lemme_accoler(a, c, k);
        lemma_fundamental_div_mod(c as int, p as int);
        lemma_mul_is_commutative((c / p) as int, p as int);
        let suite = seq!['.'] + d;
        assert(t =~= a + suite);
        lemme_tete_pleine(a, suite);
        let apres = t.skip(a.len() as int);
        assert(apres =~= suite);
        assert(apres.skip(1) =~= d);
        lemme_tete_pleine(d, Seq::empty());
        assert(d + Seq::<char>::empty() =~= d);
        assert(d.take(d.len() as int) =~= d);
        assert(d.skip(d.len() as int) =~= Seq::<char>::empty());
        assert(t.take(a.len() as int) =~= a);
        assert(t[0] == a[0]);
    }
}

proof fn lemme_zeros(a: Seq<char>, k: nat)
    requires
        forall|i: int| 0 <= i < a.len() ==> chiffre(#[trigger] a[i]),
    ensures
        naturel_de(a + zeros(k)) == naturel_de(a) * pow(10, k) as nat,
        forall|i: int| 0 <= i < (a + zeros(k)).len() ==> chiffre(#[trigger] (a + zeros(k))[i]),
    decreases k,
{
    reveal(pow);
    if k == 0 {
        assert(a + zeros(0) =~= a);
        let (n, un) = (naturel_de(a), pow(10, 0) as nat);
        assert(n * un == n) by (nonlinear_arith)
            requires
                un == 1,
        ;
    } else {
        let k1 = (k - 1) as nat;
        lemme_zeros(a, k1);
        lemma_pow_positive(10, k1);
        assert((a + zeros(k)).drop_last() =~= a + zeros(k1));
        assert((a + zeros(k)).last() == '0');
        let (n, p) = (naturel_de(a), pow(10, k1) as nat);
        assert(pow(10, k) == 10 * pow(10, k1));
        assert(10 * (n * p) == n * (10 * p)) by (nonlinear_arith);
    }
}

/// Ce qui est écrit au plus court se relit à l'identique ; un non-nombre se relit comme
/// le non-nombre usuel.
pub proof fn l_ecriture_courte_se_relit(f: Flottant)
    ensures
        flottant_lu(court_de(f)) == Some(
            if f.nan() {
                non_nombre()
            } else {
                f
            },
        ),
{
    if f.nan() {
        let s = court_de(f);
        reveal_strlit("NaN");
        reveal_strlit("nan");
        reveal_strlit("inf");
        reveal_strlit("infinity");
        reveal(nombre_ecrit);
        reveal(exposant_ecrit);
        assert(s[0] == 'N');
        assert(chiffres_en_tete(s) == 0);
        assert(s.skip(0) =~= s);
        assert(minuscule(s[0]) == 'n');
        assert(minuscule(s[1]) == 'a');
        assert(minuscule(s[2]) == 'n');
        assert("inf"@[0] == 'i');
        assert(!meme_mot(s, "inf"@));
        assert(!meme_mot(s, "infinity"@));
        assert(meme_mot(s, "nan"@));
    } else {
        lemme_nombre_se_relit(f);
    }
}

proof fn lemme_nombre_se_relit(f: Flottant)
    requires
        !f.nan(),
    ensures
        flottant_lu(court_de(f)) == Some(f),
{
    let s = court_de(f);
    let corps = if f.infini() {
        "inf"@
    } else {
        corps_court(f)
    };
    reveal_strlit("inf");
    reveal_strlit("0");
    if f.negatif() {
        assert(s.skip(1) =~= corps);
    }
    if f.infini() {
        reveal(nombre_ecrit);
        reveal(exposant_ecrit);
        assert(corps[0] == 'i');
        assert(chiffres_en_tete(corps) == 0);
        assert(corps.skip(0) =~= corps);
        assert(meme_mot(corps, "inf"@));
    } else if f.rang() == 0 {
        lemme_ecrit_chiffres(0);
        lemme_texte_multiple(0, 0);
        assert(texte_multiple(0, 0) =~= corps);
        reveal(decimal);
        lemma_pow0(10);
        lemma2_to64();
        let n = (0nat * pow(10, 0) as nat) * pow2(1074);
        assert(n == 0) by (nonlinear_arith)
            requires
                n == (0nat * pow(10, 0) as nat) * pow2(1074),
        ;
        assert(n * pow2(0) == 0);
        lemme_arrondi_nul(f.negatif(), n, 1, 0);
    } else {
        lemme_chiffres_entiers(f);
        let e0 = chiffres_entiers(f) as int;
        lemme_exposant_court(f, e0);
        let e = exposant_court(f, e0);
        let c = choix(f, e)->Some_0;
        lemme_texte_multiple(c, e);
        lemme_signe_separe(c, e);
    }
}

/// Le signe ne change rien à l'arrondi de la valeur absolue.
proof fn lemme_signe_separe(c: nat, e: int)
    ensures
        decimal(true, c, e).rang() == decimal(false, c, e).rang(),
        decimal(true, c, e).negatif(),
        !decimal(false, c, e).negatif(),
{
    reveal(decimal);
    reveal(arrondi);
}

/// Un entier écrit se relit : c'est le même, sans signe devant.
pub proof fn l_ecriture_d_un_entier_se_relit(n: nat)
    ensures
        crate::texte::entier_lu(ecrit(n)) == Some(n as int),
{
    lemme_ecrit_chiffres(n);
    assert(chiffre(ecrit(n)[0]));
}

/// Un caractère dont une écriture de nombre est faite.
pub open spec fn signe_de_nombre(c: char) -> bool {
    chiffre(c) || c == '-' || c == '.' || c == 'i' || c == 'n' || c == 'f' || c == 'N' || c == 'a'
}

/// Un texte qui n'est fait que de ces caractères.
pub open spec fn que_des_signes(s: Seq<char>) -> bool {
    forall|i: int| 0 <= i < s.len() ==> signe_de_nombre(#[trigger] s[i])
}

proof fn lemme_signes_derniers(n: nat, k: nat)
    ensures
        que_des_signes(derniers(n, k)),
    decreases k,
{
    if k > 0 {
        lemme_signes_derniers(n / 10, (k - 1) as nat);
    }
}

proof fn lemme_signes_ecrit(n: nat)
    ensures
        que_des_signes(ecrit(n)),
        ecrit(n).len() > 0,
{
    lemme_ecrit_chiffres(n);
    assert forall|i: int| 0 <= i < ecrit(n).len() implies signe_de_nombre(#[trigger] ecrit(n)[i]) by {
        assert(chiffre(ecrit(n)[i]));
    }
}

/// L'écriture d'un entier n'est jamais vide, et ne porte ni blanc ni séparateur.
pub proof fn un_entier_ecrit_est_propre(n: int)
    ensures
        ecrit_relatif(n).len() > 0,
        que_des_signes(ecrit_relatif(n)),
{
    if n < 0 {
        lemme_signes_ecrit((-n) as nat);
        let s = ecrit_relatif(n);
        assert forall|i: int| 0 <= i < s.len() implies signe_de_nombre(#[trigger] s[i]) by {
            if i > 0 {
                assert(s[i] == ecrit((-n) as nat)[i - 1]);
            }
        }
    } else {
        lemme_signes_ecrit(n as nat);
    }
}

/// L'écriture la plus courte n'est jamais vide, et ne porte ni blanc ni séparateur.
pub proof fn une_ecriture_courte_est_propre(f: Flottant)
    ensures
        court_de(f).len() > 0,
        que_des_signes(court_de(f)),
{
    reveal_strlit("NaN");
    reveal_strlit("inf");
    reveal_strlit("0");
    assert("NaN"@ =~= seq!['N', 'a', 'N']);
    assert("inf"@ =~= seq!['i', 'n', 'f']);
    assert("0"@ =~= seq!['0']);
    let corps = if f.nan() {
        "NaN"@
    } else if f.infini() {
        "inf"@
    } else {
        corps_court(f)
    };
    assert(corps.len() > 0 && que_des_signes(corps)) by {
        if !f.nan() && !f.infini() && f.rang() != 0 {
            let e = exposant_court(f, chiffres_entiers(f) as int);
            let c = choix(f, e)->Some_0;
            if e >= 0 {
                lemme_signes_ecrit(c);
                let z = zeros(e as nat);
                assert forall|i: int| 0 <= i < corps.len() implies signe_de_nombre(
                    #[trigger] corps[i],
                ) by {
                    if i < ecrit(c).len() {
                        assert(corps[i] == ecrit(c)[i]);
                    } else {
                        assert(corps[i] == z[i - ecrit(c).len()]);
                    }
                }
            } else {
                let n = (-e) as nat;
                let q = c / pow(10, n) as nat;
                lemme_signes_ecrit(q);
                lemme_signes_derniers(c, n);
                let d = derniers(c, n);
                assert(corps =~= ecrit(q) + seq!['.'] + d);
                assert forall|i: int| 0 <= i < corps.len() implies signe_de_nombre(
                    #[trigger] corps[i],
                ) by {
                    if i < ecrit(q).len() {
                        assert(corps[i] == ecrit(q)[i]);
                    } else if i > ecrit(q).len() {
                        assert(corps[i] == d[i - ecrit(q).len() - 1]);
                    }
                }
            }
        }
    }
    let s = court_de(f);
    assert forall|i: int| 0 <= i < s.len() implies signe_de_nombre(#[trigger] s[i]) by {
        if !f.nan() && f.negatif() {
            if i > 0 {
                assert(s[i] == corps[i - 1]);
            }
        } else {
            assert(s[i] == corps[i]);
        }
    }
}

} // verus!
