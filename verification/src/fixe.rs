//! Écriture décimale des entiers, et des flottants à nombre fixe de décimales.

use crate::flottant::{lemme_proche_proportion, lemme_proche_tronque, Flottant};
#[allow(unused_imports)]
use crate::flottant::au_plus_proche;
use crate::grand::{diviser_petit, est_nul, est_pair, multiplier_ajouter};
#[allow(unused_imports)]
use crate::grand::val;
use vstd::arithmetic::div_mod::*;
use vstd::arithmetic::mul::*;
use vstd::arithmetic::power::*;
use vstd::arithmetic::power2::*;
use vstd::prelude::*;

verus! {

/// Le caractère d'un chiffre.
pub open spec fn caractere(d: nat) -> char {
    (d + '0' as nat) as char
}

fn en_caractere(d: u32) -> (c: char)
    requires
        d < 10,
    ensures
        c == caractere(d as nat),
{
    (d as u8 + 48) as char
}

/// Les chiffres d'un entier, sans zéro de tête.
pub open spec fn ecrit(n: nat) -> Seq<char>
    decreases n,
{
    if n < 10 {
        seq![caractere(n)]
    } else {
        ecrit(n / 10).push(caractere(n % 10))
    }
}

/// Les chiffres d'un entier relatif.
pub open spec fn ecrit_relatif(n: int) -> Seq<char> {
    if n < 0 {
        seq!['-'] + ecrit((-n) as nat)
    } else {
        ecrit(n as nat)
    }
}

/// Les `k` derniers chiffres de `n`, zéros de tête compris.
pub open spec fn derniers(n: nat, k: nat) -> Seq<char>
    decreases k,
{
    if k == 0 {
        Seq::empty()
    } else {
        derniers(n / 10, (k - 1) as nat).push(caractere(n % 10))
    }
}

/// Écrit un entier.
pub fn ecrire(n: u64) -> (v: Vec<char>)
    ensures
        v@ == ecrit(n as nat),
{
    if n < 10 {
        let mut v: Vec<char> = Vec::new();
        v.push(en_caractere(n as u32));
        assert(v@ =~= ecrit(n as nat));
        v
    } else {
        ecrire_suite(n)
    }
}

fn ecrire_suite(n: u64) -> (v: Vec<char>)
    requires
        n >= 10,
    ensures
        v@ == ecrit(n as nat),
    decreases n,
{
    let mut v: Vec<char> = if n / 10 < 10 {
        let mut v: Vec<char> = Vec::new();
        v.push(en_caractere((n / 10) as u32));
        assert(v@ =~= ecrit((n / 10) as nat));
        v
    } else {
        ecrire_suite(n / 10)
    };
    v.push(en_caractere((n % 10) as u32));
    v
}

/// Écrit un entier relatif.
pub fn ecrire_signe(n: i64) -> (v: Vec<char>)
    ensures
        v@ == ecrit_relatif(n as int),
{
    if n < 0 {
        let mut v: Vec<char> = Vec::new();
        v.push('-');
        let mut suite: Vec<char> = ecrire((-(n as i128)) as u64);
        v.append(&mut suite);
        assert(v@ =~= ecrit_relatif(n as int));
        v
    } else {
        ecrire(n as u64)
    }
}

/// La valeur absolue à `n` décimales, comme entier : arrondie au plus proche, les
/// moitiés allant au pair.
pub open spec fn en_decimales(f: Flottant, n: nat) -> nat {
    au_plus_proche(f.magnitude() * pow(10, n) as nat, pow2(1074))
}

/// Un entier dont les `n` derniers chiffres suivent un point.
pub open spec fn avec_point(q: nat, n: nat) -> Seq<char> {
    if n == 0 {
        ecrit(q)
    } else {
        ecrit(q / pow(10, n) as nat) + seq!['.'] + derniers(q, n)
    }
}

/// Un flottant à nombre fixe de décimales.
pub open spec fn fixe_de(f: Flottant, n: nat) -> Seq<char> {
    if f.nan() {
        "NaN"@
    } else {
        let corps = if f.infini() {
            "inf"@
        } else {
            avec_point(en_decimales(f, n), n)
        };
        if f.negatif() {
            seq!['-'] + corps
        } else {
            corps
        }
    }
}

/// Le même, un nombre positif portant son signe.
pub open spec fn fixe_signe(f: Flottant, n: nat) -> Seq<char> {
    if f.nan() || f.negatif() {
        fixe_de(f, n)
    } else {
        seq!['+'] + fixe_de(f, n)
    }
}

/// Divise par `2^s`, arrondi au plus proche et au pair.
fn diviser_arrondi(v: &mut Vec<u32>, s: u32)
    requires
        s > 0,
    ensures
        val(final(v)@) == au_plus_proche(val(old(v)@), pow2(s as nat)),
{
    let ghost v0 = val(v@);
    let mut reste: bool = false;
    let mut j: u32 = 0;
    proof {
        lemma2_to64();
        assert(v0 / 1 == v0 && v0 % 1 == 0) by (nonlinear_arith);
    }
    while j < s - 1
        invariant
            0 <= j <= s - 1,
            val(v@) == v0 / pow2(j as nat),
            reste == (v0 % pow2(j as nat) != 0),
        decreases s - 1 - j,
    {
        let ghost avant = val(v@);
        let r: u32 = diviser_petit(v, 2);
        proof {
            let p = pow2(j as nat);
            lemma_pow2_pos(j as nat);
            lemma_pow2_unfold((j + 1) as nat);
            lemma_div_denominator(v0 as int, p as int, 2);
            lemma_mod_breakdown(v0 as int, p as int, 2);
            assert(p * 2 == pow2((j + 1) as nat));
            let t = v0 % p;
            let rr = r as nat;
            assert(v0 % (p * 2) == p * rr + t);
            assert(p * rr + t != 0 <==> (rr != 0 || t != 0)) by (nonlinear_arith)
                requires
                    p > 0,
            ;
        }
        if r != 0 {
            reste = true;
        }
        j = j + 1;
    }
    let ghost m = val(v@);
    let ghost p = pow2((s - 1) as nat);
    let bit: u32 = diviser_petit(v, 2);
    proof {
        lemma_pow2_pos((s - 1) as nat);
        lemma_pow2_unfold(s as nat);
        assert(p * 2 == pow2(s as nat));
        lemme_proche_tronque(v0, p, 2);
    }
    if bit == 1 && (reste || !est_pair(v)) {
        multiplier_ajouter(v, 1, 1);
    }
}

/// La valeur absolue à `n` décimales.
fn mettre_en_decimales(f: Flottant, n: usize) -> (v: Vec<u32>)
    requires
        f.fini(),
    ensures
        val(v@) == en_decimales(f, n as nat),
{
    let (m, k) = f.decomposer();
    let mut v: Vec<u32> = Vec::new();
    let haut: u32 = (m / 0x1_0000_0000) as u32;
    let bas: u32 = (m % 0x1_0000_0000) as u32;
    proof {
        assert(val(Seq::<u32>::empty()) == 0);
        assert(0nat * 1nat + haut as nat == haut as nat);
    }
    multiplier_ajouter(&mut v, 1, haut);
    multiplier_ajouter(&mut v, 0x8000_0000, 0);
    multiplier_ajouter(&mut v, 2, bas);
    assert(val(v@) == m as nat);
    let mut i: usize = 0;
    let ghost mm = m as nat;
    proof {
        lemma_pow0(10);
        let un = pow(10, 0) as nat;
        assert(mm * un == mm) by (nonlinear_arith)
            requires
                un == 1,
        ;
    }
    while i < n
        invariant
            i <= n,
            mm == m as nat,
            val(v@) == mm * pow(10, i as nat) as nat,
        decreases n - i,
    {
        proof {
            reveal(pow);
            lemma_pow_positive(10, i as nat);
            let p = pow(10, i as nat) as nat;
            assert(pow(10, (i + 1) as nat) == 10 * pow(10, i as nat));
            assert((mm * p) * 10 == mm * (10 * p)) by (nonlinear_arith);
        }
        multiplier_ajouter(&mut v, 10, 0);
        i += 1;
    }
    let ghost x = val(v@);
    let ghost dix = pow(10, n as nat) as nat;
    proof {
        lemma_pow_positive(10, n as nat);
        lemma_pow2_pos(k as nat);
        let pk = pow2(k as nat);
        assert((mm * pk) * dix == x * pk) by (nonlinear_arith)
            requires
                x == mm * dix,
        ;
    }
    if k < 1074 {
        proof {
            lemma_pow2_adds((1074 - k) as nat, k as nat);
            lemma_pow2_pos((1074 - k) as nat);
            lemme_proche_proportion(x, pow2((1074 - k) as nat), pow2(k as nat));
        }
        diviser_arrondi(&mut v, 1074 - k);
    } else {
        let mut j: u32 = 1074;
        proof {
            lemma2_to64();
            assert(x * pow2(0) == x);
        }
        while j < k
            invariant
                1074 <= j <= k,
                val(v@) == x * pow2((j - 1074) as nat),
            decreases k - j,
        {
            proof {
                let p = pow2((j - 1074) as nat);
                lemma_pow2_unfold((j + 1 - 1074) as nat);
                assert((x * p) * 2 == x * (2 * p)) by (nonlinear_arith);
            }
            multiplier_ajouter(&mut v, 2, 0);
            j = j + 1;
        }
        proof {
            let u = pow2(1074);
            let w = x * pow2((k - 1074) as nat);
            lemma_pow2_pos(1074);
            lemma_pow2_adds((k - 1074) as nat, 1074);
            assert(x * pow2(k as nat) == w * u) by (nonlinear_arith)
                requires
                    pow2(k as nat) == pow2((k - 1074) as nat) * u,
                    w == x * pow2((k - 1074) as nat),
            ;
            lemma_fundamental_div_mod_converse((w * u) as int, u as int, w as int, 0);
        }
    }
    v
}

proof fn lemme_derniers(n: nat, k: nat)
    ensures
        derniers(n, k + 1) == seq![caractere((n / pow(10, k) as nat) % 10)] + derniers(n, k),
    decreases k,
{
    reveal(pow);
    if k == 0 {
        reveal_with_fuel(derniers, 2);
        assert(n / 1 == n);
        assert(derniers(n, 1) =~= seq![caractere(n % 10)] + derniers(n, 0));
    } else {
        let k1 = (k - 1) as nat;
        lemme_derniers(n / 10, k1);
        lemma_pow_positive(10, k1);
        lemma_div_denominator(n as int, 10, pow(10, k1));
        assert(pow(10, k) == 10 * pow(10, k1));
        assert((n / 10) / pow(10, k1) as nat == n / pow(10, k) as nat);
        assert(derniers(n, k + 1) == derniers(n / 10, k).push(caractere(n % 10)));
        assert(derniers(n, k) == derniers(n / 10, k1).push(caractere(n % 10)));
        assert(derniers(n, k + 1) =~= seq![caractere((n / pow(10, k) as nat) % 10)] + derniers(
            n,
            k,
        ));
    }
}

/// Écrit un grand entier dont les `n` derniers chiffres suivent un point.
pub(crate) fn ecrire_avec_point(q: Vec<u32>, n: usize) -> (r: Vec<char>)
    ensures
        r@ == avec_point(val(q@), n as nat),
{
    let ghost q0 = val(q@);
    let mut v: Vec<u32> = q;
    // Les chiffres à l'envers, du dernier au premier.
    let mut envers: Vec<char> = Vec::new();
    let mut i: usize = 0;
    proof {
        reveal(pow);
        assert(q0 / 1 == q0);
        assert(envers@.reverse() =~= derniers(q0, 0));
    }
    while i < n
        invariant
            i <= n,
            val(v@) == q0 / pow(10, i as nat) as nat,
            envers@.reverse() == derniers(q0, i as nat),
            envers@.len() == i,
        decreases n - i,
    {
        proof {
            lemme_derniers(q0, i as nat);
            lemma_pow_positive(10, i as nat);
            lemma_div_denominator(q0 as int, pow(10, i as nat), 10);
            reveal(pow);
            assert(pow(10, (i + 1) as nat) == pow(10, i as nat) * 10);
        }
        let ghost avant = envers@;
        let r: u32 = diviser_petit(&mut v, 10);
        envers.push(en_caractere(r));
        proof {
            assert(envers@.reverse() =~= seq![caractere(r as nat)] + avant.reverse());
        }
        i += 1;
    }
    if n > 0 {
        let ghost avant = envers@;
        envers.push('.');
        assert(envers@.reverse() =~= seq!['.'] + avant.reverse());
    }
    let ghost suite = envers@.reverse();
    let ghost entier = val(v@);
    proof {
        if n == 0 {
            assert(suite =~= Seq::<char>::empty());
        }
        assert(ecrit(entier) + suite == ecrit(val(v@)) + envers@.reverse());
    }
    let mut fini: bool = false;
    while !fini
        invariant
            !fini ==> ecrit(entier) + suite == ecrit(val(v@)) + envers@.reverse(),
            fini ==> ecrit(entier) + suite == envers@.reverse(),
        decreases val(v@) + if fini { 0nat } else { 1nat },
    {
        let ghost avant = envers@;
        let ghost w = val(v@);
        let r: u32 = diviser_petit(&mut v, 10);
        envers.push(en_caractere(r));
        proof {
            assert(envers@.reverse() =~= seq![caractere(r as nat)] + avant.reverse());
            if w < 10 {
                assert(ecrit(w) + avant.reverse() =~= envers@.reverse());
            } else {
                assert(ecrit(w) == ecrit(w / 10).push(caractere(w % 10)));
                assert(ecrit(w) + avant.reverse() =~= ecrit(w / 10) + envers@.reverse());
            }
        }
        if est_nul(&v) {
            fini = true;
        }
    }
    let mut r: Vec<char> = Vec::new();
    let mut k: usize = envers.len();
    while k > 0
        invariant
            k <= envers@.len(),
            r@ =~= envers@.reverse().take(envers@.len() - k),
        decreases k,
    {
        k -= 1;
        r.push(envers[k]);
    }
    proof {
        assert(r@ =~= envers@.reverse());
        if n == 0 {
            lemma_pow0(10);
            assert(q0 / 1 == q0);
            assert(ecrit(entier) + suite =~= ecrit(entier));
        } else {
            assert(ecrit(entier) + suite =~= avec_point(q0, n as nat));
        }
    }
    r
}

/// Écrit un flottant à nombre fixe de décimales.
pub fn fixe(f: Flottant, n: usize) -> (v: Vec<char>)
    ensures
        v@ == fixe_de(f, n as nat),
{
    if f.est_nan() {
        return crate::texte::caracteres("NaN");
    }
    let mut corps: Vec<char> = if !f.est_fini() {
        crate::texte::caracteres("inf")
    } else {
        ecrire_avec_point(mettre_en_decimales(f, n), n)
    };
    if f.est_negatif() {
        let mut v: Vec<char> = Vec::new();
        v.push('-');
        v.append(&mut corps);
        assert(v@ =~= fixe_de(f, n as nat));
        v
    } else {
        corps
    }
}

/// Écrit un flottant à nombre fixe de décimales, toujours signé.
pub fn fixe_avec_signe(f: Flottant, n: usize) -> (v: Vec<char>)
    ensures
        v@ == fixe_signe(f, n as nat),
{
    let mut corps: Vec<char> = fixe(f, n);
    if f.est_nan() || f.est_negatif() {
        return corps;
    }
    let mut v: Vec<char> = Vec::new();
    v.push('+');
    v.append(&mut corps);
    assert(v@ =~= fixe_signe(f, n as nat));
    v
}

} // verus!
