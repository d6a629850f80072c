//! Lecture d'un nombre écrit en décimal.
//!
//! La grammaire est celle des flottants de la bibliothèque standard : un signe, des
//! chiffres avec ou sans point, un exposant, ou bien `inf`, `infinity`, `nan` sans
//! égard à la casse. La valeur lue est l'arrondi exact de celle qui est écrite.

use crate::flottant::{assembler, lemme_arrondi_nul, Flottant, BIT_SIGNE, CODE_INFINI, CODE_NON_NOMBRE};
#[allow(unused_imports)]
use crate::flottant::{arrondi, echelle, non_nombre, signer, UNITE_CHAMP};
use crate::grand::{au_moins, completer, est_nul, multiplier_ajouter, soustraire};
#[allow(unused_imports)]
use crate::grand::val;
use vstd::arithmetic::div_mod::*;
use vstd::arithmetic::mul::*;
use vstd::arithmetic::power::*;
use vstd::arithmetic::power2::*;
use vstd::prelude::*;

verus! {

/// Un chiffre décimal.
pub open spec fn chiffre(c: char) -> bool {
    '0' <= c <= '9'
}

/// L'entier qu'écrivent des chiffres.
pub open spec fn naturel_de(s: Seq<char>) -> nat
    decreases s.len(),
{
    if s.len() == 0 {
        0
    } else {
        10 * naturel_de(s.drop_last()) + (s.last() as nat - '0' as nat) as nat
    }
}

/// Le nombre de chiffres en tête.
pub open spec fn chiffres_en_tete(s: Seq<char>) -> nat
    decreases s.len(),
{
    if s.len() == 0 || !chiffre(s[0]) {
        0
    } else {
        1 + chiffres_en_tete(s.skip(1))
    }
}

/// L'exposant écrit, après la lettre `e` s'il y en a une.
#[verifier::opaque]
pub open spec fn exposant_ecrit(s: Seq<char>) -> Option<int> {
    if s.len() == 0 {
        Some(0)
    } else if s[0] != 'e' && s[0] != 'E' {
        None
    } else {
        let t = s.skip(1);
        let signe = t.len() > 0 && (t[0] == '+' || t[0] == '-');
        let u = if signe {
            t.skip(1)
        } else {
            t
        };
        if u.len() == 0 || chiffres_en_tete(u) != u.len() {
            None
        } else if signe && t[0] == '-' {
            Some(-(naturel_de(u) as int))
        } else {
            Some(naturel_de(u) as int)
        }
    }
}

/// Un nombre sans signe : ses chiffres, et la puissance de dix qui les multiplie.
#[verifier::opaque]
pub open spec fn nombre_ecrit(s: Seq<char>) -> Option<(Seq<char>, int)> {
    let a = chiffres_en_tete(s) as int;
    let apres = s.skip(a);
    let point = apres.len() > 0 && apres[0] == '.';
    let b = if point {
        chiffres_en_tete(apres.skip(1)) as int
    } else {
        0
    };
    let fraction = if point {
        apres.skip(1).take(b)
    } else {
        Seq::empty()
    };
    let reste = if point {
        apres.skip(1).skip(b)
    } else {
        apres
    };
    let chiffres = s.take(a) + fraction;
    match exposant_ecrit(reste) {
        None => None,
        Some(e) => if chiffres.len() == 0 {
            None
        } else {
            Some((chiffres, e - b))
        },
    }
}

/// Le flottant le plus proche de `m * 10^e`, signé.
#[verifier::opaque]
pub open spec fn decimal(negatif: bool, m: nat, e: int) -> Flottant {
    if e >= 0 {
        arrondi(negatif, (m * pow(10, e as nat) as nat) * pow2(1074), 1)
    } else {
        arrondi(negatif, m * pow2(1074), pow(10, (-e) as nat) as nat)
    }
}

/// La minuscule d'une lettre sans accent.
pub open spec fn minuscule(c: char) -> char {
    if 'A' <= c <= 'Z' {
        (c as int + 32) as char
    } else {
        c
    }
}

/// Le même texte, sans égard à la casse des lettres sans accent.
pub open spec fn meme_mot(s: Seq<char>, mot: Seq<char>) -> bool {
    s.len() == mot.len() && forall|i: int| 0 <= i < s.len() ==> minuscule(#[trigger] s[i]) == mot[i]
}

/// Ce qu'un texte signifie comme flottant.
pub open spec fn flottant_lu(s: Seq<char>) -> Option<Flottant> {
    let signe = s.len() > 0 && (s[0] == '+' || s[0] == '-');
    let negatif = signe && s[0] == '-';
    let t = if signe {
        s.skip(1)
    } else {
        s
    };
    match nombre_ecrit(t) {
        Some((chiffres, e)) => Some(decimal(negatif, naturel_de(chiffres), e)),
        None => if meme_mot(t, "inf"@) || meme_mot(t, "infinity"@) {
            Some(signer(negatif, CODE_INFINI))
        } else if meme_mot(t, "nan"@) {
            Some(non_nombre())
        } else {
            None
        },
    }
}

proof fn lemme_naturel_borne(s: Seq<char>)
    requires
        forall|i: int| 0 <= i < s.len() ==> chiffre(#[trigger] s[i]),
    ensures
        naturel_de(s) < pow(10, s.len()),
    decreases s.len(),
{
    reveal(pow);
    if s.len() > 0 {
        lemme_naturel_borne(s.drop_last());
        assert(chiffre(s[s.len() - 1]));
    }
}

proof fn lemme_naturel_minimum(s: Seq<char>)
    requires
        s.len() > 0,
        forall|i: int| 0 <= i < s.len() ==> chiffre(#[trigger] s[i]),
        s[0] != '0',
    ensures
        naturel_de(s) >= pow(10, (s.len() - 1) as nat),
    decreases s.len(),
{
    reveal(pow);
    assert(chiffre(s[s.len() - 1]));
    if s.len() == 1 {
        reveal_with_fuel(naturel_de, 2);
    } else {
        lemme_naturel_minimum(s.drop_last());
    }
}

/// Les zéros de tête ne comptent pas.
proof fn lemme_zeros_de_tete(s: Seq<char>, z: int)
    requires
        0 <= z <= s.len(),
        forall|i: int| 0 <= i < z ==> #[trigger] s[i] == '0',
    ensures
        naturel_de(s) == naturel_de(s.skip(z)),
    decreases s.len(),
{
    if z == s.len() {
        if s.len() > 0 {
            assert(s[s.len() - 1] == '0');
            lemme_zeros_de_tete(s.drop_last(), z - 1);
            assert(s.drop_last().skip(z - 1) =~= Seq::<char>::empty());
        }
        assert(s.skip(z) =~= Seq::<char>::empty());
    } else {
        lemme_zeros_de_tete(s.drop_last(), z);
        assert(s.skip(z).drop_last() =~= s.drop_last().skip(z));
    }
}

pub(crate) proof fn lemme_dix_et_deux(k: nat)
    ensures
        pow2(3 * k) <= pow(10, k) <= pow2(4 * k),
    decreases k,
{
    reveal(pow);
    lemma2_to64();
    if k > 0 {
        lemme_dix_et_deux((k - 1) as nat);
        lemma_pow2_adds((3 * (k - 1)) as nat, 3);
        lemma_pow2_adds((4 * (k - 1)) as nat, 4);
    }
}

proof fn lemme_dix_positif(k: nat)
    ensures
        pow(10, k) > 0,
{
    lemma_pow_positive(10, k);
}

proof fn lemme_echelle_grande(n: nat, d: nat, j: nat)
    requires
        d > 0,
        n >= d * pow2(53 + j),
    ensures
        echelle(n, d) >= j + 1,
    decreases j,
{
    lemma_pow2_pos(53);
    if j == 0 {
        reveal_with_fuel(echelle, 2);
    } else {
        lemma_pow2_unfold(53 + j);
        let j1 = (j - 1) as nat;
        assert(d * 2 * pow2(53 + j1) == d * pow2(53 + j)) by (nonlinear_arith)
            requires
                pow2(53 + j) == 2 * pow2(53 + j1),
        ;
        lemme_echelle_grande(n, d * 2, j1);
        lemma_pow2_strictly_increases(53, 53 + j);
        assert(d * pow2(53) <= d * pow2(53 + j)) by (nonlinear_arith)
            requires
                pow2(53) <= pow2(53 + j),
        ;
    }
}

/// Au-delà du plus grand nombre, l'infini.
proof fn lemme_debordement(negatif: bool, n: nat, d: nat)
    requires
        d > 0,
        n >= d * pow2(2274),
    ensures
        arrondi(negatif, n, d) == signer(negatif, CODE_INFINI),
{
    reveal(arrondi);
    lemma_pow2_adds(53 + 2046, 175);
    lemma_pow2_pos(175);
    assert(d * pow2(53 + 2046) <= d * pow2(2274)) by (nonlinear_arith)
        requires
            pow2(2274) == pow2(53 + 2046) * pow2(175),
            pow2(175) >= 1,
    ;
    lemme_echelle_grande(n, d, 2046);
    let k = echelle(n, d);
    assert(k * UNITE_CHAMP >= 2047 * UNITE_CHAMP) by (nonlinear_arith)
        requires
            k >= 2047,
    ;
}

/// En deçà de la moitié du plus petit nombre, zéro.
proof fn lemme_disparition(negatif: bool, n: nat, d: nat)
    requires
        2 * n < d,
    ensures
        arrondi(negatif, n, d) == signer(negatif, 0),
{
    reveal(arrondi);
    lemma2_to64();
    lemma_pow2_pos(53);
    assert(d * pow2(53) >= d) by (nonlinear_arith)
        requires
            pow2(53) >= 1,
    ;
    assert(d * pow2(0) == d);
    lemma_small_mod(n, d);
    lemma_basic_div(n as int, d as int);
}

proof fn lemme_infime(negatif: bool, n0: nat, d0: nat)
    requires
        n0 * pow2(2400) < d0,
    ensures
        arrondi(negatif, n0 * pow2(1074), d0) == signer(negatif, 0),
{
    let u = pow2(1074);
    let w = pow2(1326);
    lemma_pow2_adds(1074, 1326);
    lemma2_to64();
    lemma_pow2_strictly_increases(1, 1326);
    assert(2 * (n0 * u) <= n0 * pow2(2400)) by (nonlinear_arith)
        requires
            pow2(2400) == u * w,
            w >= 2,
    {
        assert(n0 * (u * w) == (n0 * u) * w);
        assert((n0 * u) * w >= (n0 * u) * 2);
    }
    lemme_disparition(negatif, n0 * u, d0);
}

proof fn lemme_immense(negatif: bool, n0: nat, d0: nat)
    requires
        d0 > 0,
        n0 >= d0 * pow2(2400),
    ensures
        arrondi(negatif, n0 * pow2(1074), d0) == signer(negatif, CODE_INFINI),
{
    let u = pow2(1074);
    lemma_pow2_pos(1074);
    lemma_pow2_strictly_increases(1200, 2400);
    lemma_pow2_adds(1200, 1074);
    assert(n0 * u >= d0 * pow2(2274)) by (nonlinear_arith)
        requires
            n0 >= d0 * pow2(2400),
            pow2(2400) >= pow2(1200),
            pow2(2274) == pow2(1200) * u,
            d0 > 0,
    {
        assert(d0 * pow2(2400) >= d0 * pow2(1200));
        assert(n0 * u >= (d0 * pow2(1200)) * u);
        assert((d0 * pow2(1200)) * u == d0 * (pow2(1200) * u));
    }
    lemme_debordement(negatif, n0 * u, d0);
}

/// Le rapport de deux grands entiers, en unités de `2^-1074`, arrondi.
pub(crate) fn rapport_grand(negatif: bool, num: Vec<u32>, den: Vec<u32>) -> (f: Flottant)
    requires
        val(num@) > 0,
        val(den@) > 0,
    ensures
        f == arrondi(negatif, val(num@) * pow2(1074), val(den@)),
{
    let mut n: Vec<u32> = num;
    let mut d: Vec<u32> = den;
    let ghost n0 = val(num@);
    let ghost d0 = val(den@);
    let mut a: u32 = 0;
    let mut b: u32 = 0;
    proof {
        lemma2_to64();
        assert(n0 * pow2(0) == n0);
        assert(d0 * pow2(0) == d0);
    }
    egaliser(&mut n, &mut d);
    while !au_moins(&n, &d)
        invariant
            n@.len() == d@.len(),
            n0 == val(num@),
            d0 == val(den@),
            n0 > 0,
            d0 > 0,
            val(n@) == n0 * pow2(a as nat),
            val(d@) == d0,
            a <= 2400,
            a > 0 ==> val(n@) < 2 * d0,
        decreases 2401 - a,
    {
        if a == 2400 {
            proof {
                lemme_infime(negatif, n0, d0);
            }
            return if negatif {
                Flottant { bits: BIT_SIGNE }
            } else {
                Flottant { bits: 0 }
            };
        }
        proof {
            lemma_pow2_unfold((a + 1) as nat);
            assert(n0 * pow2(a as nat) * 2 == n0 * pow2((a + 1) as nat)) by (nonlinear_arith)
                requires
                    pow2((a + 1) as nat) == 2 * pow2(a as nat),
            ;
        }
        multiplier_ajouter(&mut n, 2, 0);
        a = a + 1;
        egaliser(&mut n, &mut d);
    }
    let ghost na = val(n@);
    // Le double du dénominateur, tant qu'il ne dépasse pas.
    let mut double: Vec<u32> = d.clone();
    proof {
        assert(double@ =~= d@);
    }
    multiplier_ajouter(&mut double, 2, 0);
    egaliser(&mut n, &mut double);
    while au_moins(&n, &double)
        invariant
            n@.len() == double@.len(),
            n0 == val(num@),
            d0 == val(den@),
            n0 > 0,
            d0 > 0,
            val(n@) == na,
            val(d@) == d0 * pow2(b as nat),
            val(double@) == 2 * val(d@),
            na >= val(d@),
            a <= 2400,
            a == 0 ==> na == n0,
            a > 0 ==> na < 2 * d0,
            b <= 2400,
        decreases 2401 - b,
    {
        if b == 2400 {
            proof {
                lemma_pow2_pos(2400);
                assert(d0 * pow2(2400) >= d0) by (nonlinear_arith)
                    requires
                        pow2(2400) >= 1,
                ;
                lemme_immense(negatif, n0, d0);
            }
            return if negatif {
                Flottant { bits: CODE_INFINI + BIT_SIGNE }
            } else {
                Flottant { bits: CODE_INFINI }
            };
        }
        proof {
            lemma_pow2_unfold((b + 1) as nat);
            assert(2 * (d0 * pow2(b as nat)) == d0 * pow2((b + 1) as nat)) by (nonlinear_arith)
                requires
                    pow2((b + 1) as nat) == 2 * pow2(b as nat),
            ;
        }
        d = double.clone();
        proof {
            assert(d@ =~= double@);
        }
        multiplier_ajouter(&mut double, 2, 0);
        b = b + 1;
        egaliser(&mut n, &mut double);
    }
    let ghost db = val(d@);
    egaliser(&mut n, &mut d);
    let mut q: u64 = 0;
    let mut i: u32 = 0;
    proof {
        assert(na * pow2(0) == 0 * db + val(n@));
    }
    while i < 64
        invariant
            i <= 64,
            n@.len() == d@.len(),
            val(d@) == db,
            val(n@) < 2 * db,
            db > 0,
            q < pow2(i as nat),
            i == 0 ==> q == 0 && val(n@) == na,
            i > 0 ==> na * pow2((i - 1) as nat) * 2 == 2 * (q as nat * db) + val(n@),
            i > 0 ==> q >= pow2((i - 1) as nat),
            na >= db,
        decreases 64 - i,
    {
        let ghost r0 = val(n@);
        let ghost q0 = q as nat;
        proof {
            lemma2_to64();
            lemma2_to64_rest();
            lemma_pow2_unfold((i + 1) as nat);
            if i > 0 {
                lemma_pow2_unfold(i as nat);
                assert(pow2(i as nat) <= pow2(63)) by {
                    if i < 63 {
                        lemma_pow2_strictly_increases(i as nat, 63);
                    }
                }
            }
        }
        if au_moins(&n, &d) {
            soustraire(&mut n, &d);
            q = 2 * q + 1;
        } else {
            q = 2 * q;
        }
        let ghost r1 = val(n@);
        multiplier_ajouter(&mut n, 2, 0);
        egaliser(&mut n, &mut d);
        proof {
            let bit: nat = (q - 2 * q0) as nat;
            assert(bit == 0 ==> bit * db == 0);
            assert(bit == 1 ==> bit * db == db);
            assert(r0 == bit * db + r1);
            if i > 0 {
                let p = pow2((i - 1) as nat);
                assert(na * pow2(i as nat) * 2 == 2 * (q as nat * db) + 2 * r1) by (nonlinear_arith)
                    requires
                        pow2(i as nat) == 2 * p,
                        na * p * 2 == 2 * (q0 * db) + r0,
                        r0 == bit * db + r1,
                        q as nat == 2 * q0 + bit,
                ;
            } else {
                assert(na * pow2(0) * 2 == 2 * (q as nat * db) + 2 * r1) by (nonlinear_arith)
                    requires
                        pow2(0) == 1,
                        na == bit * db + r1,
                        q as nat == bit,
                ;
            }
        }
        i = i + 1;
    }
    let reste: bool = !est_nul(&n);
    proof {
        lemma2_to64();
        lemma2_to64_rest();
        lemme_quotient_grand(n0, d0, a as nat, b as nat, na, db, q as nat, val(n@));
    }
    assembler(
        negatif,
        q as u128,
        b as i32 + 1074 - a as i32 - 63,
        reste,
        Ghost(n0 * pow2(1074)),
        Ghost(d0),
        Ghost((a + 63) as nat),
        Ghost((b + 1074) as nat),
    )
}

proof fn lemme_quotient_grand(
    n0: nat,
    d0: nat,
    a: nat,
    b: nat,
    na: nat,
    db: nat,
    q: nat,
    r2: nat,
)
    requires
        na == n0 * pow2(a),
        db == d0 * pow2(b),
        db > 0,
        na * pow2(63) * 2 == 2 * (q * db) + r2,
        r2 < 2 * db,
    ensures
        ((n0 * pow2(1074)) * pow2(a + 63)) / (d0 * pow2(b + 1074)) == q,
        ((n0 * pow2(1074)) * pow2(a + 63)) % (d0 * pow2(b + 1074)) != 0 <==> r2 != 0,
{
    let u = pow2(1074);
    lemma_pow2_pos(1074);
    lemma_pow2_adds(a, 63);
    lemma_pow2_adds(b, 1074);
    let pa = pow2(a);
    let p63 = pow2(63);
    let pb = pow2(b);
    let x = (n0 * u) * pow2(a + 63);
    let y = d0 * pow2(b + 1074);
    assert(x == (na * p63) * u) by (nonlinear_arith)
        requires
            x == (n0 * u) * (pa * p63),
            na == n0 * pa,
    ;
    assert(y == db * u) by (nonlinear_arith)
        requires
            y == d0 * (pb * u),
            db == d0 * pb,
    ;
    let r = (na * p63 - q * db) as nat;
    assert(r2 == 2 * r);
    assert(x == q * y + r * u) by (nonlinear_arith)
        requires
            x == (na * p63) * u,
            y == db * u,
            na * p63 == q * db + r,
    ;
    assert(0 <= r * u < y) by (nonlinear_arith)
        requires
            r < db,
            y == db * u,
            u > 0,
    ;
    lemma_fundamental_div_mod_converse(x as int, y as int, q as int, (r * u) as int);
    assert(r * u != 0 <==> r != 0) by (nonlinear_arith)
        requires
            u > 0,
    ;
}

/// Met deux nombres au même nombre de chiffres.
fn egaliser(a: &mut Vec<u32>, b: &mut Vec<u32>)
    ensures
        val(final(a)@) == val(old(a)@),
        val(final(b)@) == val(old(b)@),
        final(a)@.len() == final(b)@.len(),
{
    let n: usize = if a.len() < b.len() {
        b.len()
    } else {
        a.len()
    };
    completer(a, n);
    completer(b, n);
}

proof fn lemme_dix_somme(a: nat, b: nat)
    ensures
        pow(10, a + b) == pow(10, a) * pow(10, b),
{
    lemma_pow_adds(10, a, b);
}

proof fn lemme_dix_croit(a: nat, b: nat)
    requires
        a <= b,
    ensures
        pow(10, a) <= pow(10, b),
{
    lemma_pow_increases(10, a, b);
}

/// Plus de quatre cents puissances de dix au-dessus de l'unité : l'infini.
proof fn lemme_trop_grand(negatif: bool, m: nat, l: nat, e: int)
    requires
        l >= 1,
        m >= pow(10, (l - 1) as nat),
        l - 1 + e >= 400,
    ensures
        decimal(negatif, m, e) == signer(negatif, CODE_INFINI),
{
    reveal(decimal);
    let u = pow2(1074);
    let p400 = pow(10, 400);
    lemme_dix_et_deux(400);
    lemma_pow2_adds(1200, 1074);
    lemma_pow2_pos(1074);
    let pl = pow(10, (l - 1) as nat);
    if e >= 0 {
        let pe = pow(10, e as nat);
        lemme_dix_positif(e as nat);
        lemme_dix_somme((l - 1) as nat, e as nat);
        lemme_dix_croit(400, (l - 1 + e) as nat);
        let n = (m * pe as nat) * u;
        assert(n >= 1 * pow2(2274)) by (nonlinear_arith)
            requires
                n == (m * pe) * u,
                m >= pl,
                pl * pe >= p400,
                p400 >= pow2(1200),
                pow2(2274) == pow2(1200) * u,
                pe > 0,
                u > 0,
        {
            assert(m * pe >= pl * pe);
            assert((m * pe) * u >= pow2(1200) * u);
        }
        lemme_debordement(negatif, n, 1);
    } else {
        let k = (-e) as nat;
        let d = pow(10, k) as nat;
        lemme_dix_positif(k);
        lemme_dix_somme(400, k);
        lemme_dix_croit(400 + k, (l - 1) as nat);
        assert(m * u >= d * pow2(2274)) by (nonlinear_arith)
            requires
                m >= pl,
                pl >= p400 * d,
                p400 >= pow2(1200),
                pow2(2274) == pow2(1200) * u,
                d > 0,
                u > 0,
        {
            assert(m >= pow2(1200) * d);
            assert(m * u >= (pow2(1200) * d) * u);
            assert((pow2(1200) * d) * u == d * (pow2(1200) * u));
        }
        lemme_debordement(negatif, m * u, d);
    }
}

/// Plus de quatre cents puissances de dix sous l'unité : zéro.
proof fn lemme_trop_petit(negatif: bool, m: nat, l: nat, e: int)
    requires
        m < pow(10, l),
        l + e <= -400,
    ensures
        decimal(negatif, m, e) == signer(negatif, 0),
{
    reveal(decimal);
    let u = pow2(1074);
    let k = (-e) as nat;
    let d = pow(10, k) as nat;
    let p400 = pow(10, 400);
    let pl = pow(10, l);
    lemme_dix_et_deux(400);
    lemme_dix_positif(k);
    lemme_dix_positif(l);
    lemme_dix_somme(l, 400);
    lemme_dix_croit(l + 400, k);
    lemma2_to64();
    lemma_pow2_adds(1074, 1);
    lemma_pow2_strictly_increases(1075, 1200);
    lemma_pow2_pos(1074);
    assert(2 * (m * u) < d) by (nonlinear_arith)
        requires
            m < pl,
            d >= pl * p400,
            p400 >= pow2(1200),
            pow2(1200) > 2 * u,
            u > 0,
            pl > 0,
    {
        assert(m * (2 * u) <= pl * (2 * u));
        assert(pl * (2 * u) < pl * pow2(1200));
        assert(pl * pow2(1200) <= pl * p400);
    }
    lemme_disparition(negatif, m * u, d);
}

proof fn lemme_termes_positifs(m: nat, e: int)
    requires
        m > 0,
    ensures
        e >= 0 ==> m * pow(10, e as nat) as nat > 0,
        e < 0 ==> pow(10, (-e) as nat) > 0,
{
    if e >= 0 {
        lemme_dix_positif(e as nat);
        let p = pow(10, e as nat) as nat;
        assert(m * p > 0) by (nonlinear_arith)
            requires
                m > 0,
                p > 0,
        ;
    } else {
        lemme_dix_positif((-e) as nat);
    }
}

/// Le chiffre décimal d'un caractère.
pub(crate) fn valeur_chiffre(c: char) -> (d: u32)
    requires
        chiffre(c),
    ensures
        d == c as nat - '0' as nat,
        d <= 9,
{
    c as u32 - '0' as u32
}

pub(crate) fn puissance_dix(k: u128) -> (v: Vec<u32>)
    ensures
        val(v@) == pow(10, k as nat),
{
    let mut v: Vec<u32> = Vec::new();
    multiplier_ajouter(&mut v, 1, 1);
    proof {
        reveal(pow);
        assert(val(Seq::<u32>::empty()) == 0);
        assert(0nat * 1nat + 1 == 1);
    }
    let mut i: u128 = 0;
    while i < k
        invariant
            i <= k,
            val(v@) == pow(10, i as nat),
        decreases k - i,
    {
        proof {
            reveal(pow);
        }
        multiplier_ajouter(&mut v, 10, 0);
        i = i + 1;
    }
    v
}

/// Au-delà de cette valeur, seul le signe d'un exposant compte.
pub const EXPOSANT_MAX: u128 = 0x10_0000_0000_0000_0000_0000_0000;

/// `m * 10^e` pour les chiffres donnés, `e` étant l'exposant écrit moins le nombre
/// de décimales.
fn convertir(
    negatif: bool,
    chiffres: &Vec<char>,
    exposant_negatif: bool,
    exposant: u128,
    decimales: usize,
    Ghost(e): Ghost<int>,
) -> (f: Flottant)
    requires
        forall|i: int| 0 <= i < chiffres@.len() ==> chiffre(#[trigger] chiffres@[i]),
        exposant <= EXPOSANT_MAX,
        exposant < EXPOSANT_MAX ==> e == (if exposant_negatif {
            -(exposant as int)
        } else {
            exposant as int
        }) - decimales,
        exposant == EXPOSANT_MAX ==> if exposant_negatif {
            e <= -(EXPOSANT_MAX as int)
        } else {
            e >= EXPOSANT_MAX - decimales
        },
    ensures
        f == decimal(negatif, naturel_de(chiffres@), e),
{
    proof {
        reveal(decimal);
    }
    let signe: u64 = if negatif {
        BIT_SIGNE
    } else {
        0
    };
    let mut z: usize = 0;
    while z < chiffres.len() && chiffres[z] == '0'
        invariant
            z <= chiffres@.len(),
            forall|i: int| 0 <= i < z ==> #[trigger] chiffres@[i] == '0',
        decreases chiffres@.len() - z,
    {
        z += 1;
    }
    let ghost s = chiffres@.skip(z as int);
    let ghost m = naturel_de(chiffres@);
    proof {
        lemme_zeros_de_tete(chiffres@, z as int);
        assert forall|i: int| 0 <= i < s.len() implies chiffre(#[trigger] s[i]) by {
            assert(chiffre(chiffres@[z + i]));
        }
        lemme_naturel_borne(s);
    }
    let l: usize = chiffres.len() - z;
    if l == 0 {
        proof {
            reveal(pow);
            lemma2_to64();
            assert(m == 0);
            if e >= 0 {
                let pe = pow(10, e as nat) as nat;
                assert(((m * pe) * pow2(1074)) * pow2(0) == 0) by (nonlinear_arith)
                    requires
                        m == 0,
                ;
                lemme_arrondi_nul(negatif, (m * pe) * pow2(1074), 1, 0);
            } else {
                lemme_dix_positif((-e) as nat);
                assert((m * pow2(1074)) * pow2(0) == 0) by (nonlinear_arith)
                    requires
                        m == 0,
                ;
                lemme_arrondi_nul(negatif, m * pow2(1074), pow(10, (-e) as nat) as nat, 0);
            }
        }
        return Flottant { bits: signe };
    }
    proof {
        lemme_naturel_minimum(s);
    }
    if exposant == EXPOSANT_MAX {
        if exposant_negatif {
            proof {
                lemme_trop_petit(negatif, m, l as nat, e);
            }
            return Flottant { bits: signe };
        }
        proof {
            lemme_trop_grand(negatif, m, l as nat, e);
        }
        return Flottant { bits: CODE_INFINI + signe };
    }
    let ecrit: i128 = if exposant_negatif {
        -(exposant as i128)
    } else {
        exposant as i128
    };
    let reel: i128 = ecrit - decimales as i128;
    let t: i128 = l as i128 + reel;
    if t > 400 {
        proof {
            lemme_trop_grand(negatif, m, l as nat, e);
        }
        return Flottant { bits: CODE_INFINI + signe };
    }
    if t <= -400 {
        proof {
            lemme_trop_petit(negatif, m, l as nat, e);
        }
        return Flottant { bits: signe };
    }
    proof {
        lemme_dix_positif((l - 1) as nat);
        lemme_termes_positifs(m, e);
    }
    let mut num: Vec<u32> = Vec::new();
    let mut i: usize = z;
    proof {
        assert(chiffres@.take(z as int).skip(z as int) =~= Seq::<char>::empty());
        assert(chiffres@.subrange(z as int, z as int) =~= Seq::<char>::empty());
    }
    while i < chiffres.len()
        invariant
            z <= i <= chiffres@.len(),
            forall|k: int| 0 <= k < chiffres@.len() ==> chiffre(#[trigger] chiffres@[k]),
            val(num@) == naturel_de(chiffres@.subrange(z as int, i as int)),
        decreases chiffres@.len() - i,
    {
        let c: char = chiffres[i];
        assert(chiffre(chiffres@[i as int]));
        proof {
            let t = chiffres@.subrange(z as int, i + 1);
            assert(t.drop_last() =~= chiffres@.subrange(z as int, i as int));
            assert(t.last() == c);
        }
        multiplier_ajouter(&mut num, 10, valeur_chiffre(c));
        i += 1;
    }
    proof {
        assert(chiffres@.subrange(z as int, chiffres@.len() as int) =~= s);
    }
    if reel >= 0 {
        let mut k: usize = 0;
        proof {
            lemma_pow0(10);
            let un = pow(10, 0) as nat;
            assert(m * un == m) by (nonlinear_arith)
                requires
                    un == 1,
            ;
        }
        while k < reel as usize
            invariant
                k <= reel <= 400,
                val(num@) == m * pow(10, k as nat) as nat,
            decreases reel - k,
        {
            proof {
                reveal(pow);
                lemme_dix_positif(k as nat);
                let p = pow(10, k as nat) as nat;
                assert(pow(10, (k + 1) as nat) == 10 * pow(10, k as nat));
                assert((m * p) * 10 == m * (10 * p)) by (nonlinear_arith);
            }
            multiplier_ajouter(&mut num, 10, 0);
            k += 1;
        }
        let den: Vec<u32> = puissance_dix(0);
        proof {
            reveal(pow);
        }
        rapport_grand(negatif, num, den)
    } else {
        let den: Vec<u32> = puissance_dix((-reel) as u128);
        rapport_grand(negatif, num, den)
    }
}

fn est_chiffre(c: char) -> (b: bool)
    ensures
        b == chiffre(c),
{
    '0' <= c && c <= '9'
}

proof fn lemme_tete(s: Seq<char>)
    ensures
        chiffres_en_tete(s) <= s.len(),
        forall|i: int| 0 <= i < chiffres_en_tete(s) ==> chiffre(#[trigger] s[i]),
        chiffres_en_tete(s) < s.len() ==> !chiffre(s[chiffres_en_tete(s) as int]),
    decreases s.len(),
{
    if s.len() > 0 && chiffre(s[0]) {
        lemme_tete(s.skip(1));
        assert forall|i: int| 0 <= i < chiffres_en_tete(s) implies chiffre(#[trigger] s[i]) by {
            if i > 0 {
                assert(s.skip(1)[i - 1] == s[i]);
            }
        }
    }
}

/// Le nombre de chiffres à partir de `i`.
fn compter(s: &[char], i: usize) -> (n: usize)
    requires
        i <= s@.len(),
    ensures
        n == chiffres_en_tete(s@.skip(i as int)),
        i + n <= s@.len(),
        forall|k: int| i <= k < i + n ==> chiffre(#[trigger] s@[k]),
{
    let total: usize = s.len();
    let mut n: usize = 0;
    while i + n < total && est_chiffre(s[i + n])
        invariant
            total == s@.len(),
            i + n <= s@.len(),
            chiffres_en_tete(s@.skip(i as int)) == n + chiffres_en_tete(s@.skip(i + n)),
        decreases s@.len() - n,
    {
        proof {
            assert(s@.skip(i + n).skip(1) =~= s@.skip(i + n + 1));
        }
        n += 1;
    }
    proof {
        lemme_tete(s@.skip(i as int));
        assert forall|k: int| i <= k < i + n implies chiffre(#[trigger] s@[k]) by {
            assert(s@.skip(i as int)[k - i] == s@[k]);
        }
    }
    n
}

proof fn lemme_naturel_prefixe(s: Seq<char>, i: int)
    requires
        0 <= i <= s.len(),
        forall|k: int| 0 <= k < s.len() ==> chiffre(#[trigger] s[k]),
    ensures
        naturel_de(s.take(i)) <= naturel_de(s),
    decreases s.len() - i,
{
    if i < s.len() {
        lemme_naturel_prefixe(s, i + 1);
        assert(s.take(i + 1).drop_last() =~= s.take(i));
        assert(chiffre(s[i]));
    } else {
        assert(s.take(i) =~= s);
    }
}

/// La valeur de chiffres, plafonnée.
fn valeur_plafonnee(s: &[char], i: usize) -> (x: u128)
    requires
        i <= s@.len(),
        forall|k: int| i <= k < s@.len() ==> chiffre(#[trigger] s@[k]),
    ensures
        x <= EXPOSANT_MAX,
        x < EXPOSANT_MAX ==> x == naturel_de(s@.skip(i as int)),
        x == EXPOSANT_MAX ==> naturel_de(s@.skip(i as int)) >= EXPOSANT_MAX,
{
    let ghost t = s@.skip(i as int);
    let mut x: u128 = 0;
    let mut j: usize = i;
    proof {
        assert(t.take(0) =~= Seq::<char>::empty());
        assert forall|k: int| 0 <= k < t.len() implies chiffre(#[trigger] t[k]) by {
            assert(chiffre(s@[i + k]));
        }
    }
    while j < s.len()
        invariant
            i <= j <= s@.len(),
            t == s@.skip(i as int),
            forall|k: int| 0 <= k < t.len() ==> chiffre(#[trigger] t[k]),
            x < EXPOSANT_MAX,
            x == naturel_de(t.take(j - i)),
        decreases s@.len() - j,
    {
        let c: char = s[j];
        proof {
            assert(t[j - i] == c);
            assert(t.take(j - i + 1).drop_last() =~= t.take(j - i));
            assert(t.take(j - i + 1).last() == c);
        }
        let suivant: u128 = x * 10 + valeur_chiffre(c) as u128;
        if suivant >= EXPOSANT_MAX {
            proof {
                lemme_naturel_prefixe(t, j - i + 1);
            }
            return EXPOSANT_MAX;
        }
        x = suivant;
        j += 1;
    }
    assert(t.take(t.len() as int) =~= t);
    x
}

/// L'exposant écrit à partir de `i` : son signe, et sa valeur plafonnée.
fn lire_exposant(s: &[char], i: usize) -> (r: Option<(bool, u128)>)
    requires
        i <= s@.len(),
    ensures
        match r {
            None => exposant_ecrit(s@.skip(i as int)) is None,
            Some((negatif, x)) => {
                &&& exposant_ecrit(s@.skip(i as int)) is Some
                &&& x <= EXPOSANT_MAX
                &&& x < EXPOSANT_MAX ==> exposant_ecrit(s@.skip(i as int)) == Some(
                    if negatif {
                        -(x as int)
                    } else {
                        x as int
                    },
                )
                &&& x == EXPOSANT_MAX ==> if negatif {
                    exposant_ecrit(s@.skip(i as int))->Some_0 <= -(EXPOSANT_MAX as int)
                } else {
                    exposant_ecrit(s@.skip(i as int))->Some_0 >= EXPOSANT_MAX
                }
            },
        },
{
    proof {
        reveal(exposant_ecrit);
    }
    if i == s.len() {
        return Some((false, 0));
    }
    if s[i] != 'e' && s[i] != 'E' {
        return None;
    }
    let ghost t = s@.skip(i as int).skip(1);
    assert(t =~= s@.skip(i + 1));
    let signe: bool = i + 1 < s.len() && (s[i + 1] == '+' || s[i + 1] == '-');
    let negatif: bool = signe && s[i + 1] == '-';
    let debut: usize = if signe {
        i + 2
    } else {
        i + 1
    };
    assert(signe ==> t.skip(1) =~= s@.skip(debut as int));
    let n: usize = compter(s, debut);
    if debut == s.len() || n != s.len() - debut {
        return None;
    }
    let x: u128 = valeur_plafonnee(s, debut);
    Some((negatif, x))
}

fn est_mot(s: &[char], i: usize, mot: &str) -> (b: bool)
    requires
        i <= s@.len(),
    ensures
        b == meme_mot(s@.skip(i as int), mot@),
{
    let m: Vec<char> = crate::texte::caracteres(mot);
    let ghost t = s@.skip(i as int);
    if s.len() - i != m.len() {
        return false;
    }
    let total: usize = s.len();
    let mut k: usize = 0;
    while k < m.len()
        invariant
            total == s@.len(),
            i <= s@.len(),
            k <= m@.len(),
            m@ == mot@,
            t == s@.skip(i as int),
            t.len() == m@.len(),
            forall|j: int| 0 <= j < k ==> minuscule(#[trigger] t[j]) == m@[j],
        decreases m@.len() - k,
    {
        let c: char = s[i + k];
        assert(t[k as int] == c);
        let bas: char = if 'A' <= c && c <= 'Z' {
            (c as u8 + 32) as char
        } else {
            c
        };
        if bas != m[k] {
            return false;
        }
        k += 1;
    }
    true
}

/// Les caractères de deux tranches, bout à bout.
fn deux_tranches(s: &[char], d1: usize, f1: usize, d2: usize, f2: usize) -> (v: Vec<char>)
    requires
        d1 <= f1 <= s@.len(),
        d2 <= f2 <= s@.len(),
    ensures
        v@ == s@.subrange(d1 as int, f1 as int) + s@.subrange(d2 as int, f2 as int),
{
    let mut v: Vec<char> = Vec::new();
    let mut k: usize = d1;
    while k < f1
        invariant
            d1 <= k <= f1 <= s@.len(),
            v@ =~= s@.subrange(d1 as int, k as int),
        decreases f1 - k,
    {
        v.push(s[k]);
        k += 1;
    }
    k = d2;
    while k < f2
        invariant
            d1 <= f1 <= s@.len(),
            d2 <= k <= f2 <= s@.len(),
            v@ =~= s@.subrange(d1 as int, f1 as int) + s@.subrange(d2 as int, k as int),
        decreases f2 - k,
    {
        v.push(s[k]);
        k += 1;
    }
    v
}

/// Où se trouvent les parties d'un nombre écrit à partir de `i`.
proof fn lemme_parties(s: Seq<char>, i: int, a: int, point: bool, b: int)
    requires
        0 <= i <= s.len(),
        a == chiffres_en_tete(s.skip(i)),
        i + a <= s.len(),
        point == (i + a < s.len() && s[i + a] == '.'),
        point ==> b == chiffres_en_tete(s.skip(i + a + 1)) && i + a + 1 + b <= s.len(),
        !point ==> b == 0,
    ensures
        ({
            let debut = if point {
                i + a + 1
            } else {
                i + a
            };
            let chiffres = s.subrange(i, i + a) + s.subrange(debut, debut + b);
            nombre_ecrit(s.skip(i)) == match exposant_ecrit(s.skip(debut + b)) {
                None => None,
                Some(e) => if a + b == 0 {
                    None
                } else {
                    Some((chiffres, e - b))
                },
            }
        }),
{
    reveal(nombre_ecrit);
    let t = s.skip(i);
    let apres = t.skip(a);
    assert(apres =~= s.skip(i + a));
    assert(t.take(a) =~= s.subrange(i, i + a));
    if point {
        assert(apres.skip(1) =~= s.skip(i + a + 1));
        assert(apres.skip(1).skip(b) =~= s.skip(i + a + 1 + b));
        assert(apres.skip(1).take(b) =~= s.subrange(i + a + 1, i + a + 1 + b));
    } else {
        assert(s.subrange(i + a, i + a) =~= Seq::<char>::empty());
    }
}

/// Le nombre sans signe écrit à partir de `i`.
fn lire_nombre(negatif: bool, s: &[char], i: usize) -> (r: Option<Flottant>)
    requires
        i <= s@.len(),
    ensures
        r == match nombre_ecrit(s@.skip(i as int)) {
            Some((chiffres, e)) => Some(decimal(negatif, naturel_de(chiffres), e)),
            None => None,
        },
{
    let total: usize = s.len();
    let a: usize = compter(s, i);
    let fin: usize = i + a;
    let point: bool = fin < total && s[fin] == '.';
    let debut: usize = if point {
        fin + 1
    } else {
        fin
    };
    let b: usize = if point {
        compter(s, debut)
    } else {
        0
    };
    proof {
        lemme_parties(s@, i as int, a as int, point, b as int);
    }
    let ghost ecrit = exposant_ecrit(s@.skip(debut + b));
    match lire_exposant(s, debut + b) {
        None => None,
        Some((en, x)) => {
            if a == 0 && b == 0 {
                return None;
            }
            let chiffres: Vec<char> = deux_tranches(s, i, fin, debut, debut + b);
            let ghost e = ecrit->Some_0 - b;
            proof {
                assert forall|j: int| 0 <= j < chiffres@.len() implies chiffre(
                    #[trigger] chiffres@[j],
                ) by {
                    if j < a {
                        assert(chiffres@[j] == s@[i + j]);
                    } else {
                        assert(chiffres@[j] == s@[debut + j - a]);
                    }
                }
            }
            Some(convertir(negatif, &chiffres, en, x, b, Ghost(e)))
        },
    }
}

/// Lit un nombre écrit en décimal.
pub fn lire_flottant(s: &[char]) -> (r: Option<Flottant>)
    ensures
        r == flottant_lu(s@),
{
    let signe: bool = s.len() > 0 && (s[0] == '+' || s[0] == '-');
    let negatif: bool = signe && s[0] == '-';
    let i: usize = if signe {
        1
    } else {
        0
    };
    assert(!signe ==> s@.skip(0) =~= s@);
    if let Some(f) = lire_nombre(negatif, s, i) {
        return Some(f);
    }
    if est_mot(s, i, "inf") || est_mot(s, i, "infinity") {
        return Some(
            if negatif {
                Flottant { bits: CODE_INFINI + BIT_SIGNE }
            } else {
                Flottant { bits: CODE_INFINI }
            },
        );
    }
    if est_mot(s, i, "nan") {
        return Some(Flottant { bits: CODE_NON_NOMBRE });
    }
    None
}

} // verus!
