//! Entiers naturels sans borne, en base `2^32`, chiffre de poids faible en tête.

use vstd::arithmetic::mul::*;
use vstd::arithmetic::power::*;
use vstd::prelude::*;

verus! {

/// La base de numération.
pub const BASE: u64 = 0x1_0000_0000;

/// Le poids du chiffre de rang `n`.
pub open spec fn poids(n: nat) -> nat
    decreases n,
{
    if n == 0 {
        1
    } else {
        BASE as nat * poids((n - 1) as nat)
    }
}

/// La valeur d'une suite de chiffres.
pub open spec fn val(s: Seq<u32>) -> nat
    decreases s.len(),
{
    if s.len() == 0 {
        0
    } else {
        val(s.drop_last()) + s.last() as nat * poids((s.len() - 1) as nat)
    }
}

proof fn lemme_poids_positif(n: nat)
    ensures
        poids(n) > 0,
    decreases n,
{
    if n > 0 {
        lemme_poids_positif((n - 1) as nat);
    }
}

proof fn lemme_val_bornee(s: Seq<u32>)
    ensures
        val(s) < poids(s.len()),
    decreases s.len(),
{
    if s.len() > 0 {
        lemme_val_bornee(s.drop_last());
        let p = poids((s.len() - 1) as nat);
        let d = s.last() as nat;
        assert(val(s.drop_last()) + d * p < 0x1_0000_0000 * p) by (nonlinear_arith)
            requires
                val(s.drop_last()) < p,
                d <= 0xffff_ffff,
        ;
    }
}

/// Un zéro de tête ne change pas la valeur.
proof fn lemme_zero_de_tete(s: Seq<u32>)
    ensures
        val(s.push(0)) == val(s),
{
    assert(s.push(0).drop_last() =~= s);
    assert(0nat * poids(s.len()) == 0);
}

/// Complète de zéros jusqu'à `n` chiffres.
pub(crate) fn completer(v: &mut Vec<u32>, n: usize)
    ensures
        val(final(v)@) == val(old(v)@),
        final(v)@.len() == if old(v)@.len() < n {
            n as nat
        } else {
            old(v)@.len()
        },
{
    while v.len() < n
        invariant
            val(v@) == val(old(v)@),
            old(v)@.len() <= v@.len(),
            v@.len() <= n || v@.len() == old(v)@.len(),
        decreases n - v@.len(),
    {
        proof {
            lemme_zero_de_tete(v@);
        }
        v.push(0);
    }
}

/// `v * m + c`, en place.
pub(crate) fn multiplier_ajouter(v: &mut Vec<u32>, m: u32, c: u32)
    ensures
        val(final(v)@) == val(old(v)@) * m as nat + c as nat,
{
    let ghost depart = v@;
    let mut retenue: u64 = c as u64;
    let mut i: usize = 0;
    assert(v@.take(0) =~= Seq::<u32>::empty());
    assert(depart.take(0) =~= Seq::<u32>::empty());
    proof {
        let (z, u) = (val(depart.take(0)), poids(0));
        assert(z * m as nat == 0 && retenue as nat * u == retenue as nat) by (nonlinear_arith)
            requires
                z == 0,
                u == 1,
        ;
    }
    while i < v.len()
        invariant
            i <= v@.len(),
            v@.len() == depart.len(),
            forall|j: int| i <= j < v@.len() ==> v@[j] == depart[j],
            retenue <= 0xffff_ffff,
            val(v@.take(i as int)) + retenue as nat * poids(i as nat) == val(depart.take(i as int))
                * m as nat + c as nat,
        decreases v@.len() - i,
    {
        let x: u32 = v[i];
        assert(x as u64 * m as u64 <= 0xffff_ffffu64 * 0xffff_ffffu64) by (nonlinear_arith)
            requires
                x <= 0xffff_ffff,
                m <= 0xffff_ffff,
        ;
        let t: u64 = x as u64 * m as u64 + retenue;
        let bas: u32 = (t % BASE) as u32;
        let haut: u64 = t / BASE;
        let ghost avant = v@;
        v.set(i, bas);
        proof {
            let p = poids(i as nat);
            assert(v@.take(i + 1).drop_last() =~= avant.take(i as int));
            assert(v@.take(i + 1).last() == bas);
            assert(depart.take(i + 1).drop_last() =~= depart.take(i as int));
            assert(depart.take(i + 1).last() == x);
            let vt = val(avant.take(i as int));
            let vd = val(depart.take(i as int));
            let mm = m as nat;
            let xx = x as nat;
            assert(poids((i + 1) as nat) == 0x1_0000_0000 * p);
            assert((vt + bas as nat * p) + haut as nat * (0x1_0000_0000 * p) == (vd + xx * p) * mm
                + c as nat) by (nonlinear_arith)
                requires
                    vt + retenue as nat * p == vd * mm + c as nat,
                    bas as nat + 0x1_0000_0000 * haut as nat == xx * mm + retenue as nat,
            {
                assert((bas as nat + 0x1_0000_0000 * haut as nat) * p == (xx * mm
                    + retenue as nat) * p);
            }
        }
        retenue = haut;
        i += 1;
    }
    proof {
        assert(v@.take(v@.len() as int) =~= v@);
        assert(depart.take(depart.len() as int) =~= depart);
    }
    if retenue > 0 {
        let ghost avant = v@;
        v.push(retenue as u32);
        assert(v@.drop_last() =~= avant);
    }
}

proof fn lemme_plus_grand(s: Seq<u32>, t: Seq<u32>, j: int)
    requires
        s.len() == t.len(),
        0 <= j < s.len(),
        s[j] > t[j],
        forall|k: int| j < k < s.len() ==> s[k] == t[k],
    ensures
        val(s) > val(t),
    decreases s.len(),
{
    let n = (s.len() - 1) as nat;
    let p = poids(n);
    if j == n {
        lemme_val_bornee(t.drop_last());
        let (a, b) = (s.last() as nat, t.last() as nat);
        assert(a * p >= b * p + p) by (nonlinear_arith)
            requires
                a >= b + 1,
        ;
    } else {
        assert(s.last() == t.last());
        lemme_plus_grand(s.drop_last(), t.drop_last(), j);
    }
}

/// `a >= b`, à nombres de chiffres égaux.
pub(crate) fn au_moins(a: &Vec<u32>, b: &Vec<u32>) -> (r: bool)
    requires
        a@.len() == b@.len(),
    ensures
        r == (val(a@) >= val(b@)),
{
    let mut i: usize = a.len();
    while i > 0
        invariant
            i <= a@.len(),
            a@.len() == b@.len(),
            forall|k: int| i <= k < a@.len() ==> a@[k] == b@[k],
        decreases i,
    {
        i = i - 1;
        if a[i] > b[i] {
            proof {
                lemme_plus_grand(a@, b@, i as int);
            }
            return true;
        }
        if a[i] < b[i] {
            proof {
                lemme_plus_grand(b@, a@, i as int);
            }
            return false;
        }
    }
    assert(a@ =~= b@);
    true
}

/// `a - b`, en place, à nombres de chiffres égaux.
pub(crate) fn soustraire(a: &mut Vec<u32>, b: &Vec<u32>)
    requires
        old(a)@.len() == b@.len(),
        val(old(a)@) >= val(b@),
    ensures
        final(a)@.len() == b@.len(),
        val(final(a)@) == val(old(a)@) - val(b@),
{
    let ghost depart = a@;
    let mut emprunt: u64 = 0;
    let mut i: usize = 0;
    assert(a@.take(0) =~= Seq::<u32>::empty());
    assert(b@.take(0) =~= Seq::<u32>::empty());
    assert(depart.take(0) =~= Seq::<u32>::empty());
    while i < a.len()
        invariant
            i <= a@.len(),
            a@.len() == depart.len(),
            a@.len() == b@.len(),
            emprunt <= 1,
            forall|j: int| i <= j < a@.len() ==> a@[j] == depart[j],
            val(a@.take(i as int)) + val(b@.take(i as int)) == val(depart.take(i as int))
                + emprunt as nat * poids(i as nat),
        decreases a@.len() - i,
    {
        let x: u64 = a[i] as u64;
        let y: u64 = b[i] as u64 + emprunt;
        let ghost avant = a@;
        let ghost e0 = emprunt;
        let (d, e): (u64, u64) = if x >= y {
            (x - y, 0)
        } else {
            (x + BASE - y, 1)
        };
        a.set(i, d as u32);
        proof {
            let p = poids(i as nat);
            assert(a@.take(i + 1).drop_last() =~= avant.take(i as int));
            assert(b@.take(i + 1).drop_last() =~= b@.take(i as int));
            assert(depart.take(i + 1).drop_last() =~= depart.take(i as int));
            let va = val(avant.take(i as int));
            let vb = val(b@.take(i as int));
            let vd = val(depart.take(i as int));
            let bi = b@[i as int] as nat;
            assert(poids((i + 1) as nat) == 0x1_0000_0000 * p);
            assert((va + d as nat * p) + (vb + bi * p) == (vd + x as nat * p) + e as nat * (
            0x1_0000_0000 * p)) by (nonlinear_arith)
                requires
                    va + vb == vd + e0 as nat * p,
                    d as nat + bi + e0 as nat == x as nat + e as nat * 0x1_0000_0000,
            {
                assert((d as nat + bi + e0 as nat) * p == (x as nat + e as nat * 0x1_0000_0000)
                    * p);
            }
        }
        emprunt = e;
        i += 1;
    }
    proof {
        assert(a@.take(a@.len() as int) =~= a@);
        assert(b@.take(b@.len() as int) =~= b@);
        assert(depart.take(depart.len() as int) =~= depart);
        lemme_val_bornee(a@);
        let p = poids(a@.len());
        assert(emprunt == 1 ==> emprunt as nat * p == p);
        assert(emprunt == 0 ==> emprunt as nat * p == 0);
    }
}

/// Le nombre est nul.
pub(crate) fn est_nul(a: &Vec<u32>) -> (r: bool)
    ensures
        r == (val(a@) == 0),
{
    let mut i: usize = a.len();
    while i > 0
        invariant
            i <= a@.len(),
            forall|k: int| i <= k < a@.len() ==> a@[k] == 0,
        decreases i,
    {
        i = i - 1;
        if a[i] != 0 {
            proof {
                let z = Seq::new(a@.len(), |k: int| 0u32);
                lemme_plus_grand(a@, z, i as int);
            }
            return false;
        }
    }
    proof {
        lemme_nul(a@);
    }
    true
}

proof fn lemme_nul(s: Seq<u32>)
    requires
        forall|k: int| 0 <= k < s.len() ==> s[k] == 0,
    ensures
        val(s) == 0,
    decreases s.len(),
{
    if s.len() > 0 {
        lemme_nul(s.drop_last());
        assert(0nat * poids((s.len() - 1) as nat) == 0);
    }
}

/// Le quotient par un petit entier, en place, et le reste.
pub(crate) fn diviser_petit(v: &mut Vec<u32>, d: u32) -> (r: u32)
    requires
        d > 0,
    ensures
        final(v)@.len() == old(v)@.len(),
        val(old(v)@) == d as nat * val(final(v)@) + r as nat,
        r < d,
        val(final(v)@) == val(old(v)@) / d as nat,
        r as nat == val(old(v)@) % d as nat,
{
    let ghost depart = v@;
    let mut r: u64 = 0;
    let mut i: usize = v.len();
    proof {
        assert(depart.take(depart.len() as int) =~= depart);
        let p = poids(i as nat);
        let x = (val(v@) - val(v@.take(i as int))) as nat;
        assert(d as nat * x == 0 && r as nat * p == 0) by (nonlinear_arith)
            requires
                x == 0,
                r == 0,
        ;
    }
    while i > 0
        invariant
            i <= v@.len(),
            v@.len() == depart.len(),
            r < d,
            forall|j: int| 0 <= j < i ==> v@[j] == depart[j],
            val(v@) >= val(v@.take(i as int)),
            val(depart) - val(depart.take(i as int)) == d as nat * ((val(v@) - val(
                v@.take(i as int),
            )) as nat) + r as nat * poids(i as nat),
        decreases i,
    {
        i = i - 1;
        let x: u32 = v[i];
        assert(r * 0x1_0000_0000 + x < d * 0x1_0000_0000) by (nonlinear_arith)
            requires
                r < d,
                x <= 0xffff_ffff,
        ;
        let t: u64 = r * BASE + x as u64;
        let q: u64 = t / d as u64;
        let s: u64 = t % d as u64;
        proof {
            assert(q < 0x1_0000_0000) by (nonlinear_arith)
                requires
                    t < d * 0x1_0000_0000,
                    q == t / d as u64,
                    d > 0,
            ;
        }
        let ghost avant = v@;
        let ghost r0 = r as nat;
        v.set(i, q as u32);
        proof {
            let p = poids(i as nat);
            let bas = avant.take(i as int);
            assert(v@.take(i as int) =~= bas);
            assert(depart.take(i as int) =~= bas);
            assert(avant.take(i + 1).drop_last() =~= bas);
            assert(depart.take(i + 1).drop_last() =~= bas);
            assert(avant.take(i + 1).last() == x);
            assert(depart.take(i + 1).last() == x);
            lemme_remplacement(avant, i as int, q as u32);
            let hv = (val(avant) - val(avant.take(i + 1))) as nat;
            let hd = val(depart) - val(depart.take(i + 1));
            let (xx, qq, ss, dd) = (x as nat, q as nat, s as nat, d as nat);
            assert(poids((i + 1) as nat) == 0x1_0000_0000 * p);
            assert(val(v@) - val(bas) == hv + qq * p);
            assert(val(depart) - val(bas) == hd + xx * p);
            vstd::arithmetic::div_mod::lemma_fundamental_div_mod(t as int, d as int);
            assert(hd + xx * p == dd * (hv + qq * p) + ss * p) by (nonlinear_arith)
                requires
                    hd == dd * hv + r0 * (0x1_0000_0000 * p),
                    r0 * 0x1_0000_0000 + xx == dd * qq + ss,
            {
                assert((r0 * 0x1_0000_0000 + xx) * p == (dd * qq + ss) * p);
            }
        }
        r = s;
    }
    proof {
        assert(v@.take(0) =~= Seq::<u32>::empty());
        assert(depart.take(0) =~= Seq::<u32>::empty());
        let (rr, u) = (r as nat, poids(0));
        assert(rr * u == rr) by (nonlinear_arith)
            requires
                u == 1,
        ;
        let (a, b, dd) = (val(depart), val(v@), d as nat);
        assert(a == b * dd + rr) by (nonlinear_arith)
            requires
                a == dd * b + rr,
        ;
        vstd::arithmetic::div_mod::lemma_fundamental_div_mod_converse(
            a as int,
            dd as int,
            b as int,
            rr as int,
        );
    }
    r as u32
}

/// Changer un chiffre change la valeur de son poids.
proof fn lemme_remplacement(s: Seq<u32>, i: int, x: u32)
    requires
        0 <= i < s.len(),
    ensures
        val(s.update(i, x)) + s[i] as nat * poids(i as nat) == val(s) + x as nat * poids(i as nat),
        val(s) >= val(s.take(i + 1)),
        val(s.take(i + 1)) >= val(s.take(i)),
    decreases s.len(),
{
    let t = s.update(i, x);
    assert(s.take(i + 1).drop_last() =~= s.take(i));
    if i == s.len() - 1 {
        assert(t.drop_last() =~= s.drop_last());
        assert(s.take(i + 1) =~= s);
    } else {
        assert(t.drop_last() =~= s.drop_last().update(i, x));
        lemme_remplacement(s.drop_last(), i, x);
        assert(s.drop_last().take(i + 1) =~= s.take(i + 1));
    }
}

/// Le nombre est pair.
pub(crate) fn est_pair(v: &Vec<u32>) -> (b: bool)
    ensures
        b == (val(v@) % 2 == 0),
{
    if v.len() == 0 {
        return true;
    }
    proof {
        lemme_parite(v@);
    }
    v[0] % 2 == 0
}

proof fn lemme_parite(s: Seq<u32>)
    requires
        s.len() > 0,
    ensures
        val(s) % 2 == s[0] as nat % 2,
    decreases s.len(),
{
    let n = (s.len() - 1) as nat;
    if n == 0 {
        assert(s.drop_last() =~= Seq::<u32>::empty());
        let (x, u) = (s.last() as nat, poids(0));
        assert(x * u == x) by (nonlinear_arith)
            requires
                u == 1,
        ;
        assert(val(s.drop_last()) == 0);
        assert(val(s) == x);
        assert(s[0] == s.last());
    } else {
        lemme_parite(s.drop_last());
        let p = poids((n - 1) as nat);
        let x = s.last() as nat;
        assert(poids(n) == 0x1_0000_0000 * p);
        let y = x * (0x8000_0000 * p);
        assert(x * (0x1_0000_0000 * p) == 2 * y) by (nonlinear_arith)
            requires
                y == x * (0x8000_0000 * p),
        ;
        assert(val(s) == val(s.drop_last()) + 2 * y);
        assert(s.drop_last()[0] == s[0]);
    }
}

} // verus!
