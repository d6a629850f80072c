//! Nombres binaires à double précision, tenus par leurs soixante-quatre bits.
//!
//! Les cours, les expositions et les volatilités sont des flottants. Leur
//! arithmétique est écrite ici sur des entiers, et chaque opération est prouvée
//! rendre l'arrondi exact du résultat mathématique, au plus proche et au pair.

use vstd::arithmetic::div_mod::*;
use vstd::arithmetic::mul::*;
use vstd::arithmetic::power2::*;
use vstd::prelude::*;

verus! {

/// Le bit de signe.
pub const BIT_SIGNE: u64 = 0x8000_0000_0000_0000;

/// Ce que pèse une unité du champ d'exposant, soit deux puissance cinquante-deux.
pub const UNITE_CHAMP: u64 = 0x0010_0000_0000_0000;

/// Le code de l'infini positif.
pub const CODE_INFINI: u64 = 0x7ff0_0000_0000_0000;

/// Le code rendu pour une opération qui n'a pas de résultat.
pub const CODE_NON_NOMBRE: u64 = 0x7ff8_0000_0000_0000;

/// Un nombre binaire à double précision.
///
/// Toute suite de soixante-quatre bits en est un : le type n'a pas d'invariant.
/// L'égalité dérivée est celle des bits ; [`Flottant::egal`] est celle des valeurs.
#[derive(Clone, Copy, Debug, PartialEq, Eq, Structural)]
pub struct Flottant {
    pub bits: u64,
}

/// Le quotient `a / b` arrondi au plus proche, les moitiés allant au pair.
pub open spec fn au_plus_proche(a: nat, b: nat) -> nat {
    let q = a / b;
    let r = a % b;
    if 2 * r < b || (2 * r == b && q % 2 == 0) {
        q
    } else {
        q + 1
    }
}

/// Le plus petit `k` tel que `n / d` tienne sur cinquante-trois bits au pas `2^k`.
pub open spec fn echelle(n: nat, d: nat) -> nat
    decreases n - d,
{
    if d == 0 || n < d * pow2(53) {
        0
    } else {
        proof {
            lemma_pow2_pos(52);
            lemma_pow2_unfold(53);
            lemma_mul_inequality(2, pow2(53) as int, d as int);
            lemma_mul_is_commutative(pow2(53) as int, d as int);
        }
        1 + echelle(n, d * 2)
    }
}

/// Le flottant le plus proche de `n / d` fois `2^-1074`, signé.
///
/// L'unité `2^-1074` est le plus petit nombre positif du format : toute valeur
/// finie en est un multiple entier.
#[verifier::opaque]
pub open spec fn arrondi(negatif: bool, n: nat, d: nat) -> Flottant {
    let k = echelle(n, d);
    let m = au_plus_proche(n, d * pow2(k));
    let code = k * UNITE_CHAMP + m;
    let borne = if code < CODE_INFINI {
        code
    } else {
        CODE_INFINI as int
    };
    Flottant { bits: (borne + if negatif { BIT_SIGNE as int } else { 0 }) as u64 }
}

impl Flottant {
    /// Le bit de signe est mis.
    pub open spec fn negatif(self) -> bool {
        self.bits >= BIT_SIGNE
    }

    /// Le code sans son signe : il croît avec la valeur absolue.
    pub open spec fn rang(self) -> int {
        if self.bits >= BIT_SIGNE {
            self.bits - BIT_SIGNE
        } else {
            self.bits as int
        }
    }

    pub open spec fn nan(self) -> bool {
        self.rang() > CODE_INFINI
    }

    pub open spec fn infini(self) -> bool {
        self.rang() == CODE_INFINI
    }

    pub open spec fn fini(self) -> bool {
        self.rang() < CODE_INFINI
    }

    /// Le multiplicateur entier du pas.
    pub open spec fn mantisse(self) -> nat {
        if self.rang() < UNITE_CHAMP {
            self.rang() as nat
        } else {
            (self.rang() % (UNITE_CHAMP as int) + UNITE_CHAMP) as nat
        }
    }

    /// L'exposant du pas, compté depuis le plus petit.
    pub open spec fn pas(self) -> nat {
        if self.rang() < UNITE_CHAMP {
            0
        } else {
            (self.rang() / (UNITE_CHAMP as int) - 1) as nat
        }
    }

    /// La valeur absolue, en multiples de `2^-1074`.
    #[verifier::opaque]
    pub open spec fn magnitude(self) -> nat {
        self.mantisse() * pow2(self.pas())
    }

    /// La valeur, en multiples de `2^-1074`.
    pub open spec fn valeur(self) -> int {
        if self.negatif() {
            -(self.magnitude() as int)
        } else {
            self.magnitude() as int
        }
    }
}

/// Le résultat d'une opération qui n'en a pas.
pub open spec fn non_nombre() -> Flottant {
    Flottant { bits: CODE_NON_NOMBRE }
}

/// Le zéro positif.
pub open spec fn zero() -> Flottant {
    Flottant { bits: 0 }
}

/// L'infini ou le zéro, signés.
pub open spec fn signer(negatif: bool, code: u64) -> Flottant {
    Flottant { bits: (code + if negatif { BIT_SIGNE as int } else { 0 }) as u64 }
}

impl Flottant {
    /// La clef d'ordre : elle range les flottants comme leurs valeurs, et
    /// confond les deux zéros.
    pub open spec fn clef(self) -> int {
        if self.negatif() {
            -self.rang()
        } else {
            self.rang()
        }
    }

    pub open spec fn inferieur(self, autre: Flottant) -> bool {
        !self.nan() && !autre.nan() && self.clef() < autre.clef()
    }

    pub open spec fn inferieur_ou_egal(self, autre: Flottant) -> bool {
        !self.nan() && !autre.nan() && self.clef() <= autre.clef()
    }

    pub open spec fn de_meme_valeur(self, autre: Flottant) -> bool {
        !self.nan() && !autre.nan() && self.clef() == autre.clef()
    }

    /// Strictement positif.
    pub open spec fn positif(self) -> bool {
        zero().inferieur(self)
    }

    pub open spec fn oppose(self) -> Flottant {
        if self.negatif() {
            Flottant { bits: (self.bits - BIT_SIGNE) as u64 }
        } else {
            Flottant { bits: (self.bits + BIT_SIGNE) as u64 }
        }
    }

    pub open spec fn valeur_absolue(self) -> Flottant {
        Flottant { bits: self.rang() as u64 }
    }

    /// Le plus grand des deux ; un non-nombre cède à l'autre.
    pub open spec fn plus_grand(self, autre: Flottant) -> Flottant {
        if self.nan() || self.inferieur(autre) {
            autre
        } else {
            self
        }
    }

    /// Le plus petit des deux ; un non-nombre cède à l'autre.
    pub open spec fn plus_petit(self, autre: Flottant) -> Flottant {
        if self.nan() || autre.inferieur(self) {
            autre
        } else {
            self
        }
    }

    /// La somme exacte, arrondie.
    #[verifier::opaque]
    pub open spec fn somme(self, autre: Flottant) -> Flottant {
        if self.nan() || autre.nan() {
            non_nombre()
        } else if self.infini() && autre.infini() && self.negatif() != autre.negatif() {
            non_nombre()
        } else if self.infini() {
            self
        } else if autre.infini() {
            autre
        } else {
            let v = self.valeur() + autre.valeur();
            if v == 0 {
                signer(self.negatif() && autre.negatif(), 0)
            } else if v > 0 {
                arrondi(false, v as nat, 1)
            } else {
                arrondi(true, (-v) as nat, 1)
            }
        }
    }

    /// La différence exacte, arrondie.
    pub open spec fn difference(self, autre: Flottant) -> Flottant {
        self.somme(autre.oppose())
    }

    /// Le produit exact, arrondi.
    #[verifier::opaque]
    pub open spec fn produit(self, autre: Flottant) -> Flottant {
        let negatif = self.negatif() != autre.negatif();
        if self.nan() || autre.nan() {
            non_nombre()
        } else if self.infini() || autre.infini() {
            if self.rang() == 0 || autre.rang() == 0 {
                non_nombre()
            } else {
                signer(negatif, CODE_INFINI)
            }
        } else {
            arrondi(negatif, self.magnitude() * autre.magnitude(), pow2(1074))
        }
    }

    /// Le quotient exact, arrondi.
    #[verifier::opaque]
    pub open spec fn quotient(self, autre: Flottant) -> Flottant {
        let negatif = self.negatif() != autre.negatif();
        if self.nan() || autre.nan() || (self.infini() && autre.infini()) || (self.rang() == 0
            && autre.rang() == 0) {
            non_nombre()
        } else if self.infini() || autre.rang() == 0 {
            signer(negatif, CODE_INFINI)
        } else if autre.infini() {
            signer(negatif, 0)
        } else {
            arrondi(negatif, self.magnitude() * pow2(1074), autre.magnitude())
        }
    }
}

/// La partie entière de la racine carrée.
pub open spec fn racine_entiere(n: nat) -> nat
    decreases n,
{
    if n == 0 {
        0
    } else {
        let r = racine_entiere((n - 1) as nat);
        if (r + 1) * (r + 1) <= n {
            r + 1
        } else {
            r
        }
    }
}

/// Le flottant le plus proche de la racine carrée de `n`, en unités de `2^-1074`.
///
/// Une racine inexacte est représentée par le milieu de l'intervalle d'entiers qui
/// la contient : aux grandeurs en jeu, aucune frontière d'arrondi ne l'y sépare de
/// la racine elle-même.
#[verifier::opaque]
pub open spec fn arrondi_racine(n: nat) -> Flottant {
    let r = racine_entiere(n);
    if r * r == n {
        arrondi(false, r, 1)
    } else {
        arrondi(false, 2 * r + 1, 2)
    }
}

impl Flottant {
    /// La racine carrée exacte, arrondie.
    #[verifier::opaque]
    pub open spec fn racine_carree(self) -> Flottant {
        if self.nan() || (self.negatif() && self.rang() != 0) {
            non_nombre()
        } else if self.infini() || self.rang() == 0 {
            self
        } else {
            arrondi_racine(self.magnitude() * pow2(1074))
        }
    }
}

/// Le flottant le plus proche du rapport de deux entiers : `rapport(3, 10)` est `0.3`.
#[verifier::opaque]
pub open spec fn rapport(numerateur: int, denominateur: nat) -> Flottant {
    if numerateur < 0 {
        arrondi(true, (-numerateur) as nat * pow2(1074), denominateur)
    } else {
        arrondi(false, numerateur as nat * pow2(1074), denominateur)
    }
}

pub(crate) proof fn lemme_echelle(n: nat, d: nat, k: nat)
    requires
        d > 0,
        n < d * pow2(53 + k),
        k == 0 || n >= d * pow2((52 + k) as nat),
    ensures
        echelle(n, d) == k,
    decreases k,
{
    if k > 0 {
        let k1 = (k - 1) as nat;
        lemma_pow2_unfold(53 + k);
        lemma_pow2_unfold((52 + k) as nat);
        assert(d * 2 * pow2(53 + k1) == d * pow2(53 + k)) by (nonlinear_arith)
            requires
                pow2(53 + k) == 2 * pow2(53 + k1),
        ;
        assert(d * 2 * pow2((52 + k1) as nat) == d * pow2((52 + k) as nat)) by (nonlinear_arith)
            requires
                pow2((52 + k) as nat) == 2 * pow2((52 + k1) as nat),
        ;
        lemme_echelle(n, d * 2, k1);
        if k > 1 {
            lemma_pow2_strictly_increases(53, (52 + k) as nat);
        }
        assert(d * pow2(53) <= d * pow2((52 + k) as nat)) by (nonlinear_arith)
            requires
                pow2(53) <= pow2((52 + k) as nat),
        ;
    }
}

pub(crate) proof fn lemme_proche_proportion(a: nat, b: nat, c: nat)
    requires
        b > 0,
        c > 0,
    ensures
        au_plus_proche(a * c, b * c) == au_plus_proche(a, b),
{
    let q = a / b;
    let r = a % b;
    lemma_fundamental_div_mod(a as int, b as int);
    assert(a * c == q * (b * c) + r * c) by (nonlinear_arith)
        requires
            a == b * q + r,
    ;
    assert(0 <= r * c < b * c) by (nonlinear_arith)
        requires
            0 <= r < b,
            c > 0,
    ;
    lemma_fundamental_div_mod_converse((a * c) as int, (b * c) as int, q as int, (r * c) as int);
    assert((2 * r < b) == (2 * (r * c) < b * c)) by (nonlinear_arith)
        requires
            c > 0,
    ;
    assert((2 * r == b) == (2 * (r * c) == b * c)) by (nonlinear_arith)
        requires
            c > 0,
    ;
}

/// L'arrondi de `a / (b * p)` se lit sur le quotient entier `a / b` et sur
/// l'existence d'un reste.
pub(crate) proof fn lemme_proche_tronque(a: nat, b: nat, p: nat)
    requires
        b > 0,
        p > 0,
        p % 2 == 0,
    ensures
        ({
            let m = a / b;
            let q = m / p;
            let r = m % p;
            let haut = r > p / 2 || (r == p / 2 && (a % b != 0 || q % 2 == 1));
            au_plus_proche(a, b * p) == if haut {
                q + 1
            } else {
                q
            }
        }),
{
    let m = a / b;
    let t = a % b;
    let q = m / p;
    let r = m % p;
    let h = p / 2;
    lemma_fundamental_div_mod(a as int, b as int);
    lemma_fundamental_div_mod(m as int, p as int);
    assert(a == q * (b * p) + (r * b + t)) by (nonlinear_arith)
        requires
            a == b * m + t,
            m == p * q + r,
    ;
    assert(0 <= r * b + t < b * p) by (nonlinear_arith)
        requires
            0 <= t < b,
            0 <= r < p,
    ;
    lemma_fundamental_div_mod_converse(a as int, (b * p) as int, q as int, (r * b + t) as int);
    assert(p == 2 * h);
    if r < h {
        assert(2 * (r * b + t) < b * p) by (nonlinear_arith)
            requires
                r + 1 <= h,
                p == 2 * h,
                0 <= t < b,
        ;
    } else if r > h {
        assert(2 * (r * b + t) > b * p) by (nonlinear_arith)
            requires
                r >= h + 1,
                p == 2 * h,
                0 <= t < b,
        ;
    } else {
        assert(2 * (r * b + t) == b * p + 2 * t) by (nonlinear_arith)
            requires
                r == h,
                p == 2 * h,
        ;
    }
}

/// Deux à la puissance `s`.
fn puissance(s: u32) -> (p: u128)
    requires
        s < 128,
    ensures
        p == pow2(s as nat),
{
    let mut p: u128 = 1;
    let mut i: u32 = 0;
    proof {
        lemma2_to64();
    }
    while i < s
        invariant
            i <= s < 128,
            p == pow2(i as nat),
        decreases s - i,
    {
        proof {
            lemma_pow2_unfold((i + 1) as nat);
            lemme_puissance_127(i as nat);
        }
        p = p * 2;
        i = i + 1;
    }
    p
}

proof fn lemme_puissance_127(i: nat)
    requires
        i < 127,
    ensures
        2 * pow2(i) <= 0x8000_0000_0000_0000_0000_0000_0000_0000,
{
    lemma2_to64();
    lemma2_to64_rest();
    lemma_pow2_adds(63, 64);
    assert(pow2(127) == 0x8000_0000_0000_0000_0000_0000_0000_0000);
    lemma_pow2_unfold(i + 1);
    if i + 1 < 127 {
        lemma_pow2_strictly_increases(i + 1, 127);
    }
}

/// Le nombre de bits de `m`.
fn longueur(m: u128) -> (l: u32)
    requires
        0 < m < 0x8000_0000_0000_0000_0000_0000_0000_0000,
    ensures
        1 <= l <= 127,
        pow2((l - 1) as nat) <= m < pow2(l as nat),
{
    let mut l: u32 = 1;
    let mut p: u128 = 2;
    proof {
        lemma2_to64();
    }
    while p <= m
        invariant
            1 <= l <= 127,
            p == pow2(l as nat),
            pow2((l - 1) as nat) <= m,
            0 < m < 0x8000_0000_0000_0000_0000_0000_0000_0000,
        decreases 127 - l,
    {
        proof {
            if l == 127 {
                lemma2_to64();
                lemma2_to64_rest();
                lemma_pow2_adds(63, 64);
            } else {
                lemme_puissance_127(l as nat);
            }
            lemma_pow2_unfold((l + 1) as nat);
        }
        p = p * 2;
        l = l + 1;
    }
    l
}

pub(crate) proof fn lemme_arrondi_nul(negatif: bool, n: nat, d: nat, ea: nat)
    requires
        d > 0,
        n * pow2(ea) == 0,
    ensures
        arrondi(negatif, n, d) == (Flottant {
            bits: if negatif {
                BIT_SIGNE
            } else {
                0
            },
        }),
{
    reveal(arrondi);
    lemma_pow2_pos(ea);
    assert(n == 0) by (nonlinear_arith)
        requires
            n * pow2(ea) == 0,
            pow2(ea) > 0,
    ;
    lemma_pow2_pos(53);
    lemma_mul_strictly_positive(d as int, pow2(53) as int);
    lemma2_to64();
    assert(d * pow2(0) == d);
    lemma_small_mod(0, d);
    lemma_basic_div(0, d as int);
}

/// Le cadre commun des trois cas : ce que `m`, sa longueur et le pas retenu
/// disent de `n / d`.
spec fn cadre(n: nat, d: nat, ea: nat, eb: nat, m: nat, l: nat, k: nat) -> bool {
    &&& d > 0
    &&& l >= 1
    &&& m == (n * pow2(ea)) / (d * pow2(eb))
    &&& pow2((l - 1) as nat) <= m < pow2(l)
    &&& l + eb <= 53 + k + ea
    &&& k > 0 ==> l + eb == 53 + k + ea
}

proof fn lemme_cadre(n: nat, d: nat, ea: nat, eb: nat, m: nat, l: nat, k: nat)
    requires
        cadre(n, d, ea, eb, m, l, k),
    ensures
        echelle(n, d) == k,
{
    let a = n * pow2(ea);
    let b = d * pow2(eb);
    let pa = pow2(ea);
    let pb = pow2(eb);
    lemma_pow2_pos(ea);
    lemma_pow2_pos(eb);
    lemma_mul_strictly_positive(d as int, pb as int);
    lemma_fundamental_div_mod(a as int, b as int);
    let haut = pow2(53 + k);
    let t = a % b;
    lemma_pow2_adds(l, eb);
    lemma_pow2_adds(53 + k, ea);
    if l + eb < 53 + k + ea {
        lemma_pow2_strictly_increases(l + eb, 53 + k + ea);
    }
    let pl = pow2(l);
    assert(n < d * haut) by (nonlinear_arith)
        requires
            n * pa == b * m + t,
            0 <= t < b,
            b == d * pb,
            m + 1 <= pl,
            pl * pb <= haut * pa,
            pa > 0,
            d > 0,
    {
        assert(b * m + t < b * (m + 1));
        assert(b * (m + 1) <= b * pl);
        assert(b * pl == d * (pl * pb));
        assert(d * (pl * pb) <= d * (haut * pa));
        assert(d * (haut * pa) == (d * haut) * pa);
        assert(n * pa < (d * haut) * pa);
    }
    if k > 0 {
        let bas = pow2((52 + k) as nat);
        let pm = pow2((l - 1) as nat);
        lemma_pow2_adds((l - 1) as nat, eb);
        lemma_pow2_adds((52 + k) as nat, ea);
        assert(n >= d * bas) by (nonlinear_arith)
            requires
                n * pa == b * m + t,
                t >= 0,
                b == d * pb,
                m >= pm,
                pm * pb == bas * pa,
                pa > 0,
                d > 0,
                b > 0,
        {
            assert(n * pa >= b * pm);
            assert(b * pm == d * (pm * pb));
            assert(d * (bas * pa) == (d * bas) * pa);
            assert(n * pa >= (d * bas) * pa);
        }
    }
    lemme_echelle(n, d, k);
}

/// Le dénominateur au pas retenu, ramené à l'échelle du cadre.
proof fn lemme_denominateur(n: nat, d: nat, ea: nat, eb: nat, k: nat, s: nat)
    requires
        d > 0,
        s + eb == k + ea,
    ensures
        au_plus_proche(n, d * pow2(k)) == au_plus_proche(
            n * pow2(ea),
            (d * pow2(eb)) * pow2(s),
        ),
        d * pow2(k) > 0,
{
    let pa = pow2(ea);
    let pb = pow2(eb);
    let pk = pow2(k);
    let ps = pow2(s);
    lemma_pow2_pos(ea);
    lemma_pow2_pos(k);
    lemma_mul_strictly_positive(d as int, pk as int);
    lemme_proche_proportion(n, d * pk, pa);
    lemma_pow2_adds(k, ea);
    lemma_pow2_adds(s, eb);
    assert(d * pk * pa == (d * pb) * ps) by (nonlinear_arith)
        requires
            pk * pa == ps * pb,
    ;
}

proof fn lemme_perte(n: nat, d: nat, ea: nat, eb: nat, m: nat, l: nat, k: nat, s: nat)
    requires
        cadre(n, d, ea, eb, m, l, k),
        1 <= s <= l,
        s + eb == k + ea,
    ensures
        ({
            let p = pow2(s);
            let q = m / p;
            let r = m % p;
            let reste = (n * pow2(ea)) % (d * pow2(eb)) != 0;
            let haut = r > p / 2 || (r == p / 2 && (reste || q % 2 == 1));
            &&& q < pow2(53)
            &&& p > 0
            &&& au_plus_proche(n, d * pow2(k)) == if haut {
                q + 1
            } else {
                q
            }
        }),
{
    let p = pow2(s);
    lemma_pow2_pos(s);
    lemma_pow2_pos(eb);
    lemma_pow2_unfold(s);
    lemma_mul_strictly_positive(d as int, pow2(eb) as int);
    lemme_denominateur(n, d, ea, eb, k, s);
    lemme_proche_tronque(n * pow2(ea), d * pow2(eb), p);
    lemma_pow2_adds((l - s) as nat, s);
    if l - s < 53 {
        lemma_pow2_strictly_increases((l - s) as nat, 53);
    }
    let h = pow2((l - s) as nat);
    lemma_fundamental_div_mod(m as int, p as int);
    let q = m / p;
    assert(q < h) by (nonlinear_arith)
        requires
            m < h * p,
            m == p * q + m % p,
            m % p >= 0,
            p > 0,
    ;
}

proof fn lemme_tout_perdu(n: nat, d: nat, ea: nat, eb: nat, m: nat, l: nat, k: nat, s: nat)
    requires
        cadre(n, d, ea, eb, m, l, k),
        s > l,
        s + eb == k + ea,
    ensures
        au_plus_proche(n, d * pow2(k)) == 0,
{
    let p = pow2(s);
    lemma_pow2_pos(s);
    lemma_pow2_pos(eb);
    lemma_pow2_unfold(s);
    lemma_mul_strictly_positive(d as int, pow2(eb) as int);
    lemme_denominateur(n, d, ea, eb, k, s);
    lemme_proche_tronque(n * pow2(ea), d * pow2(eb), p);
    if l < s - 1 {
        lemma_pow2_strictly_increases(l, (s - 1) as nat);
    }
    lemma_small_mod(m, p);
    lemma_basic_div(m as int, p as int);
}

proof fn lemme_sans_perte(n: nat, d: nat, ea: nat, eb: nat, m: nat, l: nat, k: nat, g: nat)
    requires
        cadre(n, d, ea, eb, m, l, k),
        (n * pow2(ea)) % (d * pow2(eb)) == 0,
        g + k + ea == eb,
    ensures
        au_plus_proche(n, d * pow2(k)) == m * pow2(g),
        m * pow2(g) < pow2(53),
{
    let pa = pow2(ea);
    let pb = pow2(eb);
    let pk = pow2(k);
    let pg = pow2(g);
    lemma_pow2_pos(ea);
    lemma_pow2_pos(eb);
    lemma_pow2_pos(k);
    lemma_pow2_pos(g);
    lemma_mul_strictly_positive(d as int, pb as int);
    lemma_mul_strictly_positive(d as int, pk as int);
    lemma_fundamental_div_mod((n * pa) as int, (d * pb) as int);
    lemma_pow2_adds(g + k, ea);
    lemma_pow2_adds(g, k);
    assert(n == (m * pg) * (d * pk)) by (nonlinear_arith)
        requires
            n * pa == (d * pb) * m,
            pb == (pg * pk) * pa,
            pa > 0,
    {
        assert((d * pb) * m == ((m * pg) * (d * pk)) * pa);
        assert(n * pa == ((m * pg) * (d * pk)) * pa);
    }
    lemma_fundamental_div_mod_converse(n as int, (d * pk) as int, (m * pg) as int, 0);
    lemma_pow2_adds(l, g);
    if l + g < 53 {
        lemma_pow2_strictly_increases(l + g, 53);
    }
    assert(m * pg < pow2(l) * pg) by (nonlinear_arith)
        requires
            m < pow2(l),
            pg > 0,
    ;
}

/// L'arrondi d'une valeur encadrée par sa partie entière.
///
/// La valeur `n / d` vaut `2^(eb - ea)` fois un nombre dont `m` est la partie
/// entière, et `reste` dit si ce nombre a une partie fractionnaire.
pub(crate) fn assembler(
    negatif: bool,
    m: u128,
    e: i32,
    reste: bool,
    Ghost(n): Ghost<nat>,
    Ghost(d): Ghost<nat>,
    Ghost(ea): Ghost<nat>,
    Ghost(eb): Ghost<nat>,
) -> (f: Flottant)
    requires
        d > 0,
        m < 0x8000_0000_0000_0000_0000_0000_0000_0000,
        -10000 <= e <= 10000,
        e == eb - ea,
        m as nat == (n * pow2(ea)) / (d * pow2(eb)),
        reste == ((n * pow2(ea)) % (d * pow2(eb)) != 0),
        reste ==> m >= 0x40_0000_0000_0000,
    ensures
        f == arrondi(negatif, n, d),
{
    let signe: u64 = if negatif {
        BIT_SIGNE
    } else {
        0
    };
    let ghost a = n * pow2(ea);
    let ghost b = d * pow2(eb);
    proof {
        lemma_pow2_pos(ea);
        lemma_pow2_pos(eb);
        lemma_mul_strictly_positive(d as int, pow2(eb) as int);
        lemma_fundamental_div_mod(a as int, b as int);
    }
    if m == 0 {
        proof {
            assert(b * (m as nat) == 0) by (nonlinear_arith)
                requires
                    m == 0,
            ;
            lemme_arrondi_nul(negatif, n, d, ea);
        }
        return Flottant { bits: signe };
    }
    let l: u32 = longueur(m);
    let t: i32 = l as i32 + e;
    let k: i32 = if t > 53 {
        t - 53
    } else {
        0
    };
    let s: i32 = k - e;
    proof {
        lemme_cadre(n, d, ea, eb, m as nat, l as nat, k as nat);
        lemma2_to64_rest();
    }
    let mantisse: u64;
    if s <= 0 {
        let g: u32 = (-s) as u32;
        let p: u128 = puissance(g);
        proof {
            if reste && l < 54 {
                lemma_pow2_strictly_increases(l as nat, 54);
            }
            lemme_sans_perte(n, d, ea, eb, m as nat, l as nat, k as nat, g as nat);
        }
        mantisse = (m * p) as u64;
    } else if s > l as i32 {
        proof {
            lemme_tout_perdu(n, d, ea, eb, m as nat, l as nat, k as nat, s as nat);
        }
        mantisse = 0;
    } else {
        let p: u128 = puissance(s as u32);
        proof {
            lemma_pow2_pos(s as nat);
        }
        let q: u128 = m / p;
        let r: u128 = m % p;
        let haut: bool = r > p / 2 || (r == p / 2 && (reste || q % 2 == 1));
        proof {
            lemme_perte(n, d, ea, eb, m as nat, l as nat, k as nat, s as nat);
        }
        mantisse = if haut {
            q as u64 + 1
        } else {
            q as u64
        };
    }
    proof {
        reveal(arrondi);
    }
    let code: u128 = k as u128 * (UNITE_CHAMP as u128) + mantisse as u128;
    if code >= CODE_INFINI as u128 {
        Flottant { bits: CODE_INFINI + signe }
    } else {
        Flottant { bits: code as u64 + signe }
    }
}

impl Flottant {
    fn rang_exec(self) -> (r: u64)
        ensures
            r == self.rang(),
    {
        if self.bits >= BIT_SIGNE {
            self.bits - BIT_SIGNE
        } else {
            self.bits
        }
    }

    /// La mantisse et l'exposant du pas d'un nombre fini.
    pub(crate) fn decomposer(self) -> (r: (u64, u32))
        requires
            self.fini(),
        ensures
            r.0 == self.mantisse(),
            r.1 == self.pas(),
            r.0 < 2 * UNITE_CHAMP,
            r.1 <= 2045,
            r.1 > 0 ==> r.0 >= UNITE_CHAMP,
            self.magnitude() == r.0 as nat * pow2(r.1 as nat),
            self.rang() == 0 <==> r.0 == 0,
    {
        let rang: u64 = self.rang_exec();
        proof {
            reveal(Flottant::magnitude);
        }
        if rang < UNITE_CHAMP {
            (rang, 0)
        } else {
            (rang % UNITE_CHAMP + UNITE_CHAMP, (rang / UNITE_CHAMP - 1) as u32)
        }
    }

    pub fn depuis_bits(bits: u64) -> (f: Flottant)
        ensures
            f.bits == bits,
    {
        Flottant { bits }
    }

    pub fn est_negatif(self) -> (b: bool)
        ensures
            b == self.negatif(),
    {
        self.bits >= BIT_SIGNE
    }

    /// Le zéro positif.
    #[verifier::allow_in_spec]
    pub fn nul() -> (f: Flottant)
        returns
            zero(),
    {
        Flottant { bits: 0 }
    }

    #[verifier::allow_in_spec]
    pub fn est_nan(self) -> (b: bool)
        returns
            self.nan(),
    {
        self.rang_exec() > CODE_INFINI
    }

    #[verifier::allow_in_spec]
    pub fn est_fini(self) -> (b: bool)
        returns
            self.fini(),
    {
        self.rang_exec() < CODE_INFINI
    }

    /// La clef d'ordre.
    pub fn clef_exec(self) -> (c: i64)
        ensures
            c == self.clef(),
    {
        let rang: u64 = self.rang_exec();
        if self.bits >= BIT_SIGNE {
            -(rang as i64)
        } else {
            rang as i64
        }
    }

    /// Strictement inférieur.
    #[verifier::allow_in_spec]
    pub fn inf(self, autre: Flottant) -> (b: bool)
        returns
            self.inferieur(autre),
    {
        !self.est_nan() && !autre.est_nan() && self.clef_exec() < autre.clef_exec()
    }

    /// Inférieur ou égal.
    #[verifier::allow_in_spec]
    pub fn infeg(self, autre: Flottant) -> (b: bool)
        returns
            self.inferieur_ou_egal(autre),
    {
        !self.est_nan() && !autre.est_nan() && self.clef_exec() <= autre.clef_exec()
    }

    /// De même valeur.
    #[verifier::allow_in_spec]
    pub fn egal(self, autre: Flottant) -> (b: bool)
        returns
            self.de_meme_valeur(autre),
    {
        !self.est_nan() && !autre.est_nan() && self.clef_exec() == autre.clef_exec()
    }

    /// Strictement positif.
    #[verifier::allow_in_spec]
    pub fn est_positif(self) -> (b: bool)
        returns
            self.positif(),
    {
        Flottant { bits: 0 }.inf(self)
    }

    #[verifier::allow_in_spec]
    pub fn neg(self) -> (f: Flottant)
        returns
            self.oppose(),
    {
        if self.bits >= BIT_SIGNE {
            Flottant { bits: self.bits - BIT_SIGNE }
        } else {
            Flottant { bits: self.bits + BIT_SIGNE }
        }
    }

    #[verifier::allow_in_spec]
    pub fn abs(self) -> (f: Flottant)
        returns
            self.valeur_absolue(),
    {
        Flottant { bits: self.rang_exec() }
    }

    #[verifier::allow_in_spec]
    pub fn max(self, autre: Flottant) -> (f: Flottant)
        returns
            self.plus_grand(autre),
    {
        if self.est_nan() || self.inf(autre) {
            autre
        } else {
            self
        }
    }

    #[verifier::allow_in_spec]
    pub fn min(self, autre: Flottant) -> (f: Flottant)
        returns
            self.plus_petit(autre),
    {
        if self.est_nan() || autre.inf(self) {
            autre
        } else {
            self
        }
    }

    /// `self * autre`.
    #[verifier::allow_in_spec]
    pub fn fois(self, autre: Flottant) -> (f: Flottant)
        returns
            self.produit(autre),
    {
        let negatif: bool = (self.bits >= BIT_SIGNE) != (autre.bits >= BIT_SIGNE);
        proof {
            reveal(Flottant::produit);
        }
        if self.est_nan() || autre.est_nan() {
            return Flottant { bits: CODE_NON_NOMBRE };
        }
        if !self.est_fini() || !autre.est_fini() {
            if self.rang_exec() == 0 || autre.rang_exec() == 0 {
                return Flottant { bits: CODE_NON_NOMBRE };
            }
            return if negatif {
                Flottant { bits: CODE_INFINI + BIT_SIGNE }
            } else {
                Flottant { bits: CODE_INFINI }
            };
        }
        let (m1, k1) = self.decomposer();
        let (m2, k2) = autre.decomposer();
        let ghost n = self.magnitude() * autre.magnitude();
        let ghost d = pow2(1074);
        assert(m1 as u128 * m2 as u128 <= 0x1f_ffff_ffff_ffff * 0x1f_ffff_ffff_ffff)
            by (nonlinear_arith)
            requires
                m1 <= 0x1f_ffff_ffff_ffff,
                m2 <= 0x1f_ffff_ffff_ffff,
        ;
        let m: u128 = m1 as u128 * m2 as u128;
        proof {
            lemme_produit(m1 as nat, k1 as nat, m2 as nat, k2 as nat);
        }
        assembler(
            negatif,
            m,
            k1 as i32 + k2 as i32 - 1074,
            false,
            Ghost(n),
            Ghost(d),
            Ghost(1074),
            Ghost((k1 + k2) as nat),
        )
    }

    /// `self / autre`.
    #[verifier::allow_in_spec]
    pub fn par(self, autre: Flottant) -> (f: Flottant)
        returns
            self.quotient(autre),
    {
        let negatif: bool = (self.bits >= BIT_SIGNE) != (autre.bits >= BIT_SIGNE);
        proof {
            reveal(Flottant::quotient);
        }
        if self.est_nan() || autre.est_nan() || (!self.est_fini() && !autre.est_fini()) || (
        self.rang_exec() == 0 && autre.rang_exec() == 0) {
            return Flottant { bits: CODE_NON_NOMBRE };
        }
        if !self.est_fini() || autre.rang_exec() == 0 {
            return if negatif {
                Flottant { bits: CODE_INFINI + BIT_SIGNE }
            } else {
                Flottant { bits: CODE_INFINI }
            };
        }
        if !autre.est_fini() {
            return if negatif {
                Flottant { bits: BIT_SIGNE }
            } else {
                Flottant { bits: 0 }
            };
        }
        let (m1, k1) = self.decomposer();
        let (m2, k2) = autre.decomposer();
        diviser(negatif, m1, k1, m2, k2)
    }

    /// `self + autre`.
    #[verifier::allow_in_spec]
    pub fn plus(self, autre: Flottant) -> (f: Flottant)
        returns
            self.somme(autre),
    {
        proof {
            reveal(Flottant::somme);
        }
        if self.est_nan() || autre.est_nan() {
            return Flottant { bits: CODE_NON_NOMBRE };
        }
        let n1: bool = self.bits >= BIT_SIGNE;
        let n2: bool = autre.bits >= BIT_SIGNE;
        if !self.est_fini() {
            return if !autre.est_fini() && n1 != n2 {
                Flottant { bits: CODE_NON_NOMBRE }
            } else {
                self
            };
        }
        if !autre.est_fini() {
            return autre;
        }
        let (m1, k1) = self.decomposer();
        let (m2, k2) = autre.decomposer();
        if k1 >= k2 {
            ajouter(n1, m1, k1, n2, m2, k2)
        } else {
            ajouter(n2, m2, k2, n1, m1, k1)
        }
    }

    /// `self - autre`.
    #[verifier::allow_in_spec]
    pub fn moins(self, autre: Flottant) -> (f: Flottant)
        returns
            self.difference(autre),
    {
        self.plus(autre.neg())
    }

    /// Le flottant le plus proche de `numerateur / denominateur`.
    #[verifier::allow_in_spec]
    pub fn fraction(numerateur: i64, denominateur: u64) -> (f: Flottant)
        requires
            denominateur > 0,
        returns
            rapport(numerateur as int, denominateur as nat),
    {
        proof {
            reveal(rapport);
            lemma2_to64();
            assert(denominateur as nat * pow2(0) == denominateur as nat);
        }
        if numerateur < 0 {
            let m: u64 = (-(numerateur as i128)) as u64;
            proof {
                assert(m as nat * pow2(0) == m as nat);
            }
            diviser(true, m, 0, denominateur, 0)
        } else {
            proof {
                assert(numerateur as nat * pow2(0) == numerateur as nat);
            }
            diviser(false, numerateur as u64, 0, denominateur, 0)
        }
    }

    /// Le flottant le plus proche d'un entier naturel.
    pub fn naturel(n: u64) -> (f: Flottant)
        ensures
            f == rapport(n as int, 1),
    {
        proof {
            reveal(rapport);
            lemma2_to64();
            assert(n as nat * pow2(0) == n as nat);
        }
        diviser(false, n, 0, 1, 0)
    }

    /// Le flottant le plus proche d'un entier.
    #[verifier::allow_in_spec]
    pub fn entier(n: i64) -> (f: Flottant)
        returns
            rapport(n as int, 1),
    {
        Flottant::fraction(n, 1)
    }
}

proof fn lemme_produit(m1: nat, k1: nat, m2: nat, k2: nat)
    ensures
        ({
            let n = (m1 * pow2(k1)) * (m2 * pow2(k2));
            let a = n * pow2(1074);
            let b = pow2(1074) * pow2(k1 + k2);
            &&& pow2(1074) > 0
            &&& a / b == m1 * m2
            &&& a % b == 0
        }),
{
    let p1 = pow2(k1);
    let p2 = pow2(k2);
    let c = pow2(1074);
    lemma_pow2_adds(k1, k2);
    lemma_pow2_pos(1074);
    lemma_pow2_pos(k1 + k2);
    let n = (m1 * p1) * (m2 * p2);
    let b = c * pow2(k1 + k2);
    lemma_mul_strictly_positive(c as int, pow2(k1 + k2) as int);
    assert(n * c == (m1 * m2) * b) by (nonlinear_arith)
        requires
            n == (m1 * p1) * (m2 * p2),
            b == c * (p1 * p2),
    ;
    lemma_fundamental_div_mod_converse((n * c) as int, b as int, (m1 * m2) as int, 0);
}

/// Le quotient arrondi de deux nombres donnés par mantisse et pas.
fn diviser(negatif: bool, m1: u64, k1: u32, m2: u64, k2: u32) -> (f: Flottant)
    requires
        m2 > 0,
        k1 <= 2045,
        k2 <= 2045,
    ensures
        f == arrondi(
            negatif,
            (m1 as nat * pow2(k1 as nat)) * pow2(1074),
            m2 as nat * pow2(k2 as nat),
        ),
{
    let ghost n = (m1 as nat * pow2(k1 as nat)) * pow2(1074);
    let ghost d = m2 as nat * pow2(k2 as nat);
    proof {
        lemma_pow2_pos(k2 as nat);
        lemma_mul_strictly_positive(m2 as int, pow2(k2 as nat) as int);
    }
    if m1 == 0 {
        proof {
            assert(n * pow2(0) == 0) by (nonlinear_arith)
                requires
                    m1 == 0,
                    n == (m1 as nat * pow2(k1 as nat)) * pow2(1074),
            ;
            lemme_arrondi_nul(negatif, n, d, 0);
        }
        return if negatif {
            Flottant { bits: BIT_SIGNE }
        } else {
            Flottant { bits: 0 }
        };
    }
    let l: u32 = longueur(m1 as u128);
    proof {
        lemma2_to64();
        lemma2_to64_rest();
        if l > 64 {
            if l > 65 {
                lemma_pow2_strictly_increases(64, (l - 1) as nat);
            }
        }
        lemma_pow2_adds(l as nat, (126 - l) as nat);
        lemma_pow2_adds((l - 1) as nat, (126 - l) as nat);
        lemma_pow2_adds(63, 63);
        lemma_pow2_adds(62, 63);
    }
    let g: u32 = 126 - l;
    let p: u128 = puissance(g);
    proof {
        lemma_pow2_pos(g as nat);
        assert(m1 as nat * p < pow2(l as nat) * p) by (nonlinear_arith)
            requires
                (m1 as nat) < pow2(l as nat),
                p > 0,
        ;
        assert(m1 as nat * p >= pow2((l - 1) as nat) * p) by (nonlinear_arith)
            requires
                m1 as nat >= pow2((l - 1) as nat),
        ;
    }
    let grand: u128 = m1 as u128 * p;
    let q: u128 = grand / (m2 as u128);
    let reste: bool = grand % (m2 as u128) != 0;
    proof {
        lemme_quotient(m1 as nat, k1 as nat, m2 as nat, k2 as nat, g as nat);
        assert(q >= 0x40_0000_0000_0000) by (nonlinear_arith)
            requires
                grand >= 0x2000_0000_0000_0000_0000_0000_0000_0000,
                0 < m2 <= 0xffff_ffff_ffff_ffff,
                q == grand / (m2 as u128),
        ;
    }
    assembler(
        negatif,
        q,
        k1 as i32 + 1074 - k2 as i32 - g as i32,
        reste,
        Ghost(n),
        Ghost(d),
        Ghost((k2 + g) as nat),
        Ghost((k1 + 1074) as nat),
    )
}

proof fn lemme_quotient(m1: nat, k1: nat, m2: nat, k2: nat, g: nat)
    requires
        m2 > 0,
    ensures
        ({
            let n = (m1 * pow2(k1)) * pow2(1074);
            let d = m2 * pow2(k2);
            let a = n * pow2(k2 + g);
            let b = d * pow2(k1 + 1074);
            let grand = m1 * pow2(g);
            &&& a / b == grand / m2
            &&& a % b == 0 <==> grand % m2 == 0
        }),
{
    let p1 = pow2(k1);
    let p2 = pow2(k2);
    let u = pow2(1074);
    let pg = pow2(g);
    let c = (p1 * u) * p2;
    let grand = m1 * pg;
    lemma_pow2_pos(k1);
    lemma_pow2_pos(k2);
    lemma_pow2_pos(1074);
    lemma_mul_strictly_positive(p1 as int, u as int);
    lemma_mul_strictly_positive((p1 * u) as int, p2 as int);
    lemma_pow2_adds(k2, g);
    lemma_pow2_adds(k1, 1074);
    assert(((m1 * p1) * u) * (p2 * pg) == (m1 * pg) * ((p1 * u) * p2)) by (nonlinear_arith);
    assert((m2 * p2) * (p1 * u) == m2 * ((p1 * u) * p2)) by (nonlinear_arith);
    let q = grand / m2;
    let r = grand % m2;
    lemma_fundamental_div_mod(grand as int, m2 as int);
    assert(grand * c == q * (m2 * c) + r * c) by (nonlinear_arith)
        requires
            grand == m2 * q + r,
    ;
    assert(0 <= r * c < m2 * c) by (nonlinear_arith)
        requires
            0 <= r < m2,
            c > 0,
    ;
    lemma_fundamental_div_mod_converse(
        (grand * c) as int,
        (m2 * c) as int,
        q as int,
        (r * c) as int,
    );
    assert(r * c == 0 <==> r == 0) by (nonlinear_arith)
        requires
            c > 0,
    ;
}

/// La valeur signée d'un nombre donné par signe, mantisse et pas.
spec fn signe_fois(negatif: bool, m: nat, k: nat) -> int {
    if negatif {
        -((m * pow2(k)) as int)
    } else {
        (m * pow2(k)) as int
    }
}

/// La somme arrondie de deux nombres finis, le premier de plus grand pas.
fn ajouter(n1: bool, m1: u64, k1: u32, n2: bool, m2: u64, k2: u32) -> (f: Flottant)
    requires
        k2 <= k1 <= 2045,
        m1 < 2 * UNITE_CHAMP,
        m2 < 2 * UNITE_CHAMP,
        k1 > 0 ==> m1 >= UNITE_CHAMP,
    ensures
        ({
            let v = signe_fois(n1, m1 as nat, k1 as nat) + signe_fois(n2, m2 as nat, k2 as nat);
            f == if v == 0 {
                signer(n1 && n2, 0)
            } else if v > 0 {
                arrondi(false, v as nat, 1)
            } else {
                arrondi(true, (-v) as nat, 1)
            }
        }),
{
    let ghost v = signe_fois(n1, m1 as nat, k1 as nat) + signe_fois(n2, m2 as nat, k2 as nat);
    let ecart: u32 = k1 - k2;
    if ecart <= 64 {
        let p: u128 = puissance(ecart);
        proof {
            lemma2_to64();
            lemma2_to64_rest();
            if ecart < 64 {
                lemma_pow2_strictly_increases(ecart as nat, 64);
            }
            lemma_pow2_adds(ecart as nat, k2 as nat);
            lemma_pow2_pos(k2 as nat);
            assert(m1 as nat * p <= 0x1f_ffff_ffff_ffff * 0x1_0000_0000_0000_0000)
                by (nonlinear_arith)
                requires
                    m1 <= 0x1f_ffff_ffff_ffff,
                    p <= 0x1_0000_0000_0000_0000,
            ;
        }
        let grand: u128 = m1 as u128 * p;
        let petit: u128 = m2 as u128;
        let ghost pk = pow2(k2 as nat);
        assert(m1 as nat * pow2(k1 as nat) == grand as nat * pk) by (nonlinear_arith)
            requires
                pow2(k1 as nat) == p as nat * pk,
                grand == m1 as nat * p,
        ;
        if n1 == n2 {
            let m: u128 = grand + petit;
            proof {
                lemme_multiple_exact(m as nat, k2 as nat);
                assert((grand + petit) * pk == grand * pk + petit * pk) by (nonlinear_arith);
                lemme_nul(m as nat, pk);
            }
            if m == 0 {
                return if n1 {
                    Flottant { bits: BIT_SIGNE }
                } else {
                    Flottant { bits: 0 }
                };
            }
            return assembler(
                n1,
                m,
                k2 as i32,
                false,
                Ghost(m as nat * pk),
                Ghost(1),
                Ghost(0),
                Ghost(k2 as nat),
            );
        }
        if grand == petit {
            proof {
                assert(grand * pk == petit * pk);
            }
            return Flottant { bits: 0 };
        }
        if grand > petit {
            let m: u128 = grand - petit;
            proof {
                lemme_multiple_exact(m as nat, k2 as nat);
                assert((grand - petit) * pk == grand * pk - petit * pk) by (nonlinear_arith);
                lemme_nul(m as nat, pk);
            }
            return assembler(
                n1,
                m,
                k2 as i32,
                false,
                Ghost(m as nat * pk),
                Ghost(1),
                Ghost(0),
                Ghost(k2 as nat),
            );
        }
        let m: u128 = petit - grand;
        proof {
            lemme_multiple_exact(m as nat, k2 as nat);
            assert((petit - grand) * pk == petit * pk - grand * pk) by (nonlinear_arith);
            lemme_nul(m as nat, pk);
        }
        assembler(
            n2,
            m,
            k2 as i32,
            false,
            Ghost(m as nat * pk),
            Ghost(1),
            Ghost(0),
            Ghost(k2 as nat),
        )
    } else {
        let ghost e = (k1 - 8) as nat;
        let ghost t = m2 as nat * pow2(k2 as nat);
        proof {
            lemme_negligeable(m1 as nat, k1 as nat, m2 as nat, k2 as nat);
        }
        let grand: u128 = m1 as u128 * 256;
        if n1 == n2 || m2 == 0 {
            assembler(
                n1,
                grand,
                k1 as i32 - 8,
                m2 != 0,
                Ghost(m1 as nat * pow2(k1 as nat) + t),
                Ghost(1),
                Ghost(0),
                Ghost(e),
            )
        } else {
            assembler(
                n1,
                grand - 1,
                k1 as i32 - 8,
                true,
                Ghost((m1 as nat * pow2(k1 as nat) - t) as nat),
                Ghost(1),
                Ghost(0),
                Ghost(e),
            )
        }
    }
}

proof fn lemme_nul(m: nat, p: nat)
    requires
        p > 0,
    ensures
        m * p == 0 <==> m == 0,
        m > 0 ==> m * p > 0,
{
    assert(m * p == 0 <==> m == 0) by (nonlinear_arith)
        requires
            p > 0,
    ;
}

proof fn lemme_multiple_exact(m: nat, k: nat)
    ensures
        ((m * pow2(k)) * pow2(0)) / (1 * pow2(k)) == m,
        ((m * pow2(k)) * pow2(0)) % (1 * pow2(k)) == 0,
        pow2(k) > 0,
{
    lemma2_to64();
    lemma_pow2_pos(k);
    let p = pow2(k);
    assert((m * p) * pow2(0) == m * p) by (nonlinear_arith)
        requires
            pow2(0) == 1,
    ;
    lemma_fundamental_div_mod_converse((m * p) as int, p as int, m as int, 0);
}

/// Plus de soixante-quatre pas d'écart : le second terme ne pèse que par sa présence.
proof fn lemme_negligeable(m1: nat, k1: nat, m2: nat, k2: nat)
    requires
        k1 > k2 + 64,
        UNITE_CHAMP <= m1 < 2 * UNITE_CHAMP,
        m2 < 2 * UNITE_CHAMP,
    ensures
        ({
            let e = (k1 - 8) as nat;
            let t = m2 * pow2(k2);
            let x = m1 * pow2(k1);
            let p = 1 * pow2(e);
            &&& t < x
            &&& t == 0 <==> m2 == 0
            &&& ((x + t) * pow2(0)) / p == m1 * 256
            &&& ((x + t) * pow2(0)) % p != 0 <==> m2 != 0
            &&& m2 != 0 ==> (((x - t) as nat) * pow2(0)) / p == (m1 * 256 - 1) as nat
            &&& m2 != 0 ==> (((x - t) as nat) * pow2(0)) % p != 0
        }),
{
    lemma2_to64();
    lemma2_to64_rest();
    let e = (k1 - 8) as nat;
    let p = pow2(e);
    let p2 = pow2(k2);
    let t = m2 * p2;
    let x = m1 * pow2(k1);
    lemma_pow2_pos(e);
    lemma_pow2_pos(k2);
    lemma_pow2_adds(8, e);
    lemma_pow2_adds(53, k2);
    lemma_pow2_strictly_increases(53 + k2, e);
    assert(t < p) by (nonlinear_arith)
        requires
            t == m2 * p2,
            m2 < 0x20_0000_0000_0000,
            0x20_0000_0000_0000 * p2 <= p,
            p2 > 0,
    ;
    assert(x == (m1 * 256) * p) by (nonlinear_arith)
        requires
            x == m1 * pow2(k1),
            pow2(k1) == 256 * p,
    ;
    lemme_nul(m2, p2);
    assert(((x + t) as nat) * pow2(0) == x + t) by (nonlinear_arith)
        requires
            pow2(0) == 1,
    ;
    lemma_fundamental_div_mod_converse((x + t) as int, p as int, (m1 * 256) as int, t as int);
    let g = (m1 * 256) as int;
    assert(x >= p) by (nonlinear_arith)
        requires
            x == g * p,
            g >= 1,
    ;
    if m2 != 0 {
        let w = (x - t) as nat;
        assert(w * pow2(0) == w) by (nonlinear_arith)
            requires
                pow2(0) == 1,
        ;
        assert(x - t == (g - 1) * p + (p - t)) by (nonlinear_arith)
            requires
                x == g * p,
        ;
        lemma_fundamental_div_mod_converse(x - t, p as int, g - 1, p - t);
    }
}

/// La clef range les nombres finis comme leurs valeurs.
pub proof fn clef_ordonne_les_valeurs(a: Flottant, b: Flottant)
    requires
        a.fini(),
        b.fini(),
    ensures
        a.clef() < b.clef() <==> a.valeur() < b.valeur(),
        a.clef() == b.clef() <==> a.valeur() == b.valeur(),
{
    lemme_magnitude_nulle(a);
    lemme_magnitude_nulle(b);
    if a.rang() < b.rang() {
        lemme_magnitude_croit(a, b);
    } else if b.rang() < a.rang() {
        lemme_magnitude_croit(b, a);
    } else {
        reveal(Flottant::magnitude);
    }
}

pub(crate) proof fn lemme_magnitude_nulle(a: Flottant)
    ensures
        a.magnitude() == 0 <==> a.rang() == 0,
{
    reveal(Flottant::magnitude);
    lemma_pow2_pos(a.pas());
    lemme_nul(a.mantisse(), pow2(a.pas()));
}

pub(crate) proof fn lemme_magnitude_croit(a: Flottant, b: Flottant)
    requires
        a.rang() < b.rang() < CODE_INFINI,
    ensures
        a.magnitude() < b.magnitude(),
{
    reveal(Flottant::magnitude);
    let (ma, ka, mb, kb) = (a.mantisse(), a.pas(), b.mantisse(), b.pas());
    let (pa, pb) = (pow2(ka), pow2(kb));
    lemma_pow2_pos(ka);
    lemma_pow2_pos(kb);
    if ka == kb {
        assert(ma * pa < mb * pb) by (nonlinear_arith)
            requires
                ma < mb,
                pa == pb,
                pa > 0,
        ;
    } else {
        lemma_pow2_unfold(ka + 1);
        if ka + 1 < kb {
            lemma_pow2_strictly_increases(ka + 1, kb);
        }
        assert(ma * pa < mb * pb) by (nonlinear_arith)
            requires
                ma < 2 * 0x10_0000_0000_0000,
                mb >= 0x10_0000_0000_0000,
                2 * pa <= pb,
                pa > 0,
        ;
    }
}

pub(crate) proof fn lemme_racine_entiere(n: nat)
    ensures
        racine_entiere(n) * racine_entiere(n) <= n,
        n < (racine_entiere(n) + 1) * (racine_entiere(n) + 1),
    decreases n,
{
    let s = racine_entiere(n);
    if n == 0 {
        assert(s == 0);
        assert(s * s <= 0 && (s + 1) * (s + 1) == 1) by (nonlinear_arith)
            requires
                s == 0,
        ;
    } else {
        lemme_racine_entiere((n - 1) as nat);
        let r = racine_entiere((n - 1) as nat);
        assert((r + 1) * (r + 1) < (r + 2) * (r + 2)) by (nonlinear_arith);
        if (r + 1) * (r + 1) <= n {
            assert(s == r + 1);
            assert((s + 1) * (s + 1) == (r + 2) * (r + 2));
        } else {
            assert(s == r);
        }
    }
}

/// La partie entière de la racine carrée, bit à bit.
fn racine_bits(m: u128) -> (q: u64)
    requires
        m < 0x100_0000_0000_0000_0000_0000_0000_0000,
    ensures
        q as nat * q as nat <= m,
        m < (q + 1) * (q + 1),
{
    let mut q: u64 = 0;
    let mut i: u32 = 60;
    proof {
        lemma2_to64();
        lemma2_to64_rest();
        assert(pow2(60) * pow2(60) == 0x100_0000_0000_0000_0000_0000_0000_0000);
    }
    while i > 0
        invariant
            i <= 60,
            q as nat * q as nat <= m,
            m < (q + pow2(i as nat)) * (q + pow2(i as nat)),
            q + pow2(i as nat) <= 0x1000_0000_0000_0000,
        decreases i,
    {
        let p: u128 = puissance(i - 1);
        proof {
            lemma_pow2_unfold(i as nat);
            assert(q + p <= 0x1000_0000_0000_0000);
        }
        let t: u64 = q + p as u64;
        assert(t as u128 * t as u128 <= 0x1000_0000_0000_0000u128 * 0x1000_0000_0000_0000u128)
            by (nonlinear_arith)
            requires
                t <= 0x1000_0000_0000_0000,
        ;
        if t as u128 * t as u128 <= m {
            proof {
                assert(t + pow2((i - 1) as nat) == q + pow2(i as nat));
            }
            q = t;
        }
        i = i - 1;
    }
    proof {
        lemma2_to64();
    }
    q
}

impl Flottant {
    /// La racine carrée.
    #[verifier::allow_in_spec]
    pub fn racine(self) -> (f: Flottant)
        returns
            self.racine_carree(),
    {
        proof {
            reveal(Flottant::racine_carree);
            reveal(arrondi_racine);
        }
        let rang: u64 = self.rang_exec();
        if rang > CODE_INFINI || (self.bits >= BIT_SIGNE && rang != 0) {
            return Flottant { bits: CODE_NON_NOMBRE };
        }
        if rang == CODE_INFINI || rang == 0 {
            return self;
        }
        let (m, k) = self.decomposer();
        let l: u32 = longueur(m as u128);
        proof {
            lemma2_to64();
            lemma2_to64_rest();
            if l > 54 {
                lemma_pow2_strictly_increases(53, (l - 1) as nat);
            }
        }
        // L'exposant qui reste doit être pair.
        let g: u32 = if (k + 1074 + l) % 2 == 0 {
            120 - l
        } else {
            119 - l
        };
        let p: u128 = puissance(g);
        proof {
            lemma_pow2_adds(l as nat, g as nat);
            lemma_pow2_adds((l - 1) as nat, g as nat);
            lemma_pow2_adds(60, 60);
            lemma_pow2_adds(59, 58);
            lemma_pow2_adds(60, 58);
            lemma_pow2_adds(59, 60);
            lemma_pow2_pos(g as nat);
            assert(m as nat * p < pow2(l as nat) * p) by (nonlinear_arith)
                requires
                    (m as nat) < pow2(l as nat),
                    p > 0,
            ;
            assert(m as nat * p >= pow2((l - 1) as nat) * p) by (nonlinear_arith)
                requires
                    m as nat >= pow2((l - 1) as nat),
            ;
            assert(pow2(118) == 0x40_0000_0000_0000_0000_0000_0000_0000);
            assert(pow2(119) == 0x80_0000_0000_0000_0000_0000_0000_0000);
            assert(pow2(120) == 0x100_0000_0000_0000_0000_0000_0000_0000);
        }
        let grand: u128 = m as u128 * p;
        let q: u64 = racine_bits(grand);
        assert(q as u128 * q as u128 <= 0xffff_ffff_ffff_ffffu128 * 0xffff_ffff_ffff_ffffu128)
            by (nonlinear_arith)
            requires
                q <= 0xffff_ffff_ffff_ffff,
        ;
        let reste: bool = q as u128 * q as u128 != grand;
        let e: u32 = (k + 1074 - g) / 2;
        let ghost n = self.magnitude() * pow2(1074);
        let ghost r = racine_entiere(n);
        proof {
            assert(q >= 0x40_0000_0000_0000) by (nonlinear_arith)
                requires
                    grand >= 0x40_0000_0000_0000_0000_0000_0000_0000,
                    grand < (q + 1) * (q + 1),
            ;
            lemme_racine(m as nat, k as nat, g as nat, q as nat, e as nat);
        }
        let ghost num = if r * r == n {
            r
        } else {
            2 * r + 1
        };
        let ghost den: nat = if r * r == n {
            1
        } else {
            2
        };
        assembler(
            false,
            q as u128,
            e as i32,
            reste,
            Ghost(num),
            Ghost(den),
            Ghost(0),
            Ghost(e as nat),
        )
    }
}

/// La racine entière de `n`, vue à travers celle de sa tête.
proof fn lemme_racine(m: nat, k: nat, g: nat, q: nat, e: nat)
    requires
        g + 2 * e == k + 1074,
        q * q <= m * pow2(g),
        m * pow2(g) < (q + 1) * (q + 1),
    ensures
        ({
            let n = (m * pow2(k)) * pow2(1074);
            let r = racine_entiere(n);
            let num = if r * r == n {
                r
            } else {
                2 * r + 1
            };
            let den: nat = if r * r == n {
                1
            } else {
                2
            };
            &&& (num * pow2(0)) / (den * pow2(e)) == q
            &&& (num * pow2(0)) % (den * pow2(e)) != 0 <==> q * q != m * pow2(g)
        }),
{
    let n = (m * pow2(k)) * pow2(1074);
    let r = racine_entiere(n);
    let p = pow2(e);
    let grand = m * pow2(g);
    lemma2_to64();
    lemma_pow2_pos(e);
    lemma_pow2_adds(k, 1074);
    lemma_pow2_adds(g, 2 * e);
    lemma_pow2_adds(e, e);
    assert(n == grand * (p * p)) by (nonlinear_arith)
        requires
            n == (m * pow2(k)) * pow2(1074),
            pow2(k) * pow2(1074) == pow2(g) * (p * p),
            grand == m * pow2(g),
    ;
    lemme_racine_entiere(n);
    assert(q * p <= r) by (nonlinear_arith)
        requires
            n == grand * (p * p),
            q * q <= grand,
            n < (r + 1) * (r + 1),
            p > 0,
    {
        assert((q * p) * (q * p) == (q * q) * (p * p));
        assert((q * q) * (p * p) <= grand * (p * p));
        assert((q * p) * (q * p) < (r + 1) * (r + 1));
    }
    assert(r < (q + 1) * p) by (nonlinear_arith)
        requires
            n == grand * (p * p),
            grand < (q + 1) * (q + 1),
            r * r <= n,
            p > 0,
    {
        assert(((q + 1) * p) * ((q + 1) * p) == ((q + 1) * (q + 1)) * (p * p));
        assert(grand * (p * p) < ((q + 1) * (q + 1)) * (p * p));
        assert(r * r < ((q + 1) * p) * ((q + 1) * p));
    }
    assert((q + 1) * p == q * p + p) by (nonlinear_arith);
    assert(q * q == grand <==> r * r == n && r == q * p) by (nonlinear_arith)
        requires
            n == grand * (p * p),
            q * p <= r,
            r * r <= n,
            p > 0,
    {
        assert((q * p) * (q * p) == (q * q) * (p * p));
        if q * q == grand {
            assert(n == (q * p) * (q * p));
            assert(r == q * p) by {
                if r > q * p {
                    assert(r * r > (q * p) * (q * p));
                }
            }
        }
        if r * r == n && r == q * p {
            assert((q * q) * (p * p) == grand * (p * p));
            assert(q * q == grand);
        }
    }
    if r * r == n {
        assert(r * pow2(0) == r);
        lemma_fundamental_div_mod_converse(r as int, p as int, q as int, r - q * p);
    } else {
        assert((2 * r + 1) * pow2(0) == 2 * r + 1);
        assert(2 * r + 1 == q * (2 * p) + (2 * (r - q * p) + 1)) by (nonlinear_arith);
        lemma_fundamental_div_mod_converse(
            (2 * r + 1) as int,
            (2 * p) as int,
            q as int,
            2 * (r - q * p) + 1,
        );
    }
}

impl Flottant {
    /// La partie entière de la valeur absolue d'un nombre fini.
    pub open spec fn partie_entiere(self) -> nat {
        self.magnitude() / pow2(1074)
    }

    /// L'entier naturel qu'une conversion donne : la valeur tronquée, ramenée aux bornes du
    /// type. Un non-nombre donne zéro.
    pub open spec fn en_u64(self) -> int {
        if self.nan() || self.negatif() {
            0
        } else if self.infini() || self.partie_entiere() > u64::MAX {
            u64::MAX as int
        } else {
            self.partie_entiere() as int
        }
    }

    /// L'entier relatif qu'une conversion donne : la valeur tronquée vers zéro, ramenée aux
    /// bornes du type. Un non-nombre donne zéro.
    pub open spec fn en_i64(self) -> int {
        if self.nan() {
            0
        } else if self.negatif() {
            if self.infini() || self.partie_entiere() > i64::MAX {
                i64::MIN as int
            } else {
                -(self.partie_entiere() as int)
            }
        } else if self.infini() || self.partie_entiere() > i64::MAX {
            i64::MAX as int
        } else {
            self.partie_entiere() as int
        }
    }

    /// La partie entière de la valeur absolue, si elle tient dans un entier.
    fn entiere(self) -> (r: Option<u64>)
        requires
            self.fini(),
        ensures
            match r {
                Some(q) => q == self.partie_entiere(),
                None => self.partie_entiere() > u64::MAX,
            },
    {
        let (m, k) = self.decomposer();
        let ghost mm = m as nat;
        let ghost pk = pow2(k as nat);
        proof {
            lemma_pow2_pos(k as nat);
            lemma_pow2_pos(1074);
        }
        if k >= 1074 {
            let s: u32 = k - 1074;
            proof {
                lemma_pow2_adds(s as nat, 1074);
                let ps = pow2(s as nat);
                let p = pow2(1074);
                assert(mm * (ps * p) == p * (mm * ps)) by (nonlinear_arith);
                lemma_div_multiples_vanish((mm * ps) as int, p as int);
                assert(self.partie_entiere() == mm * ps);
            }
            if s > 11 {
                proof {
                    lemme_puissances_croissantes(12, s as nat);
                    lemma2_to64();
                    assert(mm * pow2(s as nat) >= UNITE_CHAMP as nat * 4096) by (nonlinear_arith)
                        requires
                            mm >= UNITE_CHAMP,
                            pow2(s as nat) >= 4096,
                    ;
                }
                return None;
            }
            let mut q: u64 = m;
            let mut i: u32 = 0;
            proof {
                lemma2_to64();
                assert(mm * pow2(0) == mm);
            }
            while i < s
                invariant
                    i <= s <= 11,
                    mm == m as nat,
                    m < 2 * UNITE_CHAMP,
                    q == mm * pow2(i as nat),
                decreases s - i,
            {
                proof {
                    lemma_pow2_unfold((i + 1) as nat);
                    lemme_puissances_croissantes(i as nat, 10);
                    lemma2_to64();
                    let p = pow2(i as nat);
                    assert(mm * (2 * p) == 2 * (mm * p)) by (nonlinear_arith);
                    assert(mm * p < 2 * UNITE_CHAMP as nat * 1024) by (nonlinear_arith)
                        requires
                            mm < 2 * UNITE_CHAMP as nat,
                            0 < p <= 1024,
                    ;
                }
                q = q * 2;
                i += 1;
            }
            Some(q)
        } else {
            let s: u32 = 1074 - k;
            proof {
                lemma_pow2_adds(k as nat, s as nat);
                lemma_pow2_pos(s as nat);
                let ps = pow2(s as nat);
                assert(mm * pk == pk * mm) by (nonlinear_arith);
                lemma_div_denominator((pk * mm) as int, pk as int, ps as int);
                lemma_div_multiples_vanish(mm as int, pk as int);
                assert(self.partie_entiere() == mm / ps);
            }
            let mut q: u64 = m;
            let mut i: u32 = 0;
            proof {
                lemma2_to64();
                lemma_div_basics(mm as int);
                assert(mm / pow2(0) == mm);
            }
            while i < s && q > 0
                invariant
                    i <= s,
                    q == mm / pow2(i as nat),
                decreases s - i,
            {
                proof {
                    lemma_pow2_unfold((i + 1) as nat);
                    lemma_pow2_pos(i as nat);
                    let p = pow2(i as nat);
                    assert(p * 2 == 2 * p);
                    lemma_div_denominator(mm as int, p as int, 2);
                }
                q = q / 2;
                i += 1;
            }
            proof {
                if i < s {
                    lemma_pow2_adds(i as nat, (s - i) as nat);
                    lemma_pow2_pos(i as nat);
                    lemma_pow2_pos((s - i) as nat);
                    lemma_div_denominator(
                        mm as int,
                        pow2(i as nat) as int,
                        pow2((s - i) as nat) as int,
                    );
                    lemma_basic_div(0, pow2((s - i) as nat) as int);
                }
            }
            Some(q)
        }
    }

    /// Convertit en entier naturel, en tronquant et en restant dans les bornes.
    pub fn vers_u64(self) -> (n: u64)
        ensures
            n == self.en_u64(),
    {
        if self.est_nan() || self.est_negatif() {
            0
        } else if !self.est_fini() {
            u64::MAX
        } else {
            match self.entiere() {
                Some(q) => q,
                None => u64::MAX,
            }
        }
    }

    /// Convertit en entier relatif, en tronquant vers zéro et en restant dans les bornes.
    pub fn vers_i64(self) -> (n: i64)
        ensures
            n == self.en_i64(),
    {
        if self.est_nan() {
            return 0;
        }
        let q: u64 = if self.est_fini() {
            match self.entiere() {
                Some(q) => q,
                None => u64::MAX,
            }
        } else {
            u64::MAX
        };
        if self.est_negatif() {
            if q > i64::MAX as u64 {
                i64::MIN
            } else {
                -(q as i64)
            }
        } else if q > i64::MAX as u64 {
            i64::MAX
        } else {
            q as i64
        }
    }
}

/// Les puissances de deux croissent.
proof fn lemme_puissances_croissantes(a: nat, b: nat)
    requires
        a <= b,
    ensures
        0 < pow2(a) <= pow2(b),
{
    lemma_pow2_pos(a);
    if a < b {
        lemma_pow2_strictly_increases(a, b);
    }
}

/// Ce qui vaut au moins une unité ne s'arrondit pas à zéro.
pub(crate) proof fn lemme_arrondi_positif(n: nat, d: nat)
    requires
        0 < d <= n,
    ensures
        arrondi(false, n, d).positif(),
{
    reveal(arrondi);
    let k = echelle(n, d);
    lemma_pow2_pos(k);
    let p = pow2(k);
    let m = au_plus_proche(n, d * p);
    if k == 0 {
        lemma2_to64();
        assert(d * p == d);
        lemma_div_non_zero(n as int, d as int);
        assert(m >= 1);
    } else {
        assert(k * UNITE_CHAMP >= UNITE_CHAMP) by (nonlinear_arith)
            requires
                k >= 1,
        ;
    }
}

/// Un entier de moins de cinquante-quatre bits est exactement représenté.
pub proof fn un_entier_est_exact(n: nat)
    requires
        n < 0x20_0000_0000_0000,
    ensures
        rapport(n as int, 1).magnitude() == n * pow2(1074),
        rapport(n as int, 1).fini(),
        !rapport(n as int, 1).negatif(),
        rapport(n as int, 1).positif() <==> n > 0,
{
    reveal(rapport);
    let v = n * pow2(1074);
    lemma_pow2_pos(1074);
    if n == 0 {
        assert(v == 0) by (nonlinear_arith)
            requires
                v == n * pow2(1074),
                n == 0,
        ;
        assert(v * pow2(0) == 0);
        lemme_arrondi_nul(false, v, 1, 0);
        lemme_magnitude_nulle(rapport(n as int, 1));
    } else {
        let b = bits_de(n);
        lemme_bits(n);
        let k = (1021 + b) as nat;
        lemme_entier_code(n, b, k);
    }
}

/// Le nombre de bits d'un entier.
spec fn bits_de(n: nat) -> nat
    decreases n,
{
    if n == 0 {
        0
    } else {
        1 + bits_de(n / 2)
    }
}

proof fn lemme_bits(n: nat)
    ensures
        n < pow2(bits_de(n)),
        n > 0 ==> bits_de(n) >= 1 && pow2((bits_de(n) - 1) as nat) <= n,
    decreases n,
{
    lemma2_to64();
    if n > 0 {
        lemme_bits(n / 2);
        lemma_pow2_unfold(bits_de(n));
        if n >= 2 {
            lemma_pow2_unfold((bits_de(n) - 1) as nat);
        }
    }
}

proof fn lemme_entier_code(n: nat, b: nat, k: nat)
    requires
        0 < n < 0x20_0000_0000_0000,
        n < pow2(b),
        b >= 1,
        pow2((b - 1) as nat) <= n,
        k == 1021 + b,
    ensures
        arrondi(false, n * pow2(1074), 1).magnitude() == n * pow2(1074),
        arrondi(false, n * pow2(1074), 1).fini(),
        !arrondi(false, n * pow2(1074), 1).negatif(),
        arrondi(false, n * pow2(1074), 1).rang() > 0,
{
    reveal(arrondi);
    reveal(Flottant::magnitude);
    lemma2_to64_rest();
    if b > 53 {
        lemma_pow2_strictly_increases(52, (b - 1) as nat);
        if b > 54 {
            lemma_pow2_strictly_increases(53, (b - 1) as nat);
        }
    }
    assert(b <= 53);
    let v = n * pow2(1074);
    let g = (1074 - k) as nat;
    lemma_pow2_pos(k);
    lemma_pow2_pos(g);
    lemma_pow2_adds(g, k);
    let m = n * pow2(g);
    assert(v == m * pow2(k)) by (nonlinear_arith)
        requires
            v == n * pow2(1074),
            m == n * pow2(g),
            pow2(1074) == pow2(g) * pow2(k),
    ;
    // m est n décalé jusqu'à cinquante-trois bits.
    lemma_pow2_adds(b, g);
    lemma_pow2_adds((b - 1) as nat, g);
    assert(b + g == 53);
    assert(m < pow2(53)) by (nonlinear_arith)
        requires
            m == n * pow2(g),
            n < pow2(b),
            pow2(g) > 0,
            pow2(53) == pow2(b) * pow2(g),
    ;
    assert(m >= pow2(52)) by (nonlinear_arith)
        requires
            m == n * pow2(g),
            n >= pow2((b - 1) as nat),
            pow2(52) == pow2((b - 1) as nat) * pow2(g),
    ;
    lemma_pow2_adds(53, k);
    lemma_pow2_adds(52, k);
    assert(v < 1 * pow2(53 + k)) by (nonlinear_arith)
        requires
            v == m * pow2(k),
            m < pow2(53),
            pow2(k) > 0,
            pow2(53 + k) == pow2(53) * pow2(k),
    ;
    assert(v >= 1 * pow2((52 + k) as nat)) by (nonlinear_arith)
        requires
            v == m * pow2(k),
            m >= pow2(52),
            pow2((52 + k) as nat) == pow2(52) * pow2(k),
    ;
    lemme_echelle(v, 1, k);
    assert(1 * pow2(k) == pow2(k));
    lemma_fundamental_div_mod_converse(v as int, pow2(k) as int, m as int, 0);
    assert(au_plus_proche(v, 1 * pow2(k)) == m);
    let code = k * UNITE_CHAMP + m;
    let f = arrondi(false, v, 1);
    assert(code < CODE_INFINI) by (nonlinear_arith)
        requires
            code == k * UNITE_CHAMP + m,
            k <= 1074,
            m < 0x20_0000_0000_0000,
            UNITE_CHAMP == 0x10_0000_0000_0000,
            CODE_INFINI == 0x7ff0_0000_0000_0000,
    ;
    assert(f.rang() == code);
    assert(f.pas() == k && f.mantisse() == m) by {
        let r = m - UNITE_CHAMP;
        assert(code == (k + 1) * UNITE_CHAMP + r) by (nonlinear_arith)
            requires
                code == k * UNITE_CHAMP + m,
                r == m - UNITE_CHAMP,
        ;
        lemma_fundamental_div_mod_converse(code as int, UNITE_CHAMP as int, (k + 1) as int, r);
    }
}

/// Le produit de deux entiers est exact tant qu'il tient sur cinquante-trois bits.
pub proof fn le_produit_d_entiers_est_exact(a: nat, b: nat)
    requires
        a < 0x20_0000_0000_0000,
        b < 0x20_0000_0000_0000,
        a * b < 0x20_0000_0000_0000,
    ensures
        rapport(a as int, 1).produit(rapport(b as int, 1)) == rapport((a * b) as int, 1),
{
    reveal(Flottant::produit);
    reveal(rapport);
    un_entier_est_exact(a);
    un_entier_est_exact(b);
    un_entier_est_exact(a * b);
    let u = pow2(1074);
    lemma_pow2_pos(1074);
    let f = rapport((a * b) as int, 1);
    assert((a * u) * (b * u) == (a * b * u) * u) by (nonlinear_arith);
    lemme_arrondi_a_l_echelle(a * b * u, u);
}

/// Multiplier numérateur et dénominateur par un même entier ne change pas l'arrondi.
pub(crate) proof fn lemme_arrondi_a_l_echelle(n: nat, c: nat)
    requires
        c > 0,
    ensures
        arrondi(false, n * c, c) == arrondi(false, n, 1),
{
    reveal(arrondi);
    lemme_echelle_proportion(n, 1, c);
    let k = echelle(n, 1);
    lemma_pow2_pos(k);
    lemme_proche_proportion(n, 1 * pow2(k), c);
    assert((1 * pow2(k)) * c == c * pow2(k)) by (nonlinear_arith);
}

proof fn lemme_echelle_proportion(n: nat, d: nat, c: nat)
    requires
        d > 0,
        c > 0,
    ensures
        echelle(n * c, d * c) == echelle(n, d),
    decreases n - d,
{
    lemma2_to64_rest();
    let p = pow2(53);
    assert(d * c > 0) by (nonlinear_arith)
        requires
            d > 0,
            c > 0,
    ;
    assert(n * c < d * c * p <==> n < d * p) by (nonlinear_arith)
        requires
            c > 0,
    ;
    if n >= d * p {
        assert(d < d * 2 <= d * p) by (nonlinear_arith)
            requires
                d > 0,
                p >= 2,
        ;
        lemme_echelle_proportion(n, d * 2, c);
        assert(d * 2 * c == d * c * 2) by (nonlinear_arith);
    }
}

/// Ce qui vaut au moins un, divisé par un entier, reste strictement positif.
pub(crate) proof fn lemme_quotient_positif(a: Flottant, d: nat)
    requires
        rapport(1, 1).inferieur_ou_egal(a),
        0 < d < 0x20_0000_0000_0000,
    ensures
        a.quotient(rapport(d as int, 1)).positif(),
{
    reveal(Flottant::quotient);
    un_entier_est_exact(1);
    un_entier_est_exact(d);
    let u = pow2(1074);
    let un = rapport(1, 1);
    let b = rapport(d as int, 1);
    if !a.infini() {
        clef_ordonne_les_valeurs(un, a);
        lemma2_to64_rest();
        lemma_pow2_strictly_increases(53, 1074);
        assert(a.magnitude() >= u);
        assert(a.magnitude() * u >= d * u) by (nonlinear_arith)
            requires
                a.magnitude() >= u,
                u >= d,
        ;
        assert(d * u > 0) by (nonlinear_arith)
            requires
                d > 0,
                u > 0,
        ;
        lemme_arrondi_positif(a.magnitude() * u, b.magnitude());
    }
}

/// Un nombre positif divisé par lui-même vaut un.
pub(crate) proof fn lemme_quotient_par_soi(a: Flottant)
    requires
        a.fini(),
        a.positif(),
    ensures
        a.quotient(a) == rapport(1, 1),
{
    reveal(Flottant::quotient);
    reveal(rapport);
    lemme_magnitude_nulle(a);
    let (m, u) = (a.magnitude(), pow2(1074));
    assert(m * u == u * m) by (nonlinear_arith);
    assert(1 * u == u);
    lemme_arrondi_a_l_echelle(u, m);
}

/// Un nombre fini par un zéro est un zéro.
pub(crate) proof fn lemme_produit_nul(a: Flottant, z: Flottant)
    requires
        a.fini(),
        z.rang() == 0,
    ensures
        a.produit(z).rang() == 0,
{
    reveal(Flottant::produit);
    lemme_magnitude_nulle(z);
    let n = a.magnitude() * z.magnitude();
    assert(n == 0) by (nonlinear_arith)
        requires
            n == a.magnitude() * z.magnitude(),
            z.magnitude() == 0,
    ;
    lemma_pow2_pos(1074);
    assert(n * pow2(0) == 0);
    lemme_arrondi_nul(a.negatif() != z.negatif(), n, pow2(1074), 0);
}

} // verus!
