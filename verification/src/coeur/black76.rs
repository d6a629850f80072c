//! Black-76 : les options dont le sous-jacent est un future.
//!
//! Le sous-jacent ne porte ni dividende ni coût de portage, et la prime entière
//! s'actualise au taux sans risque.

use super::fonctions::appliquer;
#[allow(unused_imports)]
use super::fonctions::{courbe, est_fonction};
#[allow(unused_imports)]
use super::intervalle::la_volatilite_trouvee_est_dans_l_intervalle;
use super::loi_normale::{densite, repartition};
#[allow(unused_imports)]
use super::loi_normale::{densite_en, repartition_en};
use crate::flottant::Flottant;
use vstd::prelude::*;

verus! {

/// Sens de l'option.
#[derive(Clone, Copy, Debug, PartialEq, Eq, Hash, Structural)]
pub enum Sens {
    /// Droit d'acheter le future au strike.
    Call,
    /// Droit de le vendre au strike.
    Put,
}

impl Sens {
    pub open spec fn valeur_intrinseque(self, f: Flottant, k: Flottant) -> Flottant {
        match self {
            Sens::Call => f.moins(k).max(Flottant::nul()),
            Sens::Put => k.moins(f).max(Flottant::nul()),
        }
    }

    /// Valeur intrinsèque : ce qui reste quand il n'y a plus ni temps ni vol.
    pub fn intrinseque(self, f: Flottant, k: Flottant) -> (v: Flottant)
        ensures
            v == self.valeur_intrinseque(f, k),
    {
        match self {
            Sens::Call => f.moins(k).max(Flottant::nul()),
            Sens::Put => k.moins(f).max(Flottant::nul()),
        }
    }
}

/// Les entrées pour lesquelles la formule a un sens.
pub open spec fn dans_le_domaine(f: Flottant, k: Flottant, vol: Flottant, t: Flottant) -> bool {
    t.positif() && vol.positif() && k.positif() && f.positif()
}

fn domaine_valide(f: Flottant, k: Flottant, vol: Flottant, t: Flottant) -> (b: bool)
    ensures
        b == dans_le_domaine(f, k, vol, t),
{
    t.est_positif() && vol.est_positif() && k.est_positif() && f.est_positif()
}

/// `(ln(f / k) + vol² t / 2) / (vol √t)`.
pub open spec fn d1_en(
    ln: spec_fn(Flottant) -> Flottant,
    f: Flottant,
    k: Flottant,
    vol: Flottant,
    t: Flottant,
) -> Flottant {
    ln(f.par(k)).plus(Flottant::fraction(1, 2).fois(vol).fois(vol).fois(t)).par(
        vol.fois(t.racine()),
    )
}

fn d1<L: Fn(Flottant) -> Flottant>(
    f: Flottant,
    k: Flottant,
    vol: Flottant,
    t: Flottant,
    ln: &L,
) -> (r: Flottant)
    requires
        est_fonction(*ln),
    ensures
        r == d1_en(courbe(*ln), f, k, vol, t),
{
    let log: Flottant = appliquer(ln, f.par(k));
    log.plus(Flottant::fraction(1, 2).fois(vol).fois(vol).fois(t)).par(vol.fois(t.racine()))
}

/// La prime d'une option sur future.
pub open spec fn prime_de(
    ln: spec_fn(Flottant) -> Flottant,
    exp: spec_fn(Flottant) -> Flottant,
    erfc: spec_fn(Flottant) -> Flottant,
    f: Flottant,
    k: Flottant,
    vol: Flottant,
    t: Flottant,
    r: Flottant,
    sens: Sens,
) -> Flottant {
    if !dans_le_domaine(f, k, vol, t) {
        sens.valeur_intrinseque(f, k)
    } else {
        let d1 = d1_en(ln, f, k, vol, t);
        let d2 = d1.moins(vol.fois(t.racine()));
        let actualisation = exp(r.neg().fois(t));
        match sens {
            Sens::Call => actualisation.fois(
                f.fois(repartition_en(erfc, d1)).moins(k.fois(repartition_en(erfc, d2))),
            ),
            Sens::Put => actualisation.fois(
                k.fois(repartition_en(erfc, d2.neg())).moins(
                    f.fois(repartition_en(erfc, d1.neg())),
                ),
            ),
        }
    }
}

/// Prime d'une option sur future.
///
/// Hors du domaine, la valeur limite : l'intrinsèque.
pub fn prix<
    L: Fn(Flottant) -> Flottant,
    E: Fn(Flottant) -> Flottant,
    C: Fn(Flottant) -> Flottant,
>(
    f: Flottant,
    k: Flottant,
    vol: Flottant,
    t: Flottant,
    r: Flottant,
    sens: Sens,
    ln: &L,
    exp: &E,
    erfc: &C,
) -> (p: Flottant)
    requires
        est_fonction(*ln),
        est_fonction(*exp),
        est_fonction(*erfc),
    ensures
        p == prime_de(courbe(*ln), courbe(*exp), courbe(*erfc), f, k, vol, t, r, sens),
{
    if !domaine_valide(f, k, vol, t) {
        return sens.intrinseque(f, k);
    }
    let d1: Flottant = d1(f, k, vol, t, ln);
    let d2: Flottant = d1.moins(vol.fois(t.racine()));
    let actualisation: Flottant = appliquer(exp, r.neg().fois(t));
    match sens {
        Sens::Call => actualisation.fois(
            f.fois(repartition(d1, erfc)).moins(k.fois(repartition(d2, erfc))),
        ),
        Sens::Put => actualisation.fois(
            k.fois(repartition(d2.neg(), erfc)).moins(f.fois(repartition(d1.neg(), erfc))),
        ),
    }
}

/// Le gamma d'une option sur future.
pub open spec fn gamma_de(
    ln: spec_fn(Flottant) -> Flottant,
    exp: spec_fn(Flottant) -> Flottant,
    f: Flottant,
    k: Flottant,
    vol: Flottant,
    t: Flottant,
    r: Flottant,
) -> Flottant {
    if !dans_le_domaine(f, k, vol, t) {
        Flottant::nul()
    } else {
        exp(r.neg().fois(t)).fois(densite_en(exp, d1_en(ln, f, k, vol, t))).par(
            f.fois(vol).fois(t.racine()),
        )
    }
}

/// Gamma d'une option sur future, nul hors du domaine.
pub fn gamma<L: Fn(Flottant) -> Flottant, E: Fn(Flottant) -> Flottant>(
    f: Flottant,
    k: Flottant,
    vol: Flottant,
    t: Flottant,
    r: Flottant,
    ln: &L,
    exp: &E,
) -> (g: Flottant)
    requires
        est_fonction(*ln),
        est_fonction(*exp),
    ensures
        g == gamma_de(courbe(*ln), courbe(*exp), f, k, vol, t, r),
{
    if !domaine_valide(f, k, vol, t) {
        return Flottant::nul();
    }
    let actualisation: Flottant = appliquer(exp, r.neg().fois(t));
    actualisation.fois(densite(d1(f, k, vol, t, ln), exp)).par(f.fois(vol).fois(t.racine()))
}

/// Les bornes de recherche de la volatilité implicite, sa tolérance, et le nombre
/// d'itérations qu'elle s'accorde.
pub open spec fn vol_min() -> Flottant {
    Flottant::fraction(1, 1_000_000)
}

pub open spec fn vol_max() -> Flottant {
    Flottant::entier(5)
}

pub open spec fn tolerance() -> Flottant {
    Flottant::fraction(1, 100_000_000)
}

pub const ITERATIONS_MAX: u32 = 200;

/// La volatilité qui explique une prime.
pub open spec fn volatilite_voulue(
    ln: spec_fn(Flottant) -> Flottant,
    exp: spec_fn(Flottant) -> Flottant,
    erfc: spec_fn(Flottant) -> Flottant,
    prime: Flottant,
    f: Flottant,
    k: Flottant,
    t: Flottant,
    r: Flottant,
    sens: Sens,
) -> Option<Flottant> {
    if !prime.fini() || t.infeg(Flottant::nul()) {
        None
    } else if prime.infeg(sens.valeur_intrinseque(f, k).fois(exp(r.neg().fois(t)))) {
        None
    } else {
        racine_de(
            |vol: Flottant| prime_de(ln, exp, erfc, f, k, vol, t, r, sens).moins(prime),
            vol_min(),
            vol_max(),
            tolerance(),
            ITERATIONS_MAX as nat,
        )
    }
}

/// Inverse la volatilité depuis une prime observée.
///
/// Rien quand la prime passe sous l'intrinsèque actualisé : aucune volatilité ne
/// la produit. Une volatilité trouvée est dans l'intervalle de recherche.
pub fn volatilite_implicite<
    L: Fn(Flottant) -> Flottant,
    E: Fn(Flottant) -> Flottant,
    C: Fn(Flottant) -> Flottant,
>(
    prime: Flottant,
    f: Flottant,
    k: Flottant,
    t: Flottant,
    r: Flottant,
    sens: Sens,
    ln: &L,
    exp: &E,
    erfc: &C,
) -> (v: Option<Flottant>)
    requires
        est_fonction(*ln),
        est_fonction(*exp),
        est_fonction(*erfc),
    ensures
        v == volatilite_voulue(
            courbe(*ln),
            courbe(*exp),
            courbe(*erfc),
            prime,
            f,
            k,
            t,
            r,
            sens,
        ),
        v matches Some(x) ==> vol_min().inferieur_ou_egal(x) && x.inferieur_ou_egal(vol_max()),
{
    proof {
        la_volatilite_trouvee_est_dans_l_intervalle(
            courbe(*ln),
            courbe(*exp),
            courbe(*erfc),
            prime,
            f,
            k,
            t,
            r,
            sens,
        );
    }
    if !prime.est_fini() || t.infeg(Flottant::nul()) {
        return None;
    }
    let plancher: Flottant = sens.intrinseque(f, k).fois(appliquer(exp, r.neg().fois(t)));
    if prime.infeg(plancher) {
        return None;
    }
    let ghost ecart = |vol: Flottant|
        prime_de(courbe(*ln), courbe(*exp), courbe(*erfc), f, k, vol, t, r, sens).moins(prime);
    let evalue = |vol: Flottant| -> (y: Flottant)
        ensures
            y == prime_de(courbe(*ln), courbe(*exp), courbe(*erfc), f, k, vol, t, r, sens).moins(
                prime,
            ),
        { prix(f, k, vol, t, r, sens, ln, exp, erfc).moins(prime) };
    let v: Option<Flottant> = brent(
        &evalue,
        Flottant::fraction(1, 1_000_000),
        Flottant::entier(5),
        Flottant::fraction(1, 100_000_000),
        ITERATIONS_MAX,
        Ghost(ecart),
    );
    v
}

/// L'état de la recherche : le meilleur candidat `b`, le précédent `a`, et `c` qui
/// encadre avec `b`, leurs images, et les deux derniers déplacements.
#[derive(Clone, Copy, Debug)]
pub struct Encadrement {
    pub a: Flottant,
    pub b: Flottant,
    pub c: Flottant,
    pub fa: Flottant,
    pub fb: Flottant,
    pub fc: Flottant,
    pub d: Flottant,
    pub e: Flottant,
}

impl Encadrement {
    /// Rétablit l'encadrement, puis met en `b` le meilleur des deux bouts.
    pub open spec fn retabli(self) -> Encadrement {
        let s = if self.fb.positif() == self.fc.positif() {
            let d = self.b.moins(self.a);
            Encadrement { c: self.a, fc: self.fa, d, e: d, ..self }
        } else {
            self
        };
        if s.fc.abs().inf(s.fb.abs()) {
            Encadrement { a: s.b, b: s.c, c: s.b, fa: s.fb, fb: s.fc, fc: s.fb, ..s }
        } else {
            s
        }
    }

    /// La tolérance autour du candidat.
    pub open spec fn marge(self, tol: Flottant) -> Flottant {
        Flottant::entier(2).fois(Flottant::fraction(1, 4_503_599_627_370_496)).fois(
            self.b.abs(),
        ).plus(Flottant::fraction(1, 2).fois(tol))
    }

    /// La demi-largeur de l'encadrement, signée.
    pub open spec fn demi(self) -> Flottant {
        Flottant::fraction(1, 2).fois(self.c.moins(self.b))
    }

    /// Le candidat est assez bon.
    pub open spec fn abouti(self, tol: Flottant) -> bool {
        self.demi().abs().infeg(self.marge(tol)) || self.fb.egal(Flottant::nul())
    }

    /// Le numérateur et le dénominateur du pas d'interpolation : la sécante quand `a`
    /// et `c` se confondent, la quadratique inverse sinon.
    pub open spec fn interpolation(self) -> (Flottant, Flottant) {
        let un = Flottant::entier(1);
        let deux_xm = Flottant::entier(2).fois(self.demi());
        let s = self.fb.par(self.fa);
        if self.a.egal(self.c) {
            (deux_xm.fois(s), un.moins(s))
        } else {
            let q = self.fa.par(self.fc);
            let r = self.fb.par(self.fc);
            (
                s.fois(
                    deux_xm.fois(q).fois(q.moins(r)).moins(
                        self.b.moins(self.a).fois(r.moins(un)),
                    ),
                ),
                q.moins(un).fois(r.moins(un)).fois(s.moins(un)),
            )
        }
    }

    /// Les deux déplacements suivants : l'interpolation si elle reste dans
    /// l'encadrement et progresse assez, la dichotomie sinon.
    pub open spec fn deplacements(self, tol: Flottant) -> (Flottant, Flottant) {
        let marge = self.marge(tol);
        let xm = self.demi();
        if marge.infeg(self.e.abs()) && self.fb.abs().inf(self.fa.abs()) {
            let (p0, q0) = self.interpolation();
            let q = if p0.positif() {
                q0.neg()
            } else {
                q0
            };
            let p = p0.abs();
            let min1 = Flottant::entier(3).fois(xm).fois(q).moins(marge.fois(q).abs());
            let min2 = self.e.fois(q).abs();
            if Flottant::entier(2).fois(p).inf(min1.min(min2)) {
                (p.par(q), self.d)
            } else {
                (xm, xm)
            }
        } else {
            (xm, xm)
        }
    }

    /// Le candidat suivant.
    pub open spec fn suivant(self, tol: Flottant) -> Flottant {
        let marge = self.marge(tol);
        let d = self.deplacements(tol).0;
        self.b.plus(
            if marge.inf(d.abs()) {
                d
            } else if Flottant::nul().infeg(self.demi()) {
                marge
            } else {
                marge.neg()
            },
        )
    }

    /// L'état après un pas.
    pub open spec fn avance(self, f: spec_fn(Flottant) -> Flottant, tol: Flottant) -> Encadrement {
        let (d, e) = self.deplacements(tol);
        let b = self.suivant(tol);
        Encadrement { a: self.b, fa: self.fb, b, fb: f(b), d, e, ..self }
    }

    fn retablir(self) -> (s: Encadrement)
        ensures
            s == self.retabli(),
    {
        let mut s: Encadrement = self;
        if s.fb.est_positif() == s.fc.est_positif() {
            s.c = s.a;
            s.fc = s.fa;
            s.d = s.b.moins(s.a);
            s.e = s.d;
        }
        if s.fc.abs().inf(s.fb.abs()) {
            s.a = s.b;
            s.b = s.c;
            s.c = s.a;
            s.fa = s.fb;
            s.fb = s.fc;
            s.fc = s.fa;
        }
        s
    }

    fn marge_exec(self, tol: Flottant) -> (m: Flottant)
        ensures
            m == self.marge(tol),
    {
        Flottant::entier(2).fois(Flottant::fraction(1, 4_503_599_627_370_496)).fois(
            self.b.abs(),
        ).plus(Flottant::fraction(1, 2).fois(tol))
    }

    fn demi_exec(self) -> (m: Flottant)
        ensures
            m == self.demi(),
    {
        Flottant::fraction(1, 2).fois(self.c.moins(self.b))
    }

    fn interpoler(self) -> (r: (Flottant, Flottant))
        ensures
            r == self.interpolation(),
    {
        let un: Flottant = Flottant::entier(1);
        let deux_xm: Flottant = Flottant::entier(2).fois(self.demi_exec());
        let s: Flottant = self.fb.par(self.fa);
        if self.a.egal(self.c) {
            (deux_xm.fois(s), un.moins(s))
        } else {
            let q: Flottant = self.fa.par(self.fc);
            let r: Flottant = self.fb.par(self.fc);
            (
                s.fois(
                    deux_xm.fois(q).fois(q.moins(r)).moins(
                        self.b.moins(self.a).fois(r.moins(un)),
                    ),
                ),
                q.moins(un).fois(r.moins(un)).fois(s.moins(un)),
            )
        }
    }

    fn deplacer(self, tol: Flottant) -> (r: (Flottant, Flottant))
        ensures
            r == self.deplacements(tol),
    {
        let marge: Flottant = self.marge_exec(tol);
        let xm: Flottant = self.demi_exec();
        if marge.infeg(self.e.abs()) && self.fb.abs().inf(self.fa.abs()) {
            let (p0, q0) = self.interpoler();
            let q: Flottant = if p0.est_positif() {
                q0.neg()
            } else {
                q0
            };
            let p: Flottant = p0.abs();
            let min1: Flottant = Flottant::entier(3).fois(xm).fois(q).moins(marge.fois(q).abs());
            let min2: Flottant = self.e.fois(q).abs();
            if Flottant::entier(2).fois(p).inf(min1.min(min2)) {
                (p.par(q), self.d)
            } else {
                (xm, xm)
            }
        } else {
            (xm, xm)
        }
    }
}

/// Les images aux deux bouts sont finies et de signes opposés.
pub open spec fn encadre(fa: Flottant, fb: Flottant) -> bool {
    fa.fini() && fb.fini() && fa.positif() != fb.positif()
}

/// Ce que la recherche rend en `n` pas au plus depuis un état.
pub open spec fn cherche(
    f: spec_fn(Flottant) -> Flottant,
    etat: Encadrement,
    tol: Flottant,
    n: nat,
) -> Option<Flottant>
    decreases n,
{
    if n == 0 {
        None
    } else {
        let s = etat.retabli();
        if s.abouti(tol) {
            Some(s.b)
        } else {
            cherche(f, s.avance(f, tol), tol, (n - 1) as nat)
        }
    }
}

/// L'état de départ sur un intervalle.
pub open spec fn depart(f: spec_fn(Flottant) -> Flottant, x1: Flottant, x2: Flottant) -> Encadrement {
    Encadrement {
        a: x1,
        b: x2,
        c: x2,
        fa: f(x1),
        fb: f(x2),
        fc: f(x2),
        d: Flottant::nul(),
        e: Flottant::nul(),
    }
}

/// La racine que la méthode de Brent trouve dans un intervalle, s'il encadre.
pub open spec fn racine_de(
    f: spec_fn(Flottant) -> Flottant,
    x1: Flottant,
    x2: Flottant,
    tol: Flottant,
    iterations: nat,
) -> Option<Flottant> {
    if encadre(f(x1), f(x2)) {
        cherche(f, depart(f, x1, x2), tol, iterations)
    } else {
        None
    }
}

/// Ce que tout état de la recherche garde : les images sont celles de leurs points,
/// et `a` et `b` sont du même côté de zéro que rien d'autre que `c`, ou `a` l'encadre.
pub open spec fn coherent(f: spec_fn(Flottant) -> Flottant, s: Encadrement) -> bool {
    &&& s.fa == f(s.a)
    &&& s.fb == f(s.b)
    &&& s.fc == f(s.c)
    &&& s.fb.positif() != s.fc.positif() || s.fb.positif() != s.fa.positif()
}

/// La racine trouvée est sûre : la fonction y est nulle, ou change de signe dans une
/// demi-largeur de la tolérance.
pub open spec fn racine_sure(f: spec_fn(Flottant) -> Flottant, b: Flottant, tol: Flottant) -> bool {
    f(b).egal(Flottant::nul()) || exists|c: Flottant|
        {
            &&& f(b).positif() != #[trigger] f(c).positif()
            &&& Flottant::fraction(1, 2).fois(c.moins(b)).abs().infeg(
                Flottant::entier(2).fois(Flottant::fraction(1, 4_503_599_627_370_496)).fois(
                    b.abs(),
                ).plus(Flottant::fraction(1, 2).fois(tol)),
            )
        }
}

proof fn lemme_cherche(f: spec_fn(Flottant) -> Flottant, etat: Encadrement, tol: Flottant, n: nat)
    requires
        coherent(f, etat),
    ensures
        cherche(f, etat, tol, n) matches Some(b) ==> racine_sure(f, b, tol),
    decreases n,
{
    if n > 0 {
        let s = etat.retabli();
        assert(coherent(f, s) && s.fb.positif() != s.fc.positif());
        if s.abouti(tol) {
            assert(f(s.c) == s.fc);
        } else {
            lemme_cherche(f, s.avance(f, tol), tol, (n - 1) as nat);
        }
    }
}

/// Ce que la recherche rend est une racine, au sens de [`racine_sure`].
pub proof fn la_racine_trouvee_est_sure(
    f: spec_fn(Flottant) -> Flottant,
    x1: Flottant,
    x2: Flottant,
    tol: Flottant,
    iterations: nat,
)
    ensures
        racine_de(f, x1, x2, tol, iterations) matches Some(b) ==> racine_sure(f, b, tol),
{
    if encadre(f(x1), f(x2)) {
        lemme_cherche(f, depart(f, x1, x2), tol, iterations);
    }
}

/// Méthode de Brent : la dichotomie garantit la convergence, la sécante et
/// l'interpolation quadratique inverse la rendent rapide.
pub(crate) fn brent<F: Fn(Flottant) -> Flottant>(
    f: &F,
    x1: Flottant,
    x2: Flottant,
    tol: Flottant,
    iterations: u32,
    Ghost(g): Ghost<spec_fn(Flottant) -> Flottant>,
) -> (r: Option<Flottant>)
    requires
        forall|x: Flottant| #[trigger] call_requires(*f, (x,)),
        forall|x: Flottant, y: Flottant| #[trigger] call_ensures(*f, (x,), y) ==> y == g(x),
    ensures
        r == racine_de(g, x1, x2, tol, iterations as nat),
{
    let fa: Flottant = f(x1);
    let fb: Flottant = f(x2);
    if !fa.est_fini() || !fb.est_fini() || fa.est_positif() == fb.est_positif() {
        return None;
    }
    let z: Flottant = Flottant::nul();
    let mut etat: Encadrement = Encadrement { a: x1, b: x2, c: x2, fa, fb, fc: fb, d: z, e: z };
    let mut reste: u32 = iterations;
    while reste > 0
        invariant
            reste <= iterations,
            encadre(g(x1), g(x2)),
            racine_de(g, x1, x2, tol, iterations as nat) == cherche(g, etat, tol, reste as nat),
            forall|x: Flottant| #[trigger] call_requires(*f, (x,)),
            forall|x: Flottant, y: Flottant| #[trigger] call_ensures(*f, (x,), y) ==> y == g(x),
        decreases reste,
    {
        let s: Encadrement = etat.retablir();
        let marge: Flottant = s.marge_exec(tol);
        let xm: Flottant = s.demi_exec();
        if xm.abs().infeg(marge) || s.fb.egal(Flottant::nul()) {
            return Some(s.b);
        }
        let (d, e) = s.deplacer(tol);
        let b: Flottant = s.b.plus(
            if marge.inf(d.abs()) {
                d
            } else if Flottant::nul().infeg(xm) {
                marge
            } else {
                marge.neg()
            },
        );
        let fb: Flottant = f(b);
        etat = Encadrement { a: s.b, fa: s.fb, b, fb, c: s.c, fc: s.fc, d, e };
        reste = reste - 1;
    }
    None
}

} // verus!
