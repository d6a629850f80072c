//! Des contrats et des valeurs, vers une chaîne exploitable.
//!
//! C'est ici que le format « un contrat par ligne » d'IB devient le format « un strike
//! par ligne, deux côtés » du calcul.

use super::client::Valeurs;
use super::decisions::ContratOption;
#[allow(unused_imports)]
use crate::calendrier::usuel;
#[allow(unused_imports)]
use crate::coeur::analyse;
use crate::coeur::black76::{self, Sens};
#[allow(unused_imports)]
use crate::coeur::black76::gamma_de;
use crate::coeur::chaine::{Chaine, ChaineInvalide, Cote, Ligne};
#[allow(unused_imports)]
use crate::coeur::chaine::{cote_nul, est_nouvelle, ligne_avant, lignes_gardees, spot_valide};
#[allow(unused_imports)]
use crate::coeur::fonctions::{courbe, est_fonction};
use crate::coeur::temps::{temps_restant, Convention, EcheanceNy, InstantReleve};
#[allow(unused_imports)]
use crate::coeur::temps::temps_voulu;
use crate::flottant::Flottant;
use crate::store::validation;
#[allow(unused_imports)]
use crate::store::validation::mediane_de;
use crate::tri::trier;
#[allow(unused_imports)]
use crate::tri::{
    le_tri_garde_les_elements, le_tri_range_sans_rien_perdre, ordonnee, ordre_faible,
    trier_ce_qui_est_range_ne_change_rien, triee,
};
use std::collections::HashMap;
#[allow(unused_imports)]
use vstd::std_specs::iter::IteratorSpec;
use vstd::prelude::*;

verus! {

broadcast use vstd::std_specs::hash::group_hash_axioms;

/// Une volatilité ramenée en décimal. Au-delà de trois, elle est un pourcentage : 18 ne
/// peut pas être 1 800 % de volatilité.
pub open spec fn iv_en_decimal(brute: Flottant) -> Flottant {
    if Flottant::entier(3).inferieur(brute) {
        brute.par(Flottant::entier(100))
    } else {
        brute
    }
}

/// Normalise l'IV servie par IB, tantôt en décimal, tantôt en pourcentage.
pub fn iv_normalisee(brute: Flottant) -> (f: Flottant)
    ensures
        f == iv_en_decimal(brute),
{
    if Flottant::entier(3).inf(brute) {
        brute.par(Flottant::entier(100))
    } else {
        brute
    }
}

/// Des identifiants rangés, sans doublon.
pub open spec fn croissante(s: Seq<i32>) -> bool {
    forall|i: int, j: int| 0 <= i < j < s.len() ==> #[trigger] s[i] < #[trigger] s[j]
}

/// La suite nomme tous les contrats dont quelque chose est reçu, du plus petit
/// identifiant au plus grand.
pub open spec fn enumere(s: Seq<i32>, m: Map<i32, Valeurs>) -> bool {
    croissante(s) && forall|k: i32| #[trigger] s.contains(k) <==> m.contains_key(k)
}

/// Les contrats dont quelque chose est reçu, par identifiant.
pub open spec fn identifiants(m: Map<i32, Valeurs>) -> Seq<i32> {
    choose|s: Seq<i32>| enumere(s, m)
}

/// Il n'y a qu'une façon de les nommer dans l'ordre.
proof fn lemme_enumeration_unique(s: Seq<i32>, t: Seq<i32>)
    requires
        croissante(s),
        croissante(t),
        forall|k: i32| #[trigger] s.contains(k) <==> t.contains(k),
    ensures
        s == t,
    decreases s.len() + t.len(),
{
    if s.len() == 0 {
        if t.len() > 0 {
            assert(t.contains(t[0]));
            assert(s.contains(t[0]));
        }
        assert(s =~= t);
    } else if t.len() == 0 {
        assert(s.contains(s[0]));
        assert(t.contains(s[0]));
    } else {
        let (a, b) = (s.last(), t.last());
        assert(s.contains(a) && t.contains(b)) by {
            assert(s[s.len() - 1] == a && t[t.len() - 1] == b);
        }
        let i = choose|i: int| 0 <= i < t.len() && t[i] == a;
        let j = choose|j: int| 0 <= j < s.len() && s[j] == b;
        assert(t.contains(a) && s.contains(b));
        assert(a == b) by {
            if i < t.len() - 1 {
                assert(t[i] < t[t.len() - 1]);
                if j < s.len() - 1 {
                    assert(s[j] < s[s.len() - 1]);
                }
            }
        }
        let (u, v) = (s.drop_last(), t.drop_last());
        assert forall|k: i32| #[trigger] u.contains(k) <==> v.contains(k) by {
            lemme_sans_le_dernier(s, k);
            lemme_sans_le_dernier(t, k);
            assert(s.contains(k) <==> t.contains(k));
        }
        lemme_enumeration_unique(u, v);
        assert(s =~= u.push(a) && t =~= v.push(b));
    }
}

proof fn lemme_sans_le_dernier(s: Seq<i32>, k: i32)
    requires
        croissante(s),
        s.len() > 0,
    ensures
        s.drop_last().contains(k) <==> s.contains(k) && k != s.last(),
{
    let u = s.drop_last();
    if u.contains(k) {
        let i = choose|i: int| 0 <= i < u.len() && u[i] == k;
        assert(s[i] == k && s[i] < s[s.len() - 1]);
    }
    if s.contains(k) && k != s.last() {
        let i = choose|i: int| 0 <= i < s.len() && s[i] == k;
        assert(u[i] == k);
    }
}

fn id_precede(a: i32, b: i32) -> (r: bool)
    ensures
        r == (a < b),
{
    a < b
}

/// Les contrats dont quelque chose est reçu, par identifiant.
fn enumerer_ids(m: &HashMap<i32, Valeurs>) -> (v: Vec<i32>)
    ensures
        v@ == identifiants(m@),
        enumere(v@, m@),
{
    let mut cles: Vec<i32> = Vec::new();
    let ghost toutes: Seq<i32> = m.keys().remaining().unref();
    for k in it: m.keys()
        invariant
            it.seq().unref() == toutes,
            cles@ == toutes.take(it.index() as int),
    {
        cles.push(*k);
    }
    assert(cles@ =~= toutes);
    let ghost avant = |a: i32, b: i32| a < b;
    let v: Vec<i32> = trier(cles.as_slice(), id_precede, Ghost(avant));
    proof {
        assert(toutes.to_set() == m@.dom());
        assert(m.keys().remaining().no_duplicates());
        assert(cles@.no_duplicates()) by {
            assert forall|i: int, j: int| 0 <= i < cles@.len() && 0 <= j < cles@.len() && i != j implies cles@[i]
                != cles@[j] by {
                assert(m.keys().remaining()[i] != m.keys().remaining()[j]);
            }
        }
        assert(ordre_faible(avant));
        le_tri_range_sans_rien_perdre(cles@, avant);
        le_tri_garde_les_elements(cles@, avant);
        cles@.lemma_multiset_has_no_duplicates();
        v@.lemma_multiset_has_no_duplicates_conv();
        assert forall|i: int, j: int| 0 <= i < j < v@.len() implies #[trigger] v@[i] < #[trigger] v@[j] by {
            assert(!avant(v@[j], v@[i]));
            assert(v@[i] != v@[j]);
        }
        assert forall|k: i32| #[trigger] v@.contains(k) <==> m@.contains_key(k) by {
            assert(cles@.contains(k) <==> toutes.to_set().contains(k));
        }
        assert(enumere(v@, m@));
        let s = identifiants(m@);
        assert(enumere(s, m@));
        assert forall|k: i32| #[trigger] s.contains(k) <==> v@.contains(k) by {
            assert(s.contains(k) <==> m@.contains_key(k));
        }
        lemme_enumeration_unique(s, v@);
    }
    v
}

/// Les prix du sous-jacent que les ticks ont servis, dans l'ordre des identifiants.
pub open spec fn prix_servis(ids: Seq<i32>, m: Map<i32, Valeurs>) -> Seq<Flottant>
    decreases ids.len(),
{
    if ids.len() == 0 {
        Seq::empty()
    } else {
        let debut = prix_servis(ids.drop_last(), m);
        match m[ids.last()].sous_jacent {
            Some(p) => if p.positif() {
                debut.push(p)
            } else {
                debut
            },
            None => debut,
        }
    }
}

/// Le prix du sous-jacent : celui qu'on impose, ou la médiane de ceux que les ticks ont
/// servis. Rien si aucun ne l'a été.
pub open spec fn spot_de(prix_impose: Option<Flottant>, m: Map<i32, Valeurs>) -> Option<Flottant> {
    let servis = prix_servis(identifiants(m), m);
    match prix_impose {
        Some(p) => Some(p),
        None => if servis.len() == 0 {
            None
        } else {
            Some(mediane_de(servis))
        },
    }
}

/// Les prix du sous-jacent que les ticks ont servis.
pub(crate) fn relever_prix(valeurs: &HashMap<i32, Valeurs>) -> (prix: Vec<Flottant>)
    ensures
        prix@ == prix_servis(identifiants(valeurs@), valeurs@),
        forall|k: int| 0 <= k < prix@.len() ==> (#[trigger] prix@[k]).positif(),
{
    let ids: Vec<i32> = enumerer_ids(valeurs);
    let mut prix: Vec<Flottant> = Vec::new();
    let mut i: usize = 0;
    while i < ids.len()
        invariant
            i <= ids@.len(),
            enumere(ids@, valeurs@),
            prix@ == prix_servis(ids@.take(i as int), valeurs@),
            forall|k: int| 0 <= k < prix@.len() ==> (#[trigger] prix@[k]).positif(),
        decreases ids@.len() - i,
    {
        proof {
            assert(ids@.take(i + 1).drop_last() =~= ids@.take(i as int));
            assert(ids@.take(i + 1).last() == ids@[i as int]);
            assert(ids@.contains(ids@[i as int]));
        }
        if let Some(v) = valeurs.get(&ids[i]) {
            if let Some(p) = v.sous_jacent {
                if p.est_positif() {
                    prix.push(p);
                }
            }
        }
        i += 1;
    }
    assert(ids@.take(i as int) =~= ids@);
    prix
}

fn spot_des_ticks(valeurs: &HashMap<i32, Valeurs>) -> (r: Option<Flottant>)
    ensures
        r == spot_de(None, valeurs@),
{
    let prix: Vec<Flottant> = relever_prix(valeurs);
    if prix.len() == 0 {
        None
    } else {
        Some(validation::mediane(prix.as_slice()))
    }
}

/// La ligne d'un strike dont rien n'est encore connu.
pub open spec fn ligne_vierge(c: ContratOption) -> Ligne {
    Ligne {
        echeance: c.cle.echeance,
        strike: c.cle.strike,
        call: cote_nul(),
        put: cote_nul(),
    }
}

/// La ligne est-elle celle de ce strike, à cette échéance ?
pub open spec fn est_la_ligne(l: Ligne, echeance: EcheanceNy, strike: Flottant) -> bool {
    l.echeance == echeance && l.strike == strike
}

/// Le rang de la ligne de ce strike, la dernière s'il y en a plusieurs.
pub open spec fn rang_ligne(v: Seq<Ligne>, echeance: EcheanceNy, strike: Flottant) -> Option<int>
    decreases v.len(),
{
    if v.len() == 0 {
        None
    } else if est_la_ligne(v.last(), echeance, strike) {
        Some(v.len() - 1)
    } else {
        rang_ligne(v.drop_last(), echeance, strike)
    }
}

fn chercher_ligne(v: &[Ligne], echeance: EcheanceNy, strike: Flottant) -> (r: Option<usize>)
    ensures
        match r {
            Some(k) => k < v@.len() && rang_ligne(v@, echeance, strike) == Some(k as int)
                && est_la_ligne(v@[k as int], echeance, strike),
            None => rang_ligne(v@, echeance, strike) is None,
        },
{
    let mut i: usize = v.len();
    assert(v@.take(i as int) =~= v@);
    while i > 0
        invariant
            i <= v@.len(),
            rang_ligne(v@, echeance, strike) == rang_ligne(v@.take(i as int), echeance, strike),
        decreases i,
    {
        proof {
            assert(v@.take(i as int).last() == v@[i - 1]);
            assert(v@.take(i as int).drop_last() =~= v@.take(i - 1));
        }
        let l: Ligne = v[i - 1];
        if l.echeance.0.micros == echeance.0.micros && l.strike.bits == strike.bits {
            return Some(i - 1);
        }
        i -= 1;
    }
    None
}

/// La valeur, ou zéro.
pub open spec fn ou_nul(v: Option<Flottant>) -> Flottant {
    match v {
        Some(f) => f,
        None => Flottant::nul(),
    }
}

fn ou_zero(v: Option<Flottant>) -> (f: Flottant)
    ensures
        f == ou_nul(v),
{
    match v {
        Some(f) => f,
        None => Flottant::nul(),
    }
}

/// Le côté que des valeurs reçues décrivent.
pub open spec fn cote_de(v: Valeurs) -> Cote {
    Cote {
        iv: match v.iv {
            Some(iv) => iv_en_decimal(iv),
            None => Flottant::nul(),
        },
        gamma: ou_nul(v.gamma),
        delta: ou_nul(v.delta),
        vega: ou_nul(v.vega),
        theta: ou_nul(v.theta),
        open_interest: ou_nul(v.open_interest),
        volume: ou_nul(v.volume),
    }
}

fn en_cote(v: &Valeurs) -> (c: Cote)
    ensures
        c == cote_de(*v),
{
    Cote {
        iv: match v.iv {
            Some(iv) => iv_normalisee(iv),
            None => Flottant::nul(),
        },
        gamma: ou_zero(v.gamma),
        delta: ou_zero(v.delta),
        vega: ou_zero(v.vega),
        theta: ou_zero(v.theta),
        open_interest: ou_zero(v.open_interest),
        volume: ou_zero(v.volume),
    }
}

/// La ligne, un de ses côtés remplacé.
pub open spec fn avec_cote(l: Ligne, sens: Sens, c: Cote) -> Ligne {
    match sens {
        Sens::Call => Ligne { call: c, ..l },
        Sens::Put => Ligne { put: c, ..l },
    }
}

/// Les lignes, un contrat de plus : il rejoint la ligne de son strike, ou l'ouvre.
pub open spec fn avec_contrat(v: Seq<Ligne>, c: ContratOption, recu: Option<Valeurs>) -> Seq<
    Ligne,
> {
    let (lignes, k) = match rang_ligne(v, c.cle.echeance, c.cle.strike) {
        Some(k) => (v, k),
        None => (v.push(ligne_vierge(c)), v.len() as int),
    };
    match recu {
        Some(x) => lignes.update(k, avec_cote(lignes[k], c.cle.sens, cote_de(x))),
        None => lignes,
    }
}

/// Ce qui est reçu d'un contrat.
pub open spec fn recu_pour(m: Map<i32, Valeurs>, con_id: i32) -> Option<Valeurs> {
    if m.contains_key(con_id) {
        Some(m[con_id])
    } else {
        None
    }
}

/// Une ligne par échéance et par strike, dans l'ordre où les contrats les ouvrent.
pub open spec fn lignes_par_strike(contrats: Seq<ContratOption>, m: Map<i32, Valeurs>) -> Seq<Ligne>
    decreases contrats.len(),
{
    if contrats.len() == 0 {
        Seq::empty()
    } else {
        avec_contrat(
            lignes_par_strike(contrats.drop_last(), m),
            contrats.last(),
            recu_pour(m, contrats.last().con_id),
        )
    }
}

/// Le gamma publié, ou celui que Black-76 retrouve depuis l'IV s'il manque.
pub open spec fn avec_gamma(
    ln: spec_fn(Flottant) -> Flottant,
    exp: spec_fn(Flottant) -> Flottant,
    c: Cote,
    spot: Flottant,
    strike: Flottant,
    t: Flottant,
) -> Cote {
    if c.gamma.de_meme_valeur(Flottant::nul()) && c.iv.positif() {
        Cote { gamma: gamma_de(ln, exp, spot, strike, c.iv, t, Flottant::nul()), ..c }
    } else {
        c
    }
}

/// La ligne, ses gammas manquants retrouvés.
pub open spec fn ligne_completee(
    ln: spec_fn(Flottant) -> Flottant,
    exp: spec_fn(Flottant) -> Flottant,
    l: Ligne,
    spot: Flottant,
    releve: InstantReleve,
) -> Ligne {
    let t = temps_voulu(l.echeance, releve, Convention::Heures);
    Ligne {
        call: avec_gamma(ln, exp, l.call, spot, l.strike, t),
        put: avec_gamma(ln, exp, l.put, spot, l.strike, t),
        ..l
    }
}

pub open spec fn lignes_completees(
    ln: spec_fn(Flottant) -> Flottant,
    exp: spec_fn(Flottant) -> Flottant,
    v: Seq<Ligne>,
    spot: Flottant,
    releve: InstantReleve,
) -> Seq<Ligne> {
    Seq::new(v.len(), |i: int| ligne_completee(ln, exp, v[i], spot, releve))
}

/// Des contrats dont les échéances sont au calendrier.
pub open spec fn echeances_usuelles(v: Seq<ContratOption>) -> bool {
    forall|i: int| 0 <= i < v.len() ==> usuel((#[trigger] v[i]).cle.echeance.0.micros as int)
}

fn assembler(contrats: &[ContratOption], valeurs: &HashMap<i32, Valeurs>) -> (v: Vec<Ligne>)
    requires
        echeances_usuelles(contrats@),
    ensures
        v@ == lignes_par_strike(contrats@, valeurs@),
        forall|k: int| 0 <= k < v@.len() ==> usuel((#[trigger] v@[k]).echeance.0.micros as int),
{
    let mut v: Vec<Ligne> = Vec::new();
    let mut i: usize = 0;
    while i < contrats.len()
        invariant
            i <= contrats@.len(),
            echeances_usuelles(contrats@),
            v@ == lignes_par_strike(contrats@.take(i as int), valeurs@),
            forall|k: int| 0 <= k < v@.len() ==> usuel((#[trigger] v@[k]).echeance.0.micros as int),
        decreases contrats@.len() - i,
    {
        let c: ContratOption = contrats[i];
        proof {
            assert(contrats@.take(i + 1).drop_last() =~= contrats@.take(i as int));
            assert(contrats@.take(i + 1).last() == c);
        }
        let k: usize = match chercher_ligne(v.as_slice(), c.cle.echeance, c.cle.strike) {
            Some(k) => k,
            None => {
                v.push(
                    Ligne {
                        echeance: c.cle.echeance,
                        strike: c.cle.strike,
                        call: Cote::default(),
                        put: Cote::default(),
                    },
                );
                v.len() - 1
            },
        };
        if let Some(x) = valeurs.get(&c.con_id) {
            let mut l: Ligne = v[k];
            match c.cle.sens {
                Sens::Call => {
                    l.call = en_cote(x);
                },
                Sens::Put => {
                    l.put = en_cote(x);
                },
            }
            v.set(k, l);
        }
        i += 1;
    }
    assert(contrats@.take(i as int) =~= contrats@);
    v
}

/// Ce que l'assemblage donne : refusé sans prix du sous-jacent, sinon la chaîne des lignes
/// par strike, leurs gammas manquants retrouvés.
pub open spec fn est_assemblee(
    r: Result<Chaine, ChaineInvalide>,
    ln: spec_fn(Flottant) -> Flottant,
    exp: spec_fn(Flottant) -> Flottant,
    contrats: Seq<ContratOption>,
    m: Map<i32, Valeurs>,
    releve: InstantReleve,
    prix_impose: Option<Flottant>,
) -> bool {
    match spot_de(prix_impose, m) {
        None => r == Err::<Chaine, ChaineInvalide>(ChaineInvalide::SpotInvalide),
        Some(spot) => est_nouvelle(
            r,
            lignes_completees(ln, exp, lignes_par_strike(contrats, m), spot, releve),
            spot,
            releve,
        ),
    }
}

fn completer<L: Fn(Flottant) -> Flottant, E: Fn(Flottant) -> Flottant>(
    c: Cote,
    spot: Flottant,
    strike: Flottant,
    t: Flottant,
    ln: &L,
    exp: &E,
) -> (r: Cote)
    requires
        est_fonction(*ln),
        est_fonction(*exp),
    ensures
        r == avec_gamma(courbe(*ln), courbe(*exp), c, spot, strike, t),
{
    let mut r: Cote = c;
    if c.gamma.egal(Flottant::nul()) && c.iv.est_positif() {
        r.gamma = black76::gamma(spot, strike, c.iv, t, Flottant::nul(), ln, exp);
    }
    r
}

/// Assemble les contrats énumérés et les valeurs reçues en une chaîne.
///
/// Le prix du future est la médiane de ceux que les ticks ont servis : un contrat isolé
/// peut servir une valeur périmée sans que rien ne le distingue. Le gamma publié est gardé
/// tel quel ; là où il manque, Black-76 le retrouve depuis l'IV.
pub fn build_chain<L: Fn(Flottant) -> Flottant, E: Fn(Flottant) -> Flottant>(
    contrats: &[ContratOption],
    valeurs: &HashMap<i32, Valeurs>,
    releve: InstantReleve,
    prix_impose: Option<Flottant>,
    ln: &L,
    exp: &E,
) -> (r: Result<Chaine, ChaineInvalide>)
    requires
        echeances_usuelles(contrats@),
        est_fonction(*ln),
        est_fonction(*exp),
    ensures
        est_assemblee(
            r,
            courbe(*ln),
            courbe(*exp),
            contrats@,
            valeurs@,
            releve,
            prix_impose,
        ),
        r matches Ok(c) ==> analyse::echeances_usuelles(c.vue()),
{
    let spot: Flottant = match prix_impose {
        Some(p) => p,
        None => match spot_des_ticks(valeurs) {
            Some(p) => p,
            None => {
                return Err(ChaineInvalide::SpotInvalide);
            },
        },
    };
    let lignes: Vec<Ligne> = assembler(contrats, valeurs);
    let mut completes: Vec<Ligne> = Vec::new();
    let mut i: usize = 0;
    while i < lignes.len()
        invariant
            i <= lignes@.len(),
            est_fonction(*ln),
            est_fonction(*exp),
            forall|k: int|
                0 <= k < lignes@.len() ==> usuel(
                    (#[trigger] lignes@[k]).echeance.0.micros as int,
                ),
            completes@ =~= lignes_completees(
                courbe(*ln),
                courbe(*exp),
                lignes@.take(i as int),
                spot,
                releve,
            ),
        decreases lignes@.len() - i,
    {
        let l: Ligne = lignes[i];
        let t: Flottant = temps_restant(l.echeance, releve, Convention::Heures);
        completes.push(
            Ligne {
                echeance: l.echeance,
                strike: l.strike,
                call: completer(l.call, spot, l.strike, t, ln, exp),
                put: completer(l.put, spot, l.strike, t, ln, exp),
            },
        );
        i += 1;
    }
    assert(lignes@.take(i as int) =~= lignes@);
    proof {
        assert forall|k: int| 0 <= k < completes@.len() implies usuel(
            (#[trigger] completes@[k]).echeance.0.micros as int,
        ) by {
            assert(completes@[k].echeance == lignes@[k].echeance);
        }
        lemme_echeances_gardees(completes@);
    }
    Chaine::nouvelle(completes, spot, releve)
}

/// Ce qu'une chaîne garde a les échéances de ce qu'on lui donne.
proof fn lemme_echeances_gardees(v: Seq<Ligne>)
    requires
        analyse::echeances_usuelles(v),
    ensures
        analyse::echeances_usuelles(
            triee(lignes_gardees(v), |a: Ligne, b: Ligne| ligne_avant(a, b)),
        ),
{
    let avant = |a: Ligne, b: Ligne| ligne_avant(a, b);
    let g = lignes_gardees(v);
    lemme_echeances_retenues(v);
    le_tri_garde_les_elements(g, avant);
    let t = triee(g, avant);
    assert forall|i: int| 0 <= i < t.len() implies usuel(
        (#[trigger] t[i]).echeance.0.micros as int,
    ) by {
        assert(t.contains(t[i]));
        assert(g.contains(t[i]));
        let k = choose|k: int| 0 <= k < g.len() && g[k] == t[i];
        assert(usuel(g[k].echeance.0.micros as int));
    }
}

proof fn lemme_echeances_retenues(v: Seq<Ligne>)
    requires
        analyse::echeances_usuelles(v),
    ensures
        analyse::echeances_usuelles(lignes_gardees(v)),
    decreases v.len(),
{
    if v.len() > 0 {
        let t = v.drop_last();
        assert forall|i: int| 0 <= i < t.len() implies usuel(
            (#[trigger] t[i]).echeance.0.micros as int,
        ) by {
            assert(t[i] == v[i]);
        }
        lemme_echeances_retenues(t);
        assert(v[v.len() - 1] == v.last());
    }
}

/// Un côté du socle rafraîchi par le vif : l'IV et le gamma là où le vif en a, le plus
/// grand des deux volumes, et l'open interest du socle. Zéro veut dire « pas de donnée ».
pub open spec fn cote_fondue(ancien: Cote, neuf: Cote) -> Cote {
    Cote {
        iv: if neuf.iv.positif() {
            neuf.iv
        } else {
            ancien.iv
        },
        gamma: if neuf.gamma.positif() {
            neuf.gamma
        } else {
            ancien.gamma
        },
        volume: ancien.volume.max(neuf.volume),
        ..ancien
    }
}

fn fondre_cote(ancien: Cote, neuf: Cote) -> (c: Cote)
    ensures
        c == cote_fondue(ancien, neuf),
{
    let mut c: Cote = ancien;
    if neuf.iv.est_positif() {
        c.iv = neuf.iv;
    }
    if neuf.gamma.est_positif() {
        c.gamma = neuf.gamma;
    }
    c.volume = ancien.volume.max(neuf.volume);
    c
}

/// Une ligne du socle, rafraîchie par la ligne du vif de même échéance et même strike.
pub open spec fn ligne_fondue(l: Ligne, vif: Seq<Ligne>) -> Ligne {
    match rang_ligne(vif, l.echeance, l.strike) {
        Some(k) => Ligne {
            call: cote_fondue(l.call, vif[k].call),
            put: cote_fondue(l.put, vif[k].put),
            ..l
        },
        None => l,
    }
}

/// Les lignes du socle, rafraîchies par le vif.
pub open spec fn lignes_fondues(socle: Seq<Ligne>, vif: Seq<Ligne>) -> Seq<Ligne> {
    Seq::new(socle.len(), |i: int| ligne_fondue(socle[i], vif))
}

/// Fusionne le socle et le vif.
///
/// L'open interest vient du socle et de nulle part ailleurs : la chambre de compensation
/// ne le publie qu'une fois par jour. Un contrat du vif absent du socle est ignoré plutôt
/// qu'ajouté.
pub fn fusionner(socle: &Chaine, vif: &Chaine, spot: Flottant) -> (r: Result<
    Chaine,
    ChaineInvalide,
>)
    ensures
        est_nouvelle(r, lignes_fondues(socle.vue(), vif.vue()), spot, vif.releve),
        analyse::echeances_usuelles(socle.vue()) ==> (r matches Ok(c)
            ==> analyse::echeances_usuelles(c.vue())),
{
    let base: &[Ligne] = socle.lignes();
    let frais: &[Ligne] = vif.lignes();
    let mut lignes: Vec<Ligne> = Vec::new();
    let mut i: usize = 0;
    while i < base.len()
        invariant
            i <= base@.len(),
            lignes@ =~= lignes_fondues(base@.take(i as int), frais@),
        decreases base@.len() - i,
    {
        let l: Ligne = base[i];
        let fondue: Ligne = match chercher_ligne(frais, l.echeance, l.strike) {
            Some(k) => Ligne {
                echeance: l.echeance,
                strike: l.strike,
                call: fondre_cote(l.call, frais[k].call),
                put: fondre_cote(l.put, frais[k].put),
            },
            None => l,
        };
        lignes.push(fondue);
        i += 1;
    }
    assert(base@.take(i as int) =~= base@);
    proof {
        if analyse::echeances_usuelles(base@) {
            assert forall|k: int| 0 <= k < lignes@.len() implies usuel(
                (#[trigger] lignes@[k]).echeance.0.micros as int,
            ) by {
                assert(lignes@[k].echeance == base@[k].echeance);
            }
            lemme_echeances_gardees(lignes@);
        }
    }
    Chaine::nouvelle(lignes, spot, vif.releve)
}

/// La fusion de deux chaînes à un prix utilisable aboutit toujours. Elle a les lignes du
/// socle, ni plus ni moins, dans le même ordre ; leur open interest est celui du socle, et
/// leur volume ne recule jamais.
pub proof fn la_fusion_garde_le_socle(
    r: Result<Chaine, ChaineInvalide>,
    socle: Chaine,
    vif: Chaine,
    spot: Flottant,
)
    requires
        socle.valide(),
        vif.valide(),
        spot_valide(spot),
        est_nouvelle(r, lignes_fondues(socle.vue(), vif.vue()), spot, vif.releve),
    ensures
        r is Ok,
        r->Ok_0.vue().len() == socle.vue().len(),
        r->Ok_0.releve == vif.releve,
        r->Ok_0.spot == spot,
        forall|i: int|
            0 <= i < socle.vue().len() ==> {
                let (a, b) = (socle.vue()[i], #[trigger] r->Ok_0.vue()[i]);
                &&& b.echeance == a.echeance
                &&& b.strike == a.strike
                &&& b.call.open_interest == a.call.open_interest
                &&& b.put.open_interest == a.put.open_interest
                &&& a.call.volume.inferieur_ou_egal(b.call.volume)
                &&& a.put.volume.inferieur_ou_egal(b.put.volume)
            },
{
    let f = lignes_fondues(socle.vue(), vif.vue());
    let avant = |a: Ligne, b: Ligne| ligne_avant(a, b);
    assert forall|i: int| 0 <= i < f.len() implies {
        &&& (#[trigger] f[i]).exploitable()
        &&& f[i].call.tout_fini()
        &&& f[i].put.tout_fini()
    } by {
        let l = socle.vue()[i];
        assert(l.exploitable() && l.call.tout_fini() && l.put.tout_fini());
        lemme_rang_ligne(vif.vue(), l.echeance, l.strike);
        if let Some(k) = rang_ligne(vif.vue(), l.echeance, l.strike) {
            assert(vif.vue()[k].call.tout_fini() && vif.vue()[k].put.tout_fini());
        }
    }
    lemme_deja_saines(f);
    assert(ordonnee(f, avant)) by {
        assert forall|i: int, j: int| 0 <= i < j < f.len() implies !avant(
            #[trigger] f[j],
            #[trigger] f[i],
        ) by {
            assert(!avant(socle.vue()[j], socle.vue()[i]));
        }
    }
    trier_ce_qui_est_range_ne_change_rien(f, avant);
    let c = r->Ok_0;
    assert forall|i: int| 0 <= i < socle.vue().len() implies {
        let (a, b) = (socle.vue()[i], #[trigger] c.vue()[i]);
        &&& b.echeance == a.echeance
        &&& b.strike == a.strike
        &&& b.call.open_interest == a.call.open_interest
        &&& b.put.open_interest == a.put.open_interest
        &&& a.call.volume.inferieur_ou_egal(b.call.volume)
        &&& a.put.volume.inferieur_ou_egal(b.put.volume)
    } by {
        let l = socle.vue()[i];
        assert(c.vue()[i] == f[i]);
        assert(l.call.tout_fini() && l.put.tout_fini());
        lemme_rang_ligne(vif.vue(), l.echeance, l.strike);
        if let Some(k) = rang_ligne(vif.vue(), l.echeance, l.strike) {
            assert(vif.vue()[k].call.tout_fini() && vif.vue()[k].put.tout_fini());
        }
    }
}

proof fn lemme_rang_ligne(v: Seq<Ligne>, echeance: EcheanceNy, strike: Flottant)
    ensures
        rang_ligne(v, echeance, strike) matches Some(k) ==> 0 <= k < v.len() && est_la_ligne(
            v[k],
            echeance,
            strike,
        ),
    decreases v.len(),
{
    if v.len() > 0 && !est_la_ligne(v.last(), echeance, strike) {
        lemme_rang_ligne(v.drop_last(), echeance, strike);
    }
}

/// Des lignes déjà saines se gardent telles quelles.
proof fn lemme_deja_saines(v: Seq<Ligne>)
    requires
        forall|i: int|
            0 <= i < v.len() ==> {
                &&& (#[trigger] v[i]).exploitable()
                &&& v[i].call.tout_fini()
                &&& v[i].put.tout_fini()
            },
    ensures
        lignes_gardees(v) == v,
    decreases v.len(),
{
    if v.len() > 0 {
        let t = v.drop_last();
        assert forall|i: int| 0 <= i < t.len() implies {
            &&& (#[trigger] t[i]).exploitable()
            &&& t[i].call.tout_fini()
            &&& t[i].put.tout_fini()
        } by {
            assert(t[i] == v[i]);
        }
        lemme_deja_saines(t);
        assert(v[v.len() - 1] == v.last());
        assert(v.last().assainie() == v.last());
        assert(lignes_gardees(v) =~= t.push(v.last()));
        assert(t.push(v.last()) =~= v);
    }
}

} // verus!
