//! Ce que les réponses d'IB veulent dire.
//!
//! La connexion et les souscriptions se font ailleurs : ici, on traduit ce qui revient.

use super::decisions::{
    echeances_utiles, instant_echeance_si_resoluble, separer_echeance, CleContrat, ContratOption,
    ErreurEcheance,
};
#[allow(unused_imports)]
use super::decisions::{au_calendrier, croissants, dans_l_horizon, echeance_de};
use crate::calendrier::{lire_jour, Jour};
#[allow(unused_imports)]
use crate::calendrier::jour_lu;
use crate::coeur::black76::Sens;
use crate::coeur::temps::{EcheanceNy, InstantReleve};
use crate::flottant::Flottant;
use crate::texte::{ajouter_texte, caracteres, echapper, en_texte, vient_avant};
#[allow(unused_imports)]
use crate::texte::{lexicographique, mots, texte_echappe};
use std::collections::HashMap;
use vstd::prelude::*;

verus! {

broadcast use vstd::std_specs::hash::group_hash_axioms;

/// Adresse par défaut de TWS.
pub const ADRESSE_DEFAUT: &'static str = "127.0.0.1:7496";

/// Identifiant client par défaut, distinct de ceux qu'une interface humaine prend.
pub const CLIENT_ID_DEFAUT: i32 = 17;

/// Ticks génériques demandés à chaque souscription : `101` porte l'open interest des
/// options, `588` celui des futures, et rien ne dit lequel IB retient pour une option sur
/// future.
pub const TICKS_GENERIQUES: [&'static str; 2] = ["101", "588"];

/// Délai de garde par lot, en secondes. Trop court, il n'ampute pas le GEX d'une erreur
/// mais d'un silence : un contrat muet ne se distingue pas d'un contrat sans open
/// interest.
pub const ATTENTE_LOT: u64 = 10;

/// Ce qui empêche de collecter.
#[derive(Clone, Debug, PartialEq, Eq)]
pub enum ErreurIb {
    /// La passerelle ne répond pas, ou a coupé.
    Connexion(String),
    /// Une requête a échoué.
    Requete(String),
    /// Le produit demandé n'existe pas sur cette place.
    ProduitIntrouvable(String),
    /// Une échéance servie par IB est inexploitable.
    Echeance(ErreurEcheance),
}

impl ErreurIb {
    /// Ce que dit l'erreur, le texte en cause étant cité `cite` quand elle en cite un.
    pub open spec fn dit(&self, cite: Seq<char>) -> Seq<char> {
        match self {
            ErreurIb::Connexion(m) => "Connexion à TWS impossible : "@ + m@
                + ". Vérifie que TWS ou Gateway tourne, que l'API est activée, et que le port est le bon."@,
            ErreurIb::Requete(m) => "Requête refusée par IB : "@ + m@,
            ErreurIb::ProduitIntrouvable(_) => "Aucun future "@ + cite
                + " coté sur cette place."@,
            ErreurIb::Echeance(e) => e.dit(cite),
        }
    }

    /// Le texte que l'erreur cite, vide si elle n'en cite pas.
    pub open spec fn cause(&self) -> Seq<char> {
        match self {
            ErreurIb::ProduitIntrouvable(p) => p@,
            ErreurIb::Echeance(e) => e.cause(),
            _ => Seq::empty(),
        }
    }

    /// Le texte de l'erreur, le texte en cause étant cité `cite`.
    pub fn message_avec(&self, cite: &str) -> (s: String)
        ensures
            s@ == self.dit(cite@),
    {
        let mut v: Vec<char> = Vec::new();
        match self {
            ErreurIb::Connexion(m) => {
                ajouter_texte(&mut v, "Connexion à TWS impossible : ");
                ajouter_texte(&mut v, m.as_str());
                ajouter_texte(
                    &mut v,
                    ". Vérifie que TWS ou Gateway tourne, que l'API est activée, et que le port est le bon.",
                );
            },
            ErreurIb::Requete(m) => {
                ajouter_texte(&mut v, "Requête refusée par IB : ");
                ajouter_texte(&mut v, m.as_str());
            },
            ErreurIb::ProduitIntrouvable(_) => {
                ajouter_texte(&mut v, "Aucun future ");
                ajouter_texte(&mut v, cite);
                ajouter_texte(&mut v, " coté sur cette place.");
            },
            ErreurIb::Echeance(e) => {
                return e.message_avec(cite);
            },
        }
        let s: String = en_texte(v.as_slice());
        assert(s@ =~= self.dit(cite@));
        s
    }

    /// Le texte de l'erreur.
    pub fn message(&self) -> (s: String)
        ensures
            s@ == self.dit(texte_echappe(self.cause())),
    {
        match self {
            ErreurIb::ProduitIntrouvable(p) => self.message_avec(echapper(p.as_str()).as_str()),
            ErreurIb::Echeance(e) => e.message(),
            _ => self.message_avec(""),
        }
    }
}

impl From<ErreurEcheance> for ErreurIb {
    fn from(e: ErreurEcheance) -> (r: Self) {
        ErreurIb::Echeance(e)
    }
}

impl vstd::std_specs::convert::FromSpecImpl<ErreurEcheance> for ErreurIb {
    open spec fn obeys_from_spec() -> bool {
        true
    }

    open spec fn from_spec(e: ErreurEcheance) -> ErreurIb {
        ErreurIb::Echeance(e)
    }
}

/// Ce qu'une souscription rend pour un contrat.
#[derive(Clone, Copy, Debug, PartialEq, Eq, Structural)]
pub struct Valeurs {
    /// Volatilité implicite, en décimal.
    pub iv: Option<Flottant>,
    /// Gamma publié par IB.
    pub gamma: Option<Flottant>,
    /// Delta publié.
    pub delta: Option<Flottant>,
    /// Vega publié.
    pub vega: Option<Flottant>,
    /// Theta publié.
    pub theta: Option<Flottant>,
    /// Open interest du contrat.
    pub open_interest: Option<Flottant>,
    /// Contrats échangés dans la séance.
    pub volume: Option<Flottant>,
    /// Prix du sous-jacent, servi dans chaque tick d'option.
    pub sous_jacent: Option<Flottant>,
}

impl Valeurs {
    /// Rien de reçu.
    pub open spec fn vierges() -> Valeurs {
        Valeurs {
            iv: None,
            gamma: None,
            delta: None,
            vega: None,
            theta: None,
            open_interest: None,
            volume: None,
            sous_jacent: None,
        }
    }
}

impl Default for Valeurs {
    fn default() -> (v: Self)
        ensures
            v == Valeurs::vierges(),
    {
        Valeurs {
            iv: None,
            gamma: None,
            delta: None,
            vega: None,
            theta: None,
            open_interest: None,
            volume: None,
            sous_jacent: None,
        }
    }
}

/// Le numéro des grecs du modèle, en temps réel et en différé.
pub const TICK_MODELE: i32 = 13;

pub const TICK_MODELE_DIFFERE: i32 = 83;

/// Les numéros des quatre tailles qui portent un open interest : option, call, put,
/// future.
pub const TICK_OPEN_INTEREST: i32 = 22;

pub const TICK_OPEN_INTEREST_CALL: i32 = 27;

pub const TICK_OPEN_INTEREST_PUT: i32 = 28;

pub const TICK_OPEN_INTEREST_FUTURE: i32 = 86;

/// Un calcul d'option tel qu'IB le sert.
#[derive(Clone, Copy, Debug, PartialEq, Eq, Structural)]
pub struct Calcul {
    pub implied_volatility: Option<Flottant>,
    pub delta: Option<Flottant>,
    pub gamma: Option<Flottant>,
    pub vega: Option<Flottant>,
    pub theta: Option<Flottant>,
    pub underlying_price: Option<Flottant>,
}

/// Un tick : son numéro, et ce qu'il porte.
#[derive(Clone, Copy, Debug, PartialEq, Eq, Structural)]
pub enum Tick {
    /// Des grecs.
    OptionComputation(i32, Calcul),
    /// Une taille.
    Size(i32, Flottant),
    /// Autre chose, qui ne sert pas.
    Autre,
}

/// Une grandeur finie, d'au moins `borne`.
pub open spec fn au_moins(valeur: Option<Flottant>, borne: Flottant) -> Option<Flottant> {
    match valeur {
        Some(v) => if v.fini() && borne.inferieur_ou_egal(v) {
            Some(v)
        } else {
            None
        },
        None => None,
    }
}

/// Moins l'infini, en double précision.
pub const MOINS_L_INFINI: u64 = 0xFFF0_0000_0000_0000;

/// Une grandeur qui ne peut pas être négative : IV, gamma, vega, prix. IB signale « pas
/// de valeur » par -1 ou -2 plutôt que par un vide.
pub fn positif(valeur: Option<Flottant>) -> (r: Option<Flottant>)
    ensures
        r == au_moins(valeur, Flottant::nul()),
{
    signe(valeur, Flottant::nul())
}

/// Une grandeur qui peut être négative, mais pas sous sa borne.
pub fn signe(valeur: Option<Flottant>, borne_basse: Flottant) -> (r: Option<Flottant>)
    ensures
        r == au_moins(valeur, borne_basse),
{
    match valeur {
        Some(v) => if v.est_fini() && borne_basse.infeg(v) {
            Some(v)
        } else {
            None
        },
        None => None,
    }
}

/// La nouvelle valeur, ou l'ancienne si la nouvelle manque.
pub open spec fn ou_sinon(neuf: Option<Flottant>, ancien: Option<Flottant>) -> Option<Flottant> {
    match neuf {
        Some(v) => Some(v),
        None => ancien,
    }
}

fn sinon(neuf: Option<Flottant>, ancien: Option<Flottant>) -> (r: Option<Flottant>)
    ensures
        r == ou_sinon(neuf, ancien),
{
    match neuf {
        Some(v) => Some(v),
        None => ancien,
    }
}

pub open spec fn est_du_modele(numero: i32) -> bool {
    numero == TICK_MODELE || numero == TICK_MODELE_DIFFERE
}

pub open spec fn est_un_open_interest(numero: i32) -> bool {
    numero == TICK_OPEN_INTEREST || numero == TICK_OPEN_INTEREST_CALL || numero
        == TICK_OPEN_INTEREST_PUT || numero == TICK_OPEN_INTEREST_FUTURE
}

impl Valeurs {
    /// Ce qu'un tick fait des valeurs reçues. Seuls les grecs du modèle comptent : les
    /// variantes bid, ask et last servent des sentinelles quand la cote manque. Un vide
    /// n'efface jamais ce qui est déjà reçu.
    pub open spec fn avec(self, tick: Tick) -> Valeurs {
        match tick {
            Tick::OptionComputation(numero, c) => if est_du_modele(numero) {
                let zero = Flottant::nul();
                Valeurs {
                    iv: ou_sinon(au_moins(c.implied_volatility, zero), self.iv),
                    gamma: ou_sinon(au_moins(c.gamma, zero), self.gamma),
                    vega: ou_sinon(au_moins(c.vega, zero), self.vega),
                    sous_jacent: ou_sinon(au_moins(c.underlying_price, zero), self.sous_jacent),
                    delta: ou_sinon(au_moins(c.delta, Flottant::entier(-1i64)), self.delta),
                    theta: ou_sinon(
                        au_moins(c.theta, Flottant { bits: MOINS_L_INFINI }),
                        self.theta,
                    ),
                    open_interest: self.open_interest,
                    volume: self.volume,
                }
            } else {
                self
            },
            Tick::Size(numero, taille) => if est_un_open_interest(numero) {
                Valeurs { open_interest: Some(taille), ..self }
            } else {
                self
            },
            Tick::Autre => self,
        }
    }

    /// Absorbe un tick.
    pub fn absorber(&mut self, tick: &Tick)
        ensures
            *final(self) == old(self).avec(*tick),
    {
        match tick {
            Tick::OptionComputation(numero, c) => {
                if *numero == TICK_MODELE || *numero == TICK_MODELE_DIFFERE {
                    self.iv = sinon(positif(c.implied_volatility), self.iv);
                    self.gamma = sinon(positif(c.gamma), self.gamma);
                    self.vega = sinon(positif(c.vega), self.vega);
                    self.sous_jacent = sinon(positif(c.underlying_price), self.sous_jacent);
                    self.delta = sinon(signe(c.delta, Flottant::entier(-1)), self.delta);
                    self.theta = sinon(
                        signe(c.theta, Flottant { bits: MOINS_L_INFINI }),
                        self.theta,
                    );
                }
            },
            Tick::Size(numero, taille) => {
                if *numero == TICK_OPEN_INTEREST || *numero == TICK_OPEN_INTEREST_CALL || *numero
                    == TICK_OPEN_INTEREST_PUT || *numero == TICK_OPEN_INTEREST_FUTURE {
                    self.open_interest = Some(*taille);
                }
            },
            Tick::Autre => {},
        }
    }
}

/// Ce qui est reçu ne se perd plus, et n'est jamais une sentinelle : quel que soit le
/// tick, une valeur présente le reste, et une volatilité, un gamma ou un prix nouveaux
/// sont finis et positifs ou nuls.
pub proof fn un_tick_n_efface_rien(v: Valeurs, tick: Tick)
    ensures
        v.iv is Some ==> v.avec(tick).iv is Some,
        v.gamma is Some ==> v.avec(tick).gamma is Some,
        v.delta is Some ==> v.avec(tick).delta is Some,
        v.vega is Some ==> v.avec(tick).vega is Some,
        v.theta is Some ==> v.avec(tick).theta is Some,
        v.open_interest is Some ==> v.avec(tick).open_interest is Some,
        v.sous_jacent is Some ==> v.avec(tick).sous_jacent is Some,
        v.avec(tick).iv != v.iv ==> v.avec(tick).iv is Some && v.avec(tick).iv->0.fini()
            && Flottant::nul().inferieur_ou_egal(v.avec(tick).iv->0),
        v.avec(tick).gamma != v.gamma ==> v.avec(tick).gamma is Some && v.avec(tick).gamma->0.fini()
            && Flottant::nul().inferieur_ou_egal(v.avec(tick).gamma->0),
        v.avec(tick).sous_jacent != v.sous_jacent ==> v.avec(tick).sous_jacent is Some && v.avec(
            tick,
        ).sous_jacent->0.fini() && Flottant::nul().inferieur_ou_egal(v.avec(tick).sous_jacent->0),
{
}

/// Ce qui est reçu d'un contrat, ou rien encore.
pub open spec fn recu_de(recu: Map<i32, Valeurs>, con_id: i32) -> Valeurs {
    if recu.contains_key(con_id) {
        recu[con_id]
    } else {
        Valeurs::vierges()
    }
}

/// Fait absorber un tick au contrat qu'il concerne.
pub fn recevoir(recu: &mut HashMap<i32, Valeurs>, con_id: i32, tick: &Tick)
    ensures
        final(recu)@ == old(recu)@.insert(con_id, recu_de(old(recu)@, con_id).avec(*tick)),
{
    let mut v: Valeurs = match recu.get(&con_id) {
        Some(deja) => *deja,
        None => Valeurs::default(),
    };
    v.absorber(tick);
    recu.insert(con_id, v);
}

/// Le droit que porte un contrat d'option.
#[derive(Clone, Copy, Debug, PartialEq, Eq, Structural)]
pub enum Droit {
    Call,
    Put,
}

/// Le sens d'un contrat, ou rien si ce n'en est pas un.
pub open spec fn sens_du_droit(droit: Option<Droit>) -> Option<Sens> {
    match droit {
        Some(Droit::Call) => Some(Sens::Call),
        Some(Droit::Put) => Some(Sens::Put),
        None => None,
    }
}

pub fn sens_de(droit: Option<Droit>) -> (r: Option<Sens>)
    ensures
        r == sens_du_droit(droit),
{
    match droit {
        Some(Droit::Call) => Some(Sens::Call),
        Some(Droit::Put) => Some(Sens::Put),
        None => None,
    }
}

/// Le future de première échéance, parmi ceux que la place rend : le rang de la plus
/// proche, la première si deux le sont autant. IB ne garantit pas l'ordre.
pub fn front_month(produit: &str, echeances: &[String]) -> (r: Result<usize, ErreurIb>)
    ensures
        match r {
            Ok(k) => {
                &&& k < echeances@.len()
                &&& forall|i: int|
                    0 <= i < k ==> lexicographique(
                        echeances@[k as int]@,
                        (#[trigger] echeances@[i])@,
                    )
                &&& forall|i: int|
                    k <= i < echeances@.len() ==> !lexicographique(
                        (#[trigger] echeances@[i])@,
                        echeances@[k as int]@,
                    )
            },
            Err(e) => echeances@.len() == 0 && e is ProduitIntrouvable && e.cause() == produit@,
        },
{
    if echeances.len() == 0 {
        return Err(ErreurIb::ProduitIntrouvable(en_texte(caracteres(produit).as_slice())));
    }
    let mut k: usize = 0;
    let mut i: usize = 1;
    proof {
        crate::texte::l_ordre_alphabetique_est_total(
            echeances@[0]@,
            echeances@[0]@,
            echeances@[0]@,
        );
    }
    while i < echeances.len()
        invariant
            k < i <= echeances@.len(),
            forall|j: int|
                0 <= j < k ==> lexicographique(echeances@[k as int]@, (#[trigger] echeances@[j])@),
            forall|j: int|
                k <= j < i ==> !lexicographique((#[trigger] echeances@[j])@, echeances@[k as int]@),
        decreases echeances@.len() - i,
    {
        let avant: bool = vient_avant(
            caracteres(echeances[i].as_str()).as_slice(),
            caracteres(echeances[k].as_str()).as_slice(),
        );
        if avant {
            proof {
                let (x, y) = (echeances@[i as int]@, echeances@[k as int]@);
                crate::texte::l_ordre_alphabetique_est_total(x, x, x);
                assert forall|j: int| 0 <= j < i implies lexicographique(
                    x,
                    (#[trigger] echeances@[j])@,
                ) by {
                    let z = echeances@[j]@;
                    crate::texte::l_ordre_alphabetique_est_total(x, y, z);
                    crate::texte::l_ordre_alphabetique_est_total(y, z, x);
                }
            }
            k = i;
        }
        i += 1;
    }
    Ok(k)
}

/// Ce que l'union des classes de cotation donne.
#[derive(Clone, Debug, PartialEq, Eq)]
pub struct Horizon {
    /// Classes de cotation.
    pub classes: usize,
    /// Échéances distinctes, toutes classes confondues.
    pub distinctes: usize,
    /// Celles qui sont dans l'horizon, rangées.
    pub retenues: Vec<Jour>,
}

/// Les jours que des textes nomment, ceux qui se lisent.
pub open spec fn jours_lus(v: Seq<String>) -> Seq<int>
    decreases v.len(),
{
    if v.len() == 0 {
        Seq::empty()
    } else {
        let debut = jours_lus(v.drop_last());
        match jour_lu(v.last()@, "%Y%m%d"@) {
            Some(j) => debut.push(j),
            None => debut,
        }
    }
}

/// Les jours de toutes les classes, l'une après l'autre.
pub open spec fn jours_des_classes(v: Seq<Vec<String>>) -> Seq<int>
    decreases v.len(),
{
    if v.len() == 0 {
        Seq::empty()
    } else {
        jours_des_classes(v.drop_last()) + jours_lus(v.last()@)
    }
}

/// Les numéros de jours.
pub open spec fn numeros(v: Seq<Jour>) -> Seq<int> {
    Seq::new(v.len(), |i: int| v[i].numero as int)
}

fn lire_jours(v: &Vec<String>, jours: &mut Vec<Jour>)
    ensures
        numeros(final(jours)@) == numeros(old(jours)@) + jours_lus(v@),
{
    let ghost avant = numeros(jours@);
    let mut i: usize = 0;
    assert(avant + jours_lus(v@.take(0)) =~= avant);
    while i < v.len()
        invariant
            i <= v@.len(),
            numeros(jours@) == avant + jours_lus(v@.take(i as int)),
        decreases v@.len() - i,
    {
        proof {
            assert(v@.take(i + 1).drop_last() =~= v@.take(i as int));
            assert(v@.take(i + 1).last() == v@[i as int]);
        }
        if let Some(j) = lire_jour(v[i].as_str(), "%Y%m%d") {
            let ghost deja = jours@;
            jours.push(j);
            assert(numeros(jours@) =~= numeros(deja).push(j.numero as int));
            assert(avant + jours_lus(v@.take(i + 1)) =~= numeros(deja).push(j.numero as int));
        }
        i += 1;
    }
    assert(v@.take(i as int) =~= v@);
}

/// Les échéances que les classes de cotation portent, et celles à énumérer.
///
/// IB rend une entrée par classe, et chacune ne porte que ses échéances : ne lire que la
/// première en ferait manquer.
pub fn echeances_de_classes(
    classes: &Vec<Vec<String>>,
    releve: InstantReleve,
    dte_max: Option<i64>,
    dte_min: i64,
) -> (h: Horizon)
    ensures
        h.classes == classes@.len(),
        ({
            let tous = jours_des_classes(classes@);
            &&& croissants(h.retenues@)
            &&& forall|d: Jour| #[trigger]
                h.retenues@.contains(d) <==> tous.contains(d.numero as int) && dans_l_horizon(
                    d,
                    releve,
                    dte_max,
                    dte_min,
                )
            &&& exists|s: Seq<Jour>| #[trigger]
                croissants(s) && s.len() == h.distinctes && forall|d: Jour| #[trigger]
                    s.contains(d) <==> tous.contains(d.numero as int)
        }),
{
    let mut jours: Vec<Jour> = Vec::new();
    let mut i: usize = 0;
    assert(numeros(jours@) =~= jours_des_classes(classes@.take(0)));
    while i < classes.len()
        invariant
            i <= classes@.len(),
            numeros(jours@) == jours_des_classes(classes@.take(i as int)),
        decreases classes@.len() - i,
    {
        proof {
            assert(classes@.take(i + 1).drop_last() =~= classes@.take(i as int));
            assert(classes@.take(i + 1).last() == classes@[i as int]);
        }
        lire_jours(&classes[i], &mut jours);
        i += 1;
    }
    assert(classes@.take(i as int) =~= classes@);
    proof {
        assert forall|d: Jour| #[trigger] jours@.contains(d) <==> numeros(jours@).contains(
            d.numero as int,
        ) by {
            if jours@.contains(d) {
                let k = choose|k: int| 0 <= k < jours@.len() && jours@[k] == d;
                assert(numeros(jours@)[k] == d.numero);
            }
            if numeros(jours@).contains(d.numero as int) {
                let k = choose|k: int|
                    0 <= k < jours@.len() && numeros(jours@)[k] == d.numero as int;
                assert(jours@[k] == d);
            }
        }
    }
    let retenues: Vec<Jour> = echeances_utiles(jours.as_slice(), releve, dte_max, dte_min);
    let toutes: Vec<Jour> = echeances_utiles(jours.as_slice(), releve, None, i64::MIN);
    proof {
        assert forall|d: Jour| #[trigger] toutes@.contains(d) <==> jours_des_classes(
            classes@,
        ).contains(d.numero as int) by {
            assert(toutes@.contains(d) <==> jours@.contains(d));
        }
        assert(croissants(toutes@));
    }
    Horizon { classes: classes.len(), distinctes: toutes.len(), retenues }
}

/// Ce qu'IB rend d'un contrat d'option, pour ce qui sert ici.
#[derive(Clone, Debug, PartialEq, Eq)]
pub struct Detail {
    /// L'identifiant IB.
    pub con_id: i32,
    /// Le prix d'exercice.
    pub strike: Flottant,
    /// Le droit, s'il en porte un.
    pub droit: Option<Droit>,
    /// Le champ d'échéance, tel que servi.
    pub champ: String,
}

/// L'heure et le fuseau du premier contrat qui porte une heure.
pub open spec fn horaire_servi(v: Seq<Detail>) -> (Option<Seq<char>>, Option<Seq<char>>)
    decreases v.len(),
{
    if v.len() == 0 {
        (None, None)
    } else {
        let m = mots(v[0].champ@);
        if m.len() > 1 {
            (
                Some(m[1]),
                if m.len() > 2 {
                    Some(m[2])
                } else {
                    None
                },
            )
        } else {
            horaire_servi(v.skip(1))
        }
    }
}

/// Les contrats cotés d'une échéance : ceux qui portent un droit, avec leur rang.
pub open spec fn cotes_de(v: Seq<Detail>, echeance: EcheanceNy) -> Seq<(usize, ContratOption)>
    decreases v.len(),
{
    if v.len() == 0 {
        Seq::empty()
    } else {
        let debut = cotes_de(v.drop_last(), echeance);
        let d = v.last();
        match sens_du_droit(d.droit) {
            Some(sens) => debut.push(
                (
                    (v.len() - 1) as usize,
                    ContratOption {
                        con_id: d.con_id,
                        cle: CleContrat { echeance, strike: d.strike, sens },
                    },
                ),
            ),
            None => debut,
        }
    }
}

/// Les contrats d'une échéance, et l'heure à laquelle elle se règle.
#[derive(Clone, Debug, PartialEq, Eq)]
pub struct Echeance {
    /// L'échéance datée, en heure de New York.
    pub echeance: EcheanceNy,
    /// L'heure a-t-elle été servie, ou supposée ?
    pub horaire: bool,
    /// Les contrats, chacun avec le rang de ce qu'IB en a rendu.
    pub contrats: Vec<(usize, ContratOption)>,
}

fn horaire_de(details: &Vec<Detail>) -> (r: (Option<String>, Option<String>))
    ensures
        horaire_servi(details@) == (
            match r.0 {
                Some(s) => Some(s@),
                None => None,
            },
            match r.1 {
                Some(s) => Some(s@),
                None => None,
            },
        ),
{
    let mut i: usize = 0;
    assert(details@.skip(0) =~= details@);
    while i < details.len()
        invariant
            i <= details@.len(),
            horaire_servi(details@) == horaire_servi(details@.skip(i as int)),
        decreases details@.len() - i,
    {
        proof {
            assert(details@.skip(i as int).skip(1) =~= details@.skip(i + 1));
            assert(details@.skip(i as int)[0] == details@[i as int]);
        }
        let (_jour, heure, fuseau) = separer_echeance(details[i].champ.as_str());
        if heure.is_some() {
            return (heure, fuseau);
        }
        i += 1;
    }
    (None, None)
}

/// Les contrats réellement cotés d'un jour d'échéance. L'heure est la même pour toute
/// l'échéance : celle du premier contrat qui la porte. Rien quand cette heure ne se
/// résout pas dans son fuseau.
pub fn contrats_du_jour(jour: Jour, details: &Vec<Detail>) -> (r: Option<
    Result<Echeance, ErreurIb>,
>)
    requires
        au_calendrier(jour.numero as int),
    ensures
        ({
            let (h, z) = horaire_servi(details@);
            match echeance_de(jour.numero as int, h, z) {
                None => r is None,
                Some(Err(e)) => r is Some && r->0 is Err && r->0->Err_0 is Echeance
                    && r->0->Err_0->Echeance_0.vue() == e,
                Some(Ok(micros)) => {
                    &&& r is Some
                    &&& r->0 is Ok
                    &&& r->0->Ok_0.echeance.0.micros == micros
                    &&& r->0->Ok_0.horaire == (h is Some)
                    &&& r->0->Ok_0.contrats@ == cotes_de(details@, r->0->Ok_0.echeance)
                },
            }
        }),
{
    let (heure, fuseau): (Option<String>, Option<String>) = horaire_de(details);
    let h: Option<&str> = match &heure {
        Some(s) => Some(s.as_str()),
        None => None,
    };
    let z: Option<&str> = match &fuseau {
        Some(s) => Some(s.as_str()),
        None => None,
    };
    let echeance: EcheanceNy = match instant_echeance_si_resoluble(jour, h, z) {
        None => {
            return None;
        },
        Some(Err(e)) => {
            return Some(Err(ErreurIb::from(e)));
        },
        Some(Ok(e)) => e,
    };
    let mut contrats: Vec<(usize, ContratOption)> = Vec::new();
    let mut i: usize = 0;
    while i < details.len()
        invariant
            i <= details@.len(),
            contrats@ == cotes_de(details@.take(i as int), echeance),
        decreases details@.len() - i,
    {
        proof {
            assert(details@.take(i + 1).drop_last() =~= details@.take(i as int));
            assert(details@.take(i + 1).last() == details@[i as int]);
        }
        let d: &Detail = &details[i];
        if let Some(sens) = sens_de(d.droit) {
            contrats.push(
                (
                    i,
                    ContratOption {
                        con_id: d.con_id,
                        cle: CleContrat { echeance, strike: d.strike, sens },
                    },
                ),
            );
        }
        i += 1;
    }
    assert(details@.take(i as int) =~= details@);
    Some(Ok(Echeance { echeance, horaire: heure.is_some(), contrats }))
}

} // verus!
