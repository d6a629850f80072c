//! Les décisions de la collecte : quoi demander, dans quel ordre, et jusqu'où.

use crate::calendrier::{
    decalage_utc, est_un_fuseau, lire_jour, Instant, Jour, CALENDRIER_DEBUT, CALENDRIER_FIN, HEURE,
    JOURNEE, SECONDE,
};
#[allow(unused_imports)]
use crate::calendrier::{decalage_a, fuseau_admis, jour_lu, new_york};
use crate::coeur::black76::Sens;
use crate::coeur::chaine::{Chaine, Cote, Ligne};
use crate::coeur::temps::{resoudre, EcheanceNy, InstantReleve};
#[allow(unused_imports)]
use crate::coeur::temps::utc_de;
use crate::flottant::Flottant;
use crate::texte::{
    ajouter_texte, caracteres, couper, echapper, en_mots, en_texte, lire_i64, rogner,
};
#[allow(unused_imports)]
use crate::texte::{entier_borne, morceaux, mots, rogne, texte_echappe, vues};
use crate::tri::trier;
#[allow(unused_imports)]
use crate::tri::{le_tri_garde_les_elements, triee};
use vstd::prelude::*;

verus! {

/// Faute de mieux, la clôture de la séance actions à New York.
pub const HEURE_CLOTURE_NY: i64 = 16;

/// Ce qui identifie un contrat sans son `conId`.
///
/// Type distinct de [`ContratOption`] : le vif se choisit sur la chaîne au format large,
/// où chaque ligne porte un call et un put, et le `conId` n'y survit pas.
#[derive(Clone, Copy, Debug, PartialEq, Eq, Structural)]
pub struct CleContrat {
    /// L'échéance, en heure de New York.
    pub echeance: EcheanceNy,
    /// Le prix d'exercice.
    pub strike: Flottant,
    /// Call ou put.
    pub sens: Sens,
}

/// Un contrat souscriptible : sa clé, et l'identifiant qu'IB lui donne.
#[derive(Clone, Copy, Debug, PartialEq, Eq, Structural)]
pub struct ContratOption {
    /// L'identifiant IB.
    pub con_id: i32,
    /// Ce qui l'identifie fonctionnellement.
    pub cle: CleContrat,
}

/// Ce qui empêche de dater une échéance.
#[derive(Clone, Debug, PartialEq, Eq)]
pub enum ErreurEcheance {
    /// L'heure servie par IB est illisible.
    HeureIllisible(String),
    /// Le fuseau servi par IB est inconnu : le prendre pour New York décalerait
    /// l'échéance d'une heure ronde sans que rien ne le signale.
    FuseauInconnu(String),
}

/// Ce qui empêche de dater une échéance, et le texte en cause.
pub enum RefusEcheance {
    Heure(Seq<char>),
    Fuseau(Seq<char>),
}

impl ErreurEcheance {
    pub open spec fn vue(&self) -> RefusEcheance {
        match self {
            ErreurEcheance::HeureIllisible(h) => RefusEcheance::Heure(h@),
            ErreurEcheance::FuseauInconnu(z) => RefusEcheance::Fuseau(z@),
        }
    }

    /// Le texte en cause.
    pub open spec fn cause(&self) -> Seq<char> {
        match self {
            ErreurEcheance::HeureIllisible(h) => h@,
            ErreurEcheance::FuseauInconnu(z) => z@,
        }
    }

    /// Ce que dit l'erreur, le texte en cause étant cité `cite`.
    pub open spec fn dit(&self, cite: Seq<char>) -> Seq<char> {
        match self {
            ErreurEcheance::HeureIllisible(_) => "Heure d'échéance illisible chez IB : "@ + cite,
            ErreurEcheance::FuseauInconnu(_) => "Fuseau inconnu chez IB : "@ + cite
                + ". Le prendre pour New York décalerait l'échéance d'une heure entière, en silence."@,
        }
    }

    /// Le texte de l'erreur, le texte en cause étant cité `cite`.
    pub fn message_avec(&self, cite: &str) -> (s: String)
        ensures
            s@ == self.dit(cite@),
    {
        let mut v: Vec<char> = Vec::new();
        match self {
            ErreurEcheance::HeureIllisible(_) => {
                ajouter_texte(&mut v, "Heure d'échéance illisible chez IB : ");
                ajouter_texte(&mut v, cite);
            },
            ErreurEcheance::FuseauInconnu(_) => {
                ajouter_texte(&mut v, "Fuseau inconnu chez IB : ");
                ajouter_texte(&mut v, cite);
                ajouter_texte(
                    &mut v,
                    ". Le prendre pour New York décalerait l'échéance d'une heure entière, en silence.",
                );
            },
        }
        let s: String = en_texte(v.as_slice());
        assert(s@ =~= self.dit(cite@));
        s
    }

    /// Le texte de l'erreur.
    pub fn message(&self) -> (s: String)
        ensures
            s@ == self.dit(texte_echappe(self.cause())),
    {
        let cite: String = match self {
            ErreurEcheance::HeureIllisible(h) => echapper(h.as_str()),
            ErreurEcheance::FuseauInconnu(z) => echapper(z.as_str()),
        };
        self.message_avec(cite.as_str())
    }
}

/// Un nombre d'heures, de minutes ou de secondes : des chiffres, sans signe moins.
pub open spec fn morceau_d_heure(s: Seq<char>) -> Option<int> {
    if rogne(s).len() > 0 && rogne(s)[0] == '-' {
        None
    } else {
        entier_borne(rogne(s), 0, u32::MAX as int)
    }
}

/// Le morceau de rang `i`, zéro s'il manque.
pub open spec fn morceau_ou_zero(m: Seq<Seq<char>>, i: int) -> Option<int> {
    if i < m.len() {
        morceau_d_heure(m[i])
    } else {
        Some(0)
    }
}

/// Une heure `h:m:s` lue, en secondes depuis minuit. Ce qui manque vaut zéro.
pub open spec fn heure_lue(heure: Seq<char>) -> Option<int> {
    let m = morceaux(heure, ':');
    match (morceau_ou_zero(m, 0), morceau_ou_zero(m, 1), morceau_ou_zero(m, 2)) {
        (Some(h), Some(mn), Some(s)) => if h < 24 && mn < 60 && s < 60 {
            Some(3600 * h + 60 * mn + s)
        } else {
            None
        },
        _ => None,
    }
}

fn lire_morceau(m: &Vec<Vec<char>>, i: usize) -> (r: Option<i64>)
    ensures
        match r {
            Some(n) => morceau_ou_zero(vues(m@), i as int) == Some(n as int) && 0 <= n <= u32::MAX,
            None => morceau_ou_zero(vues(m@), i as int) is None,
        },
{
    if i >= m.len() {
        return Some(0);
    }
    assert(vues(m@)[i as int] == m@[i as int]@);
    let t: Vec<char> = rogner(m[i].as_slice());
    if t.len() > 0 && t[0] == '-' {
        return None;
    }
    match lire_i64(t.as_slice()) {
        Some(n) => if 0 <= n && n <= u32::MAX as i64 {
            Some(n)
        } else {
            None
        },
        None => None,
    }
}

/// Lit une heure `h:m:s`, en secondes depuis minuit.
pub fn lire_heure(heure: &[char]) -> (r: Option<i64>)
    ensures
        match r {
            Some(n) => heure_lue(heure@) == Some(n as int) && 0 <= n < 86_400,
            None => heure_lue(heure@) is None,
        },
{
    let m: Vec<Vec<char>> = couper(heure, ':');
    match (lire_morceau(&m, 0), lire_morceau(&m, 1), lire_morceau(&m, 2)) {
        (Some(h), Some(mn), Some(s)) => if h < 24 && mn < 60 && s < 60 {
            Some(3600 * h + 60 * mn + s)
        } else {
            None
        },
        _ => None,
    }
}

/// Un jour dont tous les instants sont au calendrier.
pub open spec fn au_calendrier(jour: int) -> bool {
    CALENDRIER_DEBUT <= jour * JOURNEE && jour * JOURNEE + JOURNEE - 1 <= CALENDRIER_FIN
}

/// Un texte qui peut manquer, rogné.
pub open spec fn rogne_ou_vide(t: Option<Seq<char>>) -> Seq<char> {
    match t {
        Some(s) => rogne(s),
        None => rogne(Seq::empty()),
    }
}

/// L'instant réexprimé à New York, si le calendrier l'admet.
pub open spec fn reexprime(utc: int, decalage: Option<int>) -> Option<int> {
    match decalage {
        Some(d) => if CALENDRIER_DEBUT <= utc + d * SECONDE <= CALENDRIER_FIN {
            Some(utc + d * SECONDE)
        } else {
            None
        },
        None => None,
    }
}

/// Réexprime un instant à New York, dont `decalage` est le décalage à cet instant.
pub fn reexprimer(utc: Instant, decalage: Option<i32>) -> (r: Option<EcheanceNy>)
    ensures
        match r {
            Some(e) => reexprime(
                utc.micros as int,
                match decalage {
                    Some(d) => Some(d as int),
                    None => None,
                },
            ) == Some(e.0.micros as int),
            None => reexprime(
                utc.micros as int,
                match decalage {
                    Some(d) => Some(d as int),
                    None => None,
                },
            ) is None,
        },
{
    match decalage {
        Some(d) => match utc.decale(d as i64 * SECONDE) {
            Some(i) => if CALENDRIER_DEBUT <= i.micros && i.micros <= CALENDRIER_FIN {
                Some(EcheanceNy(i))
            } else {
                None
            },
            None => None,
        },
        None => None,
    }
}

/// L'échéance d'un jour, d'une heure et d'un fuseau. Rien quand l'heure ne se résout pas
/// dans le fuseau, ou sort du calendrier une fois à New York.
pub open spec fn echeance_de(
    jour: int,
    heure: Option<Seq<char>>,
    fuseau: Option<Seq<char>>,
) -> Option<Result<int, RefusEcheance>> {
    let h = rogne_ou_vide(heure);
    let z = rogne_ou_vide(fuseau);
    if h.len() == 0 {
        Some(Ok(jour * JOURNEE + HEURE_CLOTURE_NY * HEURE))
    } else {
        match heure_lue(h) {
            None => Some(Err(RefusEcheance::Heure(h))),
            Some(s) => {
                let locale = Instant { micros: (jour * JOURNEE + s * SECONDE) as i64 };
                if z.len() == 0 {
                    Some(Ok(locale.micros as int))
                } else if !fuseau_admis(z) {
                    Some(Err(RefusEcheance::Fuseau(z)))
                } else {
                    match utc_de(z, locale, 3) {
                        None => None,
                        Some(utc) => match reexprime(
                            utc.micros as int,
                            decalage_a(new_york(), utc.micros as int),
                        ) {
                            Some(l) => Some(Ok(l)),
                            None => None,
                        },
                    }
                }
            },
        }
    }
}

pub open spec fn texte_de(t: Option<&str>) -> Option<Seq<char>> {
    match t {
        Some(s) => Some(s@),
        None => None,
    }
}

pub open spec fn echeance_vue(r: Result<EcheanceNy, ErreurEcheance>) -> Result<int, RefusEcheance> {
    match r {
        Ok(e) => Ok(e.0.micros as int),
        Err(e) => Err(e.vue()),
    }
}

fn rogner_ou_vide(t: Option<&str>) -> (v: Vec<char>)
    ensures
        v@ == rogne_ou_vide(texte_de(t)),
{
    match t {
        Some(s) => rogner(caracteres(s).as_slice()),
        None => {
            let vide: Vec<char> = Vec::new();
            assert(vide@ =~= Seq::<char>::empty());
            rogner(vide.as_slice())
        },
    }
}

fn dater(
    jour: Jour,
    heure_derniere_negociation: Option<&str>,
    fuseau: Option<&str>,
) -> (r: Option<Result<EcheanceNy, ErreurEcheance>>)
    requires
        au_calendrier(jour.numero as int),
    ensures
        match r {
            Some(x) => echeance_de(
                jour.numero as int,
                texte_de(heure_derniere_negociation),
                texte_de(fuseau),
            ) == Some(echeance_vue(x)),
            None => echeance_de(
                jour.numero as int,
                texte_de(heure_derniere_negociation),
                texte_de(fuseau),
            ) is None,
        },
{
    let minuit: i64 = jour.numero as i64 * JOURNEE;
    let heure: Vec<char> = rogner_ou_vide(heure_derniere_negociation);
    if heure.len() == 0 {
        return Some(Ok(EcheanceNy(Instant { micros: minuit + HEURE_CLOTURE_NY * HEURE })));
    }
    let secondes: i64 = match lire_heure(heure.as_slice()) {
        Some(s) => s,
        None => {
            return Some(Err(ErreurEcheance::HeureIllisible(en_texte(heure.as_slice()))));
        },
    };
    let locale: Instant = Instant { micros: minuit + secondes * SECONDE };
    let place: Vec<char> = rogner_ou_vide(fuseau);
    if place.len() == 0 {
        return Some(Ok(EcheanceNy(locale)));
    }
    let nom: String = en_texte(place.as_slice());
    if !est_un_fuseau(nom.as_str()) {
        return Some(Err(ErreurEcheance::FuseauInconnu(nom)));
    }
    match resoudre(nom.as_str(), locale) {
        None => None,
        Some(utc) => match reexprimer(utc, decalage_utc("America/New_York", utc)) {
            Some(e) => Some(Ok(e)),
            None => None,
        },
    }
}

/// L'échéance datée et horodatée, en heure de New York.
///
/// IB sert l'heure de dernière négociation dans le fuseau de la place, et les classes ne
/// s'accordent pas : 15h00 US/Central pour une hebdomadaire NQ, 08h30 pour une mensuelle.
/// Sans heure, on retombe sur la clôture.
pub fn instant_echeance(
    jour: Jour,
    heure_derniere_negociation: Option<&str>,
    fuseau: Option<&str>,
) -> (r: Result<EcheanceNy, ErreurEcheance>)
    requires
        au_calendrier(jour.numero as int),
        echeance_de(
            jour.numero as int,
            texte_de(heure_derniere_negociation),
            texte_de(fuseau),
        ) is Some,
    ensures
        echeance_de(
            jour.numero as int,
            texte_de(heure_derniere_negociation),
            texte_de(fuseau),
        ) == Some(echeance_vue(r)),
{
    match dater(jour, heure_derniere_negociation, fuseau) {
        Some(x) => x,
        None => {
            // La précondition l'exclut.
            assert(false);
            Err(ErreurEcheance::HeureIllisible(String::new()))
        },
    }
}

/// L'échéance datée et horodatée, en heure de New York, si son heure se résout dans son
/// fuseau ; rien sinon.
pub fn instant_echeance_si_resoluble(
    jour: Jour,
    heure_derniere_negociation: Option<&str>,
    fuseau: Option<&str>,
) -> (r: Option<Result<EcheanceNy, ErreurEcheance>>)
    requires
        au_calendrier(jour.numero as int),
    ensures
        match r {
            Some(x) => echeance_de(
                jour.numero as int,
                texte_de(heure_derniere_negociation),
                texte_de(fuseau),
            ) == Some(echeance_vue(x)),
            None => echeance_de(
                jour.numero as int,
                texte_de(heure_derniere_negociation),
                texte_de(fuseau),
            ) is None,
        },
{
    match dater(jour, heure_derniere_negociation, fuseau) {
        Some(_) => Some(instant_echeance(jour, heure_derniere_negociation, fuseau)),
        None => None,
    }
}

/// Sépare le champ d'échéance servi par IB : date, heure, fuseau.
///
/// IB sert les trois dans un seul champ, `"20260827 15:00:00 US/Central"`. Le format
/// court, `"20260827"` seul, est celui d'un contrat déjà échu.
pub fn separer_echeance(champ: &str) -> (r: (Option<Jour>, Option<String>, Option<String>))
    ensures
        ({
            let m = mots(champ@);
            &&& match r.0 {
                Some(j) => m.len() > 0 && jour_lu(m[0], "%Y%m%d"@) == Some(j.numero as int),
                None => m.len() == 0 || jour_lu(m[0], "%Y%m%d"@) is None,
            }
            &&& match r.1 {
                Some(t) => m.len() > 1 && t@ == m[1],
                None => m.len() <= 1,
            }
            &&& match r.2 {
                Some(t) => m.len() > 2 && t@ == m[2],
                None => m.len() <= 2,
            }
        }),
{
    let m: Vec<Vec<char>> = en_mots(caracteres(champ).as_slice());
    assert(forall|i: int| 0 <= i < m@.len() ==> vues(m@)[i] == (#[trigger] m@[i])@);
    let jour: Option<Jour> = if m.len() > 0 {
        lire_jour(en_texte(m[0].as_slice()).as_str(), "%Y%m%d")
    } else {
        None
    };
    let heure: Option<String> = if m.len() > 1 {
        Some(en_texte(m[1].as_slice()))
    } else {
        None
    };
    let fuseau: Option<String> = if m.len() > 2 {
        Some(en_texte(m[2].as_slice()))
    } else {
        None
    };
    (jour, heure, fuseau)
}

/// Un jour à `dte_min` jours au moins du relevé, et `dte_max` au plus.
pub open spec fn dans_l_horizon(
    jour: Jour,
    releve: InstantReleve,
    dte_max: Option<i64>,
    dte_min: i64,
) -> bool {
    let jours = jour.numero - releve.0.jour_compte();
    jours >= dte_min && match dte_max {
        Some(max) => jours <= max,
        None => true,
    }
}

/// Des jours rangés, sans doublon.
pub open spec fn croissants(v: Seq<Jour>) -> bool {
    forall|i: int, j: int|
        0 <= i < j < v.len() ==> (#[trigger] v[i]).numero < (#[trigger] v[j]).numero
}

fn inserer_jour(v: &mut Vec<Jour>, x: Jour)
    requires
        croissants(old(v)@),
    ensures
        croissants(final(v)@),
        forall|d: Jour| #[trigger] final(v)@.contains(d) <==> old(v)@.contains(d) || d == x,
{
    let ghost avant = v@;
    let mut k: usize = 0;
    while k < v.len() && v[k].numero < x.numero
        invariant
            k <= v@.len(),
            v@ == avant,
            croissants(avant),
            forall|i: int| 0 <= i < k ==> (#[trigger] avant[i]).numero < x.numero,
        decreases v@.len() - k,
    {
        k += 1;
    }
    if k < v.len() && v[k].numero == x.numero {
        assert(avant[k as int] == x);
        return;
    }
    v.insert(k, x);
    proof {
        let apres = v@;
        assert(apres == avant.insert(k as int, x));
        assert forall|d: Jour| #[trigger] apres.contains(d) <==> avant.contains(d) || d == x by {
            if avant.contains(d) {
                let i = choose|i: int| 0 <= i < avant.len() && avant[i] == d;
                assert(apres[if i < k {
                    i
                } else {
                    i + 1
                }] == d);
            }
            assert(apres[k as int] == x);
            if apres.contains(d) {
                let i = choose|i: int| 0 <= i < apres.len() && apres[i] == d;
                if i < k {
                    assert(avant[i] == d);
                } else if i > k {
                    assert(avant[i - 1] == d);
                }
            }
        }
    }
}

/// Les échéances à énumérer, triées et dédoublonnées.
///
/// Des jours calendaires, donc une comparaison de dates : avec l'heure de collecte, une
/// échéance du jour serait écartée à tort, or c'est précisément le 0DTE.
pub fn echeances_utiles(
    echeances: &[Jour],
    releve: InstantReleve,
    dte_max: Option<i64>,
    dte_min: i64,
) -> (v: Vec<Jour>)
    ensures
        croissants(v@),
        forall|d: Jour| #[trigger]
            v@.contains(d) <==> echeances@.contains(d) && dans_l_horizon(
                d,
                releve,
                dte_max,
                dte_min,
            ),
{
    let aujourd_hui: i64 = releve.0.jour().numero as i64;
    let mut v: Vec<Jour> = Vec::new();
    let mut i: usize = 0;
    while i < echeances.len()
        invariant
            i <= echeances@.len(),
            aujourd_hui == releve.0.jour_compte(),
            -i32::MAX - 1 <= aujourd_hui <= i32::MAX,
            croissants(v@),
            forall|d: Jour| #[trigger]
                v@.contains(d) <==> echeances@.take(i as int).contains(d) && dans_l_horizon(
                    d,
                    releve,
                    dte_max,
                    dte_min,
                ),
        decreases echeances@.len() - i,
    {
        let d: Jour = echeances[i];
        proof {
            assert(echeances@.take(i + 1) =~= echeances@.take(i as int).push(d));
            assert forall|x: Jour|
                echeances@.take(i + 1).contains(x) <==> echeances@.take(i as int).contains(x) || x
                    == d by {
                crate::tri::lemme_push_contient(echeances@.take(i as int), d, x);
            }
        }
        let jours: i64 = d.numero as i64 - aujourd_hui;
        let assez_tot: bool = match dte_max {
            Some(max) => jours <= max,
            None => true,
        };
        if jours >= dte_min && assez_tot {
            inserer_jour(&mut v, d);
        }
        i += 1;
    }
    assert(echeances@.take(i as int) =~= echeances@);
    v
}

/// L'ordre des contrats : par échéance, par prix d'exercice, le call avant le put.
pub open spec fn cle_avant(a: CleContrat, b: CleContrat) -> bool {
    ||| a.echeance.0.micros < b.echeance.0.micros
    ||| a.echeance.0.micros == b.echeance.0.micros && a.strike.clef() < b.strike.clef()
    ||| a.echeance.0.micros == b.echeance.0.micros && a.strike.clef() == b.strike.clef() && a.sens
        == Sens::Call && b.sens == Sens::Put
}

fn cle_precede(a: CleContrat, b: CleContrat) -> (r: bool)
    ensures
        r == cle_avant(a, b),
{
    let (ka, kb): (i64, i64) = (a.strike.clef_exec(), b.strike.clef_exec());
    let (ea, eb): (i64, i64) = (a.echeance.0.micros, b.echeance.0.micros);
    ea < eb || (ea == eb && (ka < kb || (ka == kb && a.sens == Sens::Call && b.sens == Sens::Put)))
}

pub open spec fn contrat_avant(a: ContratOption, b: ContratOption) -> bool {
    cle_avant(a.cle, b.cle)
}

fn contrat_precede(a: ContratOption, b: ContratOption) -> (r: bool)
    ensures
        r == contrat_avant(a, b),
{
    cle_precede(a.cle, b.cle)
}

/// La marge des bornes : calculées en flottant, elles excluraient le strike le plus
/// éloigné, celui qui borne le profil.
pub open spec fn marge_des_bornes(prix: Flottant) -> Flottant {
    prix.abs().fois(Flottant::fraction(1, 1_000_000_000))
}

/// Un strike fini, dans la plage autour du prix.
pub open spec fn dans_la_plage(strike: Flottant, prix: Flottant, plage: Flottant) -> bool {
    let un = Flottant::entier(1);
    &&& strike.fini()
    &&& prix.fois(un.moins(plage)).moins(marge_des_bornes(prix)).inferieur_ou_egal(strike)
    &&& strike.inferieur_ou_egal(prix.fois(un.plus(plage)).plus(marge_des_bornes(prix)))
}

/// Les contrats dont le strike est dans la plage, dans leur ordre.
pub open spec fn contrats_dans_la_plage(
    v: Seq<ContratOption>,
    prix: Flottant,
    plage: Flottant,
) -> Seq<ContratOption>
    decreases v.len(),
{
    if v.len() == 0 {
        v
    } else {
        let debut = contrats_dans_la_plage(v.drop_last(), prix, plage);
        if dans_la_plage(v.last().cle.strike, prix, plage) {
            debut.push(v.last())
        } else {
            debut
        }
    }
}

/// Parmi les contrats réellement cotés, ceux à demander, dans l'ordre où les lots
/// partiront. Cette fonction filtre, elle ne fabrique pas.
pub fn perimetre(contrats: &[ContratOption], prix: Flottant, plage: Flottant) -> (v: Vec<
    ContratOption,
>)
    ensures
        v@ == triee(
            contrats_dans_la_plage(contrats@, prix, plage),
            |a: ContratOption, b: ContratOption| contrat_avant(a, b),
        ),
{
    let un: Flottant = Flottant::entier(1);
    let marge: Flottant = prix.abs().fois(Flottant::fraction(1, 1_000_000_000));
    let bas: Flottant = prix.fois(un.moins(plage)).moins(marge);
    let haut: Flottant = prix.fois(un.plus(plage)).plus(marge);
    let mut retenus: Vec<ContratOption> = Vec::new();
    let mut i: usize = 0;
    while i < contrats.len()
        invariant
            i <= contrats@.len(),
            bas == prix.fois(Flottant::entier(1).moins(plage)).moins(marge_des_bornes(prix)),
            haut == prix.fois(Flottant::entier(1).plus(plage)).plus(marge_des_bornes(prix)),
            retenus@ == contrats_dans_la_plage(contrats@.take(i as int), prix, plage),
        decreases contrats@.len() - i,
    {
        let c: ContratOption = contrats[i];
        proof {
            assert(contrats@.take(i + 1).drop_last() =~= contrats@.take(i as int));
            assert(contrats@.take(i + 1).last() == c);
        }
        let k: Flottant = c.cle.strike;
        if k.est_fini() && bas.infeg(k) && k.infeg(haut) {
            retenus.push(c);
        }
        i += 1;
    }
    assert(contrats@.take(i as int) =~= contrats@);
    trier(
        retenus.as_slice(),
        contrat_precede,
        Ghost(|a: ContratOption, b: ContratOption| contrat_avant(a, b)),
    )
}

/// Lignes de données entretenues par défaut : cent chez IB, et jamais le quota entier.
pub const BUDGET_LIGNES: usize = 90;

/// La suite coupée en paquets de `taille`, le dernier pouvant être plus court.
pub open spec fn lots_de<T>(s: Seq<T>, taille: nat) -> Seq<Seq<T>>
    decreases s.len(),
{
    if s.len() == 0 || taille == 0 {
        Seq::empty()
    } else if s.len() <= taille {
        seq![s]
    } else {
        seq![s.take(taille as int)] + lots_de(s.skip(taille as int), taille)
    }
}

/// Des paquets recollés bout à bout.
pub open spec fn recolles<T>(v: Seq<Seq<T>>) -> Seq<T>
    decreases v.len(),
{
    if v.len() == 0 {
        Seq::empty()
    } else {
        v[0] + recolles(v.skip(1))
    }
}

/// Les lots découpent sans rien perdre : recollés, ils rendent la suite. Aucun n'est
/// vide ni plus grand que la taille, et seul le dernier peut être plus court.
pub proof fn les_lots_ne_perdent_rien<T>(s: Seq<T>, taille: nat)
    requires
        taille > 0,
    ensures
        recolles(lots_de(s, taille)) == s,
        forall|k: int|
            0 <= k < lots_de(s, taille).len() ==> 0 < (#[trigger] lots_de(s, taille)[k]).len()
                <= taille,
        forall|k: int|
            0 <= k < lots_de(s, taille).len() - 1 ==> (#[trigger] lots_de(s, taille)[k]).len()
                == taille,
    decreases s.len(),
{
    let v = lots_de(s, taille);
    if s.len() == 0 {
        assert(recolles(v) =~= s);
    } else if s.len() <= taille {
        assert(v.skip(1) =~= Seq::empty());
        assert(recolles(v.skip(1)) =~= Seq::<T>::empty());
        assert(recolles(v) =~= s);
    } else {
        let reste = s.skip(taille as int);
        les_lots_ne_perdent_rien(reste, taille);
        assert(v.skip(1) =~= lots_de(reste, taille));
        assert(recolles(v) =~= s.take(taille as int) + reste);
        assert(s.take(taille as int) + reste =~= s);
        assert forall|k: int| 0 < k < v.len() implies #[trigger] v[k] == lots_de(
            reste,
            taille,
        )[k - 1] by {}
    }
}

/// Des paquets dont chaque élément est le clone de celui du même rang.
pub open spec fn lots_clones<T: Clone>(attendus: Seq<Seq<T>>, v: Seq<Vec<T>>) -> bool {
    &&& v.len() == attendus.len()
    &&& forall|k: int| 0 <= k < v.len() ==> lot_clone(attendus[k], #[trigger] v[k])
}

pub open spec fn lot_clone<T: Clone>(attendu: Seq<T>, v: Vec<T>) -> bool {
    &&& v@.len() == attendu.len()
    &&& forall|j: int| 0 <= j < v@.len() ==> cloned(attendu[j], #[trigger] v@[j])
}

fn cloner<T: Clone>(s: &[T], debut: usize, fin: usize) -> (v: Vec<T>)
    requires
        debut <= fin <= s@.len(),
    ensures
        lot_clone(s@.subrange(debut as int, fin as int), v),
{
    let mut v: Vec<T> = Vec::new();
    let mut i: usize = debut;
    while i < fin
        invariant
            debut <= i <= fin <= s@.len(),
            v@.len() == i - debut,
            forall|j: int| 0 <= j < v@.len() ==> cloned(s@[debut + j], #[trigger] v@[j]),
        decreases fin - i,
    {
        v.push(s[i].clone());
        i += 1;
    }
    v
}

/// Découpe le périmètre en paquets souscriptibles d'un coup.
///
/// C'est le nombre de lots qui fixe le temps de balayage, pas le nombre de contrats. Un
/// périmètre vide rend une liste vide ; une taille nulle est une panne.
pub fn lots<T: Clone>(contrats: &[T], taille: usize) -> (r: Result<Vec<Vec<T>>, String>)
    ensures
        match r {
            Ok(v) => taille >= 1 && lots_clones(lots_de(contrats@, taille as nat), v@),
            Err(e) => taille < 1 && e@
                == "taille de lot absurde : 0 (attendu : au moins 1)"@,
        },
{
    if taille < 1 {
        return Err(
            en_texte(caracteres("taille de lot absurde : 0 (attendu : au moins 1)").as_slice()),
        );
    }
    let mut v: Vec<Vec<T>> = Vec::new();
    let mut i: usize = 0;
    let ghost t = taille as nat;
    let ghost mut debut: Seq<Seq<T>> = Seq::empty();
    assert(contrats@.skip(0) =~= contrats@);
    assert(lots_de(contrats@, t) =~= debut + lots_de(contrats@.skip(0), t));
    while i < contrats.len()
        invariant
            i <= contrats@.len(),
            taille >= 1,
            t == taille as nat,
            lots_clones(debut, v@),
            lots_de(contrats@, t) == debut + lots_de(contrats@.skip(i as int), t),
        decreases contrats@.len() - i,
    {
        let fin: usize = if contrats.len() - i <= taille {
            contrats.len()
        } else {
            i + taille
        };
        let lot: Vec<T> = cloner(contrats, i, fin);
        proof {
            let reste = contrats@.skip(i as int);
            let x = contrats@.subrange(i as int, fin as int);
            assert(x =~= reste.take(fin - i));
            if fin == contrats@.len() {
                assert(reste =~= x);
                assert(contrats@.skip(fin as int) =~= Seq::empty());
                assert(lots_de(reste, t) =~= seq![x] + lots_de(contrats@.skip(fin as int), t));
            } else {
                assert(reste.skip(taille as int) =~= contrats@.skip(fin as int));
            }
            assert(debut.push(x) + lots_de(contrats@.skip(fin as int), t) =~= debut + lots_de(
                reste,
                t,
            ));
            debut = debut.push(x);
        }
        v.push(lot);
        i = fin;
    }
    proof {
        assert(contrats@.skip(i as int) =~= Seq::empty());
        assert(debut + lots_de(contrats@.skip(i as int), t) =~= debut);
    }
    Ok(v)
}

/// Un contrat, et ce qu'il pèse dans le gamma.
#[derive(Clone, Copy, Debug, PartialEq, Eq, Structural)]
pub struct Pese {
    pub poids: Flottant,
    pub cle: CleContrat,
}

/// Ce que pèse un côté : `|gamma x OI|`.
pub open spec fn poids_de(c: Cote) -> Flottant {
    c.gamma.fois(c.open_interest).abs()
}

/// Une suite, et un côté de plus s'il pèse quelque chose.
pub open spec fn avec_le_cote(s: Seq<Pese>, l: Ligne, sens: Sens) -> Seq<Pese> {
    let cote = match sens {
        Sens::Call => l.call,
        Sens::Put => l.put,
    };
    if poids_de(cote).positif() {
        s.push(
            Pese {
                poids: poids_de(cote),
                cle: CleContrat { echeance: l.echeance, strike: l.strike, sens },
            },
        )
    } else {
        s
    }
}

/// Les contrats qui pèsent quelque chose, dans l'ordre de la chaîne.
pub open spec fn peses_de(v: Seq<Ligne>) -> Seq<Pese>
    decreases v.len(),
{
    if v.len() == 0 {
        Seq::empty()
    } else {
        avec_le_cote(
            avec_le_cote(peses_de(v.drop_last()), v.last(), Sens::Call),
            v.last(),
            Sens::Put,
        )
    }
}

/// L'ordre du recyclage : du plus lourd au moins lourd, puis l'ordre des contrats. Sans
/// lui, deux appels rendraient deux listes différentes à poids égaux.
pub open spec fn pese_avant(a: Pese, b: Pese) -> bool {
    ||| b.poids.clef() < a.poids.clef()
    ||| a.poids.clef() == b.poids.clef() && cle_avant(a.cle, b.cle)
}

fn pese_precede(a: Pese, b: Pese) -> (r: bool)
    ensures
        r == pese_avant(a, b),
{
    let (pa, pb): (i64, i64) = (a.poids.clef_exec(), b.poids.clef_exec());
    pb < pa || (pa == pb && cle_precede(a.cle, b.cle))
}

/// Les contrats à garder souscrits, rangés.
pub open spec fn peses_ranges(v: Seq<Ligne>) -> Seq<Pese> {
    triee(peses_de(v), |a: Pese, b: Pese| pese_avant(a, b))
}

/// Les clés des `budget` premiers.
pub open spec fn vif_de(v: Seq<Ligne>, budget: nat) -> Seq<CleContrat> {
    let p = peses_ranges(v);
    Seq::new(
        if p.len() < budget {
            p.len()
        } else {
            budget
        },
        |i: int| p[i].cle,
    )
}

fn peser(p: &mut Vec<Pese>, l: Ligne, sens: Sens)
    ensures
        final(p)@ == avec_le_cote(old(p)@, l, sens),
{
    let cote: Cote = match sens {
        Sens::Call => l.call,
        Sens::Put => l.put,
    };
    let poids: Flottant = cote.gamma.fois(cote.open_interest).abs();
    if poids.est_positif() {
        p.push(Pese { poids, cle: CleContrat { echeance: l.echeance, strike: l.strike, sens } });
    }
}

/// Les contrats à garder souscrits en permanence, triés par `|gamma x OI|`.
///
/// Rend des [`CleContrat`] : la chaîne est au format large, le `conId` n'y survit pas.
pub fn selection_vif(chaine: &Chaine, budget: usize) -> (v: Vec<CleContrat>)
    ensures
        v@ == vif_de(chaine.vue(), budget as nat),
{
    let lignes: &[Ligne] = chaine.lignes();
    let mut p: Vec<Pese> = Vec::new();
    let mut i: usize = 0;
    while i < lignes.len()
        invariant
            i <= lignes@.len(),
            p@ == peses_de(lignes@.take(i as int)),
        decreases lignes@.len() - i,
    {
        let l: Ligne = lignes[i];
        proof {
            assert(lignes@.take(i + 1).drop_last() =~= lignes@.take(i as int));
            assert(lignes@.take(i + 1).last() == l);
        }
        peser(&mut p, l, Sens::Call);
        peser(&mut p, l, Sens::Put);
        i += 1;
    }
    assert(lignes@.take(i as int) =~= lignes@);
    let t: Vec<Pese> = trier(
        p.as_slice(),
        pese_precede,
        Ghost(|a: Pese, b: Pese| pese_avant(a, b)),
    );
    let mut v: Vec<CleContrat> = Vec::new();
    let mut k: usize = 0;
    while k < t.len() && k < budget
        invariant
            k <= t@.len(),
            k <= budget,
            v@.len() == k,
            forall|j: int| 0 <= j < k ==> #[trigger] v@[j] == t@[j].cle,
        decreases t@.len() - k,
    {
        v.push(t[k].cle);
        k += 1;
    }
    assert(v@ =~= vif_de(chaine.vue(), budget as nat));
    v
}

/// Les deux clés désignent-elles le même contrat ? Les prix d'exercice à un milliardième
/// près.
pub open spec fn meme_contrat(a: CleContrat, b: CleContrat) -> bool {
    &&& a.echeance == b.echeance
    &&& a.sens == b.sens
    &&& a.strike.moins(b.strike).abs().inferieur(Flottant::fraction(1, 1_000_000_000))
}

/// Le premier contrat du catalogue que la clé désigne.
pub open spec fn au_catalogue(cle: CleContrat, catalogue: Seq<ContratOption>) -> Option<
    ContratOption,
>
    decreases catalogue.len(),
{
    if catalogue.len() == 0 {
        None
    } else if meme_contrat(catalogue[0].cle, cle) {
        Some(catalogue[0])
    } else {
        au_catalogue(cle, catalogue.skip(1))
    }
}

/// La sélection, chaque clé remplacée par son contrat quand le catalogue le connaît.
pub open spec fn recollee(selection: Seq<CleContrat>, catalogue: Seq<ContratOption>) -> Seq<
    ContratOption,
>
    decreases selection.len(),
{
    if selection.len() == 0 {
        Seq::empty()
    } else {
        let debut = recollee(selection.drop_last(), catalogue);
        match au_catalogue(selection.last(), catalogue) {
            Some(c) => debut.push(c),
            None => debut,
        }
    }
}

fn chercher_contrat(cle: CleContrat, catalogue: &[ContratOption]) -> (r: Option<ContratOption>)
    ensures
        r == au_catalogue(cle, catalogue@),
{
    let pres: Flottant = Flottant::fraction(1, 1_000_000_000);
    let mut i: usize = 0;
    assert(catalogue@.skip(0) =~= catalogue@);
    while i < catalogue.len()
        invariant
            i <= catalogue@.len(),
            pres == Flottant::fraction(1, 1_000_000_000),
            au_catalogue(cle, catalogue@) == au_catalogue(cle, catalogue@.skip(i as int)),
        decreases catalogue@.len() - i,
    {
        let c: ContratOption = catalogue[i];
        proof {
            assert(catalogue@.skip(i as int).skip(1) =~= catalogue@.skip(i + 1));
            assert(catalogue@.skip(i as int)[0] == c);
        }
        if c.cle.echeance.0.micros == cle.echeance.0.micros && c.cle.sens == cle.sens
            && c.cle.strike.moins(cle.strike).abs().inf(pres) {
            return Some(c);
        }
        i += 1;
    }
    None
}

/// Recolle le `conId` sur une sélection qui n'en porte pas, dans l'ordre de la
/// sélection. Ce qui n'est pas au catalogue est écarté.
pub fn avec_conid(selection: &[CleContrat], catalogue: &[ContratOption]) -> (v: Vec<
    ContratOption,
>)
    ensures
        v@ == recollee(selection@, catalogue@),
{
    let mut v: Vec<ContratOption> = Vec::new();
    let mut i: usize = 0;
    while i < selection.len()
        invariant
            i <= selection@.len(),
            v@ == recollee(selection@.take(i as int), catalogue@),
        decreases selection@.len() - i,
    {
        proof {
            assert(selection@.take(i + 1).drop_last() =~= selection@.take(i as int));
            assert(selection@.take(i + 1).last() == selection@[i as int]);
        }
        if let Some(c) = chercher_contrat(selection[i], catalogue) {
            v.push(c);
        }
        i += 1;
    }
    assert(selection@.take(i as int) =~= selection@);
    v
}

/// Ce qui est souscriptible vient de la sélection, dans son ordre, et du catalogue :
/// chaque contrat rendu est au catalogue et désigné par une clé de la sélection.
pub proof fn ce_qui_est_recolle_est_au_catalogue(
    selection: Seq<CleContrat>,
    catalogue: Seq<ContratOption>,
)
    ensures
        recollee(selection, catalogue).len() <= selection.len(),
        forall|i: int|
            0 <= i < recollee(selection, catalogue).len() ==> {
                &&& catalogue.contains(#[trigger] recollee(selection, catalogue)[i])
                &&& exists|k: int|
                    i <= k < selection.len() && meme_contrat(
                        recollee(selection, catalogue)[i].cle,
                        #[trigger] selection[k],
                    )
            },
    decreases selection.len(),
{
    if selection.len() > 0 {
        let t = selection.drop_last();
        ce_qui_est_recolle_est_au_catalogue(t, catalogue);
        let d = recollee(t, catalogue);
        let r = recollee(selection, catalogue);
        assert forall|i: int| 0 <= i < r.len() implies catalogue.contains(#[trigger] r[i])
            && exists|k: int|
            i <= k < selection.len() && meme_contrat(r[i].cle, #[trigger] selection[k]) by {
            if i < d.len() {
                assert(r[i] == d[i]);
                let k = choose|k: int| i <= k < t.len() && meme_contrat(d[i].cle, #[trigger] t[k]);
                assert(selection[k] == t[k]);
            } else {
                lemme_au_catalogue(selection.last(), catalogue);
                assert(meme_contrat(r[i].cle, selection[selection.len() - 1]));
            }
        }
    }
}

proof fn lemme_au_catalogue(cle: CleContrat, catalogue: Seq<ContratOption>)
    ensures
        au_catalogue(cle, catalogue) matches Some(c) ==> catalogue.contains(c) && meme_contrat(
            c.cle,
            cle,
        ),
    decreases catalogue.len(),
{
    if catalogue.len() > 0 && !meme_contrat(catalogue[0].cle, cle) {
        let t = catalogue.skip(1);
        lemme_au_catalogue(cle, t);
        if let Some(c) = au_catalogue(cle, t) {
            let k = choose|k: int| 0 <= k < t.len() && t[k] == c;
            assert(catalogue[k + 1] == c);
        }
    }
}

/// Le vif ne dépasse jamais le budget, et aucune de ses lignes n'est sans poids : chaque
/// clé est celle d'un côté de la chaîne dont `|gamma x OI|` est positif.
pub proof fn le_vif_tient_dans_le_budget(v: Seq<Ligne>, budget: nat)
    ensures
        vif_de(v, budget).len() <= budget,
        forall|i: int|
            0 <= i < vif_de(v, budget).len() ==> exists|k: int|
                0 <= k < v.len() && pese_dans(#[trigger] vif_de(v, budget)[i], #[trigger] v[k]),
{
    let avant = |a: Pese, b: Pese| pese_avant(a, b);
    let p = peses_de(v);
    le_tri_garde_les_elements(p, avant);
    let t = triee(p, avant);
    assert forall|i: int| 0 <= i < vif_de(v, budget).len() implies exists|k: int|
        0 <= k < v.len() && pese_dans(#[trigger] vif_de(v, budget)[i], #[trigger] v[k]) by {
        assert(t.contains(t[i]));
        assert(p.contains(t[i]));
        lemme_peses(v, t[i]);
    }
}

/// Cette clé est celle d'un côté de la ligne qui pèse quelque chose.
pub open spec fn pese_dans(c: CleContrat, l: Ligne) -> bool {
    &&& c.echeance == l.echeance
    &&& c.strike == l.strike
    &&& poids_de(
        match c.sens {
            Sens::Call => l.call,
            Sens::Put => l.put,
        },
    ).positif()
}

proof fn lemme_peses(v: Seq<Ligne>, x: Pese)
    requires
        peses_de(v).contains(x),
    ensures
        exists|k: int| 0 <= k < v.len() && pese_dans(x.cle, #[trigger] v[k]),
    decreases v.len(),
{
    if v.len() > 0 {
        let t = v.drop_last();
        let l = v.last();
        let a = peses_de(t);
        let b = avec_le_cote(a, l, Sens::Call);
        let i = choose|i: int| 0 <= i < peses_de(v).len() && peses_de(v)[i] == x;
        if i < a.len() {
            assert(a[i] == x);
            lemme_peses(t, x);
            let k = choose|k: int| 0 <= k < t.len() && pese_dans(x.cle, #[trigger] t[k]);
            assert(v[k] == t[k]);
        } else {
            assert(v[v.len() - 1] == l);
            if i < b.len() {
                assert(b[i] == x);
            }
            assert(pese_dans(x.cle, v[v.len() - 1]));
        }
    }
}

} // verus!
