//! Ce qu'une déclaration dit d'un montant, et ce qu'elle n'en dit pas.
//!
//! Les élus déclarent des fourchettes, jamais des valeurs exactes. Sommer des fourchettes
//! n'a de sens que si l'on dit laquelle de leurs bornes on additionne : d'où un type
//! plutôt qu'un nombre.

use crate::decimal::lire_flottant;
#[allow(unused_imports)]
use crate::decimal::flottant_lu;
#[allow(unused_imports)]
use crate::entiers::{
    la_somme_de_petits_entiers_est_exacte, le_quotient_d_un_multiple_est_exact, petit,
};
use crate::flottant::Flottant;
#[allow(unused_imports)]
use crate::flottant::rapport;
use crate::texte::{
    caracteres, chercher_caractere, memes_caracteres, minuscules, priver, rogner, tranche,
};
#[allow(unused_imports)]
use crate::texte::{minuscules_de, premier, prive_de, rogne};
use vstd::prelude::*;

verus! {

/// Un montant tel qu'il est déclaré.
#[derive(Clone, Copy, Debug, PartialEq, Eq, Structural)]
pub enum Montant {
    /// Une fourchette bornée des deux côtés.
    Fourchette {
        /// La borne basse déclarée.
        bas: Flottant,
        /// La borne haute déclarée.
        haut: Flottant,
    },
    /// « Over $50,000,000 » : un plancher, et rien au-dessus. Le plafond n'est pas une
    /// donnée manquante qu'on pourrait combler, il n'existe pas.
    AuMoins {
        /// Le plancher déclaré.
        bas: Flottant,
    },
    /// Le champ était vide ou illisible.
    Absent,
}

impl Montant {
    /// La borne basse, s'il y en a une.
    pub fn bas(&self) -> (r: Option<Flottant>)
        ensures
            r == match *self {
                Montant::Fourchette { bas, haut } => Some(bas),
                Montant::AuMoins { bas } => Some(bas),
                Montant::Absent => None,
            },
    {
        match self {
            Montant::Fourchette { bas, .. } => Some(*bas),
            Montant::AuMoins { bas } => Some(*bas),
            Montant::Absent => None,
        }
    }

    /// La borne haute. Rien sur un plafond ouvert ni sur un montant absent : aucune des
    /// deux raisons de ne pas savoir n'autorise à inventer un nombre.
    pub fn haut(&self) -> (r: Option<Flottant>)
        ensures
            r == match *self {
                Montant::Fourchette { bas, haut } => Some(haut),
                _ => None,
            },
    {
        match self {
            Montant::Fourchette { haut, .. } => Some(*haut),
            _ => None,
        }
    }

    /// Le milieu de la fourchette, qui n'existe que si les deux bornes existent.
    pub fn milieu(&self) -> (r: Option<Flottant>)
        ensures
            r == match *self {
                Montant::Fourchette { bas, haut } => Some(bas.plus(haut).par(Flottant::entier(2))),
                _ => None,
            },
            // À mi-chemin des bornes, exactement, quand elles sont entières à distance paire.
            forall|m: int, d: int|
                #![trigger rapport(m - d, 1), rapport(m + d, 1)]
                m != 0 && petit(m - d) && petit(m + d) && petit(2 * m) && *self == (
                Montant::Fourchette { bas: rapport(m - d, 1), haut: rapport(m + d, 1) }) ==> r
                    == Some(rapport(m, 1)),
    {
        proof {
            assert forall|m: int, d: int|
                #![trigger rapport(m - d, 1), rapport(m + d, 1)]
                m != 0 && petit(m - d) && petit(m + d) && petit(2 * m) implies rapport(
                m - d,
                1,
            ).plus(rapport(m + d, 1)).par(Flottant::entier(2)) == rapport(m, 1) by {
                la_somme_de_petits_entiers_est_exacte(m - d, m + d);
                le_quotient_d_un_multiple_est_exact(m, 2);
            }
        }
        match self {
            Montant::Fourchette { bas, haut } => Some(bas.plus(*haut).par(Flottant::entier(2))),
            _ => None,
        }
    }

    /// Le montant est-il exploitable pour un calcul ?
    pub fn est_borne(&self) -> (b: bool)
        ensures
            b == (*self is Fourchette),
    {
        match self {
            Montant::Fourchette { .. } => true,
            _ => false,
        }
    }
}

/// Un nombre écrit à l'américaine, virgules comprises.
pub open spec fn nombre_lu(brut: Seq<char>) -> Option<Flottant> {
    flottant_lu(rogne(prive_de(brut, ',')))
}

fn nombre(brut: &[char]) -> (r: Option<Flottant>)
    ensures
        r == nombre_lu(brut@),
{
    lire_flottant(rogner(priver(brut, ',').as_slice()).as_slice())
}

/// Un nombre en dollars.
pub open spec fn dollars(brut: Seq<char>) -> Option<Flottant> {
    nombre_lu(prive_de(brut, '$'))
}

fn en_dollars(brut: &[char]) -> (r: Option<Flottant>)
    ensures
        r == dollars(brut@),
{
    nombre(priver(brut, '$').as_slice())
}

/// Le plancher d'un montant ouvert : ce qui suit « over ».
pub open spec fn plancher_de(texte: Seq<char>) -> Option<Flottant> {
    let bas = minuscules_de(texte);
    if bas.len() >= 4 && bas.take(4) == "over"@ {
        dollars(bas.skip(4))
    } else {
        None
    }
}

/// Les deux bornes d'une fourchette, de part et d'autre du premier tiret.
pub open spec fn bornes_de(texte: Seq<char>) -> Option<(Flottant, Flottant)> {
    match premier(texte, '-') {
        Some(k) => match (dollars(texte.take(k)), dollars(texte.skip(k + 1))) {
            (Some(bas), Some(haut)) => Some((bas, haut)),
            _ => None,
        },
        None => None,
    }
}

/// Le montant qu'un texte déclare. Le plafond ouvert se teste avant la fourchette.
pub open spec fn montant_lu(brut: Seq<char>) -> Montant {
    let texte = rogne(brut);
    if texte.len() == 0 {
        Montant::Absent
    } else {
        match plancher_de(texte) {
            Some(bas) => Montant::AuMoins { bas },
            None => match bornes_de(texte) {
                Some((bas, haut)) => Montant::Fourchette { bas, haut },
                None => Montant::Absent,
            },
        }
    }
}

fn plancher(texte: &[char]) -> (r: Option<Flottant>)
    ensures
        r == plancher_de(texte@),
{
    let bas: Vec<char> = minuscules(texte);
    if bas.len() < 4 {
        return None;
    }
    let tete: Vec<char> = tranche(bas.as_slice(), 0, 4);
    assert(tete@ =~= bas@.take(4));
    if !memes_caracteres(tete.as_slice(), caracteres("over").as_slice()) {
        return None;
    }
    let suite: Vec<char> = tranche(bas.as_slice(), 4, bas.len());
    assert(suite@ =~= bas@.skip(4));
    en_dollars(suite.as_slice())
}

/// Lit un montant déclaré. Les deux chambres servent la même syntaxe.
pub fn lire(brut: &str) -> (m: Montant)
    ensures
        m == montant_lu(brut@),
{
    let texte: Vec<char> = rogner(caracteres(brut).as_slice());
    if texte.len() == 0 {
        return Montant::Absent;
    }
    if let Some(bas) = plancher(texte.as_slice()) {
        return Montant::AuMoins { bas };
    }
    if let Some(k) = chercher_caractere(texte.as_slice(), '-') {
        let gauche: Vec<char> = tranche(texte.as_slice(), 0, k);
        let droite: Vec<char> = tranche(texte.as_slice(), k + 1, texte.len());
        assert(gauche@ =~= texte@.take(k as int));
        assert(droite@ =~= texte@.skip(k + 1));
        if let (Some(bas), Some(haut)) = (
            en_dollars(gauche.as_slice()),
            en_dollars(droite.as_slice()),
        ) {
            return Montant::Fourchette { bas, haut };
        }
    }
    Montant::Absent
}

} // verus!
