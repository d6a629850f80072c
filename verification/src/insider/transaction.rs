//! Ce qu'une déclaration décrit : qui a échangé quoi, quand, et pour combien.

use super::montant::Montant;
use crate::calendrier::Jour;
use vstd::prelude::*;

verus! {

/// D'où vient la déclaration.
#[derive(Clone, Copy, Debug, PartialEq, Eq, Hash, Structural)]
pub enum Source {
    /// Formulaire 4 de la SEC : dirigeants, administrateurs, détenteurs de plus de 10 %
    /// d'une société cotée.
    Entreprise,
    /// Chambre des représentants, sous le STOCK Act.
    Chambre,
    /// Sénat, sous le STOCK Act.
    Senat,
}

impl Source {
    /// Le libellé affiché.
    pub fn nom(&self) -> (s: &'static str)
        ensures
            s@ == match *self {
                Source::Entreprise => "entreprise"@,
                Source::Chambre => "chambre"@,
                Source::Senat => "senat"@,
            },
    {
        match self {
            Source::Entreprise => "entreprise",
            Source::Chambre => "chambre",
            Source::Senat => "senat",
        }
    }

    /// Le délai réglementaire de déclaration, en jours : deux jours ouvrés pour un
    /// dirigeant, quarante-cinq pour un élu.
    pub fn delai_reglementaire(&self) -> (j: u32)
        ensures
            j == match *self {
                Source::Entreprise => 2int,
                Source::Chambre => 45,
                Source::Senat => 45,
            },
    {
        match self {
            Source::Entreprise => 2,
            Source::Chambre => 45,
            Source::Senat => 45,
        }
    }
}

/// Qui détient réellement le titre. L'absence de mention signifie le déclarant lui-même,
/// ce qui n'est pas la même chose qu'une donnée manquante.
#[derive(Clone, Copy, Debug, PartialEq, Eq)]
pub enum Detenteur {
    /// Le déclarant, en son nom propre.
    Declarant,
    /// Le conjoint.
    Conjoint,
    /// Un enfant à charge.
    Enfant,
    /// Un compte joint.
    Joint,
    /// Détenu indirectement : le libellé dit par quel intermédiaire.
    Indirect(&'static str),
    /// La source n'a rien dit.
    Inconnu,
}

impl Detenteur {
    /// Le libellé affiché.
    pub fn nom(&self) -> (s: &str)
        ensures
            s@ == match *self {
                Detenteur::Declarant => "le déclarant"@,
                Detenteur::Conjoint => "conjoint"@,
                Detenteur::Enfant => "enfant à charge"@,
                Detenteur::Joint => "compte joint"@,
                Detenteur::Indirect(par) => par@,
                Detenteur::Inconnu => "non précisé"@,
            },
    {
        match self {
            Detenteur::Declarant => "le déclarant",
            Detenteur::Conjoint => "conjoint",
            Detenteur::Enfant => "enfant à charge",
            Detenteur::Joint => "compte joint",
            Detenteur::Indirect(par) => par,
            Detenteur::Inconnu => "non précisé",
        }
    }
}

/// Ce que l'opération fait à la position.
#[derive(Clone, Copy, Debug, PartialEq, Eq, Structural)]
pub enum Sens {
    /// La position augmente.
    Acquisition,
    /// La position diminue.
    Cession,
    /// Ni l'un ni l'autre : échange, conversion, détention déclarée.
    Neutre,
}

impl Sens {
    /// +1, -1 ou 0 : un échange ne pèse dans aucun total.
    pub fn signe(&self) -> (s: i8)
        ensures
            s == match *self {
                Sens::Acquisition => 1int,
                Sens::Cession => -1,
                Sens::Neutre => 0,
            },
    {
        match self {
            Sens::Acquisition => 1,
            Sens::Cession => -1,
            Sens::Neutre => 0,
        }
    }
}

/// Ce que l'initié a fait, et si c'est une décision.
#[derive(Clone, Copy, Debug, PartialEq, Eq, Structural)]
pub enum Nature {
    /// L'initié engage son argent à un moment qu'il choisit.
    Decision,
    /// Il reçoit des titres au titre de sa rémunération.
    Remuneration,
    /// Le mouvement découle d'un autre : exercice, conversion, retenue fiscale.
    Mecanique,
    /// Une position déclarée sans mouvement.
    Detention,
    /// Le reste : donation, succession, transfert.
    Autre,
}

impl Nature {
    /// Le libellé affiché.
    pub fn nom(&self) -> (s: &'static str)
        ensures
            s@ == match *self {
                Nature::Decision => "décision"@,
                Nature::Remuneration => "rémunération"@,
                Nature::Mecanique => "mécanique"@,
                Nature::Detention => "détention"@,
                Nature::Autre => "autre"@,
            },
    {
        match self {
            Nature::Decision => "décision",
            Nature::Remuneration => "rémunération",
            Nature::Mecanique => "mécanique",
            Nature::Detention => "détention",
            Nature::Autre => "autre",
        }
    }
}

/// Une opération déclarée. Un champ manque parce que la source ne le sert pas, jamais
/// parce qu'on ne l'a pas lu.
#[derive(Clone, Debug, PartialEq, Eq)]
pub struct Operation {
    /// D'où vient la déclaration.
    pub source: Source,
    /// Le nom du déclarant.
    pub declarant: String,
    /// Sa fonction, telle que déclarée.
    pub role: Option<String>,
    /// Le jour de l'opération.
    pub date: Option<Jour>,
    /// Le jour où le déclarant dit en avoir été informé.
    pub date_notification: Option<Jour>,
    /// Le symbole boursier, absent sur les obligations et les fonds non cotés.
    pub symbole: Option<String>,
    /// Le libellé du titre.
    pub actif: Option<String>,
    /// Ce que l'opération fait à la position.
    pub sens: Sens,
    /// Si c'est une décision, et sinon quoi.
    pub nature: Nature,
    /// Qui détient réellement.
    pub detenteur: Detenteur,
    /// Le montant, tel que déclaré.
    pub montant: Montant,
    /// L'adresse du document d'origine.
    pub document: Option<String>,
}

impl Operation {
    /// Le délai entre l'opération et sa notification, en jours. Rien quand l'une des deux
    /// dates manque : zéro se lirait comme « notifié immédiatement ».
    pub fn delai_notification(&self) -> (r: Option<i64>)
        ensures
            match (self.date, self.date_notification) {
                (Some(d), Some(n)) => r is Some && r->0 == n.numero - d.numero,
                _ => r is None,
            },
    {
        match (self.date, self.date_notification) {
            (Some(d), Some(n)) => Some(n.numero as i64 - d.numero as i64),
            _ => None,
        }
    }

    /// L'opération engage-t-elle un choix de l'initié ?
    pub fn est_une_decision(&self) -> (b: bool)
        ensures
            b == (self.nature is Decision),
    {
        self.nature == Nature::Decision
    }
}

} // verus!
