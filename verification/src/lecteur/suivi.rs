//! Le suivi d'une séance, un relevé par passage, et ce que la ligne de commande admet.

use crate::coeur::temps::InstantReleve;
use crate::texte::{ajouter_texte, caracteres, en_texte};
use vstd::prelude::*;

verus! {

/// Ce qu'un passage fait d'un relevé lu.
#[derive(Clone, Copy, Debug, PartialEq, Eq, Structural)]
pub enum Suite {
    /// Le relevé a avancé : il s'enregistre.
    Enregistrer,
    /// Le relevé est le même qu'au passage précédent : rien à enregistrer.
    Inchange,
    /// Le relevé a avancé, mais l'historique n'est pas demandé.
    Rien,
}

/// Le compte d'un suivi.
#[derive(Clone, Copy, Debug, PartialEq, Eq, Structural)]
pub struct Suivi {
    /// L'instant du dernier relevé vu.
    pub vu: Option<InstantReleve>,
    /// Passages commencés.
    pub passages: u32,
    /// Relevés enregistrés.
    pub enregistres: u32,
}

impl Suivi {
    /// Un suivi qui commence.
    pub fn neuf() -> (s: Suivi)
        ensures
            s == (Suivi { vu: None, passages: 0, enregistres: 0 }),
    {
        Suivi { vu: None, passages: 0, enregistres: 0 }
    }

    /// Jamais plus d'enregistrements que de passages.
    pub open spec fn valide(&self) -> bool {
        self.enregistres <= self.passages
    }

    /// Commence un passage.
    pub fn commencer(&mut self)
        requires
            old(self).valide(),
            old(self).passages < u32::MAX,
        ensures
            final(self).valide(),
            *final(self) == (Suivi { passages: (old(self).passages + 1) as u32, ..*old(self) }),
    {
        self.passages = self.passages + 1;
    }

    /// Ce qu'un relevé lu demande. Il ne s'enregistre que s'il a réellement avancé : un
    /// suivi plus pressé que le collecteur relit le même fichier.
    pub open spec fn suite_de(&self, releve: InstantReleve, historique: bool) -> Suite {
        if self.vu == Some(releve) {
            Suite::Inchange
        } else if historique {
            Suite::Enregistrer
        } else {
            Suite::Rien
        }
    }

    /// Reçoit un relevé lu, et dit ce qu'il demande.
    pub fn recevoir(&mut self, releve: InstantReleve, historique: bool) -> (s: Suite)
        requires
            old(self).enregistres < old(self).passages,
        ensures
            final(self).valide(),
            s == old(self).suite_de(releve, historique),
            final(self).vu == Some(releve),
            final(self).passages == old(self).passages,
            final(self).enregistres == old(self).enregistres + if s == Suite::Enregistrer {
                1int
            } else {
                0
            },
    {
        let avance: bool = match self.vu {
            Some(v) => v.0.micros != releve.0.micros,
            None => true,
        };
        self.vu = Some(releve);
        if !avance {
            Suite::Inchange
        } else if historique {
            self.enregistres = self.enregistres + 1;
            Suite::Enregistrer
        } else {
            Suite::Rien
        }
    }
}

/// Un même relevé ne s'enregistre qu'une fois : relu au passage suivant, il ne demande
/// plus rien.
pub proof fn un_releve_ne_s_enregistre_qu_une_fois(s: Suivi, releve: InstantReleve, historique: bool)
    requires
        s.vu == Some(releve),
    ensures
        s.suite_de(releve, historique) == Suite::Inchange,
{
}

/// Combien dormir avant le passage suivant, en millisecondes : l'intervalle, ou ce qui
/// reste du suivi s'il reste moins. Rien quand il ne reste rien.
pub fn pause(intervalle: u64, reste: u64) -> (r: Option<u64>)
    ensures
        r == (if reste == 0 {
            None
        } else if intervalle < reste {
            Some(intervalle)
        } else {
            Some(reste)
        }),
        // On ne dort ni plus que l'intervalle, ni au-delà de la fin.
        r matches Some(p) ==> p <= intervalle && p <= reste && (p == intervalle || p == reste),
{
    if reste == 0 {
        None
    } else if intervalle < reste {
        Some(intervalle)
    } else {
        Some(reste)
    }
}

/// Ce que deux options incompatibles disent : une archive ne bouge plus, la relire en
/// boucle est absurde.
pub fn options_incompatibles(suivi: bool, archive: bool) -> (r: Option<String>)
    ensures
        match r {
            Some(s) => suivi && archive && s@
                == "--watch et --replay s'excluent : une archive ne bouge plus.                     Pour suivre un relevé vivant, omets --replay."@,
            None => !(suivi && archive),
        },
{
    if suivi && archive {
        Some(
            en_texte(
                caracteres(
                    "--watch et --replay s'excluent : une archive ne bouge plus.                     Pour suivre un relevé vivant, omets --replay.",
                ).as_slice(),
            ),
        )
    } else {
        None
    }
}

/// Un relevé absent n'est pas une panne mais un collecteur qui ne tourne pas.
pub fn releve_absent(chemin: &str, produit: &str) -> (s: String)
    ensures
        s@ == "Aucun relevé à lire en "@ + chemin@ + ". Lance le collecteur : gex-collector "@
            + produit@,
{
    let mut v: Vec<char> = caracteres("Aucun relevé à lire en ");
    ajouter_texte(&mut v, chemin);
    ajouter_texte(&mut v, ". Lance le collecteur : gex-collector ");
    ajouter_texte(&mut v, produit);
    en_texte(v.as_slice())
}

/// L'horizon retenu : aucun quand on demande toutes les échéances.
pub fn horizon(toutes_echeances: bool, dte_max: i64) -> (r: Option<i64>)
    ensures
        r == (if toutes_echeances {
            None
        } else {
            Some(dte_max)
        }),
{
    if toutes_echeances {
        None
    } else {
        Some(dte_max)
    }
}

} // verus!
