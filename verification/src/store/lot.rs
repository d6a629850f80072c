//! Un lot de colonnes, tel qu'un fichier de colonnes le rend ou le prend.

use super::releve::ErreurReleve;
use crate::calendrier::Instant;
#[allow(unused_imports)]
use crate::calendrier::{CALENDRIER_DEBUT, CALENDRIER_FIN};
use crate::flottant::Flottant;
use crate::texte::meme_texte;
use vstd::prelude::*;

verus! {

/// Les valeurs d'une colonne.
#[derive(Clone, Debug, PartialEq, Eq)]
pub enum Valeurs {
    /// Des flottants ; une case peut être vide.
    Nombres(Vec<Option<Flottant>>),
    /// Des horodatages, en microsecondes.
    Instants(Vec<i64>),
    /// Des textes.
    Textes(Vec<String>),
    /// Un type que le format n'emploie pas.
    Autre,
}

/// Une colonne nommée.
#[derive(Clone, Debug, PartialEq, Eq)]
pub struct Colonne {
    pub nom: String,
    pub valeurs: Valeurs,
}

/// Un lot de lignes, en colonnes.
#[derive(Clone, Debug, PartialEq, Eq)]
pub struct Lot {
    pub lignes: usize,
    pub colonnes: Vec<Colonne>,
}

impl Valeurs {
    /// Le nombre de cases, si le type en a.
    pub open spec fn de_taille(self, n: nat) -> bool {
        match self {
            Valeurs::Nombres(v) => v@.len() == n,
            Valeurs::Instants(v) => v@.len() == n,
            Valeurs::Textes(v) => v@.len() == n,
            Valeurs::Autre => true,
        }
    }
}

/// La valeur d'une case, zéro si elle est vide.
pub open spec fn ou_zero(x: Option<Flottant>) -> Flottant {
    match x {
        Some(f) => f,
        None => Flottant::nul(),
    }
}

/// L'instant est au calendrier.
pub open spec fn au_calendrier(micros: int) -> bool {
    CALENDRIER_DEBUT <= micros <= CALENDRIER_FIN
}

/// Le rang de la première colonne de ce nom.
pub open spec fn rang_colonne(c: Seq<Colonne>, nom: Seq<char>) -> Option<int>
    decreases c.len(),
{
    if c.len() == 0 {
        None
    } else {
        match rang_colonne(c.drop_last(), nom) {
            Some(i) => Some(i),
            None => if c.last().nom@ == nom {
                Some(c.len() - 1)
            } else {
                None
            },
        }
    }
}

pub proof fn lemme_rang_colonne(c: Seq<Colonne>, nom: Seq<char>)
    ensures
        rang_colonne(c, nom) matches Some(i) ==> 0 <= i < c.len() && c[i].nom@ == nom,
        rang_colonne(c, nom) is None ==> forall|i: int|
            0 <= i < c.len() ==> (#[trigger] c[i]).nom@ != nom,
    decreases c.len(),
{
    if c.len() > 0 {
        lemme_rang_colonne(c.drop_last(), nom);
        if rang_colonne(c, nom) is None {
            assert forall|i: int| 0 <= i < c.len() implies (#[trigger] c[i]).nom@ != nom by {
                if i < c.len() - 1 {
                    assert(c.drop_last()[i] == c[i]);
                }
            }
        }
    }
}

/// Le nom qui n'apparaît qu'une fois est trouvé là.
pub proof fn lemme_rang_unique(c: Seq<Colonne>, nom: Seq<char>, k: int)
    requires
        0 <= k < c.len(),
        c[k].nom@ == nom,
        forall|i: int| 0 <= i < c.len() && i != k ==> (#[trigger] c[i]).nom@ != nom,
    ensures
        rang_colonne(c, nom) == Some(k),
{
    lemme_rang_colonne(c, nom);
}

impl Lot {
    /// Toutes les colonnes ont le nombre de lignes annoncé.
    pub open spec fn valide(&self) -> bool {
        forall|i: int|
            0 <= i < self.colonnes@.len() ==> (#[trigger] self.colonnes@[i]).valeurs.de_taille(
                self.lignes as nat,
            )
    }

    /// La colonne de ce nom, si elle existe.
    pub open spec fn colonne(&self, nom: Seq<char>) -> Option<Valeurs> {
        match rang_colonne(self.colonnes@, nom) {
            Some(i) => Some(self.colonnes@[i].valeurs),
            None => None,
        }
    }

    fn chercher(&self, nom: &str) -> (r: Option<usize>)
        ensures
            match r {
                Some(i) => rang_colonne(self.colonnes@, nom@) == Some(i as int) && i
                    < self.colonnes@.len(),
                None => rang_colonne(self.colonnes@, nom@) is None,
            },
    {
        let mut i: usize = 0;
        assert(self.colonnes@.take(0) =~= Seq::<Colonne>::empty());
        while i < self.colonnes.len()
            invariant
                i <= self.colonnes@.len(),
                rang_colonne(self.colonnes@.take(i as int), nom@) is None,
            decreases self.colonnes@.len() - i,
        {
            proof {
                assert(self.colonnes@.take(i + 1).drop_last() =~= self.colonnes@.take(i as int));
            }
            if meme_texte(self.colonnes[i].nom.as_str(), nom) {
                proof {
                    lemme_rang_prefixe(self.colonnes@, i + 1, nom@);
                }
                return Some(i);
            }
            i += 1;
        }
        assert(self.colonnes@.take(self.colonnes@.len() as int) =~= self.colonnes@);
        None
    }

    /// Les flottants d'une colonne, ou des zéros si elle n'existe pas.
    pub open spec fn nombres_ou_zeros(&self, nom: Seq<char>) -> Result<
        Seq<Flottant>,
        ErreurReleve,
    > {
        match self.colonne(nom) {
            None => Ok(Seq::new(self.lignes as nat, |i: int| Flottant::nul())),
            Some(Valeurs::Nombres(v)) => Ok(Seq::new(v@.len(), |i: int| ou_zero(v@[i]))),
            Some(_) => Err(ErreurReleve::TypeInattendu("colonne numérique")),
        }
    }

    /// Une colonne de flottants, ou des zéros si elle n'existe pas.
    ///
    /// Les colonnes de grecs sont facultatives : un relevé archivé avant qu'elles
    /// n'existent doit rester rejouable.
    pub fn colonne_ou_zeros(&self, nom: &str) -> (r: Result<Vec<Flottant>, ErreurReleve>)
        requires
            self.valide(),
        ensures
            match r {
                Ok(v) => self.nombres_ou_zeros(nom@) == Ok::<Seq<Flottant>, ErreurReleve>(v@)
                    && v@.len() == self.lignes,
                Err(e) => self.nombres_ou_zeros(nom@) == Err::<Seq<Flottant>, ErreurReleve>(e),
            },
    {
        let mut r: Vec<Flottant> = Vec::new();
        match self.chercher(nom) {
            None => {
                let mut i: usize = 0;
                while i < self.lignes
                    invariant
                        i <= self.lignes,
                        r@ =~= Seq::new(i as nat, |j: int| Flottant::nul()),
                    decreases self.lignes - i,
                {
                    r.push(Flottant::nul());
                    i += 1;
                }
                Ok(r)
            },
            Some(k) => {
                proof {
                    assert(self.colonnes@[k as int].valeurs.de_taille(self.lignes as nat));
                }
                match &self.colonnes[k].valeurs {
                    Valeurs::Nombres(v) => {
                        let mut i: usize = 0;
                        while i < v.len()
                            invariant
                                i <= v@.len(),
                                r@ =~= Seq::new(i as nat, |j: int| ou_zero(v@[j])),
                            decreases v@.len() - i,
                        {
                            r.push(
                                match v[i] {
                                    Some(f) => f,
                                    None => Flottant::nul(),
                                },
                            );
                            i += 1;
                        }
                        Ok(r)
                    },
                    _ => Err(ErreurReleve::TypeInattendu("colonne numérique")),
                }
            },
        }
    }

    /// Les flottants d'une colonne qui doit exister.
    pub open spec fn nombres_requis(&self, nom: &'static str) -> Result<
        Seq<Flottant>,
        ErreurReleve,
    > {
        if self.colonne(nom@) is None {
            Err(ErreurReleve::ColonneAbsente(nom))
        } else {
            self.nombres_ou_zeros(nom@)
        }
    }

    /// Une colonne de flottants qui doit exister.
    pub fn colonne_requise(&self, nom: &'static str) -> (r: Result<Vec<Flottant>, ErreurReleve>)
        requires
            self.valide(),
        ensures
            match r {
                Ok(v) => self.nombres_requis(nom) == Ok::<Seq<Flottant>, ErreurReleve>(v@)
                    && v@.len() == self.lignes,
                Err(e) => self.nombres_requis(nom) == Err::<Seq<Flottant>, ErreurReleve>(e),
            },
    {
        if self.chercher(nom).is_none() {
            return Err(ErreurReleve::ColonneAbsente(nom));
        }
        self.colonne_ou_zeros(nom)
    }

    /// La colonne existe et porte des horodatages.
    pub fn porte_instants(&self, nom: &str) -> (b: bool)
        ensures
            b == (self.colonne(nom@) matches Some(Valeurs::Instants(_))),
    {
        match self.chercher(nom) {
            None => false,
            Some(k) => match &self.colonnes[k].valeurs {
                Valeurs::Instants(_) => true,
                _ => false,
            },
        }
    }

    /// Les cases d'une colonne de flottants, toutes vides si elle manque ou porte autre
    /// chose.
    pub fn cases(&self, nom: &str) -> (r: Vec<Option<Flottant>>)
        requires
            self.valide(),
        ensures
            r@.len() == self.lignes,
            forall|i: int|
                0 <= i < self.lignes ==> #[trigger] r@[i] == match self.colonne(nom@) {
                    Some(Valeurs::Nombres(v)) => v@[i],
                    _ => None,
                },
    {
        if let Some(k) = self.chercher(nom) {
            proof {
                assert(self.colonnes@[k as int].valeurs.de_taille(self.lignes as nat));
            }
            if let Valeurs::Nombres(v) = &self.colonnes[k].valeurs {
                let mut r: Vec<Option<Flottant>> = Vec::new();
                let mut i: usize = 0;
                while i < v.len()
                    invariant
                        i <= v@.len(),
                        r@ =~= v@.take(i as int),
                    decreases v@.len() - i,
                {
                    r.push(v[i]);
                    i += 1;
                }
                return r;
            }
        }
        let mut r: Vec<Option<Flottant>> = Vec::new();
        let mut i: usize = 0;
        while i < self.lignes
            invariant
                i <= self.lignes,
                r@.len() == i,
                forall|j: int| 0 <= j < i ==> (#[trigger] r@[j]) is None,
            decreases self.lignes - i,
        {
            r.push(None);
            i += 1;
        }
        r
    }

    /// Les horodatages d'une colonne qui doit exister.
    pub open spec fn instants_requis(&self, nom: &'static str) -> Result<
        Seq<Instant>,
        ErreurReleve,
    > {
        match self.colonne(nom@) {
            None => Err(ErreurReleve::ColonneAbsente(nom)),
            Some(Valeurs::Instants(v)) => if forall|i: int|
                0 <= i < v@.len() ==> au_calendrier(#[trigger] v@[i] as int) {
                Ok(Seq::new(v@.len(), |i: int| Instant { micros: v@[i] }))
            } else {
                Err(ErreurReleve::TypeInattendu(nom))
            },
            Some(_) => Err(ErreurReleve::TypeInattendu(nom)),
        }
    }

    /// Une colonne d'horodatages en microsecondes.
    pub fn colonne_instants(&self, nom: &'static str) -> (r: Result<Vec<Instant>, ErreurReleve>)
        requires
            self.valide(),
        ensures
            match r {
                Ok(v) => self.instants_requis(nom) == Ok::<Seq<Instant>, ErreurReleve>(v@)
                    && v@.len() == self.lignes,
                Err(e) => self.instants_requis(nom) == Err::<Seq<Instant>, ErreurReleve>(e),
            },
    {
        match self.chercher(nom) {
            None => Err(ErreurReleve::ColonneAbsente(nom)),
            Some(k) => {
                proof {
                    assert(self.colonnes@[k as int].valeurs.de_taille(self.lignes as nat));
                }
                match &self.colonnes[k].valeurs {
                    Valeurs::Instants(v) => {
                        let mut r: Vec<Instant> = Vec::new();
                        let mut i: usize = 0;
                        while i < v.len()
                            invariant
                                i <= v@.len(),
                                r@ =~= Seq::new(i as nat, |j: int| Instant { micros: v@[j] }),
                                forall|j: int| 0 <= j < i ==> au_calendrier(#[trigger] v@[j] as int),
                                rang_colonne(self.colonnes@, nom@) == Some(k as int),
                                self.colonnes@[k as int].valeurs == Valeurs::Instants(*v),
                            decreases v@.len() - i,
                        {
                            if v[i] < CALENDRIER_DEBUT || v[i] > CALENDRIER_FIN {
                                assert(!au_calendrier(v@[i as int] as int));
                                return Err(ErreurReleve::TypeInattendu(nom));
                            }
                            r.push(Instant { micros: v[i] });
                            i += 1;
                        }
                        Ok(r)
                    },
                    _ => Err(ErreurReleve::TypeInattendu(nom)),
                }
            },
        }
    }
}

proof fn lemme_rang_prefixe(c: Seq<Colonne>, n: int, nom: Seq<char>)
    requires
        0 <= n <= c.len(),
        rang_colonne(c.take(n), nom) is Some,
    ensures
        rang_colonne(c, nom) == rang_colonne(c.take(n), nom),
    decreases c.len(),
{
    if n < c.len() {
        assert(c.drop_last().take(n) =~= c.take(n));
        lemme_rang_prefixe(c.drop_last(), n, nom);
    } else {
        assert(c.take(n) =~= c);
    }
}

} // verus!
