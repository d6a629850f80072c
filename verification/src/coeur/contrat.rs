//! Les produits couverts, et leur multiplicateur.
//!
//! Se tromper de contrat ne produit aucune erreur visible : un GEX cinq fois trop grand
//! reste un nombre plausible. On ne devine donc jamais : un produit inconnu est refusé.

use crate::flottant::Flottant;
use crate::texte::{
    ajouter, ajouter_texte, caracteres, echapper, en_texte, joindre, majuscules, memes_caracteres, rogner,
    vient_avant,
};
#[allow(unused_imports)]
use crate::texte::{joints, lexicographique, majuscules_de, rogne, texte_echappe, vues};
use crate::tri::trier;
#[allow(unused_imports)]
use crate::tri::{le_tri_garde_les_elements, triee};
use vstd::prelude::*;

verus! {

/// Les multiplicateurs, en unités de sous-jacent. NQ est le E-mini, à x20, à ne pas
/// confondre avec MNQ, le Micro, à x2.
pub const MULTIPLICATEURS: [(&'static str, i64); 8] = [
    ("NQ", 20),
    ("ES", 50),
    ("CL", 1_000),
    ("GC", 100),
    ("6E", 125_000),
    ("6B", 62_500),
    ("6J", 12_500_000),
    ("6A", 100_000),
];

/// Le produit demandé n'est pas au catalogue.
#[derive(Clone, Debug, PartialEq, Eq)]
pub struct ProduitInconnu {
    /// Le code demandé, normalisé en majuscules, pour le citer dans l'erreur.
    pub demande: String,
}

/// Les codes du catalogue, dans son ordre.
pub open spec fn codes() -> Seq<&'static str> {
    Seq::new(8, |i: int| MULTIPLICATEURS@[i].0)
}

/// L'ordre alphabétique des codes.
pub open spec fn code_avant(a: &'static str, b: &'static str) -> bool {
    lexicographique(a@, b@)
}

fn code_precede(a: &'static str, b: &'static str) -> (r: bool)
    ensures
        r == code_avant(a, b),
{
    vient_avant(caracteres(a).as_slice(), caracteres(b).as_slice())
}

/// Les codes du catalogue, rangés.
pub open spec fn codes_ranges() -> Seq<&'static str> {
    triee(codes(), |a: &'static str, b: &'static str| code_avant(a, b))
}

/// Les codes produits reconnus, triés, pour les messages d'erreur.
pub fn produits_connus() -> (v: Vec<&'static str>)
    ensures
        v@ == codes_ranges(),
        v@.len() == 8,
        forall|c: &'static str| #[trigger] v@.contains(c) <==> codes().contains(c),
{
    let mut tous: Vec<&'static str> = Vec::new();
    let mut i: usize = 0;
    while i < 8
        invariant
            i <= 8,
            tous@ =~= codes().take(i as int),
        decreases 8 - i,
    {
        tous.push(MULTIPLICATEURS[i].0);
        i += 1;
    }
    let ghost avant = |a: &'static str, b: &'static str| code_avant(a, b);
    proof {
        le_tri_garde_les_elements(codes(), avant);
        assert(tous@ =~= codes());
    }
    trier(tous.as_slice(), code_precede, Ghost(avant))
}

/// Les textes des codes.
pub open spec fn textes(v: Seq<&'static str>) -> Seq<Seq<char>> {
    Seq::new(v.len(), |i: int| v[i]@)
}

impl ProduitInconnu {
    /// L'erreur cite la demande, liste les produits connus, et dit quoi faire.
    pub open spec fn dit(&self, cite: Seq<char>) -> Seq<char> {
        "Multiplicateur inconnu pour "@ + cite + ". Produits connus : "@ + joints(
            textes(codes_ranges()),
            ", "@,
        ) + ". Passe-le explicitement avec --contract-size."@
    }

    /// Le texte de l'erreur, la demande étant citée `cite`.
    pub fn message_avec(&self, cite: &str) -> (s: String)
        ensures
            s@ == self.dit(cite@),
    {
        let connus: Vec<&'static str> = produits_connus();
        let mut noms: Vec<Vec<char>> = Vec::new();
        let mut i: usize = 0;
        while i < connus.len()
            invariant
                i <= connus@.len(),
                noms@.len() == i,
                forall|k: int| 0 <= k < i ==> (#[trigger] noms@[k])@ == connus@[k]@,
            decreases connus@.len() - i,
        {
            noms.push(caracteres(connus[i]));
            i += 1;
        }
        assert(vues(noms@) =~= textes(codes_ranges()));
        let mut v: Vec<char> = Vec::new();
        ajouter_texte(&mut v, "Multiplicateur inconnu pour ");
        ajouter_texte(&mut v, cite);
        ajouter_texte(&mut v, ". Produits connus : ");
        ajouter(&mut v, joindre(&noms, ", ").as_slice());
        ajouter_texte(&mut v, ". Passe-le explicitement avec --contract-size.");
        let s: String = en_texte(v.as_slice());
        assert(s@ =~= self.dit(cite@));
        s
    }

    /// Le texte de l'erreur.
    pub fn message(&self) -> (s: String)
        ensures
            s@ == self.dit(texte_echappe(self.demande@)),
    {
        self.message_avec(echapper(self.demande.as_str()).as_str())
    }
}

/// La taille du contrat de ce code, s'il est au catalogue à partir du rang `k`.
pub open spec fn taille_depuis(code: Seq<char>, k: int) -> Option<int>
    decreases 8 - k,
{
    if k >= 8 {
        None
    } else if MULTIPLICATEURS@[k].0@ == code {
        Some(MULTIPLICATEURS@[k].1 as int)
    } else {
        taille_depuis(code, k + 1)
    }
}

/// Le code d'une demande : rogné, en majuscules.
pub open spec fn code_de(produit: Seq<char>) -> Seq<char> {
    majuscules_de(rogne(produit))
}

/// Le multiplicateur du produit, ou une erreur qui dit lesquels sont connus. Aucune
/// valeur par défaut.
pub fn multiplicateur(produit: &str) -> (r: Result<Flottant, ProduitInconnu>)
    ensures
        match r {
            Ok(f) => taille_depuis(code_de(produit@), 0) is Some && f == Flottant::entier(
                taille_depuis(code_de(produit@), 0)->0 as i64,
            ),
            Err(e) => taille_depuis(code_de(produit@), 0) is None && e.demande@ == code_de(
                produit@,
            ),
        },
{
    let code: Vec<char> = majuscules(rogner(caracteres(produit).as_slice()).as_slice());
    let mut i: usize = 0;
    while i < 8
        invariant
            i <= 8,
            code@ == code_de(produit@),
            taille_depuis(code@, 0) == taille_depuis(code@, i as int),
        decreases 8 - i,
    {
        if memes_caracteres(caracteres(MULTIPLICATEURS[i].0).as_slice(), code.as_slice()) {
            return Ok(Flottant::entier(MULTIPLICATEURS[i].1));
        }
        i += 1;
    }
    Err(ProduitInconnu { demande: en_texte(code.as_slice()) })
}

/// Un produit est refusé si et seulement si aucun code du catalogue n'est le sien.
pub proof fn un_produit_inconnu_est_refuse(produit: Seq<char>)
    ensures
        taille_depuis(code_de(produit), 0) is None <==> forall|i: int|
            0 <= i < 8 ==> (#[trigger] codes()[i])@ != code_de(produit),
{
    lemme_taille(code_de(produit), 0);
    assert forall|i: int| 0 <= i < 8 implies codes()[i] == #[trigger] MULTIPLICATEURS@[i].0 by {}
}

proof fn lemme_taille(code: Seq<char>, k: int)
    requires
        0 <= k <= 8,
    ensures
        taille_depuis(code, k) is None <==> forall|i: int|
            k <= i < 8 ==> (#[trigger] codes()[i])@ != code,
    decreases 8 - k,
{
    if k < 8 {
        lemme_taille(code, k + 1);
        assert(codes()[k] == MULTIPLICATEURS@[k].0);
    }
}

} // verus!
