//! Les chemins des fichiers d'un produit.

use crate::texte::{ajouter, caracteres, en_texte, majuscules};
#[allow(unused_imports)]
use crate::texte::majuscules_de;
use vstd::prelude::*;

verus! {

/// Un chemin prolongé : un morceau qui commence à la racine remplace ce qui précède.
pub open spec fn prolonge(chemin: Seq<char>, suite: Seq<char>) -> Seq<char> {
    if suite.len() > 0 && suite[0] == '/' {
        suite
    } else if chemin.len() == 0 || chemin.last() == '/' {
        chemin + suite
    } else {
        chemin + seq!['/'] + suite
    }
}

fn prolonger(chemin: &[char], suite: &[char]) -> (v: Vec<char>)
    ensures
        v@ == prolonge(chemin@, suite@),
{
    let mut v: Vec<char> = Vec::new();
    if suite.len() > 0 && suite[0] == '/' {
        ajouter(&mut v, suite);
        assert(v@ =~= suite@);
        return v;
    }
    ajouter(&mut v, chemin);
    assert(v@ =~= chemin@);
    if chemin.len() > 0 && chemin[chemin.len() - 1] != '/' {
        v.push('/');
    }
    ajouter(&mut v, suite);
    assert(v@ =~= prolonge(chemin@, suite@));
    v
}

/// Le chemin d'un fichier d'un produit : le dossier, le produit en majuscules, le nom.
pub open spec fn chemin_produit(dossier: Seq<char>, produit: Seq<char>, nom: Seq<char>) -> Seq<
    char,
> {
    prolonge(prolonge(dossier, majuscules_de(produit)), nom)
}

/// Le chemin d'un fichier d'un produit.
pub fn chemin_de(dossier: &str, produit: &str, nom: &str) -> (s: String)
    ensures
        s@ == chemin_produit(dossier@, produit@, nom@),
{
    let d: Vec<char> = caracteres(dossier);
    let p: Vec<char> = caracteres(produit);
    let haut: Vec<char> = majuscules(p.as_slice());
    let n: Vec<char> = caracteres(nom);
    let dossier_produit: Vec<char> = prolonger(d.as_slice(), haut.as_slice());
    en_texte(prolonger(dossier_produit.as_slice(), n.as_slice()).as_slice())
}

/// Le chemin du relevé courant d'un produit, celui que le collecteur réécrit.
///
/// Chemin fixe et non horodaté : un lecteur n'a pas à chercher lequel est le dernier.
pub fn chemin_courant(dossier: &str, produit: &str) -> (s: String)
    ensures
        s@ == chemin_produit(dossier@, produit@, "courant.parquet"@),
{
    chemin_de(dossier, produit, "courant.parquet")
}

} // verus!
