//! Ce que la lecture d'un montant déclaré promet.

#[allow(unused_imports)]
use super::montant::{bornes_de, dollars, montant_lu, plancher_de, Montant};
#[allow(unused_imports)]
use crate::texte::{premier, rogne, sans};
use vstd::prelude::*;

verus! {

/// La borne basse est avant le premier tiret, et la haute après.
pub proof fn la_borne_basse_est_avant_le_tiret(gauche: Seq<char>, droite: Seq<char>)
    requires
        sans(gauche, '-'),
    ensures
        ({
            let texte = gauche.push('-') + droite;
            &&& dollars(gauche) is Some && dollars(droite) is Some ==> bornes_de(texte) == Some(
                (dollars(gauche)->0, dollars(droite)->0),
            )
            &&& dollars(gauche) is None || dollars(droite) is None ==> bornes_de(texte) is None
        }),
{
    let texte = gauche.push('-') + droite;
    lemme_premier(gauche, droite);
    assert(texte.take(gauche.len() as int) =~= gauche);
    assert(texte.skip(gauche.len() as int + 1) =~= droite);
}

proof fn lemme_premier(gauche: Seq<char>, droite: Seq<char>)
    requires
        sans(gauche, '-'),
    ensures
        premier(gauche.push('-') + droite, '-') == Some(gauche.len() as int),
    decreases gauche.len(),
{
    let texte = gauche.push('-') + droite;
    if gauche.len() > 0 {
        let g = gauche.skip(1);
        assert(texte[0] == gauche[0]);
        assert(texte.skip(1) =~= g.push('-') + droite);
        assert(sans(g, '-')) by {
            assert forall|i: int| 0 <= i < g.len() implies g[i] != '-' by {
                assert(g[i] == gauche[i + 1]);
            }
        }
        lemme_premier(g, droite);
    }
}

/// Un plafond ouvert l'emporte sur une fourchette, et un texte qui n'est ni l'un ni l'autre ne dit
/// aucun montant.
pub proof fn un_plafond_ouvert_l_emporte(brut: Seq<char>)
    ensures
        rogne(brut).len() == 0 ==> montant_lu(brut) is Absent,
        rogne(brut).len() > 0 ==> (montant_lu(brut) is AuMoins <==> plancher_de(
            rogne(brut),
        ) is Some),
        montant_lu(brut) matches Montant::AuMoins { bas } ==> plancher_de(rogne(brut)) == Some(bas),
        montant_lu(brut) matches Montant::Fourchette { bas, haut } ==> plancher_de(
            rogne(brut),
        ) is None && bornes_de(rogne(brut)) == Some((bas, haut)),
        montant_lu(brut) is Absent && rogne(brut).len() > 0 ==> plancher_de(rogne(brut)) is None
            && bornes_de(rogne(brut)) is None,
{
}

} // verus!
