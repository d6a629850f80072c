//! Ce qu'une annonce dit de l'état qui l'a déclenchée.

#[allow(unused_imports)]
use super::alertes::{cote_de, signe_de, Bascule, Etat, Veilleuse};
use crate::flottant::Flottant;
#[allow(unused_imports)]
use crate::flottant::{clef_ordonne_les_valeurs, lemme_magnitude_nulle};
#[allow(unused_imports)]
use crate::ordre::{
    lemme_oppose, lemme_signe_du_produit, lemme_somme_commute, lemme_somme_croit,
    lemme_somme_definie, lemme_somme_zero,
};
use vstd::prelude::*;

verus! {

/// Le signe d'un GEX est celui de sa valeur.
pub proof fn le_signe_est_celui_de_la_valeur(gex: Flottant)
    ensures
        gex.fini() ==> {
            &&& signe_de(gex) == 1 <==> gex.valeur() > 0
            &&& signe_de(gex) == -1 <==> gex.valeur() < 0
            &&& signe_de(gex) == 0 <==> gex.valeur() == 0
        },
        gex.nan() ==> signe_de(gex) == 0,
{
    lemme_magnitude_nulle(gex);
}

/// Être au-dessus d'un niveau, c'est le passer de plus que la bande morte ; au-dessous, lui
/// manquer d'autant. Sur le niveau on n'est d'aucun côté, et sans bande morte le moindre écart
/// suffit.
pub proof fn un_cote_est_au_dela_de_la_bande_morte(
    spot: Flottant,
    niveau: Flottant,
    marge: Flottant,
)
    requires
        spot.fini(),
        niveau.fini(),
        marge.fini(),
        marge.clef() >= 0,
    ensures
        cote_de(spot, niveau, marge) == Some(true) ==> spot.valeur() > niveau.valeur(),
        cote_de(spot, niveau, marge) == Some(false) ==> spot.valeur() < niveau.valeur(),
        cote_de(spot, niveau, marge) == Some(true) <==> niveau.plus(
            niveau.abs().fois(marge),
        ).inferieur(spot),
        marge.rang() == 0 ==> {
            &&& cote_de(spot, niveau, marge) == Some(true) <==> spot.valeur() > niveau.valeur()
            &&& cote_de(spot, niveau, marge) == Some(false) <==> spot.valeur() < niveau.valeur()
        },
{
    let b = niveau.abs().fois(marge);
    let z = Flottant::nul();
    lemme_oppose(niveau);
    crate::erreur::lemme_produit_encadre(niveau.abs(), marge);
    lemme_signe_du_produit(niveau.abs(), marge);
    clef_ordonne_les_valeurs(spot, niveau);
    lemme_somme_zero(niveau, z);
    lemme_somme_commute(niveau, b);
    lemme_somme_commute(niveau, z);
    lemme_oppose(b);
    lemme_somme_commute(niveau, b.neg());
    if b.fini() {
        lemme_somme_definie(niveau, b);
        lemme_somme_definie(niveau, b.neg());
        lemme_somme_croit(z, b, niveau);
        lemme_somme_croit(b.neg(), z, niveau);
    } else {
        reveal(Flottant::somme);
    }
    if marge.rang() == 0 {
        crate::flottant::lemme_produit_nul(niveau.abs(), marge);
        lemme_somme_zero(niveau, b);
        lemme_somme_zero(niveau, b.neg());
    }
}

/// Ce qu'une annonce affirme est vrai de l'état, et nouveau pour la mémoire : un régime a le
/// signe du GEX, et n'était pas le signe confirmé ; un niveau franchi par le haut a le prix
/// au-dessus de lui et l'avait au-dessous, franchi par le bas l'inverse ; et le mur nommé est bien
/// celui du niveau.
pub proof fn une_annonce_est_vraie_et_nouvelle(v: Veilleuse, etat: Etat, k: int)
    requires
        0 <= k < v.annonces(etat).len(),
        v.marge.fini(),
        v.marge.clef() >= 0,
        etat.spot.fini(),
        etat.zero_gamma matches Some(z) ==> z.fini(),
        etat.call_wall matches Some(c) ==> c.fini(),
        etat.put_wall matches Some(p) ==> p.fini(),
    ensures
        v.amorcee,
        match v.annonces(etat)[k] {
            Bascule::RegimeGamma { gex, negatif } => {
                &&& gex == etat.gex
                &&& negatif <==> etat.gex.inferieur(Flottant::nul())
                &&& !negatif <==> etat.gex.positif()
                &&& v.signe_confirme != Some(if negatif { -1i8 } else { 1i8 })
            },
            Bascule::ZeroGamma { niveau, vers_le_haut } => {
                &&& etat.zero_gamma == Some(niveau)
                &&& v.cote_zero == Some(!vers_le_haut)
                &&& vers_le_haut ==> etat.spot.valeur() > niveau.valeur()
                &&& !vers_le_haut ==> etat.spot.valeur() < niveau.valeur()
            },
            Bascule::Mur { nom, niveau, vers_le_haut } => {
                &&& (nom == "call wall" && etat.call_wall == Some(niveau) && v.cote_call == Some(
                    !vers_le_haut,
                )) || (nom == "put wall" && etat.put_wall == Some(niveau) && v.cote_put == Some(
                    !vers_le_haut,
                ))
                &&& vers_le_haut ==> etat.spot.valeur() > niveau.valeur()
                &&& !vers_le_haut ==> etat.spot.valeur() < niveau.valeur()
            },
        },
{
    if let Some(n) = etat.zero_gamma {
        un_cote_est_au_dela_de_la_bande_morte(etat.spot, n, v.marge);
    }
    if let Some(n) = etat.call_wall {
        un_cote_est_au_dela_de_la_bande_morte(etat.spot, n, v.marge);
    }
    if let Some(n) = etat.put_wall {
        un_cote_est_au_dela_de_la_bande_morte(etat.spot, n, v.marge);
    }
    let r = v.annonce_regime(etat);
    let z = v.annonce_zero(etat);
    let c = v.annonce_mur(etat, "call wall", etat.call_wall, v.cote_call);
    let p = v.annonce_mur(etat, "put wall", etat.put_wall, v.cote_put);
    assert(v.annonces(etat) == r + z + c + p);
}

/// Un niveau dont le prix change de côté s'annonce : le zero gamma, le mur call et le mur put,
/// chacun d'après le dernier côté connu et le sien.
pub proof fn un_niveau_qui_change_de_cote_s_annonce(v: Veilleuse, etat: Etat, haut: bool)
    requires
        v.amorcee,
    ensures
        etat.zero_gamma matches Some(n) ==> v.cote_zero == Some(!haut) && cote_de(
            etat.spot,
            n,
            v.marge,
        ) == Some(haut) ==> v.annonces(etat).contains(
            Bascule::ZeroGamma { niveau: n, vers_le_haut: haut },
        ),
        etat.call_wall matches Some(n) ==> v.cote_call == Some(!haut) && cote_de(
            etat.spot,
            n,
            v.marge,
        ) == Some(haut) ==> v.annonces(etat).contains(
            Bascule::Mur { nom: "call wall", niveau: n, vers_le_haut: haut },
        ),
        etat.put_wall matches Some(n) ==> v.cote_put == Some(!haut) && cote_de(
            etat.spot,
            n,
            v.marge,
        ) == Some(haut) ==> v.annonces(etat).contains(
            Bascule::Mur { nom: "put wall", niveau: n, vers_le_haut: haut },
        ),
{
    let r = v.annonce_regime(etat);
    let z = v.annonce_zero(etat);
    let c = v.annonce_mur(etat, "call wall", etat.call_wall, v.cote_call);
    let p = v.annonce_mur(etat, "put wall", etat.put_wall, v.cote_put);
    let t = v.annonces(etat);
    assert(t == r + z + c + p);
    if z.len() > 0 {
        assert(t[r.len() as int] == z[0]);
    }
    if c.len() > 0 {
        assert(t[(r.len() + z.len()) as int] == c[0]);
    }
    if p.len() > 0 {
        assert(t[(r.len() + z.len() + c.len()) as int] == p[0]);
    }
}

/// La mémoire retient le dernier côté connu de chaque niveau, chacun pour soi.
pub proof fn la_memoire_retient_le_cote_de_chaque_niveau(v: Veilleuse, etat: Etat)
    requires
        v.amorcee,
    ensures
        ({
            let w = v.apres(etat);
            &&& w.amorcee
            &&& w.marge == v.marge
            &&& w.confirmations == v.confirmations
            &&& etat.zero_gamma is None ==> w.cote_zero == v.cote_zero
            &&& etat.call_wall is None ==> w.cote_call == v.cote_call
            &&& etat.put_wall is None ==> w.cote_put == v.cote_put
            &&& etat.zero_gamma matches Some(n) ==> cote_de(etat.spot, n, v.marge) is Some
                ==> w.cote_zero == cote_de(etat.spot, n, v.marge)
            &&& etat.call_wall matches Some(n) ==> cote_de(etat.spot, n, v.marge) is Some
                ==> w.cote_call == cote_de(etat.spot, n, v.marge)
            &&& etat.put_wall matches Some(n) ==> cote_de(etat.spot, n, v.marge) is Some
                ==> w.cote_put == cote_de(etat.spot, n, v.marge)
        }),
{
}

/// Ce texte finit par ce mot.
pub open spec fn finit_par(texte: Seq<char>, mot: Seq<char>) -> bool {
    texte.len() >= mot.len() && texte.skip(texte.len() - mot.len()) == mot
}

/// Le titre d'un franchissement dit par où il se fait, et celui d'un régime dit le signe du gamma.
pub proof fn le_titre_dit_par_ou_l_on_passe(
    nom: &'static str,
    niveau: Flottant,
    gex: Flottant,
    haut: bool,
)
    ensures
        ({
            let mur = (Bascule::Mur { nom, niveau, vers_le_haut: haut }).intitule();
            let zero = (Bascule::ZeroGamma { niveau, vers_le_haut: haut }).intitule();
            &&& finit_par(mur, "PAR LE HAUT"@) <==> haut
            &&& finit_par(mur, "PAR LE BAS"@) <==> !haut
            &&& finit_par(zero, "PAR LE HAUT"@) <==> haut
            &&& finit_par(zero, "PAR LE BAS"@) <==> !haut
        }),
        (Bascule::RegimeGamma { gex, negatif: true }).intitule()
            == "GAMMA NÉGATIF : les couvertures amplifient désormais"@,
        (Bascule::RegimeGamma { gex, negatif: false }).intitule()
            == "GAMMA POSITIF : les couvertures amortissent désormais"@,
{
    reveal_strlit("PAR LE HAUT");
    reveal_strlit("PAR LE BAS");
    let (h, b) = ("PAR LE HAUT"@, "PAR LE BAS"@);
    assert(h.last() == 'T' && b.last() == 'S');
    let mur = (Bascule::Mur { nom, niveau, vers_le_haut: haut }).intitule();
    let zero = (Bascule::ZeroGamma { niveau, vers_le_haut: haut }).intitule();
    let fin = if haut {
        h
    } else {
        b
    };
    lemme_fin(crate::texte::capitales_de(nom@) + " FRANCHI "@, fin, h);
    lemme_fin(crate::texte::capitales_de(nom@) + " FRANCHI "@, fin, b);
    lemme_fin("ZERO GAMMA FRANCHI "@, fin, h);
    lemme_fin("ZERO GAMMA FRANCHI "@, fin, b);
    assert(mur == crate::texte::capitales_de(nom@) + " FRANCHI "@ + fin);
    assert(zero == "ZERO GAMMA FRANCHI "@ + fin);
}

proof fn lemme_fin(debut: Seq<char>, fin: Seq<char>, mot: Seq<char>)
    requires
        fin.len() > 0,
        mot.len() > 0,
        fin == mot || fin.last() != mot.last(),
    ensures
        finit_par(debut + fin, mot) <==> fin == mot,
{
    let t = debut + fin;
    if fin == mot {
        assert(t.skip(t.len() - mot.len()) =~= mot);
    } else if t.len() >= mot.len() {
        let r = t.skip(t.len() - mot.len());
        assert(r.last() == fin.last());
    }
}

} // verus!
