//! Ce que le choix des contrats à demander promet.

#[allow(unused_imports)]
use super::decisions::{
    au_catalogue, avec_le_cote, contrat_avant, contrats_dans_la_plage, dans_l_horizon,
    dans_la_plage, meme_contrat, pese_avant, peses_de, peses_ranges, recollee, vif_de, CleContrat,
    ContratOption, Pese,
};
#[allow(unused_imports)]
use super::lignes::du_cote;
#[allow(unused_imports)]
use crate::calendrier::Jour;
#[allow(unused_imports)]
use crate::coeur::black76::Sens;
#[allow(unused_imports)]
use crate::coeur::chaine::Ligne;
#[allow(unused_imports)]
use crate::coeur::temps::InstantReleve;
use crate::flottant::Flottant;
#[allow(unused_imports)]
use crate::flottant::{lemme_arrondi_positif, rapport};
#[allow(unused_imports)]
use crate::ordre::{
    lemme_difference_opposee, lemme_difference_ordonnee, lemme_oppose, lemme_somme_commute,
    lemme_somme_croit, lemme_somme_zero,
};
#[allow(unused_imports)]
use crate::tri::{
    le_tri_garde_les_elements, le_tri_range_sans_rien_perdre, lemme_push_contient, ordre_faible,
    triee,
};
#[allow(unused_imports)]
use vstd::arithmetic::power2::{lemma2_to64, lemma_pow2_strictly_increases, pow2};
use vstd::prelude::*;

verus! {

/// Le périmètre garde tout strike fini entre les deux bornes de la plage, la basse sous le prix
/// et la haute au-dessus ; il ne garde que des contrats de la liste, sans en changer l'ordre.
pub proof fn la_plage_garde_ce_qui_est_entre_ses_bornes(
    v: Seq<ContratOption>,
    prix: Flottant,
    plage: Flottant,
)
    ensures
        contrats_dans_la_plage(v, prix, plage) == v.filter(
            |c: ContratOption| dans_la_plage(c.cle.strike, prix, plage),
        ),
        forall|strike: Flottant|
            {
                let un = rapport(1, 1);
                let (bas, haut) = (prix.fois(un.moins(plage)), prix.fois(un.plus(plage)));
                let marge = prix.abs().fois(Flottant::fraction(1, 1_000_000_000));
                strike.fini() && bas.fini() && haut.fini() && marge.fini() && marge.clef() >= 0
                    && bas.inferieur_ou_egal(strike) && strike.inferieur_ou_egal(haut)
            } ==> #[trigger] dans_la_plage(strike, prix, plage),
    decreases v.len(),
{
    let p = |c: ContratOption| dans_la_plage(c.cle.strike, prix, plage);
    reveal(Seq::filter);
    if v.len() > 0 {
        la_plage_garde_ce_qui_est_entre_ses_bornes(v.drop_last(), prix, plage);
    }
    let un = rapport(1, 1);
    let (bas, haut) = (prix.fois(un.moins(plage)), prix.fois(un.plus(plage)));
    let marge = prix.abs().fois(Flottant::fraction(1, 1_000_000_000));
    assert forall|strike: Flottant|
        strike.fini() && bas.fini() && haut.fini() && marge.fini() && marge.clef() >= 0
            && bas.inferieur_ou_egal(strike) && strike.inferieur_ou_egal(
            haut,
        ) implies #[trigger] dans_la_plage(strike, prix, plage) by {
        lemme_elargir(bas, marge);
        lemme_elargir(haut, marge);
    }
}

/// Retrancher une marge ne monte pas, l'ajouter ne descend pas.
proof fn lemme_elargir(x: Flottant, marge: Flottant)
    requires
        x.fini(),
        marge.fini(),
        marge.clef() >= 0,
    ensures
        x.moins(marge).inferieur_ou_egal(x),
        x.inferieur_ou_egal(x.plus(marge)),
{
    let z = Flottant::nul();
    lemme_somme_zero(x, z);
    lemme_oppose(marge);
    lemme_somme_commute(x, marge);
    lemme_somme_commute(x, z);
    crate::ordre::lemme_somme_definie(x, marge);
    crate::ordre::lemme_somme_definie(x, marge.oppose());
    lemme_somme_croit(z, marge, x);
    lemme_somme_commute(x, marge.oppose());
    assert(marge.oppose().inferieur_ou_egal(z));
    lemme_somme_croit(marge.oppose(), z, x);
}

/// Le périmètre part par échéance, puis par strike croissant, le call avant le put.
pub proof fn le_perimetre_part_dans_l_ordre(v: Seq<ContratOption>, prix: Flottant, plage: Flottant)
    ensures
        ({
            let r = triee(
                contrats_dans_la_plage(v, prix, plage),
                |a: ContratOption, b: ContratOption| contrat_avant(a, b),
            );
            &&& r.to_multiset() == v.filter(
                |c: ContratOption| dans_la_plage(c.cle.strike, prix, plage),
            ).to_multiset()
            &&& forall|i: int, j: int|
                0 <= i < j < r.len() ==> {
                    let (a, b) = ((#[trigger] r[i]).cle, (#[trigger] r[j]).cle);
                    &&& a.echeance.0.micros <= b.echeance.0.micros
                    &&& a.echeance.0.micros == b.echeance.0.micros ==> a.strike.clef()
                        <= b.strike.clef()
                    &&& a.echeance.0.micros == b.echeance.0.micros && a.strike.clef()
                        == b.strike.clef() ==> a.sens == Sens::Call || b.sens == Sens::Put
                }
        }),
{
    let avant = |a: ContratOption, b: ContratOption| contrat_avant(a, b);
    assert(ordre_faible(avant));
    la_plage_garde_ce_qui_est_entre_ses_bornes(v, prix, plage);
    let s = contrats_dans_la_plage(v, prix, plage);
    le_tri_range_sans_rien_perdre(s, avant);
    let r = triee(s, avant);
    assert forall|i: int, j: int| 0 <= i < j < r.len() implies {
        let (a, b) = ((#[trigger] r[i]).cle, (#[trigger] r[j]).cle);
        &&& a.echeance.0.micros <= b.echeance.0.micros
        &&& a.echeance.0.micros == b.echeance.0.micros ==> a.strike.clef() <= b.strike.clef()
        &&& a.echeance.0.micros == b.echeance.0.micros && a.strike.clef() == b.strike.clef()
            ==> a.sens == Sens::Call || b.sens == Sens::Put
    } by {
        assert(!avant(r[j], r[i]));
    }
}

/// Le poids d'un côté d'une ligne dans le gamma.
pub open spec fn poids_du_cote(l: Ligne, sens: Sens) -> Flottant {
    du_cote(l, sens).gamma.fois(du_cote(l, sens).open_interest).abs()
}

/// Un côté de la chaîne pèse au moins autant que ce poids, et cette clé est la sienne.
pub open spec fn pese_autant(c: CleContrat, v: Seq<Ligne>, poids: Flottant) -> bool {
    exists|k: int|
        0 <= k < v.len() && (#[trigger] v[k]).echeance == c.echeance && v[k].strike == c.strike
            && poids.clef() <= poids_du_cote(v[k], c.sens).clef()
}

/// Le vif prend les plus lourds : un côté qui pèse quelque chose y est, ou alors le budget est
/// plein de contrats qui pèsent au moins autant.
pub proof fn le_vif_prend_les_plus_lourds(v: Seq<Ligne>, budget: nat, k: int, sens: Sens)
    requires
        0 <= k < v.len(),
        poids_du_cote(v[k], sens).positif(),
    ensures
        ({
            let cle = CleContrat { echeance: v[k].echeance, strike: v[k].strike, sens };
            let vif = vif_de(v, budget);
            vif.contains(cle) || (vif.len() == budget && forall|i: int|
                0 <= i < vif.len() ==> pese_autant(
                    #[trigger] vif[i],
                    v,
                    poids_du_cote(v[k], sens),
                ))
        }),
{
    let avant = |a: Pese, b: Pese| pese_avant(a, b);
    assert(ordre_faible(avant));
    let p = peses_de(v);
    let t = peses_ranges(v);
    le_tri_range_sans_rien_perdre(p, avant);
    le_tri_garde_les_elements(p, avant);
    let poids = poids_du_cote(v[k], sens);
    let cle = CleContrat { echeance: v[k].echeance, strike: v[k].strike, sens };
    let x = Pese { poids, cle };
    lemme_tout_cote_est_pese(v, k, sens);
    assert(t.contains(x));
    let n = choose|n: int| 0 <= n < t.len() && t[n] == x;
    let vif = vif_de(v, budget);
    if n < vif.len() {
        assert(vif[n] == cle);
    } else {
        assert forall|i: int| 0 <= i < vif.len() implies pese_autant(
            #[trigger] vif[i],
            v,
            poids,
        ) by {
            assert(!avant(t[n], t[i]));
            assert(t.contains(t[i]));
            lemme_d_ou_vient_un_poids(v, t[i]);
        }
    }
}

/// Tout côté qui pèse quelque chose est pesé, à son poids.
proof fn lemme_tout_cote_est_pese(v: Seq<Ligne>, k: int, sens: Sens)
    requires
        0 <= k < v.len(),
        poids_du_cote(v[k], sens).positif(),
    ensures
        peses_de(v).contains(
            Pese {
                poids: poids_du_cote(v[k], sens),
                cle: CleContrat { echeance: v[k].echeance, strike: v[k].strike, sens },
            },
        ),
    decreases v.len(),
{
    let x = Pese {
        poids: poids_du_cote(v[k], sens),
        cle: CleContrat { echeance: v[k].echeance, strike: v[k].strike, sens },
    };
    let (t, l) = (v.drop_last(), v.last());
    let a = peses_de(t);
    let b = avec_le_cote(a, l, Sens::Call);
    let c = avec_le_cote(b, l, Sens::Put);
    assert(c == peses_de(v));
    if k < t.len() {
        lemme_tout_cote_est_pese(t, k, sens);
        assert(t[k] == v[k]);
    }
    if b.len() > a.len() {
        lemme_push_contient(a, b.last(), x);
        assert(b =~= a.push(b.last()));
    }
    if c.len() > b.len() {
        lemme_push_contient(b, c.last(), x);
        assert(c =~= b.push(c.last()));
    }
}

/// Ce qui est pesé est un côté de la chaîne, à son poids.
proof fn lemme_d_ou_vient_un_poids(v: Seq<Ligne>, x: Pese)
    requires
        peses_de(v).contains(x),
    ensures
        exists|k: int|
            0 <= k < v.len() && (#[trigger] v[k]).echeance == x.cle.echeance && v[k].strike
                == x.cle.strike && x.poids == poids_du_cote(v[k], x.cle.sens),
    decreases v.len(),
{
    if v.len() > 0 {
        let (t, l) = (v.drop_last(), v.last());
        let a = peses_de(t);
        let b = avec_le_cote(a, l, Sens::Call);
        let c = peses_de(v);
        let i = choose|i: int| 0 <= i < c.len() && c[i] == x;
        if i < a.len() {
            assert(a[i] == x);
            lemme_d_ou_vient_un_poids(t, x);
            let k = choose|k: int|
                0 <= k < t.len() && (#[trigger] t[k]).echeance == x.cle.echeance && t[k].strike
                    == x.cle.strike && x.poids == poids_du_cote(t[k], x.cle.sens);
            assert(v[k] == t[k]);
        } else {
            if i < b.len() {
                assert(b[i] == x);
            }
            assert(v[v.len() - 1] == l);
        }
    }
}

/// Deux clés désignent le même contrat ou non, dans quelque ordre qu'on les prenne. Une clé
/// désigne le sien ; ni une autre échéance, ni l'autre sens ne le font.
pub proof fn une_cle_designe_son_contrat(a: CleContrat, b: CleContrat)
    ensures
        meme_contrat(a, b) == meme_contrat(b, a),
        a.strike.fini() ==> meme_contrat(a, a),
        a.echeance != b.echeance ==> !meme_contrat(a, b),
        a.sens != b.sens ==> !meme_contrat(a, b),
{
    lemme_difference_opposee(a.strike, b.strike);
    lemme_oppose(a.strike.moins(b.strike));
    lemme_oppose(b.strike.moins(a.strike));
    if a.strike.fini() {
        lemme_difference_ordonnee(a.strike, a.strike);
        lemme_oppose(a.strike.moins(a.strike));
        lemme_un_milliardieme();
    }
}

/// Un milliardième n'est pas nul.
pub(crate) proof fn lemme_un_milliardieme()
    ensures
        Flottant::fraction(1, 1_000_000_000).positif(),
{
    reveal(rapport);
    lemma2_to64();
    lemma_pow2_strictly_increases(30, 1074);
    assert(1 * pow2(1074) == pow2(1074));
    lemme_arrondi_positif(pow2(1074), 1_000_000_000);
}

/// Un contrat du catalogue se retrouve par sa clé, et toute une sélection prise au catalogue se
/// recolle sans rien perdre.
pub proof fn un_contrat_du_catalogue_se_retrouve(
    selection: Seq<CleContrat>,
    catalogue: Seq<ContratOption>,
)
    requires
        forall|i: int|
            0 <= i < selection.len() ==> (#[trigger] selection[i]).strike.fini() && exists|k: int|
                0 <= k < catalogue.len() && (#[trigger] catalogue[k]).cle == selection[i],
    ensures
        recollee(selection, catalogue).len() == selection.len(),
        forall|i: int|
            0 <= i < selection.len() ==> meme_contrat(
                (#[trigger] recollee(selection, catalogue)[i]).cle,
                selection[i],
            ),
    decreases selection.len(),
{
    if selection.len() > 0 {
        let t = selection.drop_last();
        assert forall|i: int| 0 <= i < t.len() implies (#[trigger] t[i]).strike.fini()
            && exists|k: int| 0 <= k < catalogue.len() && (#[trigger] catalogue[k]).cle == t[i] by {
            assert(t[i] == selection[i]);
        }
        un_contrat_du_catalogue_se_retrouve(t, catalogue);
        let n = selection.len() - 1;
        assert(selection[n] == selection.last());
        let k = choose|k: int|
            0 <= k < catalogue.len() && (#[trigger] catalogue[k]).cle == selection[n];
        lemme_trouve(selection[n], catalogue, k);
        let (a, b) = (recollee(t, catalogue), recollee(selection, catalogue));
        assert forall|i: int| 0 <= i < selection.len() implies meme_contrat(
            (#[trigger] b[i]).cle,
            selection[i],
        ) by {
            if i < n {
                assert(b[i] == a[i]);
                assert(t[i] == selection[i]);
            }
        }
    }
}

proof fn lemme_trouve(cle: CleContrat, catalogue: Seq<ContratOption>, k: int)
    requires
        0 <= k < catalogue.len(),
        catalogue[k].cle == cle,
        cle.strike.fini(),
    ensures
        au_catalogue(cle, catalogue) matches Some(c) && meme_contrat(c.cle, cle),
    decreases catalogue.len(),
{
    une_cle_designe_son_contrat(cle, cle);
    if !meme_contrat(catalogue[0].cle, cle) {
        assert(catalogue.skip(1)[k - 1] == catalogue[k]);
        lemme_trouve(cle, catalogue.skip(1), k - 1);
    }
}

/// L'horizon compte ses jours depuis le relevé, ses deux bords compris : le jour à `n` jours du
/// relevé y est si et seulement si `n` est entre ses bornes.
pub proof fn l_horizon_comprend_ses_bords(
    jour: Jour,
    releve: InstantReleve,
    n: int,
    dte_max: i64,
    dte_min: i64,
)
    requires
        jour.numero == releve.0.jour_compte() + n,
    ensures
        dans_l_horizon(jour, releve, Some(dte_max), dte_min) <==> dte_min <= n <= dte_max,
        dans_l_horizon(jour, releve, None, dte_min) <==> dte_min <= n,
{
}

} // verus!
