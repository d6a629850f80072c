//! Ce que la cadence du collecteur promet : quand rebalayer, quand recycler, combien attendre.

#[allow(unused_imports)]
use super::decisions::{attente_de, courts_sous, journee_de, rebalayage_du, reselection_due, HORIZONS_COURTS};
use crate::calendrier::Instant;
use crate::flottant::Flottant;
#[allow(unused_imports)]
use crate::flottant::lemme_produit_nul;
#[allow(unused_imports)]
use crate::ordre::{
    lemme_difference_ordonnee, lemme_difference_stricte, lemme_oppose, lemme_produit_commute,
    lemme_produit_croit, lemme_signe_du_produit, lemme_somme_commute, lemme_somme_croit,
    lemme_somme_definie, lemme_somme_zero,
};
#[allow(unused_imports)]
use vstd::arithmetic::power2::*;
use vstd::prelude::*;

verus! {

/// La journée de compensation change à vingt-trois heures UTC : avant, c'est le jour même ; à
/// partir de là, le lendemain.
pub proof fn la_journee_change_a_vingt_trois_heures(jour: int, dans_le_jour: int, i: Instant)
    requires
        0 <= dans_le_jour < 86_400_000_000,
        i.micros == jour * 86_400_000_000 + dans_le_jour,
    ensures
        dans_le_jour < 23 * 3_600_000_000 ==> journee_de(i) == jour,
        dans_le_jour >= 23 * 3_600_000_000 ==> journee_de(i) == jour + 1,
{
    let x = i.micros + 3_600_000_000;
    if dans_le_jour < 23 * 3_600_000_000 {
        vstd::arithmetic::div_mod::lemma_fundamental_div_mod_converse(
            x,
            86_400_000_000,
            jour,
            dans_le_jour + 3_600_000_000,
        );
    } else {
        vstd::arithmetic::div_mod::lemma_fundamental_div_mod_converse(
            x,
            86_400_000_000,
            jour + 1,
            dans_le_jour - 23 * 3_600_000_000,
        );
    }
}

/// Un socle se rebalaie quand il n'y en a pas, ou quand vingt-trois heures ont sonné depuis ; plus
/// tard, il se rebalaie encore.
pub proof fn un_socle_perime_le_reste(socle: Instant, maintenant: Instant, plus_tard: Instant)
    requires
        maintenant.micros <= plus_tard.micros,
    ensures
        rebalayage_du(None, maintenant),
        maintenant.micros <= socle.micros ==> !rebalayage_du(Some(socle), maintenant),
        rebalayage_du(Some(socle), maintenant) ==> rebalayage_du(Some(socle), plus_tard),
        maintenant.micros >= socle.micros + 86_400_000_000 ==> rebalayage_du(
            Some(socle),
            maintenant,
        ),
{
}

/// Un prix hors de la bande demande toujours une autre sélection ; à marge nulle, lui seul, ou une
/// bande sans largeur ; sans bande, toujours.
pub proof fn un_prix_hors_de_la_bande_demande_une_selection(
    spot: Flottant,
    bas: Flottant,
    haut: Flottant,
    marge: Flottant,
)
    requires
        spot.fini(),
        bas.fini(),
        haut.fini(),
        marge.fini(),
        marge.clef() >= 0,
        haut.moins(bas).fini(),
        haut.moins(bas).fois(marge).fini(),
    ensures
        reselection_due(spot, None, marge),
        spot.inferieur(bas) || haut.inferieur(spot) ==> reselection_due(
            spot,
            Some((bas, haut)),
            marge,
        ),
        haut.inferieur_ou_egal(bas) ==> reselection_due(spot, Some((bas, haut)), marge),
        marge.rang() == 0 && bas.inferieur(haut) ==> (reselection_due(
            spot,
            Some((bas, haut)),
            marge,
        ) <==> spot.inferieur(bas) || haut.inferieur(spot)),
{
    let largeur = haut.moins(bas);
    let garde = largeur.fois(marge);
    let z = Flottant::nul();
    if bas.inferieur(haut) {
        lemme_difference_stricte(bas, haut);
        lemme_signe_du_produit(largeur, marge);
        lemme_oppose(garde);
        lemme_somme_definie(bas, garde);
        lemme_somme_definie(haut, garde.neg());
        lemme_somme_zero(bas, z);
        lemme_somme_zero(haut, z);
        lemme_somme_commute(bas, garde);
        lemme_somme_commute(bas, z);
        lemme_somme_commute(haut, garde.neg());
        lemme_somme_commute(haut, z);
        lemme_somme_croit(z, garde, bas);
        lemme_somme_croit(garde.neg(), z, haut);
        if marge.rang() == 0 {
            lemme_produit_nul(largeur, marge);
            lemme_somme_zero(bas, garde);
            lemme_somme_zero(haut, garde.neg());
        }
    } else {
        lemme_difference_ordonnee(haut, bas);
    }
}

/// Une marge plus large ne dispense jamais d'une sélection qu'une plus étroite demandait.
pub proof fn une_marge_plus_large_est_plus_prudente(
    spot: Flottant,
    bas: Flottant,
    haut: Flottant,
    marge: Flottant,
    plus_large: Flottant,
)
    requires
        spot.fini(),
        bas.fini(),
        haut.fini(),
        marge.inferieur_ou_egal(plus_large),
        bas.inferieur(haut),
        haut.moins(bas).fini(),
        haut.moins(bas).fois(marge).fini(),
        haut.moins(bas).fois(plus_large).fini(),
        reselection_due(spot, Some((bas, haut)), marge),
    ensures
        reselection_due(spot, Some((bas, haut)), plus_large),
{
    let largeur = haut.moins(bas);
    lemme_difference_stricte(bas, haut);
    let (g, h) = (largeur.fois(marge), largeur.fois(plus_large));
    lemme_produit_commute(largeur, marge);
    lemme_produit_commute(largeur, plus_large);
    lemme_produit_croit(marge, plus_large, largeur);
    lemme_oppose(g);
    lemme_oppose(h);
    lemme_somme_definie(bas, g);
    lemme_somme_definie(bas, h);
    lemme_somme_definie(haut, g.neg());
    lemme_somme_definie(haut, h.neg());
    lemme_somme_commute(bas, g);
    lemme_somme_commute(bas, h);
    lemme_somme_commute(haut, g.neg());
    lemme_somme_commute(haut, h.neg());
    lemme_somme_croit(g, h, bas);
    lemme_somme_croit(h.neg(), g.neg(), haut);
}

/// L'attente est de cinq secondes doublées à chaque tentative, jamais plus de trois cents.
pub proof fn l_attente_double_jusqu_a_cinq_minutes(tentative: nat)
    ensures
        attente_de(tentative) == if 5 * pow2(tentative) < 300 {
            5 * pow2(tentative)
        } else {
            300
        },
    decreases tentative,
{
    lemma2_to64();
    if tentative > 0 {
        l_attente_double_jusqu_a_cinq_minutes((tentative - 1) as nat);
        lemma_pow2_unfold(tentative);
    }
}

/// Les horizons courts suivis sont ceux du jour, du lendemain et de la semaine qui sont plus brefs
/// que celui de la collecte.
pub proof fn les_horizons_courts_sont_plus_brefs(dte_max: int, h: i64)
    ensures
        courts_sous(dte_max, 3).contains(h) <==> (h == 0 || h == 1 || h == 7) && h < dte_max,
{
    let v = courts_sous(dte_max, 3);
    reveal_with_fuel(courts_sous, 4);
    assert(HORIZONS_COURTS[0] == 0 && HORIZONS_COURTS[1] == 1 && HORIZONS_COURTS[2] == 7);
    let (a, b, c) = (courts_sous(dte_max, 0), courts_sous(dte_max, 1), courts_sous(dte_max, 2));
    assert(!a.contains(h));
    crate::tri::lemme_push_contient(a, 0i64, h);
    crate::tri::lemme_push_contient(b, 1i64, h);
    crate::tri::lemme_push_contient(c, 7i64, h);
}

} // verus!
