//! Ce qu'une analyse de séance promet d'un chiffre à l'autre.

#[allow(unused_imports)]
use super::analyse::{
    analyse_juste, croisements_de, ecart_de, exposee, lignes_vives, mesures, part_de, profil_de,
    strikes_definis, total, Analyse, AgregatStrike, LigneExposee, Parametres,
};
#[allow(unused_imports)]
use super::chaine::Chaine;
#[allow(unused_imports)]
use super::echeances::les_proches_sont_sous_le_seuil;
#[allow(unused_imports)]
use super::strikes::{
    au_strike, cumule_les_lignes, est_le_plus_gros, la_table_cumule_toutes_les_lignes_d_un_strike,
    les_majeurs_sont_les_extremes_du_gex_net, les_murs_sont_les_plus_gros_de_leur_cote,
    resistance, support, table_definie,
};
use crate::flottant::Flottant;
#[allow(unused_imports)]
use crate::flottant::{lemme_quotient_par_soi, rapport};
#[allow(unused_imports)]
use crate::ordre::{
    lemme_difference_opposee, lemme_difference_ordonnee, lemme_double_moins_simple, lemme_oppose,
    lemme_quotient_oppose, lemme_signe_du_quotient, lemme_zero_absorbe,
};
use vstd::prelude::*;

verus! {

/// Les six totaux sont ceux des lignes, colonne par colonne, et l'analyse garde le prix,
/// l'instant et la taille du contrat dont elle vient.
pub proof fn les_totaux_sont_ceux_des_lignes(
    a: Analyse,
    ln: spec_fn(Flottant) -> Flottant,
    exp: spec_fn(Flottant) -> Flottant,
    chaine: Chaine,
    params: Parametres,
)
    requires
        analyse_juste(a, ln, exp, chaine, params),
    ensures
        ({
            let (s, n) = (a.lignes@, a.lignes@.len());
            &&& a.spot == chaine.spot
            &&& a.releve == chaine.releve
            &&& a.taille_contrat == params.taille_contrat
            &&& a.gex == total(Seq::new(n, |i: int| s[i].gex))
            &&& a.charm == total(Seq::new(n, |i: int| s[i].charm))
            &&& a.vanna == total(Seq::new(n, |i: int| s[i].vanna))
            &&& a.delta == total(Seq::new(n, |i: int| s[i].delta))
            &&& a.vega == total(Seq::new(n, |i: int| s[i].vega))
            &&& a.theta == total(Seq::new(n, |i: int| s[i].theta))
        }),
{
    let (s, n) = (a.lignes@, a.lignes@.len());
    assert(Seq::new(n, |i: int| s[i].gex) =~= mesures(s, |l: LigneExposee| l.gex));
    assert(Seq::new(n, |i: int| s[i].charm) =~= mesures(s, |l: LigneExposee| l.charm));
    assert(Seq::new(n, |i: int| s[i].vanna) =~= mesures(s, |l: LigneExposee| l.vanna));
    assert(Seq::new(n, |i: int| s[i].delta) =~= mesures(s, |l: LigneExposee| l.delta));
    assert(Seq::new(n, |i: int| s[i].vega) =~= mesures(s, |l: LigneExposee| l.vega));
    assert(Seq::new(n, |i: int| s[i].theta) =~= mesures(s, |l: LigneExposee| l.theta));
    assert(mesures(s, super::analyse::le_gex()) =~= mesures(s, |l: LigneExposee| l.gex));
    assert(mesures(s, super::analyse::le_charm()) =~= mesures(s, |l: LigneExposee| l.charm));
}

/// L'analyse porte une ligne exposée par ligne vive de la chaîne, dans le même ordre, au prix et
/// à l'instant de la chaîne.
pub proof fn l_analyse_porte_les_lignes_vives(
    a: Analyse,
    ln: spec_fn(Flottant) -> Flottant,
    exp: spec_fn(Flottant) -> Flottant,
    chaine: Chaine,
    params: Parametres,
)
    requires
        analyse_juste(a, ln, exp, chaine, params),
    ensures
        ({
            let v = lignes_vives(chaine.vue(), chaine.releve, params.dte_max, params.dte_min);
            &&& a.lignes@.len() == v.len()
            &&& forall|i: int|
                0 <= i < v.len() ==> (#[trigger] a.lignes@[i]).ligne == v[i] && a.lignes@[i]
                    == exposee(ln, exp, v[i], chaine.spot, chaine.releve, params)
        }),
{
}

/// La table de l'analyse cumule ses lignes par strike ; ses murs de gamma se cherchent dans la
/// bande des murs de gamma, ceux comptés en contrats dans la leur, chacun de son côté du spot,
/// et ses strikes majeurs sont les extrêmes du GEX net.
pub proof fn les_murs_de_l_analyse_sont_dans_leur_bande(
    a: Analyse,
    ln: spec_fn(Flottant) -> Flottant,
    exp: spec_fn(Flottant) -> Flottant,
    chaine: Chaine,
    params: Parametres,
)
    requires
        analyse_juste(a, ln, exp, chaine, params),
        strikes_definis(a.lignes@),
        table_definie(a.par_strike@),
    ensures
        ({
            let t = a.par_strike@;
            let (haut, bas) = (
                resistance(a.spot, params.plage_murs),
                support(a.spot, params.plage_murs),
            );
            let (haut_oi, bas_oi) = (
                resistance(a.spot, params.plage_murs_oi),
                support(a.spot, params.plage_murs_oi),
            );
            &&& forall|i: int|
                0 <= i < t.len() ==> cumule_les_lignes(
                    #[trigger] t[i],
                    a.lignes@.filter(au_strike(t[i].strike)),
                )
            &&& est_le_plus_gros(t, haut, |x: AgregatStrike| x.call_gex, a.murs.call)
            &&& est_le_plus_gros(t, bas, |x: AgregatStrike| x.put_gex.neg(), a.murs.put)
            &&& est_le_plus_gros(t, haut_oi, |x: AgregatStrike| x.call_oi, a.murs.call_oi)
            &&& est_le_plus_gros(t, bas_oi, |x: AgregatStrike| x.put_oi, a.murs.put_oi)
            &&& est_le_plus_gros(t, haut_oi, |x: AgregatStrike| x.call_vol, a.murs.call_vol)
            &&& est_le_plus_gros(t, bas_oi, |x: AgregatStrike| x.put_vol, a.murs.put_vol)
            &&& est_le_plus_gros(
                t,
                |x: AgregatStrike| true,
                |x: AgregatStrike| x.gex,
                a.gamma_majeur.long,
            )
            &&& est_le_plus_gros(
                t,
                |x: AgregatStrike| true,
                |x: AgregatStrike| x.gex.neg(),
                a.gamma_majeur.court,
            )
        }),
{
    let t = a.par_strike@;
    la_table_cumule_toutes_les_lignes_d_un_strike(a.lignes@);
    les_murs_sont_les_plus_gros_de_leur_cote(t, a.spot, params.plage_murs);
    les_murs_sont_les_plus_gros_de_leur_cote(t, a.spot, params.plage_murs_oi);
    les_majeurs_sont_les_extremes_du_gex_net(t);
}

/// Le profil de l'analyse est celui de ses lignes sur sa grille, ses croisements sont ceux de ce
/// profil, et son zero gamma est l'un d'eux, le plus proche du prix.
pub proof fn le_zero_gamma_de_l_analyse_est_un_croisement_de_son_profil(
    a: Analyse,
    ln: spec_fn(Flottant) -> Flottant,
    exp: spec_fn(Flottant) -> Flottant,
    chaine: Chaine,
    params: Parametres,
)
    requires
        analyse_juste(a, ln, exp, chaine, params),
        forall|i: int|
            0 <= i < a.croisements@.len() ==> !(#[trigger] a.croisements@[i]).moins(a.spot).nan(),
    ensures
        a.profil@ == profil_de(ln, exp, a.lignes@, a.niveaux@, a.spot, params),
        a.croisements@ == croisements_de(a.niveaux@, a.profil@, a.niveaux@.len()),
        a.carburant@.len() == a.niveaux@.len(),
        a.zero_gamma is None <==> a.croisements@.len() == 0,
        a.zero_gamma matches Some(z) ==> a.croisements@.contains(z) && forall|i: int|
            0 <= i < a.croisements@.len() ==> z.moins(a.spot).abs().inferieur_ou_egal(
                (#[trigger] a.croisements@[i]).moins(a.spot).abs(),
            ),
{
    if a.croisements@.len() > 0 {
        super::profils::aucun_croisement_n_est_plus_pres(a.croisements@, a.spot);
    }
}

/// La part des échéances courtes ne compte que les lignes à un jour ou moins.
pub proof fn les_echeances_courtes_sont_a_un_jour_ou_moins(
    a: Analyse,
    ln: spec_fn(Flottant) -> Flottant,
    exp: spec_fn(Flottant) -> Flottant,
    chaine: Chaine,
    params: Parametres,
)
    requires
        analyse_juste(a, ln, exp, chaine, params),
    ensures
        ({
            let s = a.lignes@;
            let p = s.filter(|l: LigneExposee| l.dte <= 1);
            &&& p.len() == 0 ==> a.part_courtes.gex is None && a.part_courtes.charm is None
            &&& p.len() > 0 ==> a.part_courtes.gex == part_de(
                total(Seq::new(p.len(), |i: int| p[i].gex)),
                a.gex,
            ) && a.part_courtes.charm == part_de(
                total(Seq::new(p.len(), |i: int| p[i].charm)),
                a.charm,
            )
        }),
{
    let s = a.lignes@;
    les_proches_sont_sous_le_seuil(s, 1);
    assert(s.filter(|l: LigneExposee| l.dte <= 1int) == s.filter(|l: LigneExposee| l.dte <= 1));
    let p = s.filter(|l: LigneExposee| l.dte <= 1);
    assert(mesures(p, super::analyse::le_gex()) =~= Seq::new(p.len(), |i: int| p[i].gex));
    assert(mesures(p, super::analyse::le_charm()) =~= Seq::new(p.len(), |i: int| p[i].charm));
}

/// L'écart des deux gammas se rapporte au publié : nul quand ils se valent, de un quand l'un est
/// le double de l'autre, positif quand le recalculé passe le publié. Il n'y en a pas quand le
/// publié est nul.
pub proof fn l_ecart_des_gammas_se_rapporte_au_publie(iv: Flottant, publie: Flottant)
    requires
        iv.fini(),
        publie.fini(),
    ensures
        ecart_de(iv, publie) is None <==> publie.rang() == 0,
        ecart_de(iv, publie) matches Some(e) ==> {
            &&& e.iv == iv
            &&& e.publie == publie
            &&& !e.relatif.nan()
            &&& publie.inferieur_ou_egal(iv) ==> e.relatif.clef() >= 0
            &&& iv.inferieur_ou_egal(publie) ==> e.relatif.clef() <= 0
            &&& iv.de_meme_valeur(publie) ==> e.relatif.rang() == 0
            &&& iv.valeur() == 2 * publie.valeur() && publie.positif() ==> e.relatif == rapport(
                1,
                1,
            )
            &&& iv.valeur() == 2 * publie.valeur() && !publie.positif()
                ==> e.relatif.de_meme_valeur(rapport(1, 1).neg())
        },
{
    lemme_oppose(publie);
    if publie.rang() != 0 {
        let a = publie.abs();
        let d = iv.moins(publie);
        if publie.inferieur_ou_egal(iv) {
            lemme_difference_ordonnee(publie, iv);
        }
        if iv.inferieur_ou_egal(publie) {
            lemme_difference_ordonnee(iv, publie);
            lemme_difference_opposee(iv, publie);
        }
        assert(!d.par(a).nan()) by {
            reveal(Flottant::quotient);
            crate::flottant::lemme_magnitude_nulle(a);
            if d.fini() {
                crate::erreur::lemme_arrondi_encadre(
                    d.negatif() != a.negatif(),
                    d.magnitude() * vstd::arithmetic::power2::pow2(1074),
                    a.magnitude(),
                );
            }
        }
        lemme_signe_du_quotient(d, a);
        if iv.de_meme_valeur(publie) {
            lemme_zero_absorbe(d, a);
        }
        if iv.valeur() == 2 * publie.valeur() {
            lemme_double_moins_simple(publie, iv);
            lemme_quotient_par_soi(a);
            crate::flottant::un_entier_est_exact(1);
            lemme_oppose(rapport(1, 1));
            if publie.positif() {
                assert(a == publie);
            } else {
                lemme_quotient_oppose(a, a);
                assert(a.neg() == publie);
            }
        }
    }
}

} // verus!
