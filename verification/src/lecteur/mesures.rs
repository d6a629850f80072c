//! Ce que le rapport et la ligne d'historique disent de l'analyse.

#[allow(unused_imports)]
use super::nombres::{a_droite_de, groupe_de, groupe_signe_de, optionnel_de, pic};
#[allow(unused_imports)]
use super::rapport::{
    avis_d_ecart, avis_de_courtes, avis_de_croisement, corps_de, decimales_de, deja_vue,
    distance_de, echeances_distinctes, entete_de, est_ligne_de, horizon_de, ligne_de_mur,
    ligne_de_position, mouvements, poids_de, unite_de,
};
#[allow(unused_imports)]
use crate::coeur::analyse::{
    analyse_juste, strikes_definis, total, AgregatStrike, Analyse, LigneExposee, Parametres,
};
#[allow(unused_imports)]
use crate::coeur::chaine::Chaine;
#[allow(unused_imports)]
use crate::coeur::seance::{
    les_murs_de_l_analyse_sont_dans_leur_bande, les_totaux_sont_ceux_des_lignes,
};
#[allow(unused_imports)]
use crate::coeur::strikes::{est_le_plus_gros, resistance, support, table_definie};
#[allow(unused_imports)]
use crate::entiers::le_produit_de_petits_entiers_est_exact;
#[allow(unused_imports)]
use crate::fixe::ecrit;
use crate::flottant::Flottant;
#[allow(unused_imports)]
use crate::flottant::{lemme_quotient_par_soi, rapport, un_entier_est_exact};
#[allow(unused_imports)]
use crate::ordre::{
    lemme_difference_ordonnee, lemme_double_moins_simple, lemme_oppose, lemme_signe_du_produit,
    lemme_signe_du_quotient,
};
#[allow(unused_imports)]
use crate::store::historique::LigneHistorique;
use vstd::prelude::*;

verus! {

/// La ligne d'historique dit ce que l'analyse mesure : chaque mur porte le plus de son côté du
/// spot, les flux sont les totaux des lignes, et les comptes ceux de ses strikes et de ses
/// échéances.
pub proof fn une_ligne_d_historique_dit_ce_que_l_analyse_mesure(
    l: LigneHistorique,
    a: Analyse,
    ticker: Seq<char>,
    ln: spec_fn(Flottant) -> Flottant,
    exp: spec_fn(Flottant) -> Flottant,
    chaine: Chaine,
    params: Parametres,
)
    requires
        est_ligne_de(l, a, ticker, params),
        analyse_juste(a, ln, exp, chaine, params),
        strikes_definis(a.lignes@),
        table_definie(a.par_strike@),
    ensures
        ({
            let (t, s, n) = (a.par_strike@, a.lignes@, a.lignes@.len());
            let (haut, bas) = (
                resistance(chaine.spot, params.plage_murs),
                support(chaine.spot, params.plage_murs),
            );
            let (haut_oi, bas_oi) = (
                resistance(chaine.spot, params.plage_murs_oi),
                support(chaine.spot, params.plage_murs_oi),
            );
            &&& l.instant == chaine.releve.0
            &&& l.spot == chaine.spot
            &&& l.dte_max == params.dte_max
            &&& l.strikes == t.len()
            &&& l.zero_gamma == a.zero_gamma
            &&& l.iv_atm == a.iv_atm
            &&& l.gex == total(Seq::new(n, |i: int| s[i].gex))
            &&& l.charm == total(Seq::new(n, |i: int| s[i].charm))
            &&& l.vanna == total(Seq::new(n, |i: int| s[i].vanna))
            &&& est_le_plus_gros(t, haut, |x: AgregatStrike| x.call_gex, l.call_wall)
            &&& est_le_plus_gros(t, bas, |x: AgregatStrike| x.put_gex.neg(), l.put_wall)
            &&& est_le_plus_gros(t, haut_oi, |x: AgregatStrike| x.call_oi, l.call_wall_oi)
            &&& est_le_plus_gros(t, bas_oi, |x: AgregatStrike| x.put_oi, l.put_wall_oi)
        }),
{
    les_murs_de_l_analyse_sont_dans_leur_bande(a, ln, exp, chaine, params);
    les_totaux_sont_ceux_des_lignes(a, ln, exp, chaine, params);
}

/// Les échéances de lignes, chacune une fois.
pub open spec fn echeances_en(v: Seq<LigneExposee>) -> Set<i64> {
    Seq::new(v.len(), |i: int| v[i].ligne.echeance.0.micros).to_set()
}

/// Chaque échéance se compte une fois, quel que soit le nombre de ses lignes.
pub proof fn une_echeance_se_compte_une_fois(v: Seq<LigneExposee>)
    ensures
        echeances_en(v).finite(),
        echeances_distinctes(v) == echeances_en(v).len(),
    decreases v.len(),
{
    let s = Seq::new(v.len(), |i: int| v[i].ligne.echeance.0.micros);
    if v.len() == 0 {
        assert(echeances_en(v) =~= Set::empty());
    } else {
        let (t, l) = (v.drop_last(), v.last());
        une_echeance_se_compte_une_fois(t);
        let u = Seq::new(t.len(), |i: int| t[i].ligne.echeance.0.micros);
        let e = l.ligne.echeance.0.micros;
        assert(s =~= u.push(e));
        assert(echeances_en(v) =~= echeances_en(t).insert(e)) by {
            assert forall|x: i64| #[trigger] echeances_en(v).contains(x) <==> echeances_en(
                t,
            ).insert(e).contains(x) by {
                crate::tri::lemme_push_contient(u, e, x);
                assert(s.contains(x) <==> u.contains(x) || x == e);
            }
        }
        assert(deja_vue(t, l) <==> echeances_en(t).contains(e)) by {
            if deja_vue(t, l) {
                let i = choose|i: int|
                    0 <= i < t.len() && (#[trigger] t[i]).ligne.echeance.0.micros == e;
                assert(u[i] == e);
            }
            if u.contains(e) {
                let i = choose|i: int| 0 <= i < u.len() && u[i] == e;
                assert(t[i].ligne.echeance.0.micros == e);
            }
        }
    }
}

/// La distance au zero gamma se compte depuis lui, en pour cent de lui : nulle dessus, positive
/// quand le prix est au-dessus, de cent quand il vaut le double.
pub proof fn la_distance_se_compte_depuis_le_zero_gamma(a: Analyse, z: Flottant)
    requires
        a.zero_gamma == Some(z),
        z.fini(),
        z.positif(),
        a.spot.fini(),
    ensures
        distance_de(a) is Some,
        ({
            let d = distance_de(a)->0;
            &&& a.spot.valeur() == 2 * z.valeur() ==> d == rapport(100, 1)
            &&& !d.nan() && z.inferieur_ou_egal(a.spot) ==> d.clef() >= 0
            &&& !d.nan() && a.spot.inferieur_ou_egal(z) ==> d.clef() <= 0
        }),
{
    let e = a.spot.moins(z);
    let d = distance_de(a)->0;
    un_entier_est_exact(100);
    un_entier_est_exact(1);
    if a.spot.valeur() == 2 * z.valeur() {
        lemme_double_moins_simple(z, a.spot);
        lemme_quotient_par_soi(z);
        le_produit_de_petits_entiers_est_exact(1, 100);
    }
    if !d.nan() {
        assert(!e.par(z).nan()) by {
            reveal(Flottant::produit);
        }
        lemme_signe_du_quotient(e, z);
        lemme_signe_du_produit(e.par(z), Flottant::entier(100));
        if z.inferieur_ou_egal(a.spot) {
            lemme_difference_ordonnee(z, a.spot);
        }
        if a.spot.inferieur_ou_egal(z) {
            lemme_difference_ordonnee(a.spot, z);
        }
    }
}

/// Le pic n'est sous aucune valeur finie, prise en valeur absolue, et c'est l'une d'elles ou zéro.
pub proof fn aucune_valeur_ne_passe_le_pic(v: Seq<Flottant>)
    ensures
        !pic(v).nan(),
        pic(v).clef() >= 0,
        forall|i: int|
            0 <= i < v.len() && (#[trigger] v[i]).fini() ==> v[i].abs().inferieur_ou_egal(pic(v)),
        pic(v) == Flottant::nul() || exists|i: int|
            0 <= i < v.len() && (#[trigger] v[i]).fini() && pic(v) == v[i].abs(),
    decreases v.len(),
{
    if v.len() > 0 {
        let (t, x) = (v.drop_last(), v.last());
        aucune_valeur_ne_passe_le_pic(t);
        lemme_oppose(x);
        assert forall|i: int| 0 <= i < v.len() && (#[trigger] v[i]).fini() implies v[i].abs(
        ).inferieur_ou_egal(pic(v)) by {
            if i < t.len() {
                assert(t[i] == v[i]);
            }
        }
        if pic(t) != Flottant::nul() {
            let i = choose|i: int| 0 <= i < t.len() && (#[trigger] t[i]).fini() && pic(t) == t[i].abs();
            assert(v[i] == t[i]);
        }
        assert(v[v.len() - 1] == x);
    }
}

/// Un texte porte un morceau.
pub open spec fn porte(s: Seq<char>, morceau: Seq<char>) -> bool {
    exists|p: Seq<char>, q: Seq<char>| s == #[trigger] (p + morceau + q)
}

/// Ce qu'un texte porte, il le porte encore quand on lui ajoute une suite.
proof fn lemme_suite(s: Seq<char>, morceau: Seq<char>, q: Seq<char>)
    requires
        porte(s, morceau),
    ensures
        porte(s + q, morceau),
{
    let (p, r) = choose|p: Seq<char>, r: Seq<char>| s == #[trigger] (p + morceau + r);
    assert(s + q =~= p + morceau + (r + q));
}

/// De même pour cinq suites.
proof fn lemme_cinq_suites(
    s: Seq<char>,
    morceau: Seq<char>,
    a: Seq<char>,
    b: Seq<char>,
    c: Seq<char>,
    d: Seq<char>,
    e: Seq<char>,
)
    requires
        porte(s, morceau),
    ensures
        porte(s + a + b + c + d + e, morceau),
{
    lemme_suite(s, morceau, a);
    lemme_suite(s + a, morceau, b);
    lemme_suite(s + a + b, morceau, c);
    lemme_suite(s + a + b + c, morceau, d);
    lemme_suite(s + a + b + c + d, morceau, e);
}

/// Un texte porte ce qu'on vient de lui ajouter.
proof fn lemme_ajout(p: Seq<char>, morceau: Seq<char>)
    ensures
        porte(p + morceau, morceau),
{
    assert(p + morceau =~= p + morceau + Seq::<char>::empty());
}

/// De même pour deux morceaux de suite.
proof fn lemme_deux_ajouts(p: Seq<char>, a: Seq<char>, b: Seq<char>)
    ensures
        porte(p + a + b, a + b),
{
    assert(p + a + b =~= p + (a + b));
    lemme_ajout(p, a + b);
}

/// De même pour cinq morceaux de suite.
proof fn lemme_cinq_ajouts(
    p: Seq<char>,
    a: Seq<char>,
    b: Seq<char>,
    c: Seq<char>,
    d: Seq<char>,
    e: Seq<char>,
)
    ensures
        porte(p + a + b + c + d + e, a + b + c + d + e),
{
    assert(p + a + b + c + d + e =~= p + (a + b + c + d + e));
    lemme_ajout(p, a + b + c + d + e);
}

/// Le rapport porte chaque chiffre sous son titre : le zero gamma, le mur de calls par le gamma
/// puis par l'open interest, celui de puts de même, le max pain, le charm par jour et la vanna par
/// point de volatilité dans une unité commune, puis le delta, le vega et le thêta.
pub proof fn le_rapport_porte_chaque_chiffre_sous_son_titre(a: Analyse)
    ensures
        ({
            let (s, dec) = (corps_de(a), decimales_de(a.spot));
            let f = seq![a.charm, a.vanna];
            &&& porte(s, "Zero Gamma : "@ + optionnel_de(a.zero_gamma, dec))
            &&& porte(
                s,
                "Call Wall  : "@ + a_droite_de(optionnel_de(a.murs.call, dec), 12) + " (gamma)   "@
                    + a_droite_de(optionnel_de(a.murs.call_oi, dec), 12) + " (open interest)\n"@,
            )
            &&& porte(
                s,
                "Put Wall   : "@ + a_droite_de(optionnel_de(a.murs.put, dec), 12) + " (gamma)   "@
                    + a_droite_de(optionnel_de(a.murs.put_oi, dec), 12) + " (open interest)\n"@,
            )
            &&& porte(s, "Max Pain   : "@ + a_droite_de(optionnel_de(a.max_pain, dec), 12))
            &&& porte(
                s,
                "Charm      : "@ + groupe_signe_de(a.charm.par(poids_de(f)), 2) + " "@ + unite_de(f)
                    + " $ de delta / jour\n"@,
            )
            &&& porte(
                s,
                "Vanna      : "@ + groupe_signe_de(a.vanna.par(poids_de(f)), 2) + " "@ + unite_de(f)
                    + " $ de delta / point de vol\n"@,
            )
            &&& porte(s, ligne_de_position("Delta      : "@, a.delta, " $ de sous-jacent\n"@))
            &&& porte(s, ligne_de_position("Vega       : "@, a.vega, " $ / point de vol\n"@))
            &&& porte(s, ligne_de_position("Thêta      : "@, a.theta, " $ / jour\n"@))
        }),
{
    let dec = decimales_de(a.spot);
    let (g, f) = (seq![a.gex], seq![a.charm, a.vanna]);
    let gex = "Total GEX  : "@ + groupe_de(a.gex.par(poids_de(g)), 2) + " "@ + unite_de(g)
        + " $ / mouvement de 1%\n"@;
    let (z1, z2) = ("Zero Gamma : "@, optionnel_de(a.zero_gamma, dec));
    let saut = "\n"@;
    let calls = ligne_de_mur("Call Wall  : "@, a.murs.call, a.murs.call_oi, dec);
    let puts = ligne_de_mur("Put Wall   : "@, a.murs.put, a.murs.put_oi, dec);
    let (m1, m2) = ("Max Pain   : "@, a_droite_de(optionnel_de(a.max_pain, dec), 12));
    let m3 = " (échéance la plus proche)\n"@;
    let (c1, c2) = ("Charm      : "@, groupe_signe_de(a.charm.par(poids_de(f)), 2));
    let (v1, v2) = ("Vanna      : "@, groupe_signe_de(a.vanna.par(poids_de(f)), 2));
    let (e, u) = (" "@, unite_de(f));
    let (c5, v5) = (" $ de delta / jour\n"@, " $ de delta / point de vol\n"@);
    let delta = ligne_de_position("Delta      : "@, a.delta, " $ de sous-jacent\n"@);
    let vega = ligne_de_position("Vega       : "@, a.vega, " $ / point de vol\n"@);
    let theta = ligne_de_position("Thêta      : "@, a.theta, " $ / jour\n"@);
    // Le corps, arrêté après chaque chiffre.
    let s1 = gex + z1 + z2;
    let s2 = s1 + saut + calls;
    let s3 = s2 + puts;
    let s4 = s3 + m1 + m2;
    let s5 = s4 + m3;
    let s6 = s5 + c1 + c2 + e + u + c5;
    let s7 = s6 + v1 + v2 + e + u + v5;
    let s8 = s7 + delta;
    let s9 = s8 + vega;
    let s = s9 + theta;
    assert(s == corps_de(a));
    let charm = c1 + c2 + e + u + c5;
    let vanna = v1 + v2 + e + u + v5;
    let (zero, pain) = (z1 + z2, m1 + m2);
    lemme_deux_ajouts(gex, z1, z2);
    lemme_cinq_suites(s1, zero, saut, calls, puts, m1, m2);
    lemme_ajout(s1 + saut, calls);
    lemme_suite(s2, calls, puts);
    lemme_suite(s3, calls, m1);
    lemme_suite(s3 + m1, calls, m2);
    lemme_ajout(s2, puts);
    lemme_suite(s3, puts, m1);
    lemme_suite(s3 + m1, puts, m2);
    lemme_deux_ajouts(s3, m1, m2);
    lemme_jusqu_au_bout(s4, zero, m3, c1, c2, e, u, c5, v1, v2, v5, delta, vega, theta);
    lemme_jusqu_au_bout(s4, calls, m3, c1, c2, e, u, c5, v1, v2, v5, delta, vega, theta);
    lemme_jusqu_au_bout(s4, puts, m3, c1, c2, e, u, c5, v1, v2, v5, delta, vega, theta);
    lemme_jusqu_au_bout(s4, pain, m3, c1, c2, e, u, c5, v1, v2, v5, delta, vega, theta);
    lemme_cinq_ajouts(s5, c1, c2, e, u, c5);
    lemme_cinq_suites(s6, charm, v1, v2, e, u, v5);
    lemme_trois_suites(s7, charm, delta, vega, theta);
    lemme_cinq_ajouts(s6, v1, v2, e, u, v5);
    lemme_trois_suites(s7, vanna, delta, vega, theta);
    lemme_ajout(s7, delta);
    lemme_suite(s8, delta, vega);
    lemme_suite(s9, delta, theta);
    lemme_ajout(s8, vega);
    lemme_suite(s9, vega, theta);
    lemme_ajout(s9, theta);
}

proof fn lemme_trois_suites(
    s: Seq<char>,
    morceau: Seq<char>,
    a: Seq<char>,
    b: Seq<char>,
    c: Seq<char>,
)
    requires
        porte(s, morceau),
    ensures
        porte(s + a + b + c, morceau),
{
    lemme_suite(s, morceau, a);
    lemme_suite(s + a, morceau, b);
    lemme_suite(s + a + b, morceau, c);
}

/// Ce qui précède le charm se retrouve au bout.
proof fn lemme_jusqu_au_bout(
    s: Seq<char>,
    morceau: Seq<char>,
    m: Seq<char>,
    c1: Seq<char>,
    c2: Seq<char>,
    e: Seq<char>,
    u: Seq<char>,
    c5: Seq<char>,
    v1: Seq<char>,
    v2: Seq<char>,
    v5: Seq<char>,
    delta: Seq<char>,
    vega: Seq<char>,
    theta: Seq<char>,
)
    requires
        porte(s, morceau),
    ensures
        porte(
            s + m + c1 + c2 + e + u + c5 + v1 + v2 + e + u + v5 + delta + vega + theta,
            morceau,
        ),
{
    lemme_suite(s, morceau, m);
    let t = s + m;
    lemme_cinq_suites(t, morceau, c1, c2, e, u, c5);
    let w = t + c1 + c2 + e + u + c5;
    lemme_cinq_suites(w, morceau, v1, v2, e, u, v5);
    lemme_trois_suites(w + v1 + v2 + e + u + v5, morceau, delta, vega, theta);
}

/// Le rapport ne met en garde que quand il le faut : sans croisement ou avec plusieurs, au-delà de
/// cinq pour cent d'écart entre les gammas, et dès quinze pour cent d'échéances courtes.
pub proof fn le_rapport_ne_met_en_garde_que_quand_il_le_faut(a: Analyse, dec: nat)
    ensures
        avis_de_croisement(a, dec).len() > 0 <==> a.croisements@.len() != 1,
        a.ecart_gamma is None ==> avis_d_ecart(a).len() == 0,
        a.ecart_gamma matches Some(e) ==> (avis_d_ecart(a).len() > 0 <==> Flottant::fraction(
            5,
            100,
        ).inferieur(e.relatif.abs())),
        a.part_courtes.gex matches Some(g) ==> a.part_courtes.charm is Some ==> (avis_de_courtes(
            a,
        ).len() > 0 <==> Flottant::fraction(15, 100).inferieur_ou_egal(g)),
        a.part_courtes.gex is None || a.part_courtes.charm is None ==> avis_de_courtes(a).len()
            == 0,
{
    reveal_strlit(
        "\nAttention : pas de changement de signe du gamma dans la plage analysée (",
    );
    reveal_strlit("\nAttention : le profil croise zéro ");
    reveal_strlit("\nAttention : le gamma recalculé depuis l'IV donne ");
    reveal_strlit("\nAttention : les échéances à 0-1 jour portent ");
}

/// L'en-tête dit sous quelles hypothèses le chiffre est produit : le prix, le nombre de strikes et
/// celui d'échéances, la taille du contrat, la source du gamma, la convention de temps et le
/// régime de volatilité.
pub proof fn l_en_tete_dit_ses_hypotheses(
    a: Analyse,
    produit: Seq<char>,
    params: Parametres,
    quand: Seq<char>,
)
    ensures
        ({
            let s = entete_de(a, produit, params, quand);
            &&& porte(s, " | sous-jacent "@ + groupe_de(a.spot, decimales_de(a.spot)))
            &&& porte(s, ecrit(a.par_strike@.len()) + " strikes / "@)
            &&& porte(s, ecrit(echeances_distinctes(a.lignes@)) + " échéances ("@)
            &&& porte(s, " | contrat x"@ + groupe_de(a.taille_contrat, 0))
            &&& porte(s, " | gamma "@ + params.source_gamma.nom()@)
            &&& porte(s, " | T "@ + params.convention.nom()@)
            &&& porte(s, " | vol "@ + params.regime_vol.nom()@)
        }),
{
    let (a1, a2) = (" | sous-jacent "@, groupe_de(a.spot, decimales_de(a.spot)));
    let b0 = " | "@;
    let (b1, b2) = (ecrit(a.par_strike@.len()), " strikes / "@);
    let (c1, c2) = (ecrit(echeances_distinctes(a.lignes@)), " échéances ("@);
    let (d1, d2, d3) = (horizon_de(params.dte_max), ") | "@, quand);
    let (e1, e2) = (" | contrat x"@, groupe_de(a.taille_contrat, 0));
    let (f1, f2) = (" | gamma "@, params.source_gamma.nom()@);
    let (g1, g2) = (" | T "@, params.convention.nom()@);
    let (h1, h2, h3) = (" | vol "@, params.regime_vol.nom()@, "\n"@);
    // L'en-tête, arrêté après chaque hypothèse.
    let s1 = produit + a1 + a2;
    let s2 = s1 + b0 + b1 + b2;
    let s3 = s2 + c1 + c2;
    let s4 = s3 + d1 + d2 + d3 + e1 + e2;
    let s5 = s4 + f1 + f2;
    let s6 = s5 + g1 + g2;
    let s7 = s6 + h1 + h2;
    assert(s7 + h3 == entete_de(a, produit, params, quand));
    lemme_deux_ajouts(produit, a1, a2);
    lemme_cinq_suites(s1, a1 + a2, b0, b1, b2, c1, c2);
    lemme_deux_ajouts(s1 + b0, b1, b2);
    lemme_suite(s2, b1 + b2, c1);
    lemme_suite(s2 + c1, b1 + b2, c2);
    lemme_deux_ajouts(s2, c1, c2);
    lemme_cinq_suites(s3, a1 + a2, d1, d2, d3, e1, e2);
    lemme_cinq_suites(s3, b1 + b2, d1, d2, d3, e1, e2);
    lemme_cinq_suites(s3, c1 + c2, d1, d2, d3, e1, e2);
    lemme_deux_ajouts(s3 + d1 + d2 + d3, e1, e2);
    lemme_bout_de_l_en_tete(s4, a1 + a2, f1, f2, g1, g2, h1, h2, h3);
    lemme_bout_de_l_en_tete(s4, b1 + b2, f1, f2, g1, g2, h1, h2, h3);
    lemme_bout_de_l_en_tete(s4, c1 + c2, f1, f2, g1, g2, h1, h2, h3);
    lemme_bout_de_l_en_tete(s4, e1 + e2, f1, f2, g1, g2, h1, h2, h3);
    lemme_deux_ajouts(s4, f1, f2);
    lemme_cinq_suites(s5, f1 + f2, g1, g2, h1, h2, h3);
    lemme_deux_ajouts(s5, g1, g2);
    lemme_trois_suites(s6, g1 + g2, h1, h2, h3);
    lemme_deux_ajouts(s6, h1, h2);
    lemme_suite(s7, h1 + h2, h3);
}

proof fn lemme_bout_de_l_en_tete(
    s: Seq<char>,
    morceau: Seq<char>,
    f1: Seq<char>,
    f2: Seq<char>,
    g1: Seq<char>,
    g2: Seq<char>,
    h1: Seq<char>,
    h2: Seq<char>,
    h3: Seq<char>,
)
    requires
        porte(s, morceau),
    ensures
        porte(s + f1 + f2 + g1 + g2 + h1 + h2 + h3, morceau),
{
    lemme_cinq_suites(s, morceau, f1, f2, g1, g2, h1);
    lemme_suite(s + f1 + f2 + g1 + g2 + h1, morceau, h2);
    lemme_suite(s + f1 + f2 + g1 + g2 + h1 + h2, morceau, h3);
}

/// Ce texte dit, sous ce titre, de combien une mesure a bougé : vers le haut quand elle monte,
/// vers le bas quand elle descend.
pub open spec fn dit_le_mouvement(
    texte: Seq<char>,
    titre: Seq<char>,
    avant: Flottant,
    apres: Flottant,
    dec: nat,
) -> bool {
    exists|d: Flottant|
        {
            &&& texte == titre + #[trigger] groupe_signe_de(d, dec)
            &&& avant.inferieur_ou_egal(apres) ==> d.clef() >= 0
            &&& apres.inferieur_ou_egal(avant) ==> d.clef() <= 0
        }
}

/// L'écart se compte du relevé précédent au relevé courant : le prix d'abord, puis le zero gamma
/// quand les deux relevés en ont un, puis la distance du prix à lui.
pub proof fn l_ecart_se_compte_depuis_le_releve_precedent(
    precedent: Analyse,
    actuel: Analyse,
    dec: nat,
)
    requires
        precedent.spot.fini(),
        actuel.spot.fini(),
        precedent.zero_gamma matches Some(z) ==> z.fini(),
        actuel.zero_gamma matches Some(z) ==> z.fini(),
    ensures
        ({
            let m = mouvements(precedent, actuel, dec);
            let deux = precedent.zero_gamma is Some && actuel.zero_gamma is Some;
            &&& m.len() == if deux { 3int } else { 1 }
            &&& dit_le_mouvement(m[0], "spot "@, precedent.spot, actuel.spot, dec)
            &&& deux ==> dit_le_mouvement(
                m[1],
                "zero gamma "@,
                precedent.zero_gamma->0,
                actuel.zero_gamma->0,
                dec,
            )
        }),
{
    lemme_ecart(precedent.spot, actuel.spot);
    let d = actuel.spot.moins(precedent.spot);
    let m = mouvements(precedent, actuel, dec);
    assert(m[0] == "spot "@ + groupe_signe_de(d, dec));
    if precedent.zero_gamma is Some && actuel.zero_gamma is Some {
        let (av, ap) = (precedent.zero_gamma->0, actuel.zero_gamma->0);
        lemme_ecart(av, ap);
        assert(m[1] == "zero gamma "@ + groupe_signe_de(ap.moins(av), dec));
    }
}

proof fn lemme_ecart(avant: Flottant, apres: Flottant)
    requires
        avant.fini(),
        apres.fini(),
    ensures
        avant.inferieur_ou_egal(apres) ==> apres.moins(avant).clef() >= 0,
        apres.inferieur_ou_egal(avant) ==> apres.moins(avant).clef() <= 0,
{
    if avant.inferieur_ou_egal(apres) {
        lemme_difference_ordonnee(avant, apres);
    }
    if apres.inferieur_ou_egal(avant) {
        lemme_difference_ordonnee(apres, avant);
    }
}

} // verus!
