//! Ce que le profil de gamma promet : ses niveaux, ses volatilités, ses croisements.

#[allow(unused_imports)]
use super::analyse::{
    carburant_de, change_de_signe, croisements_de, de_signes_opposes, dernier_non_nul, distance,
    exposee, flux_du_trajet, flux_en_descendant, flux_en_montant, gex_au_niveau, grille_de,
    le_zero_gamma_est_le_plus_proche, plus_proche, profil_de, profil_en, skew_de, taille_grille,
    total, vol_deplacee, vols_au_niveau, zero_de_la_corde, LigneExposee, Parametres, RegimeVol,
};
use super::chaine::{Cote, Ligne};
use super::temps::InstantReleve;
#[allow(unused_imports)]
use crate::entiers::{
    la_difference_de_petits_entiers_est_exacte, la_somme_de_petits_entiers_est_exacte,
    le_produit_de_petits_entiers_est_exact, le_quotient_d_un_multiple_est_exact, petit,
    un_petit_entier_est_exact,
};
use crate::flottant::Flottant;
#[allow(unused_imports)]
use crate::flottant::{lemme_produit_nul, lemme_quotient_par_soi, rapport, un_entier_est_exact};
#[allow(unused_imports)]
use crate::ordre::{
    lemme_difference_ordonnee, lemme_meme_valeur, lemme_oppose, lemme_produit_commute,
    lemme_produit_croit, lemme_quotient_croit, lemme_signe_du_produit, lemme_signe_du_quotient,
    lemme_somme_commute, lemme_somme_croit, lemme_somme_definie, lemme_somme_zero,
    lemme_difference_stricte,
};
use vstd::prelude::*;

verus! {

/// La plus petite volatilité qu'un déplacement du smile laisse.
pub open spec fn plancher_vol() -> Flottant {
    Flottant::fraction(1, 10_000)
}

/// En monnaie figée, le smile se translate avec le prix : la volatilité d'un strike à un niveau
/// se lit à sa monnaie à ce niveau.
///
/// Quand le smile descend avec le strike, un niveau sous le spot ne relève pas la volatilité
/// d'un contrat, et un niveau au-dessus ne l'abaisse pas ; quand il monte, c'est l'inverse.
pub proof fn le_smile_se_translate_avec_le_prix(
    ln: spec_fn(Flottant) -> Flottant,
    l: Ligne,
    pente: Flottant,
    niveau: Flottant,
    spot: Flottant,
)
    requires
        pente.fini(),
        niveau.fini(),
        niveau.positif(),
        spot.fini(),
        spot.positif(),
        ln(spot.par(niveau)).fini(),
        spot.par(niveau).inferieur_ou_egal(rapport(1, 1)) ==> ln(spot.par(niveau)).clef() <= 0,
        rapport(1, 1).inferieur_ou_egal(spot.par(niveau)) ==> ln(spot.par(niveau)).clef() >= 0,
        plancher_vol().inferieur_ou_egal(l.call.iv),
        plancher_vol().inferieur_ou_egal(l.put.iv),
    ensures
        ({
            let (vc, vp) = vols_au_niveau(ln, l, pente, niveau, spot, RegimeVol::StickyMoneyness);
            let sous = niveau.inferieur_ou_egal(spot);
            let sur = spot.inferieur_ou_egal(niveau);
            &&& pente.clef() <= 0 && sous ==> vc.inferieur_ou_egal(l.call.iv)
                && vp.inferieur_ou_egal(l.put.iv)
            &&& pente.clef() <= 0 && sur ==> l.call.iv.inferieur_ou_egal(vc)
                && l.put.iv.inferieur_ou_egal(vp)
            &&& pente.clef() >= 0 && sous ==> l.call.iv.inferieur_ou_egal(vc)
                && l.put.iv.inferieur_ou_egal(vp)
            &&& pente.clef() >= 0 && sur ==> vc.inferieur_ou_egal(l.call.iv)
                && vp.inferieur_ou_egal(l.put.iv)
        }),
{
    let q = spot.par(niveau);
    let d = pente.fois(ln(q));
    lemme_quotient_par_soi(niveau);
    un_entier_est_exact(1);
    lemme_defini(spot, niveau);
    if niveau.inferieur_ou_egal(spot) {
        lemme_quotient_croit(niveau, spot, niveau);
    }
    if spot.inferieur_ou_egal(niveau) {
        lemme_quotient_croit(spot, niveau, niveau);
    }
    assert(!d.nan()) by {
        crate::erreur::lemme_produit_encadre(pente, ln(q));
    }
    lemme_signe_du_produit(pente, ln(q));
    lemme_plancher();
    lemme_decalage(l.call.iv, d);
    lemme_decalage(l.put.iv, d);
}

proof fn lemme_defini(a: Flottant, c: Flottant)
    requires
        a.fini(),
        c.fini(),
        c.positif(),
    ensures
        !a.par(c).nan(),
{
    reveal(Flottant::quotient);
    crate::flottant::lemme_magnitude_nulle(c);
    crate::erreur::lemme_arrondi_encadre(
        a.negatif() != c.negatif(),
        a.magnitude() * vstd::arithmetic::power2::pow2(1074),
        c.magnitude(),
    );
}

proof fn lemme_plancher()
    ensures
        plancher_vol().positif(),
{
    reveal(rapport);
    vstd::arithmetic::power2::lemma2_to64();
    vstd::arithmetic::power2::lemma_pow2_strictly_increases(16, 1074);
    crate::flottant::lemme_arrondi_positif(1 * vstd::arithmetic::power2::pow2(1074), 10_000);
}

proof fn lemme_decalage(iv: Flottant, d: Flottant)
    requires
        plancher_vol().inferieur_ou_egal(iv),
        plancher_vol().positif(),
        !d.nan(),
    ensures
        d.clef() <= 0 ==> vol_deplacee(iv, d).inferieur_ou_egal(iv),
        d.clef() >= 0 ==> iv.inferieur_ou_egal(vol_deplacee(iv, d)),
{
    let z = Flottant::nul();
    lemme_somme_zero(iv, z);
    lemme_somme_commute(iv, d);
    let s = iv.plus(d);
    if s.nan() {
        reveal(Flottant::somme);
        if iv.fini() && d.fini() {
            lemme_somme_definie(iv, d);
        }
        assert(iv.infini() && d.infini());
    } else {
        if d.clef() <= 0 {
            lemme_somme_croit(d, z, iv);
        }
        if d.clef() >= 0 {
            lemme_somme_croit(z, d, iv);
        }
    }
}

/// Le décalage est la pente par le logarithme du rapport du spot au niveau : une pente de un le
/// rend tel quel, une pente nulle ne déplace rien, et deux niveaux au même rapport au spot
/// donnent les mêmes volatilités. Un contrat sans volatilité n'en reçoit pas.
pub proof fn le_decalage_suit_la_pente_et_le_rapport(
    ln: spec_fn(Flottant) -> Flottant,
    l: Ligne,
    pente: Flottant,
    niveau: Flottant,
    spot: Flottant,
    autre_niveau: Flottant,
    autre_spot: Flottant,
)
    ensures
        ({
            let m = RegimeVol::StickyMoneyness;
            let (vc, vp) = vols_au_niveau(ln, l, pente, niveau, spot, m);
            let (uc, up) = vols_au_niveau(ln, l, rapport(1, 1), niveau, spot, m);
            let log = ln(spot.par(niveau));
            &&& spot.par(niveau) == autre_spot.par(autre_niveau) ==> vols_au_niveau(
                ln,
                l,
                pente,
                autre_niveau,
                autre_spot,
                m,
            ) == (vc, vp)
            &&& l.call.iv.positif() && log.fini() ==> uc == l.call.iv.plus(log).max(plancher_vol())
            &&& l.put.iv.positif() && log.fini() ==> up == l.put.iv.plus(log).max(plancher_vol())
            &&& !l.call.iv.positif() ==> vc.rang() == 0
            &&& !l.put.iv.positif() ==> vp.rang() == 0
            &&& vols_au_niveau(ln, l, pente, niveau, spot, RegimeVol::StickyStrike) == (
                l.call.iv,
                l.put.iv,
            )
        }),
{
    let log = ln(spot.par(niveau));
    if log.fini() {
        lemme_un_fois(log);
    }
}

proof fn lemme_un_fois(x: Flottant)
    requires
        x.fini(),
    ensures
        rapport(1, 1).fois(x) == x,
{
    un_entier_est_exact(1);
    let u = vstd::arithmetic::power2::pow2(1074);
    vstd::arithmetic::power2::lemma_pow2_pos(1074);
    assert(1 * u == u);
    reveal(Flottant::produit);
    assert(u * x.magnitude() == x.magnitude() * u) by (nonlinear_arith);
    crate::court::un_nombre_fini_est_son_arrondi(x, u);
}

/// La même ligne, ses deux volatilités remplacées.
pub open spec fn avec_vols(l: LigneExposee, vc: Flottant, vp: Flottant) -> LigneExposee {
    LigneExposee {
        ligne: Ligne {
            call: Cote { iv: vc, ..l.ligne.call },
            put: Cote { iv: vp, ..l.ligne.put },
            ..l.ligne
        },
        ..l
    }
}

/// En monnaie figée, une ligne vaut à un niveau ce qu'elle y vaudrait, chaque contrat gardant sa
/// volatilité, si ses contrats avaient les volatilités translatées ; et chaque contrat gardant
/// la sienne, ni la pente ni le spot ne comptent.
pub proof fn la_monnaie_figee_ne_change_que_les_volatilites(
    ln: spec_fn(Flottant) -> Flottant,
    exp: spec_fn(Flottant) -> Flottant,
    l: LigneExposee,
    pente: Flottant,
    niveau: Flottant,
    spot: Flottant,
    p: Parametres,
    q: Parametres,
    autre_pente: Flottant,
    autre_spot: Flottant,
)
    requires
        p.regime_vol == RegimeVol::StickyMoneyness,
        q.regime_vol == RegimeVol::StickyStrike,
        p.taille_contrat == q.taille_contrat,
    ensures
        ({
            let (vc, vp) = vols_au_niveau(
                ln,
                l.ligne,
                pente,
                niveau,
                spot,
                RegimeVol::StickyMoneyness,
            );
            gex_au_niveau(ln, exp, l, pente, niveau, spot, p) == gex_au_niveau(
                ln,
                exp,
                avec_vols(l, vc, vp),
                autre_pente,
                niveau,
                autre_spot,
                q,
            )
        }),
{
}

/// À un niveau hypothétique, une ligne compte pour le GEX qu'on y mesurerait si le prix y était,
/// le gamma venant de la volatilité.
pub proof fn le_profil_est_le_gex_si_le_prix_y_etait(
    ln: spec_fn(Flottant) -> Flottant,
    exp: spec_fn(Flottant) -> Flottant,
    l: Ligne,
    pente: Flottant,
    niveau: Flottant,
    spot: Flottant,
    releve: InstantReleve,
    params: Parametres,
)
    requires
        params.regime_vol == RegimeVol::StickyStrike,
    ensures
        gex_au_niveau(
            ln,
            exp,
            exposee(ln, exp, l, spot, releve, params),
            pente,
            niveau,
            spot,
            params,
        ) == exposee(ln, exp, l, niveau, releve, params).gex_iv,
{
}

/// Le profil a une valeur par niveau, et celle d'un niveau ne dépend que de ce niveau.
pub proof fn le_profil_se_lit_niveau_par_niveau(
    ln: spec_fn(Flottant) -> Flottant,
    exp: spec_fn(Flottant) -> Flottant,
    s: Seq<LigneExposee>,
    niveaux: Seq<Flottant>,
    spot: Flottant,
    params: Parametres,
    i: int,
)
    requires
        0 <= i < niveaux.len(),
    ensures
        profil_de(ln, exp, s, niveaux, spot, params).len() == niveaux.len(),
        profil_de(ln, exp, s, niveaux, spot, params)[i] == profil_de(
            ln,
            exp,
            s,
            seq![niveaux[i]],
            spot,
            params,
        )[0],
{
}

/// Chaque contrat gardant sa volatilité, une ligne de plus ajoute au profil ce qu'elle y pèse.
pub proof fn une_ligne_de_plus_s_ajoute_au_profil(
    ln: spec_fn(Flottant) -> Flottant,
    exp: spec_fn(Flottant) -> Flottant,
    s: Seq<LigneExposee>,
    l: LigneExposee,
    niveau: Flottant,
    spot: Flottant,
    params: Parametres,
    pente: Flottant,
)
    requires
        params.regime_vol == RegimeVol::StickyStrike,
    ensures
        profil_en(ln, exp, s.push(l), niveau, spot, params) == profil_en(
            ln,
            exp,
            s,
            niveau,
            spot,
            params,
        ).plus(gex_au_niveau(ln, exp, l, pente, niveau, spot, params)),
{
    let g = |r: Seq<LigneExposee>|
        Seq::new(
            r.len(),
            |i: int|
                gex_au_niveau(
                    ln,
                    exp,
                    r[i],
                    skew_de(ln, r, r[i].ligne.echeance, spot),
                    niveau,
                    spot,
                    params,
                ),
        );
    let r = s.push(l);
    assert(g(r).drop_last() =~= g(s));
    assert(g(r).last() == gex_au_niveau(
        ln,
        exp,
        l,
        skew_de(ln, r, l.ligne.echeance, spot),
        niveau,
        spot,
        params,
    ));
    assert(profil_en(ln, exp, r, niveau, spot, params) == total(g(r)));
    assert(profil_en(ln, exp, s, niveau, spot, params) == total(g(s)));
}

/// La somme d'entiers.
pub open spec fn somme_entiere(v: Seq<int>) -> int
    decreases v.len(),
{
    if v.len() == 0 {
        0
    } else {
        somme_entiere(v.drop_last()) + v.last()
    }
}

/// Des entiers dont toutes les sommes partielles sont exactes.
pub open spec fn sommes_petites(v: Seq<int>) -> bool {
    forall|n: int| #![trigger v.take(n)] 0 <= n <= v.len() ==> petit(somme_entiere(v.take(n)))
}

/// Les flottants de ces entiers.
pub open spec fn flottants(v: Seq<int>) -> Seq<Flottant> {
    Seq::new(v.len(), |i: int| rapport(v[i], 1))
}

/// Le total d'entiers est leur somme, exactement.
pub proof fn le_total_d_entiers_est_leur_somme(v: Seq<int>)
    requires
        v.len() > 0,
        sommes_petites(v),
        forall|i: int| 0 <= i < v.len() ==> petit(#[trigger] v[i]),
    ensures
        total(flottants(v)) == rapport(somme_entiere(v), 1),
    decreases v.len(),
{
    let t = v.drop_last();
    let f = flottants(v);
    assert(f.drop_last() =~= flottants(t));
    assert(f.last() == rapport(v.last(), 1));
    let x = v.last();
    assert(petit(v[v.len() - 1]));
    if t.len() == 0 {
        assert(f.drop_last() =~= Seq::<Flottant>::empty());
        assert(somme_entiere(t) == 0);
        let z = Flottant::nul().neg();
        un_petit_entier_est_exact(x);
        lemme_somme_zero(rapport(x, 1), z);
        lemme_meme_valeur(z.plus(rapport(x, 1)), rapport(x, 1));
        if x == 0 {
            crate::flottant::lemme_magnitude_nulle(z);
            reveal(Flottant::somme);
            assert(z.plus(rapport(x, 1)).bits == 0);
            assert(rapport(x, 1).bits == 0);
        }
        assert(total(f.drop_last()) == z);
        assert(somme_entiere(v) == x);
    } else {
        assert forall|i: int| 0 <= i < t.len() implies petit(#[trigger] t[i]) by {
            assert(petit(v[i]));
        }
        assert(sommes_petites(t)) by {
            assert forall|n: int| #![trigger t.take(n)] 0 <= n <= t.len() implies petit(
                somme_entiere(t.take(n)),
            ) by {
                assert(t.take(n) =~= v.take(n));
            }
        }
        le_total_d_entiers_est_leur_somme(t);
        assert(v.take(t.len() as int) =~= t);
        la_somme_de_petits_entiers_est_exacte(somme_entiere(t), x);
    }
}

/// Sur des entiers, la corde s'annule exactement où le calcul exact le dit : le niveau haut,
/// moins la part du pas que la valeur haute fait de l'écart des valeurs.
pub proof fn la_corde_s_annule_a_sa_place(x0: int, x1: int, y0: int, y1: int, q: int)
    requires
        petit(x0),
        petit(x1),
        petit(y0),
        petit(y1),
        petit(x1 - x0),
        petit(y1 - y0),
        petit((x1 - x0) * y1),
        petit(q),
        q * (y1 - y0) == (x1 - x0) * y1,
        y1 != 0,
        y0 != y1,
        x0 != x1,
    ensures
        zero_de_la_corde(rapport(x0, 1), rapport(x1, 1), rapport(y0, 1), rapport(y1, 1)) == rapport(
            x1 - q,
            1,
        ),
{
    la_difference_de_petits_entiers_est_exacte(x1, x0);
    la_difference_de_petits_entiers_est_exacte(y1, y0);
    let (d, s) = (x1 - x0, y1 - y0);
    assert(d * y1 != 0) by (nonlinear_arith)
        requires
            d != 0,
            y1 != 0,
    ;
    le_produit_de_petits_entiers_est_exact(d, y1);
    assert(q != 0) by (nonlinear_arith)
        requires
            q * s == d * y1,
            d * y1 != 0,
    ;
    le_quotient_d_un_multiple_est_exact(q, s);
    la_difference_de_petits_entiers_est_exacte(x1, q);
}

/// Un croisement ne dépasse pas le niveau haut de son pas, et le quitte du côté du niveau bas.
pub proof fn la_corde_s_annule_du_bon_cote(x0: Flottant, x1: Flottant, y0: Flottant, y1: Flottant)
    requires
        x0.fini(),
        x1.fini(),
        y0.fini(),
        y1.fini(),
        x0.inferieur_ou_egal(x1),
        (y0.inferieur(Flottant::nul()) && y1.clef() >= 0) || (y0.positif() && y1.clef() <= 0),
        !zero_de_la_corde(x0, x1, y0, y1).nan(),
    ensures
        zero_de_la_corde(x0, x1, y0, y1).inferieur_ou_egal(x1),
{
    let d = x1.moins(x0);
    let s = y1.moins(y0);
    lemme_difference_ordonnee(x0, x1);
    if y0.inferieur(Flottant::nul()) {
        lemme_difference_stricte(y0, y1);
    } else {
        lemme_difference_stricte(y1, y0);
    }
    let p = d.fois(y1);
    let q = p.par(s);
    assert(!q.nan() && !p.nan()) by {
        reveal(Flottant::somme);
        reveal(Flottant::quotient);
        lemme_oppose(q);
    }
    lemme_signe_du_produit(d, y1);
    assert(q.clef() >= 0) by {
        lemme_quotient_de_meme_signe(p, s, y0.inferieur(Flottant::nul()));
    }
    lemme_oppose(q);
    lemme_somme_zero(x1, Flottant::nul());
    lemme_somme_commute(x1, q.neg());
    lemme_somme_commute(x1, Flottant::nul());
    lemme_somme_croit(q.neg(), Flottant::nul(), x1);
}

proof fn lemme_quotient_de_meme_signe(p: Flottant, s: Flottant, monte: bool)
    requires
        !p.par(s).nan(),
        !p.nan(),
        !s.nan(),
        monte ==> p.clef() >= 0 && s.clef() > 0,
        !monte ==> p.clef() <= 0 && s.clef() < 0,
    ensures
        p.par(s).clef() >= 0,
{
    reveal(Flottant::quotient);
    crate::flottant::lemme_magnitude_nulle(p);
    crate::flottant::lemme_magnitude_nulle(s);
    if p.fini() && s.fini() && s.rang() != 0 {
        crate::erreur::lemme_arrondi_encadre(
            p.negatif() != s.negatif(),
            p.magnitude() * vstd::arithmetic::power2::pow2(1074),
            s.magnitude(),
        );
        if p.rang() == 0 {
            crate::ordre::lemme_zero_absorbe(p, s);
        }
    }
}

/// Le profil n'a pas de croisement si et seulement si aucun niveau n'est strictement positif
/// quand un autre est strictement négatif.
pub proof fn un_profil_croise_quand_il_a_les_deux_signes(
    niveaux: Seq<Flottant>,
    profil: Seq<Flottant>,
    n: nat,
)
    requires
        n <= profil.len(),
        forall|i: int| 0 <= i < profil.len() ==> !(#[trigger] profil[i]).nan(),
    ensures
        croisements_de(niveaux, profil, n).len() == 0 <==> forall|i: int, j: int|
            0 <= i < n && 0 <= j < n ==> !((#[trigger] profil[i]).positif() && (
            #[trigger] profil[j]).inferieur(Flottant::nul())),
    decreases n,
{
    if n > 0 {
        let m = (n - 1) as nat;
        un_profil_croise_quand_il_a_les_deux_signes(niveaux, profil, m);
        lemme_dernier(profil, m);
        let avant = croisements_de(niveaux, profil, m);
        let tous = croisements_de(niveaux, profil, n);
        if tous.len() == 0 {
            assert(avant.len() == 0);
            assert(!change_de_signe(profil, m as int));
            assert forall|i: int, j: int| 0 <= i < n && 0 <= j < n implies !((
            #[trigger] profil[i]).positif() && (#[trigger] profil[j]).inferieur(
                Flottant::nul(),
            )) by {
                if profil[i].positif() && profil[j].inferieur(Flottant::nul()) {
                    assert(i == m || j == m);
                    let autre = if i == m { j } else { i };
                    assert(!profil[autre].de_meme_valeur(Flottant::nul()));
                    let d = dernier_non_nul(profil, m)->Some_0;
                    assert(!profil[d].nan());
                    if i == m {
                        assert(profil[d].positif());
                        assert(!(profil[d].positif() && profil[j].inferieur(Flottant::nul())));
                    } else {
                        assert(profil[d].inferieur(Flottant::nul()));
                        assert(!(profil[i].positif() && profil[d].inferieur(Flottant::nul())));
                    }
                }
            }
        } else {
            if avant.len() > 0 {
                let (i, j) = choose|i: int, j: int|
                    0 <= i < m && 0 <= j < m && ((#[trigger] profil[i]).positif() && (
                    #[trigger] profil[j]).inferieur(Flottant::nul()));
                assert(profil[i].positif() && profil[j].inferieur(Flottant::nul()));
            } else {
                assert(change_de_signe(profil, m as int));
                let d = dernier_non_nul(profil, m)->Some_0;
                assert(de_signes_opposes(profil[d], profil[m as int]));
                if profil[d].positif() {
                    assert(profil[m as int].inferieur(Flottant::nul()));
                } else {
                    assert(profil[m as int].positif());
                    assert(profil[d].inferieur(Flottant::nul()));
                }
            }
        }
    }
}

proof fn lemme_dernier(profil: Seq<Flottant>, n: nat)
    ensures
        dernier_non_nul(profil, n) matches Some(d) ==> 0 <= d < n && !profil[d].de_meme_valeur(
            Flottant::nul(),
        ),
        dernier_non_nul(profil, n) is None ==> forall|k: int|
            0 <= k < n ==> (#[trigger] profil[k]).de_meme_valeur(Flottant::nul()),
    decreases n,
{
    if n > 0 {
        lemme_dernier(profil, (n - 1) as nat);
    }
}

/// Le zero gamma est le croisement le plus proche du spot, au-dessus ou au-dessous.
pub proof fn aucun_croisement_n_est_plus_pres(s: Seq<Flottant>, spot: Flottant)
    requires
        s.len() > 0,
        forall|i: int| 0 <= i < s.len() ==> !(#[trigger] s[i]).moins(spot).nan(),
    ensures
        plus_proche(s, spot) matches Some(z) && s.contains(z) && forall|i: int|
            0 <= i < s.len() ==> z.moins(spot).abs().inferieur_ou_egal(
                (#[trigger] s[i]).moins(spot).abs(),
            ),
{
    assert forall|i: int| 0 <= i < s.len() implies !distance(#[trigger] s[i], spot).nan() by {
        lemme_oppose(s[i].moins(spot));
    }
    le_zero_gamma_est_le_plus_proche(s, spot);
    let z = plus_proche(s, spot)->Some_0;
    let k = choose|k: int| 0 <= k < s.len() && s[k] == z;
    assert forall|i: int| 0 <= i < s.len() implies z.moins(spot).abs().inferieur_ou_egal(
        (#[trigger] s[i]).moins(spot).abs(),
    ) by {
        assert(!distance(s[i], spot).inferieur(distance(z, spot)));
        assert(!distance(s[k], spot).nan());
        assert(!distance(s[i], spot).nan());
    }
}

/// Un gamma positif freine : de là où l'on part à un niveau plus haut, la couverture vend, à un
/// niveau plus bas elle achète. Un gamma négatif pousse, à l'inverse.
pub proof fn la_couverture_freine_ou_pousse(
    x0: Flottant,
    x1: Flottant,
    g0: Flottant,
    g1: Flottant,
)
    requires
        x0.fini(),
        x1.fini(),
        x0.positif(),
        x1.positif(),
        !flux_du_trajet(x0, x1, g0, g1).nan(),
    ensures
        ({
            let f = flux_du_trajet(x0, x1, g0, g1);
            let (monte, descend) = (x0.inferieur_ou_egal(x1), x1.inferieur_ou_egal(x0));
            &&& g0.clef() >= 0 && g1.clef() >= 0 && monte ==> f.clef() <= 0
            &&& g0.clef() >= 0 && g1.clef() >= 0 && descend ==> f.clef() >= 0
            &&& g0.clef() <= 0 && g1.clef() <= 0 && monte ==> f.clef() >= 0
            &&& g0.clef() <= 0 && g1.clef() <= 0 && descend ==> f.clef() <= 0
        }),
{
    let d = x1.moins(x0);
    let (a, b) = (g0.par(x0), g1.par(x1));
    let s = a.plus(b);
    let p = d.fois(s);
    let c = Flottant::entier(50);
    un_entier_est_exact(50);
    lemme_oppose(p.fois(c));
    assert(!p.nan() && !s.nan() && !d.nan() && !a.nan() && !b.nan()) by {
        reveal(Flottant::produit);
        reveal(Flottant::somme);
    }
    lemme_signe_du_quotient(g0, x0);
    lemme_signe_du_quotient(g1, x1);
    lemme_somme_de_signe(a, b);
    if x0.inferieur_ou_egal(x1) {
        lemme_difference_ordonnee(x0, x1);
    }
    if x1.inferieur_ou_egal(x0) {
        lemme_difference_ordonnee(x1, x0);
    }
    lemme_signe_du_produit(d, s);
    lemme_signe_du_produit(p, c);
}

proof fn lemme_somme_de_signe(a: Flottant, b: Flottant)
    requires
        !a.plus(b).nan(),
    ensures
        a.clef() >= 0 && b.clef() >= 0 ==> a.plus(b).clef() >= 0,
        a.clef() <= 0 && b.clef() <= 0 ==> a.plus(b).clef() <= 0,
{
    let z = Flottant::nul();
    assert(!a.nan() && !b.nan()) by {
        reveal(Flottant::somme);
    }
    lemme_somme_zero(b, z);
    if a.clef() >= 0 {
        lemme_somme_croit(z, a, b);
    }
    if a.clef() <= 0 {
        lemme_somme_croit(a, z, b);
    }
}

/// Là où le profil est positif partout, le carburant du premier niveau au-dessus du spot est une
/// vente, et celui du premier niveau au-dessous un achat.
pub proof fn le_carburant_a_le_signe_de_la_couverture(
    niveaux: Seq<Flottant>,
    profil: Seq<Flottant>,
    spot: Flottant,
    au_spot: Flottant,
    i: int,
)
    requires
        0 <= i < niveaux.len(),
        niveaux.len() == profil.len(),
        spot.fini(),
        spot.positif(),
        au_spot.clef() >= 0,
        forall|k: int|
            #![trigger niveaux[k]]
            0 <= k < niveaux.len() ==> niveaux[k].fini() && niveaux[k].positif()
                && profil[k].clef() >= 0,
        forall|a: int, b: int|
            0 <= a <= b < niveaux.len() ==> (#[trigger] niveaux[a]).inferieur_ou_egal(
                #[trigger] niveaux[b],
            ),
        !carburant_de(niveaux, profil, spot, au_spot)[i].nan(),
    ensures
        ({
            let c = carburant_de(niveaux, profil, spot, au_spot);
            &&& c.len() == niveaux.len()
            &&& spot.inferieur_ou_egal(niveaux[i]) ==> c[i].clef() <= 0
            &&& niveaux[i].inferieur(spot) ==> c[i].clef() >= 0
        }),
{
    if niveaux[i].inferieur(spot) {
        lemme_descente(niveaux, profil, spot, au_spot, i);
    } else {
        lemme_montee(niveaux, profil, spot, au_spot, i);
    }
}

proof fn lemme_montee(
    niveaux: Seq<Flottant>,
    profil: Seq<Flottant>,
    spot: Flottant,
    au_spot: Flottant,
    i: int,
)
    requires
        0 <= i < niveaux.len(),
        niveaux.len() == profil.len(),
        spot.fini(),
        spot.positif(),
        spot.inferieur_ou_egal(niveaux[i]),
        au_spot.clef() >= 0,
        forall|k: int|
            #![trigger niveaux[k]]
            0 <= k < niveaux.len() ==> niveaux[k].fini() && niveaux[k].positif()
                && profil[k].clef() >= 0,
        forall|a: int, b: int|
            0 <= a <= b < niveaux.len() ==> (#[trigger] niveaux[a]).inferieur_ou_egal(
                #[trigger] niveaux[b],
            ),
        !flux_en_montant(niveaux, profil, spot, au_spot, i).nan(),
    ensures
        flux_en_montant(niveaux, profil, spot, au_spot, i).clef() <= 0,
    decreases i,
{
    assert(niveaux[i].fini());
    if i <= 0 || niveaux[i - 1].inferieur(spot) {
        la_couverture_freine_ou_pousse(spot, niveaux[i], au_spot, profil[i]);
    } else {
        let f = flux_en_montant(niveaux, profil, spot, au_spot, i - 1);
        let t = flux_du_trajet(niveaux[i - 1], niveaux[i], profil[i - 1], profil[i]);
        assert(!f.nan() && !t.nan()) by {
            reveal(Flottant::somme);
        }
        assert(niveaux[i - 1].fini());
        lemme_montee(niveaux, profil, spot, au_spot, i - 1);
        la_couverture_freine_ou_pousse(niveaux[i - 1], niveaux[i], profil[i - 1], profil[i]);
        lemme_somme_de_signe(f, t);
    }
}

proof fn lemme_descente(
    niveaux: Seq<Flottant>,
    profil: Seq<Flottant>,
    spot: Flottant,
    au_spot: Flottant,
    i: int,
)
    requires
        0 <= i < niveaux.len(),
        niveaux.len() == profil.len(),
        spot.fini(),
        spot.positif(),
        niveaux[i].inferieur(spot),
        au_spot.clef() >= 0,
        forall|k: int|
            #![trigger niveaux[k]]
            0 <= k < niveaux.len() ==> niveaux[k].fini() && niveaux[k].positif()
                && profil[k].clef() >= 0,
        forall|a: int, b: int|
            0 <= a <= b < niveaux.len() ==> (#[trigger] niveaux[a]).inferieur_ou_egal(
                #[trigger] niveaux[b],
            ),
        !flux_en_descendant(niveaux, profil, spot, au_spot, i).nan(),
    ensures
        flux_en_descendant(niveaux, profil, spot, au_spot, i).clef() >= 0,
    decreases niveaux.len() - i,
{
    assert(niveaux[i].fini());
    if i + 1 >= niveaux.len() || !niveaux[i + 1].inferieur(spot) {
        la_couverture_freine_ou_pousse(spot, niveaux[i], au_spot, profil[i]);
    } else {
        let f = flux_en_descendant(niveaux, profil, spot, au_spot, i + 1);
        let t = flux_du_trajet(niveaux[i + 1], niveaux[i], profil[i + 1], profil[i]);
        assert(!f.nan() && !t.nan()) by {
            reveal(Flottant::somme);
        }
        assert(niveaux[i + 1].fini());
        lemme_descente(niveaux, profil, spot, au_spot, i + 1);
        la_couverture_freine_ou_pousse(niveaux[i + 1], niveaux[i], profil[i + 1], profil[i]);
        lemme_somme_de_signe(f, t);
    }
}

/// La grille a le nombre de niveaux demandé, deux au moins ; elle part du bas de la plage, et ne
/// descend jamais.
pub proof fn la_grille_monte_depuis_le_bas(
    spot: Flottant,
    plage: Flottant,
    niveaux: usize,
    i: int,
    j: int,
)
    requires
        0 <= i <= j < taille_grille(niveaux),
        niveaux < 0x20_0000_0000_0000,
        ({
            let bas = Flottant::entier(1).moins(plage).fois(spot);
            let haut = Flottant::entier(1).plus(plage).fois(spot);
            &&& bas.fini()
            &&& haut.fini()
            &&& bas.inferieur_ou_egal(haut)
            &&& haut.moins(bas).fini()
        }),
        !grille_de(spot, plage, niveaux)[i].nan(),
        !grille_de(spot, plage, niveaux)[j].nan(),
    ensures
        ({
            let g = grille_de(spot, plage, niveaux);
            &&& g.len() == if niveaux < 2 { 2 } else { niveaux as int }
            &&& g[0].de_meme_valeur(Flottant::entier(1).moins(plage).fois(spot))
            &&& g[i].inferieur_ou_egal(g[j])
        }),
{
    let bas = Flottant::entier(1).moins(plage).fois(spot);
    let haut = Flottant::entier(1).plus(plage).fois(spot);
    let n = taille_grille(niveaux);
    let d = haut.moins(bas);
    lemme_difference_ordonnee(bas, haut);
    un_petit_entier_est_exact(n - 1);
    un_petit_entier_est_exact(i);
    un_petit_entier_est_exact(j);
    un_petit_entier_est_exact(0);
    let c = rapport(n - 1, 1);
    assert(c.clef() > 0);
    lemme_defini(d, c);
    let pas = d.par(c);
    lemme_signe_du_quotient(d, c);
    lemme_pas_fini(d, n - 1);
    lemme_produit_nul(pas, rapport(0, 1));
    lemme_somme_zero(bas, pas.fois(rapport(0, 1)));
    crate::flottant::clef_ordonne_les_valeurs(rapport(i, 1), rapport(j, 1));
    assert(i * vstd::arithmetic::power2::pow2(1074) <= j * vstd::arithmetic::power2::pow2(1074))
        by (nonlinear_arith)
        requires
            i <= j,
    ;
    lemme_produit_commute(pas, rapport(i, 1));
    lemme_produit_commute(pas, rapport(j, 1));
    crate::erreur::lemme_produit_encadre(rapport(i, 1), pas);
    crate::erreur::lemme_produit_encadre(rapport(j, 1), pas);
    lemme_produit_croit(rapport(i, 1), rapport(j, 1), pas);
    lemme_somme_commute(bas, pas.fois(rapport(i, 1)));
    lemme_somme_commute(bas, pas.fois(rapport(j, 1)));
    lemme_somme_croit(pas.fois(rapport(i, 1)), pas.fois(rapport(j, 1)), bas);
}

proof fn lemme_pas_fini(d: Flottant, n: int)
    requires
        d.fini(),
        petit(n),
        n >= 1,
    ensures
        d.par(rapport(n, 1)).fini(),
{
    un_petit_entier_est_exact(n);
    let c = rapport(n, 1);
    let u = vstd::arithmetic::power2::pow2(1074);
    vstd::arithmetic::power2::lemma_pow2_pos(1074);
    reveal(Flottant::quotient);
    assert(d.magnitude() * u <= d.magnitude() * (n * u)) by (nonlinear_arith)
        requires
            n >= 1,
            u >= 0,
            d.magnitude() >= 0,
    {
        assert(u <= n * u);
    }
    assert(c.magnitude() > 0) by (nonlinear_arith)
        requires
            c.magnitude() == n * u,
            n >= 1,
            u >= 1,
    ;
    crate::erreur::lemme_arrondi_sous(
        d.negatif() != c.negatif(),
        d.magnitude() * u,
        c.magnitude(),
        d,
    );
}

/// La grille va d'un bord à l'autre par pas égaux : sur une plage d'entiers partagée en pas
/// entiers, chaque niveau est exact, le premier est le bas et le dernier le haut.
pub proof fn la_grille_va_d_un_bord_a_l_autre(
    spot: Flottant,
    plage: Flottant,
    niveaux: usize,
    bas: int,
    pas: int,
    i: int,
)
    requires
        0 < pas,
        0 <= i < taille_grille(niveaux),
        ({
            let n = taille_grille(niveaux);
            let haut = bas + pas * (n - 1);
            &&& petit(bas)
            &&& petit(haut)
            &&& petit(n)
            &&& petit(pas)
            &&& petit(pas * (n - 1))
            &&& Flottant::entier(1).moins(plage).fois(spot) == rapport(bas, 1)
            &&& Flottant::entier(1).plus(plage).fois(spot) == rapport(haut, 1)
        }),
    ensures
        grille_de(spot, plage, niveaux)[i] == rapport(bas + pas * i, 1),
{
    let n = taille_grille(niveaux);
    let haut = bas + pas * (n - 1);
    assert(0 <= pas * i <= pas * (n - 1)) by (nonlinear_arith)
        requires
            0 < pas,
            0 <= i <= n - 1,
    ;
    la_difference_de_petits_entiers_est_exacte(haut, bas);
    le_quotient_d_un_multiple_est_exact(pas, n - 1);
    le_produit_de_petits_entiers_est_exact(pas, i);
    la_somme_de_petits_entiers_est_exacte(bas, pas * i);
}

/// Le carburant s'accumule de niveau en niveau : en s'éloignant du prix, chaque niveau ajoute à
/// celui d'avant ce que coûte le trajet entre les deux, et le premier part du prix lui-même.
pub proof fn le_carburant_s_accumule_de_niveau_en_niveau(
    niveaux: Seq<Flottant>,
    profil: Seq<Flottant>,
    spot: Flottant,
    au_spot: Flottant,
    i: int,
)
    requires
        0 <= i < niveaux.len() - 1,
        niveaux.len() == profil.len(),
    ensures
        ({
            let c = carburant_de(niveaux, profil, spot, au_spot);
            let (a, b) = (niveaux[i].inferieur(spot), niveaux[i + 1].inferieur(spot));
            &&& !a && !b ==> c[i + 1] == c[i].plus(
                flux_du_trajet(niveaux[i], niveaux[i + 1], profil[i], profil[i + 1]),
            )
            &&& a && b ==> c[i] == c[i + 1].plus(
                flux_du_trajet(niveaux[i + 1], niveaux[i], profil[i + 1], profil[i]),
            )
            &&& a && !b ==> c[i] == flux_du_trajet(spot, niveaux[i], au_spot, profil[i]) && c[i + 1]
                == flux_du_trajet(spot, niveaux[i + 1], au_spot, profil[i + 1])
        }),
{
}

/// Un trajet coûte le gamma moyen de ses deux bouts par la distance : un GEX de `x * p` dollars par
/// pour cent au prix `x` fait cent fois `p` dollars de delta par point.
pub proof fn un_trajet_coute_le_gamma_moyen_par_la_distance(x0: int, x1: int, p: int, q: int)
    requires
        0 < x0 < x1,
        0 < p,
        0 < q,
        petit(x0 * p),
        petit(x1 * q),
        petit((x1 - x0) * (p + q) * 50),
        petit(p + q),
        petit(x1),
    ensures
        flux_du_trajet(
            rapport(x0, 1),
            rapport(x1, 1),
            rapport(x0 * p, 1),
            rapport(x1 * q, 1),
        ) == rapport((x1 - x0) * (100 * (p + q)) / 2, 1).neg(),
{
    let (d, g) = (x1 - x0, p + q);
    assert(x0 * p == p * x0 && x1 * q == q * x1 && 0 < d * g <= d * g * 50) by (nonlinear_arith)
        requires
            0 < d,
            0 < g,
    ;
    assert(d * (100 * g) / 2 == d * g * 50) by (nonlinear_arith);
    assert(p <= p * x0 && q <= q * x1) by (nonlinear_arith)
        requires
            0 < p,
            0 < q,
            0 < x0,
            0 < x1,
    ;
    la_difference_de_petits_entiers_est_exacte(x1, x0);
    le_quotient_d_un_multiple_est_exact(p, x0);
    le_quotient_d_un_multiple_est_exact(q, x1);
    la_somme_de_petits_entiers_est_exacte(p, q);
    le_produit_de_petits_entiers_est_exact(d, g);
    le_produit_de_petits_entiers_est_exact(d * g, 50);
}

} // verus!
