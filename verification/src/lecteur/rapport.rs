//! Le rapport de séance.

use super::nombres::{a_droite, echelle, groupe, groupe_signe, optionnel, ordre};
#[allow(unused_imports)]
use super::nombres::{
    a_droite_de, en_milliards, groupe_de, groupe_signe_de, optionnel_de, poids_de_position,
    unite_de_position,
};
use crate::calendrier::{ecrire_instant, CALENDRIER_DEBUT, CALENDRIER_FIN};
#[allow(unused_imports)]
use crate::calendrier::instant_ecrit;
use crate::coeur::analyse::{Analyse, LigneExposee, Parametres, RegimeVol, SourceGamma};
use crate::coeur::temps::Convention;
use crate::fixe::{ecrire, ecrire_signe, fixe, fixe_avec_signe};
#[allow(unused_imports)]
use crate::fixe::{ecrit, ecrit_relatif, fixe_de, fixe_signe};
use crate::flottant::Flottant;
use crate::store::historique::LigneHistorique;
use crate::texte::{ajouter, ajouter_texte, capitales, caracteres, en_texte, joindre};
#[allow(unused_imports)]
use crate::texte::{capitales_de, joints, vues};
use vstd::prelude::*;

verus! {

impl SourceGamma {
    /// Le nom que le rapport et l'historique donnent à la source.
    #[verifier::allow_in_spec]
    pub fn nom(self) -> (s: &'static str)
        returns
            (match self {
                SourceGamma::Iv => "iv",
                SourceGamma::Publie => "published",
            }),
    {
        match self {
            SourceGamma::Iv => "iv",
            SourceGamma::Publie => "published",
        }
    }
}

impl Convention {
    /// Le nom que le rapport et l'historique donnent à la convention.
    #[verifier::allow_in_spec]
    pub fn nom(self) -> (s: &'static str)
        returns
            (match self {
                Convention::Heures => "heures",
                Convention::Bourse => "bourse",
            }),
    {
        match self {
            Convention::Heures => "heures",
            Convention::Bourse => "bourse",
        }
    }
}

impl RegimeVol {
    /// Le nom que le rapport donne au régime.
    #[verifier::allow_in_spec]
    pub fn nom(self) -> (s: &'static str)
        returns
            (match self {
                RegimeVol::StickyStrike => "sticky-strike",
                RegimeVol::StickyMoneyness => "sticky-moneyness",
            }),
    {
        match self {
            RegimeVol::StickyStrike => "sticky-strike",
            RegimeVol::StickyMoneyness => "sticky-moneyness",
        }
    }
}

/// Les décimales d'un prix : quatre sous dix, deux au-delà.
pub open spec fn decimales_de(spot: Flottant) -> nat {
    if spot.inferieur(Flottant::entier(10)) {
        4
    } else {
        2
    }
}

/// Les décimales d'un prix.
pub fn decimales(spot: Flottant) -> (n: usize)
    ensures
        n == decimales_de(spot),
{
    if spot.inf(Flottant::entier(10)) {
        4
    } else {
        2
    }
}

/// L'échéance d'une ligne est déjà dans celles qui précèdent.
pub open spec fn deja_vue(v: Seq<LigneExposee>, l: LigneExposee) -> bool {
    exists|i: int|
        0 <= i < v.len() && (#[trigger] v[i]).ligne.echeance.0.micros == l.ligne.echeance.0.micros
}

/// Combien d'échéances distinctes.
pub open spec fn echeances_distinctes(v: Seq<LigneExposee>) -> nat
    decreases v.len(),
{
    if v.len() == 0 {
        0
    } else {
        echeances_distinctes(v.drop_last()) + if deja_vue(v.drop_last(), v.last()) {
            0nat
        } else {
            1nat
        }
    }
}

/// Compte les échéances distinctes.
pub fn compter_echeances(v: &[LigneExposee]) -> (n: usize)
    ensures
        n == echeances_distinctes(v@),
        n <= v@.len(),
{
    let mut n: usize = 0;
    let mut i: usize = 0;
    while i < v.len()
        invariant
            i <= v@.len(),
            n == echeances_distinctes(v@.take(i as int)),
            n <= i,
        decreases v@.len() - i,
    {
        let ghost t = v@.take(i as int);
        proof {
            assert(v@.take(i + 1).drop_last() =~= t);
            assert(v@.take(i + 1).last() == v@[i as int]);
        }
        let e: i64 = v[i].ligne.echeance.0.micros;
        let mut vue: bool = false;
        let mut k: usize = 0;
        while k < i && !vue
            invariant
                k <= i < v@.len(),
                t == v@.take(i as int),
                e == v@[i as int].ligne.echeance.0.micros,
                vue ==> deja_vue(t, v@[i as int]),
                !vue ==> forall|j: int|
                    0 <= j < k ==> (#[trigger] t[j]).ligne.echeance.0.micros != e,
            decreases i - k + if vue {
                0int
            } else {
                1
            },
        {
            assert(t[k as int] == v@[k as int]);
            if v[k].ligne.echeance.0.micros == e {
                vue = true;
            } else {
                k += 1;
            }
        }
        if !vue {
            n += 1;
        }
        i += 1;
    }
    assert(v@.take(i as int) =~= v@);
    n
}

/// L'horizon tel que l'en-tête le dit.
pub open spec fn horizon_de(dte_max: Option<i64>) -> Seq<char> {
    match dte_max {
        Some(n) => "<= "@ + ecrit_relatif(n as int) + "j"@,
        None => "toutes échéances"@,
    }
}

/// L'en-tête du rapport : sous quelles hypothèses le chiffre a été produit.
pub open spec fn entete_de(
    a: Analyse,
    produit: Seq<char>,
    params: Parametres,
    quand: Seq<char>,
) -> Seq<char> {
    produit + " | sous-jacent "@ + groupe_de(a.spot, decimales_de(a.spot)) + " | "@ + ecrit(
        a.par_strike@.len(),
    ) + " strikes / "@ + ecrit(echeances_distinctes(a.lignes@)) + " échéances ("@ + horizon_de(
        params.dte_max,
    ) + ") | "@ + quand + " | contrat x"@ + groupe_de(a.taille_contrat, 0) + " | gamma "@
        + params.source_gamma.nom()@ + " | T "@ + params.convention.nom()@ + " | vol "@
        + params.regime_vol.nom()@ + "\n"@
}

fn entete(a: &Analyse, produit: &str, params: &Parametres, quand: &str) -> (v: Vec<char>)
    ensures
        v@ == entete_de(*a, produit@, *params, quand@),
{
    let mut v: Vec<char> = caracteres(produit);
    ajouter_texte(&mut v, " | sous-jacent ");
    ajouter(&mut v, groupe(a.spot, decimales(a.spot)).as_slice());
    ajouter_texte(&mut v, " | ");
    ajouter(&mut v, ecrire(a.par_strike.len() as u64).as_slice());
    ajouter_texte(&mut v, " strikes / ");
    ajouter(&mut v, ecrire(compter_echeances(a.lignes.as_slice()) as u64).as_slice());
    ajouter_texte(&mut v, " échéances (");
    let mut horizon: Vec<char> = Vec::new();
    match params.dte_max {
        Some(n) => {
            ajouter_texte(&mut horizon, "<= ");
            ajouter(&mut horizon, ecrire_signe(n).as_slice());
            ajouter_texte(&mut horizon, "j");
        },
        None => {
            ajouter_texte(&mut horizon, "toutes échéances");
        },
    }
    assert(horizon@ =~= horizon_de(params.dte_max));
    ajouter(&mut v, horizon.as_slice());
    ajouter_texte(&mut v, ") | ");
    ajouter_texte(&mut v, quand);
    ajouter_texte(&mut v, " | contrat x");
    ajouter(&mut v, groupe(a.taille_contrat, 0).as_slice());
    ajouter_texte(&mut v, " | gamma ");
    ajouter_texte(&mut v, params.source_gamma.nom());
    ajouter_texte(&mut v, " | T ");
    ajouter_texte(&mut v, params.convention.nom());
    ajouter_texte(&mut v, " | vol ");
    ajouter_texte(&mut v, params.regime_vol.nom());
    ajouter_texte(&mut v, "\n");
    assert(v@ =~= entete_de(*a, produit@, *params, quand@));
    v
}

/// Une valeur rapportée à l'unité d'un ordre de grandeur.
pub open spec fn poids_de(valeurs: Seq<Flottant>) -> Flottant {
    if en_milliards(valeurs) {
        Flottant::entier(1_000_000_000)
    } else {
        Flottant::entier(1_000_000)
    }
}

/// Le nom de cette unité.
pub open spec fn unite_de(valeurs: Seq<Flottant>) -> Seq<char> {
    if en_milliards(valeurs) {
        "milliards"@
    } else {
        "millions"@
    }
}

/// Un mur vu par le gamma et par l'intérêt ouvert, côte à côte.
pub open spec fn ligne_de_mur(
    titre: Seq<char>,
    gamma: Option<Flottant>,
    oi: Option<Flottant>,
    dec: nat,
) -> Seq<char> {
    titre + a_droite_de(optionnel_de(gamma, dec), 12) + " (gamma)   "@ + a_droite_de(
        optionnel_de(oi, dec),
        12,
    ) + " (open interest)\n"@
}

fn ecrire_mur(titre: &str, gamma: Option<Flottant>, oi: Option<Flottant>, dec: usize) -> (v: Vec<
    char,
>)
    ensures
        v@ == ligne_de_mur(titre@, gamma, oi, dec as nat),
{
    let mut v: Vec<char> = caracteres(titre);
    ajouter(&mut v, a_droite(optionnel(gamma, dec).as_slice(), 12).as_slice());
    ajouter_texte(&mut v, " (gamma)   ");
    ajouter(&mut v, a_droite(optionnel(oi, dec).as_slice(), 12).as_slice());
    ajouter_texte(&mut v, " (open interest)\n");
    assert(v@ =~= ligne_de_mur(titre@, gamma, oi, dec as nat));
    v
}

/// Une position du book, dans son unité.
pub open spec fn ligne_de_position(titre: Seq<char>, valeur: Flottant, suite: Seq<char>) -> Seq<
    char,
> {
    titre + groupe_signe_de(valeur.par(poids_de_position(valeur)), 2) + " "@ + unite_de_position(
        valeur,
    ) + suite
}

fn ecrire_position(titre: &str, valeur: Flottant, suite: &str) -> (v: Vec<char>)
    ensures
        v@ == ligne_de_position(titre@, valeur, suite@),
{
    let (poids, unite): (Flottant, &'static str) = ordre(valeur);
    let mut v: Vec<char> = caracteres(titre);
    ajouter(&mut v, groupe_signe(valeur.par(poids), 2).as_slice());
    ajouter_texte(&mut v, " ");
    ajouter_texte(&mut v, unite);
    ajouter_texte(&mut v, suite);
    assert(v@ =~= ligne_de_position(titre@, valeur, suite@));
    v
}

/// Le corps du rapport : le GEX, le zero gamma, les murs, le max pain, les deux flux de
/// couverture, qui partagent leur unité, et les deux positions du book.
pub open spec fn corps_de(a: Analyse) -> Seq<char> {
    let dec = decimales_de(a.spot);
    let g = seq![a.gex];
    let f = seq![a.charm, a.vanna];
    "Total GEX  : "@ + groupe_de(a.gex.par(poids_de(g)), 2) + " "@ + unite_de(g)
        + " $ / mouvement de 1%\n"@ + "Zero Gamma : "@ + optionnel_de(a.zero_gamma, dec) + "\n"@
        + ligne_de_mur("Call Wall  : "@, a.murs.call, a.murs.call_oi, dec) + ligne_de_mur(
        "Put Wall   : "@,
        a.murs.put,
        a.murs.put_oi,
        dec,
    ) + "Max Pain   : "@ + a_droite_de(optionnel_de(a.max_pain, dec), 12)
        + " (échéance la plus proche)\n"@ + "Charm      : "@ + groupe_signe_de(
        a.charm.par(poids_de(f)),
        2,
    ) + " "@ + unite_de(f) + " $ de delta / jour\n"@ + "Vanna      : "@ + groupe_signe_de(
        a.vanna.par(poids_de(f)),
        2,
    ) + " "@ + unite_de(f) + " $ de delta / point de vol\n"@ + ligne_de_position(
        "Delta      : "@,
        a.delta,
        " $ de sous-jacent\n"@,
    ) + ligne_de_position("Vega       : "@, a.vega, " $ / point de vol\n"@) + ligne_de_position(
        "Thêta      : "@,
        a.theta,
        " $ / jour\n"@,
    )
}

fn corps(a: &Analyse) -> (v: Vec<char>)
    ensures
        v@ == corps_de(*a),
{
    let dec: usize = decimales(a.spot);
    let un: [Flottant; 1] = [a.gex];
    let deux: [Flottant; 2] = [a.charm, a.vanna];
    let (ech, unite): (Flottant, &'static str) = echelle(un.as_slice());
    let (gech, gunite): (Flottant, &'static str) = echelle(deux.as_slice());
    proof {
        assert(un@ =~= seq![a.gex]);
        assert(deux@ =~= seq![a.charm, a.vanna]);
    }
    let mut v: Vec<char> = caracteres("Total GEX  : ");
    ajouter(&mut v, groupe(a.gex.par(ech), 2).as_slice());
    ajouter_texte(&mut v, " ");
    ajouter_texte(&mut v, unite);
    ajouter_texte(&mut v, " $ / mouvement de 1%\n");
    ajouter_texte(&mut v, "Zero Gamma : ");
    ajouter(&mut v, optionnel(a.zero_gamma, dec).as_slice());
    ajouter_texte(&mut v, "\n");
    ajouter(&mut v, ecrire_mur("Call Wall  : ", a.murs.call, a.murs.call_oi, dec).as_slice());
    ajouter(&mut v, ecrire_mur("Put Wall   : ", a.murs.put, a.murs.put_oi, dec).as_slice());
    ajouter_texte(&mut v, "Max Pain   : ");
    ajouter(&mut v, a_droite(optionnel(a.max_pain, dec).as_slice(), 12).as_slice());
    ajouter_texte(&mut v, " (échéance la plus proche)\n");
    ajouter_texte(&mut v, "Charm      : ");
    ajouter(&mut v, groupe_signe(a.charm.par(gech), 2).as_slice());
    ajouter_texte(&mut v, " ");
    ajouter_texte(&mut v, gunite);
    ajouter_texte(&mut v, " $ de delta / jour\n");
    ajouter_texte(&mut v, "Vanna      : ");
    ajouter(&mut v, groupe_signe(a.vanna.par(gech), 2).as_slice());
    ajouter_texte(&mut v, " ");
    ajouter_texte(&mut v, gunite);
    ajouter_texte(&mut v, " $ de delta / point de vol\n");
    ajouter(&mut v, ecrire_position("Delta      : ", a.delta, " $ de sous-jacent\n").as_slice());
    ajouter(&mut v, ecrire_position("Vega       : ", a.vega, " $ / point de vol\n").as_slice());
    ajouter(&mut v, ecrire_position("Thêta      : ", a.theta, " $ / jour\n").as_slice());
    assert(v@ =~= corps_de(*a));
    v
}

/// Des niveaux, chacun écrit.
pub open spec fn niveaux_ecrits(niveaux: Seq<Flottant>, dec: nat) -> Seq<Seq<char>> {
    Seq::new(niveaux.len(), |i: int| groupe_de(niveaux[i], dec))
}

fn ecrire_niveaux(niveaux: &[Flottant], dec: usize) -> (v: Vec<Vec<char>>)
    ensures
        vues(v@) == niveaux_ecrits(niveaux@, dec as nat),
{
    let mut v: Vec<Vec<char>> = Vec::new();
    let mut i: usize = 0;
    while i < niveaux.len()
        invariant
            i <= niveaux@.len(),
            v@.len() == i,
            forall|k: int| 0 <= k < i ==> (#[trigger] v@[k])@ == groupe_de(niveaux@[k], dec as nat),
        decreases niveaux@.len() - i,
    {
        v.push(groupe(niveaux[i], dec));
        i += 1;
    }
    assert(vues(v@) =~= niveaux_ecrits(niveaux@, dec as nat));
    v
}

/// Ce que les croisements du profil obligent à dire : plusieurs sont nommés, et pas seulement
/// comptés.
pub open spec fn avis_de_croisement(a: Analyse, dec: nat) -> Seq<char> {
    if a.croisements@.len() == 0 {
        "\nAttention : pas de changement de signe du gamma dans la plage analysée ("@ + groupe_de(
            a.niveaux@[0],
            dec,
        ) + " - "@ + groupe_de(a.niveaux@.last(), dec)
            + ") — élargis avec --range, ou allonge l'horizon avec --dte-max.\n"@
    } else if a.croisements@.len() > 1 {
        "\nAttention : le profil croise zéro "@ + ecrit(a.croisements@.len()) + " fois — "@
            + joints(niveaux_ecrits(a.croisements@, dec), " / "@)
            + ". Le niveau retenu est\nle plus proche du spot ("@ + optionnel_de(a.zero_gamma, dec)
            + ") ;\nle régime n'est pas une simple bascule au-dessus / en dessous.\n"@
    } else {
        Seq::empty()
    }
}

/// Ce que le désaccord des deux gammas oblige à dire, dès qu'il dépasse cinq pour cent.
pub open spec fn avis_d_ecart(a: Analyse) -> Seq<char> {
    match a.ecart_gamma {
        Some(e) => if Flottant::fraction(5, 100).inferieur(e.relatif.abs()) {
            let v = seq![e.iv, e.publie];
            "\nAttention : le gamma recalculé depuis l'IV donne "@ + groupe_de(
                e.iv.par(poids_de(v)),
                2,
            ) + " "@ + unite_de(v)
                + " $ de GEX,\net le gamma publié par la source "@ + groupe_de(
                e.publie.par(poids_de(v)),
                2,
            ) + " — soit "@ + fixe_signe(e.relatif.fois(Flottant::entier(100)), 0)
                + "% d'écart. Les deux lectures sont\ndisponibles via --gamma-source ; l'écart se creuse sur les échéances courtes.\n"@
        } else {
            Seq::empty()
        },
        None => Seq::empty(),
    }
}

/// Ce que le poids des échéances les plus courtes oblige à dire, à partir de quinze pour
/// cent.
pub open spec fn avis_de_courtes(a: Analyse) -> Seq<char> {
    match (a.part_courtes.gex, a.part_courtes.charm) {
        (Some(gex), Some(charm)) => if Flottant::fraction(15, 100).inferieur_ou_egal(gex) {
            "\nAttention : les échéances à 0-1 jour portent "@ + fixe_de(
                gex.fois(Flottant::entier(100)),
                0,
            ) + "% du GEX, "@ + fixe_de(charm.fois(Flottant::entier(100)), 0)
                + "% du charm. Leurs greeks sont\ninstables sur des données différées — compare avec --dte-min 2 avant de conclure.\n"@
        } else {
            Seq::empty()
        },
        _ => Seq::empty(),
    }
}

/// Les diagnostics qui décident si les chiffres du rapport sont lisibles.
pub open spec fn avis_de(a: Analyse) -> Seq<char> {
    avis_de_croisement(a, decimales_de(a.spot)) + avis_d_ecart(a) + avis_de_courtes(a)
}

fn dire_croisement(a: &Analyse, dec: usize) -> (v: Vec<char>)
    requires
        a.croisements@.len() == 0 ==> a.niveaux@.len() > 0,
    ensures
        v@ == avis_de_croisement(*a, dec as nat),
{
    let mut v: Vec<char> = Vec::new();
    if a.croisements.len() == 0 {
        ajouter_texte(
            &mut v,
            "\nAttention : pas de changement de signe du gamma dans la plage analysée (",
        );
        ajouter(&mut v, groupe(a.niveaux[0], dec).as_slice());
        ajouter_texte(&mut v, " - ");
        ajouter(&mut v, groupe(a.niveaux[a.niveaux.len() - 1], dec).as_slice());
        ajouter_texte(
            &mut v,
            ") — élargis avec --range, ou allonge l'horizon avec --dte-max.\n",
        );
    } else if a.croisements.len() > 1 {
        ajouter_texte(&mut v, "\nAttention : le profil croise zéro ");
        ajouter(&mut v, ecrire(a.croisements.len() as u64).as_slice());
        ajouter_texte(&mut v, " fois — ");
        let niveaux: Vec<Vec<char>> = ecrire_niveaux(a.croisements.as_slice(), dec);
        ajouter(&mut v, joindre(&niveaux, " / ").as_slice());
        ajouter_texte(&mut v, ". Le niveau retenu est\nle plus proche du spot (");
        ajouter(&mut v, optionnel(a.zero_gamma, dec).as_slice());
        ajouter_texte(
            &mut v,
            ") ;\nle régime n'est pas une simple bascule au-dessus / en dessous.\n",
        );
    }
    assert(v@ =~= avis_de_croisement(*a, dec as nat));
    v
}

fn dire_ecart(a: &Analyse) -> (v: Vec<char>)
    ensures
        v@ == avis_d_ecart(*a),
{
    let mut v: Vec<char> = Vec::new();
    if let Some(e) = a.ecart_gamma {
        if Flottant::fraction(5, 100).inf(e.relatif.abs()) {
            let deux: [Flottant; 2] = [e.iv, e.publie];
            let (ech, unite): (Flottant, &'static str) = echelle(deux.as_slice());
            assert(deux@ =~= seq![e.iv, e.publie]);
            ajouter_texte(&mut v, "\nAttention : le gamma recalculé depuis l'IV donne ");
            ajouter(&mut v, groupe(e.iv.par(ech), 2).as_slice());
            ajouter_texte(&mut v, " ");
            ajouter_texte(&mut v, unite);
            ajouter_texte(&mut v, " $ de GEX,\net le gamma publié par la source ");
            ajouter(&mut v, groupe(e.publie.par(ech), 2).as_slice());
            ajouter_texte(&mut v, " — soit ");
            ajouter(
                &mut v,
                fixe_avec_signe(e.relatif.fois(Flottant::entier(100)), 0).as_slice(),
            );
            ajouter_texte(
                &mut v,
                "% d'écart. Les deux lectures sont\ndisponibles via --gamma-source ; l'écart se creuse sur les échéances courtes.\n",
            );
        }
    }
    assert(v@ =~= avis_d_ecart(*a));
    v
}

fn dire_courtes(a: &Analyse) -> (v: Vec<char>)
    ensures
        v@ == avis_de_courtes(*a),
{
    let mut v: Vec<char> = Vec::new();
    if let (Some(gex), Some(charm)) = (a.part_courtes.gex, a.part_courtes.charm) {
        if Flottant::fraction(15, 100).infeg(gex) {
            ajouter_texte(&mut v, "\nAttention : les échéances à 0-1 jour portent ");
            ajouter(&mut v, fixe(gex.fois(Flottant::entier(100)), 0).as_slice());
            ajouter_texte(&mut v, "% du GEX, ");
            ajouter(&mut v, fixe(charm.fois(Flottant::entier(100)), 0).as_slice());
            ajouter_texte(
                &mut v,
                "% du charm. Leurs greeks sont\ninstables sur des données différées — compare avec --dte-min 2 avant de conclure.\n",
            );
        }
    }
    assert(v@ =~= avis_de_courtes(*a));
    v
}

/// Les diagnostics qui décident si les chiffres du rapport sont lisibles. Un mode
/// dégradé, une approximation ou un désaccord s'annonce, faute de quoi le lecteur prend
/// pour argent comptant un chiffre que le calcul sait douteux.
pub fn avertir(a: &Analyse) -> (v: Vec<char>)
    requires
        a.croisements@.len() == 0 ==> a.niveaux@.len() > 0,
    ensures
        v@ == avis_de(*a),
{
    let mut v: Vec<char> = dire_croisement(a, decimales(a.spot));
    ajouter(&mut v, dire_ecart(a).as_slice());
    ajouter(&mut v, dire_courtes(a).as_slice());
    v
}

/// Le rapport entier, l'instant du relevé étant déjà écrit.
pub open spec fn rapport_a(
    a: Analyse,
    produit: Seq<char>,
    params: Parametres,
    quand: Seq<char>,
) -> Seq<char> {
    entete_de(a, produit, params, quand) + corps_de(a) + avis_de(a)
}

/// Le rapport de séance, l'instant du relevé étant écrit `quand`.
pub fn afficher_a(a: &Analyse, produit: &str, params: &Parametres, quand: &str) -> (s: String)
    requires
        a.croisements@.len() == 0 ==> a.niveaux@.len() > 0,
    ensures
        s@ == rapport_a(*a, produit@, *params, quand@),
{
    let mut v: Vec<char> = entete(a, produit, params, quand);
    ajouter(&mut v, corps(a).as_slice());
    ajouter(&mut v, avertir(a).as_slice());
    en_texte(v.as_slice())
}

/// Le rapport de séance.
pub fn afficher(a: &Analyse, produit: &str, params: &Parametres) -> (s: String)
    requires
        a.croisements@.len() == 0 ==> a.niveaux@.len() > 0,
        CALENDRIER_DEBUT <= a.releve.0.micros <= CALENDRIER_FIN,
    ensures
        s@ == rapport_a(
            *a,
            produit@,
            *params,
            instant_ecrit(a.releve.0.micros as int, "%Y-%m-%d %H:%M"@),
        ),
{
    let quand: String = ecrire_instant(a.releve.0, "%Y-%m-%d %H:%M");
    afficher_a(a, produit, params, quand.as_str())
}

/// La ligne d'historique d'une analyse, le produit étant écrit `ticker`.
pub open spec fn est_ligne_de(
    l: LigneHistorique,
    a: Analyse,
    ticker: Seq<char>,
    params: Parametres,
) -> bool {
    &&& l.instant == a.releve.0
    &&& l.ticker@ == ticker
    &&& l.dte_max == params.dte_max
    &&& l.source_gamma@ == params.source_gamma.nom()@
    &&& l.convention@ == params.convention.nom()@
    &&& l.spot == a.spot
    &&& l.gex == a.gex
    &&& l.zero_gamma == a.zero_gamma
    &&& l.call_wall == a.murs.call
    &&& l.put_wall == a.murs.put
    &&& l.call_wall_oi == a.murs.call_oi
    &&& l.put_wall_oi == a.murs.put_oi
    &&& l.charm == a.charm
    &&& l.vanna == a.vanna
    &&& l.strikes == a.par_strike@.len()
    &&& l.echeances == echeances_distinctes(a.lignes@)
    &&& l.iv_atm == a.iv_atm
}

/// La ligne d'historique d'une analyse, le produit étant déjà en capitales.
pub fn ligne_de(a: &Analyse, ticker: &str, params: &Parametres) -> (l: LigneHistorique)
    ensures
        est_ligne_de(l, *a, ticker@, *params),
{
    LigneHistorique {
        instant: a.releve.0,
        ticker: en_texte(caracteres(ticker).as_slice()),
        dte_max: params.dte_max,
        source_gamma: en_texte(caracteres(params.source_gamma.nom()).as_slice()),
        convention: en_texte(caracteres(params.convention.nom()).as_slice()),
        spot: a.spot,
        gex: a.gex,
        zero_gamma: a.zero_gamma,
        call_wall: a.murs.call,
        put_wall: a.murs.put,
        call_wall_oi: a.murs.call_oi,
        put_wall_oi: a.murs.put_oi,
        charm: a.charm,
        vanna: a.vanna,
        strikes: a.par_strike.len(),
        echeances: compter_echeances(a.lignes.as_slice()),
        iv_atm: a.iv_atm,
    }
}

/// La ligne d'historique d'une analyse.
pub fn ligne_historique(a: &Analyse, produit: &str, params: &Parametres) -> (l: LigneHistorique)
    ensures
        est_ligne_de(l, *a, capitales_de(produit@), *params),
{
    ligne_de(a, capitales(produit).as_str(), params)
}

/// La distance du prix au zero gamma, en pour cent de ce niveau.
pub open spec fn distance_de(a: Analyse) -> Option<Flottant> {
    match a.zero_gamma {
        Some(z) => Some(a.spot.moins(z).par(z).fois(Flottant::entier(100))),
        None => None,
    }
}

fn distance(a: &Analyse) -> (r: Option<Flottant>)
    ensures
        r == distance_de(*a),
{
    match a.zero_gamma {
        Some(z) => Some(a.spot.moins(z).par(z).fois(Flottant::entier(100))),
        None => None,
    }
}

/// Ce qui a bougé : le prix, puis le zero gamma et la distance quand les deux passages en
/// ont un.
pub open spec fn mouvements(precedent: Analyse, actuel: Analyse, dec: nat) -> Seq<Seq<char>> {
    let prix = seq!["spot "@ + groupe_signe_de(actuel.spot.moins(precedent.spot), dec)];
    let zero = match (precedent.zero_gamma, actuel.zero_gamma) {
        (Some(av), Some(ap)) => seq!["zero gamma "@ + groupe_signe_de(ap.moins(av), dec)],
        _ => Seq::empty(),
    };
    let ecart = match (distance_de(precedent), distance_de(actuel)) {
        (Some(av), Some(ap)) => seq![
            "distance au zero gamma "@ + groupe_signe_de(ap.moins(av), 2) + "%"@,
        ],
        _ => Seq::empty(),
    };
    prix + zero + ecart
}

/// Ce qui a bougé depuis le passage précédent. Le zero gamma se déplace peu en séance :
/// c'est la distance du prix à ce niveau qui décide du régime.
pub fn ecart_depuis(precedent: &Analyse, actuel: &Analyse, dec: usize) -> (s: String)
    ensures
        s@ == "  depuis le relevé précédent : "@ + joints(
            mouvements(*precedent, *actuel, dec as nat),
            ", "@,
        ),
{
    let mut m: Vec<Vec<char>> = Vec::new();
    let mut prix: Vec<char> = caracteres("spot ");
    ajouter(&mut prix, groupe_signe(actuel.spot.moins(precedent.spot), dec).as_slice());
    m.push(prix);
    if let (Some(av), Some(ap)) = (precedent.zero_gamma, actuel.zero_gamma) {
        let mut t: Vec<char> = caracteres("zero gamma ");
        ajouter(&mut t, groupe_signe(ap.moins(av), dec).as_slice());
        m.push(t);
    }
    if let (Some(av), Some(ap)) = (distance(precedent), distance(actuel)) {
        let mut t: Vec<char> = caracteres("distance au zero gamma ");
        ajouter(&mut t, groupe_signe(ap.moins(av), 2).as_slice());
        ajouter_texte(&mut t, "%");
        m.push(t);
    }
    assert(vues(m@) =~= mouvements(*precedent, *actuel, dec as nat));
    let mut v: Vec<char> = caracteres("  depuis le relevé précédent : ");
    ajouter(&mut v, joindre(&m, ", ").as_slice());
    en_texte(v.as_slice())
}

} // verus!
