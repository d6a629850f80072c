//! Le profil par strike de l'instant présent.
//!
//! Il vient du relevé courant et ne concerne que maintenant : un profil passé n'aurait
//! aucun sens, le book ayant changé.

use super::demande::nom_horizon;
#[allow(unused_imports)]
use super::demande::horizon_dit;
#[allow(unused_imports)]
use crate::calendrier::SECONDE;
use crate::coeur::analyse::{AgregatStrike, Analyse, LigneExposee, Parametres};
use crate::coeur::chaine::{Chaine, ChaineInvalide};
use crate::fixe::ecrire;
#[allow(unused_imports)]
use crate::fixe::ecrit;
use crate::flottant::Flottant;
use crate::texte::{ajouter, ajouter_texte, caracteres, en_texte, joindre};
#[allow(unused_imports)]
use crate::texte::{joints, vues};
use vstd::prelude::*;

verus! {

/// Demi-plage du profil de régime, autour du spot : assez large pour une séance agitée,
/// assez serrée pour peindre un dégradé.
#[verifier::allow_in_spec]
pub fn plage_regime() -> (f: Flottant)
    returns
        Flottant::fraction(4, 100),
{
    Flottant::fraction(4, 100)
}

/// Nombre de pas sur cette plage.
pub const NIVEAUX_REGIME: usize = 160;

/// Les réglages du profil : du grain là où le prix se trouve, pas une couverture large.
pub fn parametres(taille: Flottant, horizon: Option<i64>) -> (p: Parametres)
    ensures
        p.taille_contrat == taille,
        p.dte_max == horizon,
        p.dte_min == 0,
        p.plage == plage_regime(),
        p.niveaux == NIVEAUX_REGIME,
        p.plage_murs == Flottant::fraction(15, 100),
        p.plage_murs_oi == Flottant::fraction(30, 100),
        p.source_gamma is Iv,
        p.convention is Heures,
        p.regime_vol is StickyStrike,
{
    let mut p: Parametres = Parametres::default();
    p.taille_contrat = taille;
    p.dte_max = horizon;
    p.plage = plage_regime();
    p.niveaux = NIVEAUX_REGIME;
    p
}

/// Le GEX d'un strike, à l'instant présent.
#[derive(Clone, Copy, Debug, PartialEq, Eq, Structural)]
pub struct Strike {
    pub strike: Flottant,
    pub gex: Flottant,
    pub call_oi: Flottant,
    pub put_oi: Flottant,
}

/// Le GEX à un niveau de prix hypothétique.
#[derive(Clone, Copy, Debug, PartialEq, Eq, Structural)]
pub struct PointProfil {
    pub niveau: Flottant,
    pub gex: Flottant,
    /// Les dollars que la couverture forcerait à acheter pour y aller depuis le spot.
    pub carburant: Flottant,
}

/// L'état de la collecte, affiché en permanence.
#[derive(Clone, Debug, PartialEq, Eq)]
pub struct Etat {
    /// L'instant du dernier relevé, en secondes depuis l'époque.
    pub releve: Option<i64>,
    /// Le prix du sous-jacent au dernier relevé.
    pub spot: Option<Flottant>,
    /// Nombre de strikes dans le relevé courant.
    pub strikes: usize,
    /// Le message à afficher quand quelque chose cloche.
    pub avertissement: Option<String>,
}

/// Ce que le relevé courant vaut à l'horizon choisi.
#[derive(Clone, Copy, Debug, PartialEq, Eq, Structural)]
pub struct Maintenant {
    pub gex: Flottant,
    pub zero_gamma: Option<Flottant>,
    pub call_wall: Option<Flottant>,
    pub put_wall: Option<Flottant>,
    pub max_pain: Option<Flottant>,
    /// Le strike au GEX net le plus positif, de quelque côté du spot qu'il tombe.
    pub long_gamma: Option<Flottant>,
    /// Le strike au GEX net le plus négatif.
    pub short_gamma: Option<Flottant>,
    /// Les murs par le volume du jour.
    pub call_wall_vol: Option<Flottant>,
    pub put_wall_vol: Option<Flottant>,
}

/// Ce que la page reçoit de l'instant présent.
#[derive(Clone, Debug, PartialEq, Eq)]
pub struct Profil {
    pub etat: Etat,
    pub strikes: Vec<Strike>,
    /// Le régime en fonction du niveau de prix.
    pub regime: Vec<PointProfil>,
    /// Le mouvement que le marché price d'ici la plus proche échéance.
    pub attendu: Option<Flottant>,
    /// Tous les niveaux où le régime change de signe, dans la plage peinte.
    pub croisements: Vec<Flottant>,
    /// Celui que l'écran retient : le plus proche du spot.
    pub zero_gamma: Option<Flottant>,
    /// Les chiffres du relevé courant, à l'horizon retenu.
    pub maintenant: Option<Maintenant>,
    /// L'horizon effectivement appliqué, en jours. Rien : toutes les échéances.
    pub horizon: Option<i64>,
}

/// Un profil qui ne porte qu'un état.
pub open spec fn est_vide(p: Profil, horizon: Option<i64>) -> bool {
    &&& p.strikes@.len() == 0
    &&& p.regime@.len() == 0
    &&& p.attendu is None
    &&& p.croisements@.len() == 0
    &&& p.zero_gamma is None
    &&& p.maintenant is None
    &&& p.horizon == horizon
    &&& p.etat.strikes == 0
}

fn vide(etat: Etat, horizon: Option<i64>) -> (p: Profil)
    requires
        etat.strikes == 0,
    ensures
        est_vide(p, horizon),
        p.etat == etat,
{
    Profil {
        etat,
        strikes: Vec::new(),
        regime: Vec::new(),
        attendu: None,
        croisements: Vec::new(),
        zero_gamma: None,
        maintenant: None,
        horizon,
    }
}

/// Le profil quand aucun relevé n'existe : un écran qui dit quoi lancer.
pub fn sans_releve(chemin: &str, produit: &str, horizon: Option<i64>) -> (p: Profil)
    ensures
        est_vide(p, horizon),
        p.etat.releve is None,
        p.etat.spot is None,
        p.etat.avertissement is Some,
        p.etat.avertissement->0@ == "Aucun relevé en "@ + chemin@ + ". Lance : gex-collector "@
            + produit@,
{
    let mut v: Vec<char> = caracteres("Aucun relevé en ");
    ajouter_texte(&mut v, chemin);
    ajouter_texte(&mut v, ". Lance : gex-collector ");
    ajouter_texte(&mut v, produit);
    vide(
        Etat {
            releve: None,
            spot: None,
            strikes: 0,
            avertissement: Some(en_texte(v.as_slice())),
        },
        horizon,
    )
}

/// Le profil d'un horizon vide : ce n'est pas une panne, hors séance « 0DTE » ne contient
/// rien.
pub fn horizon_vide(chaine: &Chaine, refus: ChaineInvalide, horizon: Option<i64>) -> (p: Profil)
    ensures
        est_vide(p, horizon),
        p.etat.releve == Some((chaine.releve.0.micros as int / SECONDE as int) as i64),
        p.etat.spot == Some(chaine.spot),
        p.etat.avertissement is Some,
        p.etat.avertissement->0@ == "Aucune échéance dans l'horizon "@ + horizon_dit(horizon)
            + " : "@ + refus.texte(),
{
    let mut v: Vec<char> = caracteres("Aucune échéance dans l'horizon ");
    ajouter_texte(&mut v, nom_horizon(horizon).as_str());
    ajouter_texte(&mut v, " : ");
    ajouter_texte(&mut v, refus.message().as_str());
    vide(
        Etat {
            releve: Some(chaine.releve.0.secondes()),
            spot: Some(chaine.spot),
            strikes: 0,
            avertissement: Some(en_texte(v.as_slice())),
        },
        horizon,
    )
}

/// Quelque chose cote : une ligne au moins porte un open interest.
pub open spec fn cote_de(v: Seq<LigneExposee>) -> bool {
    exists|i: int|
        0 <= i < v.len() && (#[trigger] v[i]).ligne.call.open_interest.plus(
            v[i].ligne.put.open_interest,
        ).positif()
}

/// Un strike au moins a traité.
pub open spec fn volume_servi(v: Seq<AgregatStrike>) -> bool {
    exists|i: int|
        0 <= i < v.len() && !(#[trigger] v[i]).call_vol.plus(v[i].put_vol).de_meme_valeur(
            Flottant::nul(),
        )
}

fn cote(v: &[LigneExposee]) -> (b: bool)
    ensures
        b == cote_de(v@),
{
    let mut i: usize = 0;
    while i < v.len()
        invariant
            i <= v@.len(),
            forall|k: int|
                0 <= k < i ==> !(#[trigger] v@[k]).ligne.call.open_interest.plus(
                    v@[k].ligne.put.open_interest,
                ).positif(),
        decreases v@.len() - i,
    {
        if v[i].ligne.call.open_interest.plus(v[i].ligne.put.open_interest).est_positif() {
            return true;
        }
        i += 1;
    }
    false
}

fn volume(v: &[AgregatStrike]) -> (b: bool)
    ensures
        b == volume_servi(v@),
{
    let mut i: usize = 0;
    while i < v.len()
        invariant
            i <= v@.len(),
            forall|k: int|
                0 <= k < i ==> (#[trigger] v@[k]).call_vol.plus(v@[k].put_vol).de_meme_valeur(
                    Flottant::nul(),
                ),
        decreases v@.len() - i,
    {
        if !v[i].call_vol.plus(v[i].put_vol).egal(Flottant::nul()) {
            return true;
        }
        i += 1;
    }
    false
}

/// Les greeks de position exactement nuls : la source ne les publie pas.
pub open spec fn muets_de(a: Analyse) -> Seq<Seq<char>> {
    let d = if a.delta.de_meme_valeur(Flottant::nul()) {
        seq!["delta"@]
    } else {
        Seq::empty()
    };
    let v = if a.vega.de_meme_valeur(Flottant::nul()) {
        seq!["vega"@]
    } else {
        Seq::empty()
    };
    let t = if a.theta.de_meme_valeur(Flottant::nul()) {
        seq!["thêta"@]
    } else {
        Seq::empty()
    };
    d + v + t
}

/// Les greeks de position exactement nuls.
pub fn greeks_muets(a: &Analyse) -> (m: Vec<Vec<char>>)
    ensures
        vues(m@) == muets_de(*a),
{
    let mut m: Vec<Vec<char>> = Vec::new();
    if a.delta.egal(Flottant::nul()) {
        m.push(caracteres("delta"));
    }
    if a.vega.egal(Flottant::nul()) {
        m.push(caracteres("vega"));
    }
    if a.theta.egal(Flottant::nul()) {
        m.push(caracteres("thêta"));
    }
    assert(vues(m@) =~= muets_de(*a));
    m
}

/// Le bandeau d'alerte : ce qui manque au relevé, dans l'ordre où cela compte.
pub open spec fn bandeau_de(a: Analyse, cote: bool) -> Option<Seq<char>> {
    let n = ecrit(a.par_strike@.len());
    let m = muets_de(a);
    if !cote {
        Some("Aucun open interest dans le relevé : le marché ne cote pas."@)
    } else if !volume_servi(a.par_strike@) {
        Some(
            "Aucun volume sur les "@ + n
                + " strikes du relevé : la source ne sert pas le volume des options. Les murs par volume restent vides — ce n'est pas une séance sans échange, c'est une donnée absente."@,
        )
    } else if m.len() == 0 {
        None
    } else {
        Some(
            joints(m, ", "@) + " exactement nul"@ + if m.len() > 1 {
                "s"@
            } else {
                ""@
            } + " sur "@ + n + " strikes ouverts : la source ne "@ + if m.len() > 1 {
                "les"@
            } else {
                "le"@
            }
                + " publie pas. Ce n'est pas un book neutre, c'est une mesure absente — le delta, le vega et le thêta n'ont aucun repli recalculé, contrairement au gamma."@,
        )
    }
}

/// Le bandeau d'alerte de l'écran.
///
/// Un relevé sans open interest n'a pas un GEX nul : il n'en a pas. Un book dont le delta,
/// le vega ou le thêta valent exactement zéro n'est pas neutre : la source ne les publie pas.
pub fn avertissement(a: &Analyse, cote: bool) -> (r: Option<String>)
    ensures
        match r {
            Some(s) => bandeau_de(*a, cote) == Some(s@),
            None => bandeau_de(*a, cote) is None,
        },
{
    let mut v: Vec<char> = Vec::new();
    if !cote {
        ajouter_texte(&mut v, "Aucun open interest dans le relevé : le marché ne cote pas.");
        assert(v@ =~= "Aucun open interest dans le relevé : le marché ne cote pas."@);
        return Some(en_texte(v.as_slice()));
    }
    if !volume(a.par_strike.as_slice()) {
        ajouter_texte(&mut v, "Aucun volume sur les ");
        ajouter(&mut v, ecrire(a.par_strike.len() as u64).as_slice());
        ajouter_texte(
            &mut v,
            " strikes du relevé : la source ne sert pas le volume des options. Les murs par volume restent vides — ce n'est pas une séance sans échange, c'est une donnée absente.",
        );
        assert(v@ =~= bandeau_de(*a, cote)->0);
        return Some(en_texte(v.as_slice()));
    }
    let muets: Vec<Vec<char>> = greeks_muets(a);
    assert(vues(muets@).len() == muets@.len());
    if muets.len() == 0 {
        return None;
    }
    let pluriel: bool = muets.len() > 1;
    ajouter(&mut v, joindre(&muets, ", ").as_slice());
    ajouter_texte(&mut v, " exactement nul");
    ajouter_texte(
        &mut v,
        if pluriel {
            "s"
        } else {
            ""
        },
    );
    ajouter_texte(&mut v, " sur ");
    ajouter(&mut v, ecrire(a.par_strike.len() as u64).as_slice());
    ajouter_texte(&mut v, " strikes ouverts : la source ne ");
    ajouter_texte(
        &mut v,
        if pluriel {
            "les"
        } else {
            "le"
        },
    );
    ajouter_texte(
        &mut v,
        " publie pas. Ce n'est pas un book neutre, c'est une mesure absente — le delta, le vega et le thêta n'ont aucun repli recalculé, contrairement au gamma.",
    );
    assert(v@ =~= bandeau_de(*a, cote)->0);
    Some(en_texte(v.as_slice()))
}

pub open spec fn strike_de(s: AgregatStrike) -> Strike {
    Strike { strike: s.strike, gex: s.gex, call_oi: s.call_oi, put_oi: s.put_oi }
}

/// Le profil d'une analyse.
pub open spec fn est_profil_de(p: Profil, a: Analyse, horizon: Option<i64>) -> bool {
    let n = a.niveaux@.len();
    let m = a.profil@.len();
    let c = a.carburant@.len();
    &&& p.etat.releve == Some((a.releve.0.micros as int / SECONDE as int) as i64)
    &&& p.etat.spot == Some(a.spot)
    &&& p.etat.strikes == a.par_strike@.len()
    &&& match p.etat.avertissement {
        Some(s) => bandeau_de(a, cote_de(a.lignes@)) == Some(s@),
        None => bandeau_de(a, cote_de(a.lignes@)) is None,
    }
    &&& p.strikes@ == Seq::new(a.par_strike@.len(), |i: int| strike_de(a.par_strike@[i]))
    &&& p.regime@ == Seq::new(
        if n <= m && n <= c {
            n
        } else if m <= c {
            m
        } else {
            c
        },
        |i: int|
            PointProfil {
                niveau: a.niveaux@[i],
                gex: a.profil@[i],
                carburant: a.carburant@[i],
            },
    )
    &&& p.attendu == a.attendu
    &&& p.croisements@ == a.croisements@
    &&& p.zero_gamma == a.zero_gamma
    &&& p.maintenant == Some(
        Maintenant {
            gex: a.gex,
            zero_gamma: a.zero_gamma,
            call_wall: a.murs.call,
            put_wall: a.murs.put,
            max_pain: a.max_pain,
            long_gamma: a.gamma_majeur.long,
            short_gamma: a.gamma_majeur.court,
            call_wall_vol: a.murs.call_vol,
            put_wall_vol: a.murs.put_vol,
        },
    )
    &&& p.horizon == horizon
}

/// Le profil par strike de l'instant présent.
pub fn profil(a: &Analyse, horizon: Option<i64>) -> (p: Profil)
    ensures
        est_profil_de(p, *a, horizon),
{
    let mut strikes: Vec<Strike> = Vec::new();
    let mut i: usize = 0;
    while i < a.par_strike.len()
        invariant
            i <= a.par_strike@.len(),
            strikes@ =~= Seq::new(i as nat, |k: int| strike_de(a.par_strike@[k])),
        decreases a.par_strike@.len() - i,
    {
        let s: AgregatStrike = a.par_strike[i];
        strikes.push(
            Strike { strike: s.strike, gex: s.gex, call_oi: s.call_oi, put_oi: s.put_oi },
        );
        i += 1;
    }
    let mut regime: Vec<PointProfil> = Vec::new();
    let mut j: usize = 0;
    while j < a.niveaux.len() && j < a.profil.len() && j < a.carburant.len()
        invariant
            j <= a.niveaux@.len(),
            j <= a.profil@.len(),
            j <= a.carburant@.len(),
            regime@ =~= Seq::new(
                j as nat,
                |k: int|
                    PointProfil {
                        niveau: a.niveaux@[k],
                        gex: a.profil@[k],
                        carburant: a.carburant@[k],
                    },
            ),
        decreases a.niveaux@.len() - j,
    {
        regime.push(
            PointProfil { niveau: a.niveaux[j], gex: a.profil[j], carburant: a.carburant[j] },
        );
        j += 1;
    }
    let mut croisements: Vec<Flottant> = Vec::new();
    let mut k: usize = 0;
    while k < a.croisements.len()
        invariant
            k <= a.croisements@.len(),
            croisements@ =~= a.croisements@.take(k as int),
        decreases a.croisements@.len() - k,
    {
        croisements.push(a.croisements[k]);
        k += 1;
    }
    assert(croisements@ =~= a.croisements@);
    let etat: Etat = Etat {
        releve: Some(a.releve.0.secondes()),
        spot: Some(a.spot),
        strikes: strikes.len(),
        avertissement: avertissement(a, cote(a.lignes.as_slice())),
    };
    Profil {
        etat,
        strikes,
        regime,
        attendu: a.attendu,
        croisements,
        zero_gamma: a.zero_gamma,
        maintenant: Some(
            Maintenant {
                gex: a.gex,
                zero_gamma: a.zero_gamma,
                call_wall: a.murs.call,
                put_wall: a.murs.put,
                max_pain: a.max_pain,
                long_gamma: a.gamma_majeur.long,
                short_gamma: a.gamma_majeur.court,
                call_wall_vol: a.murs.call_vol,
                put_wall_vol: a.murs.put_vol,
            },
        ),
        horizon,
    }
}

} // verus!
