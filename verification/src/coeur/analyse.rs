//! D'une chaîne d'options à tous les chiffres d'une séance.
//!
//! Les dealers sont longs les calls et shorts les puts : un GEX total négatif veut
//! dire qu'ils vendent quand le marché baisse, le régime qui amplifie les mouvements.

use super::black76::Sens;
use super::chaine::{Chaine, ChaineInvalide, Ligne};
#[allow(unused_imports)]
use super::chaine::selection;
#[allow(unused_imports)]
use super::echeances::{est_la_plus_proche, extraire_partage_les_lignes, lemme_cible};
#[allow(unused_imports)]
use super::fonctions::{courbe, est_fonction};
use super::fonctions::appliquer;
use super::greeks::{charm_exposition, gamma_exposition, vanna_exposition};
#[allow(unused_imports)]
use super::greeks::{exposition_charm, exposition_gamma, exposition_vanna};
use super::temps::{temps_restant, Convention, EcheanceNy, InstantReleve};
#[allow(unused_imports)]
use super::temps::{temps_voulu, utc_ny};
use crate::calendrier::{quantieme, Jour};
#[allow(unused_imports)]
use crate::calendrier::{quantieme_de, usuel};
#[allow(unused_imports)]
use crate::court::un_nombre_fini_est_son_arrondi;
use crate::flottant::Flottant;
#[allow(unused_imports)]
use crate::flottant::{lemme_magnitude_nulle, lemme_produit_nul, lemme_quotient_par_soi, rapport};
use crate::tri::trier;
#[allow(unused_imports)]
use crate::tri::triee;
use vstd::prelude::*;

verus! {

/// D'où vient le gamma qui sert au GEX par strike.
#[derive(Clone, Copy, Debug, PartialEq, Eq, Structural)]
pub enum SourceGamma {
    /// Recalculé depuis la volatilité implicite.
    Iv,
    /// Tel que diffusé par la source.
    Publie,
}

impl Default for SourceGamma {
    fn default() -> (s: SourceGamma)
        ensures
            s == SourceGamma::Iv,
    {
        SourceGamma::Iv
    }
}

/// Ce que devient la volatilité quand le spot bouge, dans le profil.
#[derive(Clone, Copy, Debug, PartialEq, Eq, Structural)]
pub enum RegimeVol {
    /// Chaque contrat garde sa volatilité.
    StickyStrike,
    /// Le smile est figé en monnaie et se translate avec le spot.
    StickyMoneyness,
}

impl Default for RegimeVol {
    fn default() -> (s: RegimeVol)
        ensures
            s == RegimeVol::StickyStrike,
    {
        RegimeVol::StickyStrike
    }
}

/// Les réglages d'une analyse.
#[derive(Clone, Copy, Debug, PartialEq, Eq, Structural)]
pub struct Parametres {
    /// Multiplicateur du contrat.
    pub taille_contrat: Flottant,
    /// Horizon d'échéance en jours calendaires. Sans lui, toute la chaîne est gardée.
    pub dte_max: Option<i64>,
    /// Échéances à moins de tant de jours exclues.
    pub dte_min: i64,
    /// Demi-plage du profil autour du spot.
    pub plage: Flottant,
    /// Demi-plage de recherche des murs gamma.
    pub plage_murs: Flottant,
    /// Demi-plage des murs comptés en contrats : intérêt ouvert et volume.
    pub plage_murs_oi: Flottant,
    /// D'où vient le gamma.
    pub source_gamma: SourceGamma,
    /// Comment se mesure le temps restant.
    pub convention: Convention,
    /// Comportement de la volatilité dans le profil.
    pub regime_vol: RegimeVol,
    /// Nombre de niveaux du profil.
    pub niveaux: usize,
}

impl Default for Parametres {
    fn default() -> (p: Parametres)
        ensures
            p.taille_contrat == Flottant::entier(1),
            p.dte_max == Some(30i64),
            p.dte_min == 0,
            p.plage == Flottant::fraction(2, 10),
            p.plage_murs == Flottant::fraction(15, 100),
            p.plage_murs_oi == Flottant::fraction(30, 100),
            p.source_gamma == SourceGamma::Iv,
            p.convention == Convention::Heures,
            p.regime_vol == RegimeVol::StickyStrike,
            p.niveaux == 60,
    {
        Parametres {
            taille_contrat: Flottant::entier(1),
            dte_max: Some(30),
            dte_min: 0,
            plage: Flottant::fraction(2, 10),
            plage_murs: Flottant::fraction(15, 100),
            plage_murs_oi: Flottant::fraction(30, 100),
            source_gamma: SourceGamma::Iv,
            convention: Convention::Heures,
            regime_vol: RegimeVol::StickyStrike,
            niveaux: 60,
        }
    }
}

/// Une ligne de chaîne, augmentée de ses expositions.
#[derive(Clone, Copy, Debug, PartialEq, Eq, Structural)]
pub struct LigneExposee {
    /// La ligne d'origine.
    pub ligne: Ligne,
    /// Temps restant, en années.
    pub t: Flottant,
    /// Jours calendaires jusqu'à l'échéance.
    pub dte: i64,
    /// GEX du côté call, positif.
    pub call_gex: Flottant,
    /// GEX du côté put, négatif.
    pub put_gex: Flottant,
    /// GEX net de la ligne.
    pub gex: Flottant,
    /// GEX net si le gamma vient de la volatilité, quelle que soit la source retenue.
    pub gex_iv: Flottant,
    /// GEX net si le gamma vient de la source. Zéro quand elle n'en publie pas.
    pub gex_publie: Flottant,
    /// Charm net, en dollars de delta par jour.
    pub charm: Flottant,
    /// Vanna nette, en dollars de delta par point de volatilité.
    pub vanna: Flottant,
    /// Delta dollar du book dealer.
    pub delta: Flottant,
    /// Vega dollar du book dealer.
    pub vega: Flottant,
    /// Thêta dollar de la position, par jour.
    pub theta: Flottant,
}

/// Les expositions cumulées d'un strike, toutes échéances confondues.
#[derive(Clone, Copy, Debug, PartialEq, Eq, Structural)]
pub struct AgregatStrike {
    /// Le strike.
    pub strike: Flottant,
    /// GEX du côté call.
    pub call_gex: Flottant,
    /// GEX du côté put.
    pub put_gex: Flottant,
    /// GEX net.
    pub gex: Flottant,
    /// Intérêt ouvert des calls.
    pub call_oi: Flottant,
    /// Intérêt ouvert des puts.
    pub put_oi: Flottant,
    /// Volume du jour des calls.
    pub call_vol: Flottant,
    /// Volume du jour des puts.
    pub put_vol: Flottant,
}

/// Les six murs.
#[derive(Clone, Copy, Debug, PartialEq, Eq, Structural)]
pub struct Murs {
    /// Strike concentrant le plus de gamma call au-dessus du spot : la résistance.
    pub call: Option<Flottant>,
    /// Strike concentrant le plus de gamma put sous le spot : le support.
    pub put: Option<Flottant>,
    /// Plus gros intérêt ouvert call au-dessus du spot.
    pub call_oi: Option<Flottant>,
    /// Plus gros intérêt ouvert put sous le spot.
    pub put_oi: Option<Flottant>,
    /// Plus gros volume call du jour au-dessus du spot.
    pub call_vol: Option<Flottant>,
    /// Plus gros volume put du jour sous le spot.
    pub put_vol: Option<Flottant>,
}

/// Les deux strikes où le gamma net est le plus concentré, de quelque côté du spot qu'ils
/// tombent.
#[derive(Clone, Copy, Debug, PartialEq, Eq, Structural)]
pub struct GammaMajeur {
    /// Le strike au GEX net le plus positif.
    pub long: Option<Flottant>,
    /// Le strike au GEX net le plus négatif.
    pub court: Option<Flottant>,
}

/// Jours calendaires jusqu'à l'échéance, d'une date à l'autre.
pub open spec fn dte_de(echeance: EcheanceNy, releve: InstantReleve) -> int {
    echeance.0.jour_compte() - releve.0.jour_compte()
}

/// Jours calendaires jusqu'à l'échéance.
///
/// Les deux bornes sont ramenées à leur date : l'échéance de demain matin, vue ce
/// soir, est bien à un jour.
pub fn dte_calendaire(echeance: EcheanceNy, releve: InstantReleve) -> (n: i64)
    ensures
        n == dte_de(echeance, releve),
{
    echeance.0.jour().numero as i64 - releve.0.jour().numero as i64
}

/// Un vendredi dont le quantième va de quinze à vingt et un.
pub open spec fn vendredi_mensuel(rang_semaine: int, quantieme: Option<int>) -> bool {
    rang_semaine == 4 && (quantieme matches Some(q) && 15 <= q <= 21)
}

/// Le troisième vendredi du mois, d'après le rang du jour dans la semaine, lundi valant
/// zéro, et son quantième.
pub fn est_vendredi_mensuel(rang_semaine: u8, quantieme: Option<u32>) -> (b: bool)
    ensures
        b == (rang_semaine == 4 && (quantieme matches Some(q) && 15 <= q <= 21)),
{
    match quantieme {
        Some(q) => rang_semaine == 4 && 15 <= q && q <= 21,
        None => false,
    }
}

/// L'échéance tombe le troisième vendredi du mois.
pub open spec fn troisieme_vendredi(echeance: EcheanceNy) -> bool {
    let j = echeance.0.jour_compte();
    vendredi_mensuel((j + 3) % 7, quantieme_de(j))
}

/// Le troisième vendredi du mois : l'échéance mensuelle.
pub fn est_troisieme_vendredi(echeance: EcheanceNy) -> (b: bool)
    ensures
        b == troisieme_vendredi(echeance),
{
    let jour: Jour = echeance.0.jour();
    est_vendredi_mensuel(jour.jour_semaine(), quantieme(jour))
}

/// Toutes les échéances sont à des heures que le calendrier connaît.
pub open spec fn echeances_usuelles(s: Seq<Ligne>) -> bool {
    forall|i: int| 0 <= i < s.len() ==> usuel((#[trigger] s[i]).echeance.0.micros as int)
}

/// L'échéance est dans la fenêtre et n'est pas passée.
pub open spec fn echeance_vive(
    echeance: EcheanceNy,
    releve: InstantReleve,
    dte_max: Option<i64>,
    dte_min: i64,
) -> bool {
    let dte = dte_de(echeance, releve);
    &&& dte >= dte_min
    &&& dte >= 0
    &&& (dte_max matches Some(m) ==> dte <= m)
    &&& utc_ny(echeance.0.micros as int) > releve.0.micros
}

/// Les lignes dont l'échéance est exploitable, dans leur ordre.
pub open spec fn lignes_vives(
    s: Seq<Ligne>,
    releve: InstantReleve,
    dte_max: Option<i64>,
    dte_min: i64,
) -> Seq<Ligne>
    decreases s.len(),
{
    if s.len() == 0 {
        s
    } else {
        let reste = lignes_vives(s.drop_last(), releve, dte_max, dte_min);
        if echeance_vive(s.last().echeance, releve, dte_max, dte_min) {
            reste.push(s.last())
        } else {
            reste
        }
    }
}

proof fn lemme_selection_vive(
    s: Seq<Ligne>,
    choix: Seq<bool>,
    releve: InstantReleve,
    dte_max: Option<i64>,
    dte_min: i64,
)
    requires
        choix.len() >= s.len(),
        forall|i: int|
            0 <= i < s.len() ==> #[trigger] choix[i] == echeance_vive(
                s[i].echeance,
                releve,
                dte_max,
                dte_min,
            ),
    ensures
        selection(s, choix) == lignes_vives(s, releve, dte_max, dte_min),
    decreases s.len(),
{
    if s.len() > 0 {
        lemme_selection_vive(s.drop_last(), choix, releve, dte_max, dte_min);
        assert(choix[s.len() - 1] == echeance_vive(s.last().echeance, releve, dte_max, dte_min));
    }
}

/// Ne garde que les échéances exploitables.
///
/// La fenêtre en jours d'abord, puis l'échéance réellement passée : un contrat déjà
/// réglé verrait son temps restant planché, et dominerait la chaîne entière.
pub fn filtre_echeances(chaine: &Chaine, dte_max: Option<i64>, dte_min: i64) -> (r: Result<
    Chaine,
    ChaineInvalide,
>)
    requires
        echeances_usuelles(chaine.vue()),
    ensures
        match r {
            Ok(c) => {
                &&& c.vue() == lignes_vives(chaine.vue(), chaine.releve, dte_max, dte_min)
                &&& c.vue().len() > 0
                &&& c.spot == chaine.spot
                &&& c.releve == chaine.releve
                &&& chaine.valide() ==> c.valide()
            },
            Err(e) => e == ChaineInvalide::Vide && lignes_vives(
                chaine.vue(),
                chaine.releve,
                dte_max,
                dte_min,
            ).len() == 0,
        },
{
    let releve: InstantReleve = chaine.releve;
    let plancher: i64 = if dte_min > 0 {
        dte_min
    } else {
        0
    };
    let garde = |l: &Ligne| -> (b: bool)
        requires
            usuel(l.echeance.0.micros as int),
        ensures
            b == echeance_vive(l.echeance, releve, dte_max, dte_min),
        {
            let dte: i64 = dte_calendaire(l.echeance, releve);
            let dans: bool = match dte_max {
                Some(m) => dte <= m,
                None => true,
            };
            dte >= plancher && dans && l.echeance.en_utc().micros > releve.0.micros
        };
    let r: Result<Chaine, ChaineInvalide> = chaine.filtrer(garde);
    proof {
        let choix = choose|choix: Seq<bool>|
            {
                &&& choix.len() == chaine.vue().len()
                &&& forall|i: int|
                    0 <= i < chaine.vue().len() ==> call_ensures(
                        garde,
                        (&chaine.vue()[i],),
                        #[trigger] choix[i],
                    )
                &&& match r {
                    Ok(c) => {
                        &&& c.vue() == #[trigger] selection(chaine.vue(), choix)
                        &&& c.vue().len() > 0
                        &&& c.spot == chaine.spot
                        &&& c.releve == chaine.releve
                    },
                    Err(e) => e == ChaineInvalide::Vide && selection(chaine.vue(), choix).len()
                        == 0,
                }
            };
        lemme_selection_vive(chaine.vue(), choix, releve, dte_max, dte_min);
    }
    r
}

/// La somme de gauche à droite, arrondie à chaque pas.
pub open spec fn total(s: Seq<Flottant>) -> Flottant
    decreases s.len(),
{
    if s.len() == 0 {
        Flottant::nul().neg()
    } else {
        total(s.drop_last()).plus(s.last())
    }
}

/// Les expositions d'une ligne.
pub open spec fn exposee(
    ln: spec_fn(Flottant) -> Flottant,
    exp: spec_fn(Flottant) -> Flottant,
    l: Ligne,
    spot: Flottant,
    releve: InstantReleve,
    params: Parametres,
) -> LigneExposee {
    let cs = params.taille_contrat;
    let an = Flottant::entier(params.convention.annee() as i64);
    let t = temps_voulu(l.echeance, releve, params.convention);
    let z = Flottant::nul();
    let (c, p) = (l.call, l.put);
    let iv_call = exposition_gamma(
        ln,
        exp,
        spot,
        l.strike,
        c.iv,
        t,
        z,
        z,
        Sens::Call,
        c.open_interest,
        cs,
    );
    let iv_put = exposition_gamma(
        ln,
        exp,
        spot,
        l.strike,
        p.iv,
        t,
        z,
        z,
        Sens::Put,
        p.open_interest,
        cs,
    );
    let echelle = cs.fois(spot).fois(spot).fois(Flottant::fraction(1, 100));
    let pub_call = c.gamma.fois(c.open_interest).fois(echelle);
    let pub_put = p.gamma.fois(p.open_interest).fois(echelle);
    let (call_gex, put_gex) = match params.source_gamma {
        SourceGamma::Iv => (iv_call, iv_put.neg()),
        SourceGamma::Publie => (pub_call, pub_put.neg()),
    };
    LigneExposee {
        ligne: l,
        t,
        dte: dte_de(l.echeance, releve) as i64,
        call_gex,
        put_gex,
        gex: call_gex.plus(put_gex),
        gex_iv: iv_call.moins(iv_put),
        gex_publie: pub_call.moins(pub_put),
        charm: exposition_charm(ln, exp, spot, l.strike, c.iv, t, c.open_interest, cs, an).moins(
            exposition_charm(ln, exp, spot, l.strike, p.iv, t, p.open_interest, cs, an),
        ),
        vanna: exposition_vanna(ln, exp, spot, l.strike, c.iv, t, c.open_interest, cs).moins(
            exposition_vanna(ln, exp, spot, l.strike, p.iv, t, p.open_interest, cs),
        ),
        // Le delta des puts étant négatif, en être short ajoute du delta positif.
        delta: c.delta.fois(c.open_interest).moins(p.delta.fois(p.open_interest)).fois(cs).fois(
            spot,
        ),
        vega: c.vega.fois(c.open_interest).moins(p.vega.fois(p.open_interest)).fois(cs),
        theta: c.theta.fois(c.open_interest).moins(p.theta.fois(p.open_interest)).fois(cs),
    }
}

fn exposer<L: Fn(Flottant) -> Flottant, E: Fn(Flottant) -> Flottant>(
    l: Ligne,
    spot: Flottant,
    releve: InstantReleve,
    params: &Parametres,
    ln: &L,
    exp: &E,
) -> (r: LigneExposee)
    requires
        usuel(l.echeance.0.micros as int),
        est_fonction(*ln),
        est_fonction(*exp),
    ensures
        r == exposee(courbe(*ln), courbe(*exp), l, spot, releve, *params),
{
    let cs: Flottant = params.taille_contrat;
    let an: Flottant = params.convention.jours_par_an();
    let t: Flottant = temps_restant(l.echeance, releve, params.convention);
    let z: Flottant = Flottant::nul();
    let k: Flottant = l.strike;
    let (c, p) = (l.call, l.put);
    let iv_call: Flottant = gamma_exposition(
        spot,
        k,
        c.iv,
        t,
        z,
        z,
        Sens::Call,
        c.open_interest,
        cs,
        ln,
        exp,
    );
    let iv_put: Flottant = gamma_exposition(
        spot,
        k,
        p.iv,
        t,
        z,
        z,
        Sens::Put,
        p.open_interest,
        cs,
        ln,
        exp,
    );
    let echelle: Flottant = cs.fois(spot).fois(spot).fois(Flottant::fraction(1, 100));
    let pub_call: Flottant = c.gamma.fois(c.open_interest).fois(echelle);
    let pub_put: Flottant = p.gamma.fois(p.open_interest).fois(echelle);
    let (call_gex, put_gex) = match params.source_gamma {
        SourceGamma::Iv => (iv_call, iv_put.neg()),
        SourceGamma::Publie => (pub_call, pub_put.neg()),
    };
    let charm: Flottant = charm_exposition(
        spot,
        k,
        c.iv,
        t,
        c.open_interest,
        cs,
        an,
        ln,
        exp,
    ).moins(charm_exposition(spot, k, p.iv, t, p.open_interest, cs, an, ln, exp));
    let vanna: Flottant = vanna_exposition(spot, k, c.iv, t, c.open_interest, cs, ln, exp).moins(
        vanna_exposition(spot, k, p.iv, t, p.open_interest, cs, ln, exp),
    );
    LigneExposee {
        ligne: l,
        t,
        dte: dte_calendaire(l.echeance, releve),
        call_gex,
        put_gex,
        gex: call_gex.plus(put_gex),
        gex_iv: iv_call.moins(iv_put),
        gex_publie: pub_call.moins(pub_put),
        charm,
        vanna,
        delta: c.delta.fois(c.open_interest).moins(p.delta.fois(p.open_interest)).fois(cs).fois(
            spot,
        ),
        vega: c.vega.fois(c.open_interest).moins(p.vega.fois(p.open_interest)).fois(cs),
        theta: c.theta.fois(c.open_interest).moins(p.theta.fois(p.open_interest)).fois(cs),
    }
}

/// Les lignes d'une chaîne, avec leurs expositions.
pub open spec fn exposees(
    ln: spec_fn(Flottant) -> Flottant,
    exp: spec_fn(Flottant) -> Flottant,
    s: Seq<Ligne>,
    spot: Flottant,
    releve: InstantReleve,
    params: Parametres,
) -> Seq<LigneExposee> {
    Seq::new(s.len(), |i: int| exposee(ln, exp, s[i], spot, releve, params))
}

/// Ajoute à chaque ligne ses expositions.
pub fn expositions<L: Fn(Flottant) -> Flottant, E: Fn(Flottant) -> Flottant>(
    chaine: &Chaine,
    params: &Parametres,
    ln: &L,
    exp: &E,
) -> (r: Vec<LigneExposee>)
    requires
        echeances_usuelles(chaine.vue()),
        est_fonction(*ln),
        est_fonction(*exp),
    ensures
        r@ == exposees(
            courbe(*ln),
            courbe(*exp),
            chaine.vue(),
            chaine.spot,
            chaine.releve,
            *params,
        ),
{
    let mut r: Vec<LigneExposee> = Vec::new();
    let mut i: usize = 0;
    while i < chaine.lignes.len()
        invariant
            i <= chaine.vue().len(),
            echeances_usuelles(chaine.vue()),
            est_fonction(*ln),
            est_fonction(*exp),
            r@.len() == i,
            forall|j: int|
                0 <= j < i ==> #[trigger] r@[j] == exposee(
                    courbe(*ln),
                    courbe(*exp),
                    chaine.vue()[j],
                    chaine.spot,
                    chaine.releve,
                    *params,
                ),
        decreases chaine.vue().len() - i,
    {
        let l: Ligne = chaine.lignes[i];
        assert(l == chaine.vue()[i as int]);
        r.push(exposer(l, chaine.spot, chaine.releve, params, ln, exp));
        i += 1;
    }
    r
}

/// L'ordre des strikes.
pub open spec fn strike_avant(a: LigneExposee, b: LigneExposee) -> bool {
    a.ligne.strike.clef() < b.ligne.strike.clef()
}

fn strike_precede(a: LigneExposee, b: LigneExposee) -> (x: bool)
    ensures
        x == strike_avant(a, b),
{
    a.ligne.strike.clef_exec() < b.ligne.strike.clef_exec()
}

/// L'agrégat d'une seule ligne.
pub open spec fn agregat_de(l: LigneExposee) -> AgregatStrike {
    AgregatStrike {
        strike: l.ligne.strike,
        call_gex: l.call_gex,
        put_gex: l.put_gex,
        gex: l.gex,
        call_oi: l.ligne.call.open_interest,
        put_oi: l.ligne.put.open_interest,
        call_vol: l.ligne.call.volume,
        put_vol: l.ligne.put.volume,
    }
}

impl AgregatStrike {
    /// L'agrégat augmenté d'une ligne de plus.
    pub open spec fn augmente(self, l: LigneExposee) -> AgregatStrike {
        AgregatStrike {
            strike: self.strike,
            call_gex: self.call_gex.plus(l.call_gex),
            put_gex: self.put_gex.plus(l.put_gex),
            gex: self.gex.plus(l.gex),
            call_oi: self.call_oi.plus(l.ligne.call.open_interest),
            put_oi: self.put_oi.plus(l.ligne.put.open_interest),
            call_vol: self.call_vol.plus(l.ligne.call.volume),
            put_vol: self.put_vol.plus(l.ligne.put.volume),
        }
    }
}

/// Les agrégats de lignes rangées par strike : un par suite de strikes égaux.
pub open spec fn agregats(s: Seq<LigneExposee>) -> Seq<AgregatStrike>
    decreases s.len(),
{
    if s.len() == 0 {
        Seq::empty()
    } else {
        let avant = agregats(s.drop_last());
        let l = s.last();
        if avant.len() > 0 && avant.last().strike.de_meme_valeur(l.ligne.strike) {
            avant.drop_last().push(avant.last().augmente(l))
        } else {
            avant.push(agregat_de(l))
        }
    }
}

/// Les strikes sont des nombres.
pub open spec fn strikes_definis(s: Seq<LigneExposee>) -> bool {
    forall|i: int| 0 <= i < s.len() ==> !(#[trigger] s[i]).ligne.strike.nan()
}

/// Cumule les expositions par strike, toutes échéances confondues.
pub fn par_strike(lignes: &[LigneExposee]) -> (r: Vec<AgregatStrike>)
    requires
        strikes_definis(lignes@),
    ensures
        r@ == agregats(triee(lignes@, |a: LigneExposee, b: LigneExposee| strike_avant(a, b))),
{
    let ghost avant = |a: LigneExposee, b: LigneExposee| strike_avant(a, b);
    let tries: Vec<LigneExposee> = trier(lignes, strike_precede, Ghost(avant));
    let mut r: Vec<AgregatStrike> = Vec::new();
    let mut i: usize = 0;
    while i < tries.len()
        invariant
            i <= tries@.len(),
            r@ == agregats(tries@.take(i as int)),
        decreases tries@.len() - i,
    {
        let l: LigneExposee = tries[i];
        proof {
            assert(tries@.take(i + 1).drop_last() =~= tries@.take(i as int));
            assert(tries@.take(i + 1).last() == l);
        }
        let n: usize = r.len();
        if n > 0 && r[n - 1].strike.egal(l.ligne.strike) {
            let d: AgregatStrike = r[n - 1];
            r.pop();
            r.push(
                AgregatStrike {
                    strike: d.strike,
                    call_gex: d.call_gex.plus(l.call_gex),
                    put_gex: d.put_gex.plus(l.put_gex),
                    gex: d.gex.plus(l.gex),
                    call_oi: d.call_oi.plus(l.ligne.call.open_interest),
                    put_oi: d.put_oi.plus(l.ligne.put.open_interest),
                    call_vol: d.call_vol.plus(l.ligne.call.volume),
                    put_vol: d.put_vol.plus(l.ligne.put.volume),
                },
            );
        } else {
            r.push(
                AgregatStrike {
                    strike: l.ligne.strike,
                    call_gex: l.call_gex,
                    put_gex: l.put_gex,
                    gex: l.gex,
                    call_oi: l.ligne.call.open_interest,
                    put_oi: l.ligne.put.open_interest,
                    call_vol: l.ligne.call.volume,
                    put_vol: l.ligne.put.volume,
                },
            );
        }
        i += 1;
    }
    assert(tries@.take(tries@.len() as int) =~= tries@);
    r
}

/// Les six murs que l'on cherche.
#[derive(Clone, Copy, Debug, PartialEq, Eq, Structural)]
pub enum Mur {
    Call,
    Put,
    CallOi,
    PutOi,
    CallVol,
    PutVol,
}

impl Mur {
    /// Le mur se cherche au-dessus du spot.
    pub open spec fn au_dessus(self) -> bool {
        self is Call || self is CallOi || self is CallVol
    }

    /// Le mur est un maximum ; sinon, un minimum.
    pub open spec fn maximum(self) -> bool {
        !(self is Put)
    }

    /// Ce que le mur compare.
    pub open spec fn mesure(self, a: AgregatStrike) -> Flottant {
        match self {
            Mur::Call => a.call_gex,
            Mur::Put => a.put_gex,
            Mur::CallOi => a.call_oi,
            Mur::PutOi => a.put_oi,
            Mur::CallVol => a.call_vol,
            Mur::PutVol => a.put_vol,
        }
    }

    /// Strictement meilleur.
    pub open spec fn mieux(self, x: Flottant, y: Flottant) -> bool {
        if self.maximum() {
            y.inferieur(x)
        } else {
            x.inferieur(y)
        }
    }

    /// Un strike éligible : dans la bande, et du bon côté du spot.
    pub open spec fn eligible(self, a: AgregatStrike, spot: Flottant, demi: Flottant) -> bool {
        let un = Flottant::entier(1);
        &&& un.moins(demi).fois(spot).inferieur_ou_egal(a.strike)
        &&& a.strike.inferieur_ou_egal(un.plus(demi).fois(spot))
        &&& if self.au_dessus() {
            spot.inferieur_ou_egal(a.strike)
        } else {
            a.strike.inferieur_ou_egal(spot)
        }
    }

    /// Le premier des meilleurs parmi les éligibles.
    pub open spec fn meilleur(
        self,
        s: Seq<AgregatStrike>,
        spot: Flottant,
        demi: Flottant,
    ) -> Option<AgregatStrike>
        decreases s.len(),
    {
        if s.len() == 0 {
            None
        } else {
            let m = self.meilleur(s.drop_last(), spot, demi);
            if !self.eligible(s.last(), spot, demi) {
                m
            } else {
                match m {
                    None => Some(s.last()),
                    Some(b) => if self.mieux(self.mesure(s.last()), self.mesure(b)) {
                        Some(s.last())
                    } else {
                        m
                    },
                }
            }
        }
    }

    /// Le mur : le meilleur, s'il est significatif.
    pub open spec fn strike(
        self,
        s: Seq<AgregatStrike>,
        spot: Flottant,
        demi: Flottant,
    ) -> Option<Flottant> {
        match self.meilleur(s, spot, demi) {
            None => None,
            Some(b) => if self.mieux(self.mesure(b), Flottant::nul()) {
                Some(b.strike)
            } else {
                None
            },
        }
    }

    fn mesurer(self, a: &AgregatStrike) -> (f: Flottant)
        ensures
            f == self.mesure(*a),
    {
        match self {
            Mur::Call => a.call_gex,
            Mur::Put => a.put_gex,
            Mur::CallOi => a.call_oi,
            Mur::PutOi => a.put_oi,
            Mur::CallVol => a.call_vol,
            Mur::PutVol => a.put_vol,
        }
    }

    fn bat(self, x: Flottant, y: Flottant) -> (b: bool)
        ensures
            b == self.mieux(x, y),
    {
        match self {
            Mur::Put => x.inf(y),
            _ => y.inf(x),
        }
    }

    fn du_bon_cote(self, strike: Flottant, spot: Flottant) -> (b: bool)
        ensures
            b == if self.au_dessus() {
                spot.inferieur_ou_egal(strike)
            } else {
                strike.inferieur_ou_egal(spot)
            },
    {
        match self {
            Mur::Call | Mur::CallOi | Mur::CallVol => spot.infeg(strike),
            Mur::Put | Mur::PutOi | Mur::PutVol => strike.infeg(spot),
        }
    }

    fn chercher(self, s: &[AgregatStrike], spot: Flottant, demi: Flottant) -> (r: Option<Flottant>)
        ensures
            r == self.strike(s@, spot, demi),
    {
        let un: Flottant = Flottant::entier(1);
        let bas: Flottant = un.moins(demi).fois(spot);
        let haut: Flottant = un.plus(demi).fois(spot);
        let mut meilleur: Option<AgregatStrike> = None;
        let mut i: usize = 0;
        while i < s.len()
            invariant
                i <= s@.len(),
                bas == Flottant::entier(1).moins(demi).fois(spot),
                haut == Flottant::entier(1).plus(demi).fois(spot),
                meilleur == self.meilleur(s@.take(i as int), spot, demi),
            decreases s@.len() - i,
        {
            let a: AgregatStrike = s[i];
            proof {
                assert(s@.take(i + 1).drop_last() =~= s@.take(i as int));
                assert(s@.take(i + 1).last() == a);
            }
            if bas.infeg(a.strike) && a.strike.infeg(haut) && self.du_bon_cote(a.strike, spot) {
                match meilleur {
                    None => {
                        meilleur = Some(a);
                    },
                    Some(b) => {
                        if self.bat(self.mesurer(&a), self.mesurer(&b)) {
                            meilleur = Some(a);
                        }
                    },
                }
            }
            i += 1;
        }
        assert(s@.take(s@.len() as int) =~= s@);
        match meilleur {
            None => None,
            Some(b) => if self.bat(self.mesurer(&b), Flottant::nul()) {
                Some(b.strike)
            } else {
                None
            },
        }
    }
}

/// Les six murs.
///
/// L'intérêt ouvert compte les positions accumulées, le volume ce qui vient de se traiter.
/// Chacun est cherché de son côté du spot, sans quoi tous tomberaient à la monnaie,
/// où le gamma unitaire est maximal. Un extremum nul n'est pas un mur.
pub fn murs(par_strike: &[AgregatStrike], spot: Flottant, params: &Parametres) -> (r: Murs)
    ensures
        r.call == Mur::Call.strike(par_strike@, spot, params.plage_murs),
        r.put == Mur::Put.strike(par_strike@, spot, params.plage_murs),
        r.call_oi == Mur::CallOi.strike(par_strike@, spot, params.plage_murs_oi),
        r.put_oi == Mur::PutOi.strike(par_strike@, spot, params.plage_murs_oi),
        r.call_vol == Mur::CallVol.strike(par_strike@, spot, params.plage_murs_oi),
        r.put_vol == Mur::PutVol.strike(par_strike@, spot, params.plage_murs_oi),
{
    Murs {
        call: Mur::Call.chercher(par_strike, spot, params.plage_murs),
        put: Mur::Put.chercher(par_strike, spot, params.plage_murs),
        call_oi: Mur::CallOi.chercher(par_strike, spot, params.plage_murs_oi),
        put_oi: Mur::PutOi.chercher(par_strike, spot, params.plage_murs_oi),
        call_vol: Mur::CallVol.chercher(par_strike, spot, params.plage_murs_oi),
        put_vol: Mur::PutVol.chercher(par_strike, spot, params.plage_murs_oi),
    }
}

/// Un GEX net plus fort qu'un autre, vers le haut ou vers le bas.
pub open spec fn plus_fort(long: bool, x: Flottant, y: Flottant) -> bool {
    if long {
        y.inferieur(x)
    } else {
        x.inferieur(y)
    }
}

/// Le premier des strikes au GEX net le plus fort.
pub open spec fn agregat_majeur(s: Seq<AgregatStrike>, long: bool) -> Option<AgregatStrike>
    decreases s.len(),
{
    if s.len() == 0 {
        None
    } else {
        match agregat_majeur(s.drop_last(), long) {
            None => Some(s.last()),
            Some(m) => if plus_fort(long, s.last().gex, m.gex) {
                Some(s.last())
            } else {
                Some(m)
            },
        }
    }
}

/// Le strike au GEX net le plus fort, s'il a le signe cherché.
pub open spec fn strike_majeur(s: Seq<AgregatStrike>, long: bool) -> Option<Flottant> {
    match agregat_majeur(s, long) {
        None => None,
        Some(m) => if plus_fort(long, m.gex, Flottant::nul()) {
            Some(m.strike)
        } else {
            None
        },
    }
}

fn chercher_majeur(s: &[AgregatStrike], long: bool) -> (r: Option<Flottant>)
    ensures
        r == strike_majeur(s@, long),
{
    let mut meilleur: Option<AgregatStrike> = None;
    let mut i: usize = 0;
    while i < s.len()
        invariant
            i <= s@.len(),
            meilleur == agregat_majeur(s@.take(i as int), long),
        decreases s@.len() - i,
    {
        let a: AgregatStrike = s[i];
        proof {
            assert(s@.take(i + 1).drop_last() =~= s@.take(i as int));
            assert(s@.take(i + 1).last() == a);
        }
        match meilleur {
            None => {
                meilleur = Some(a);
            },
            Some(m) => {
                if (long && m.gex.inf(a.gex)) || (!long && a.gex.inf(m.gex)) {
                    meilleur = Some(a);
                }
            },
        }
        i += 1;
    }
    assert(s@.take(s@.len() as int) =~= s@);
    match meilleur {
        Some(m) if (long && Flottant::nul().inf(m.gex)) || (!long && m.gex.inf(Flottant::nul())) => Some(
            m.strike,
        ),
        _ => None,
    }
}

/// Les deux strikes où le gamma net est le plus concentré.
///
/// Un mur se cherche d'un seul côté du spot ; ceux-ci prennent le GEX net d'un strike sans
/// regarder de quel côté il tombe.
pub fn gamma_majeur(par_strike: &[AgregatStrike]) -> (r: GammaMajeur)
    ensures
        r.long == strike_majeur(par_strike@, true),
        r.court == strike_majeur(par_strike@, false),
{
    GammaMajeur {
        long: chercher_majeur(par_strike, true),
        court: chercher_majeur(par_strike, false),
    }
}

/// Un mur est un strike de la table, du bon côté du spot et dans la bande, que rien
/// d'éligible ne bat.
pub proof fn un_mur_est_du_bon_cote_et_rien_ne_le_bat(
    mur: Mur,
    s: Seq<AgregatStrike>,
    spot: Flottant,
    demi: Flottant,
)
    requires
        forall|i: int| 0 <= i < s.len() ==> !mur.mesure(#[trigger] s[i]).nan(),
    ensures
        mur.meilleur(s, spot, demi) matches Some(b) ==> {
            &&& s.contains(b)
            &&& mur.eligible(b, spot, demi)
            &&& forall|i: int|
                0 <= i < s.len() && mur.eligible(#[trigger] s[i], spot, demi) ==> !mur.mieux(
                    mur.mesure(s[i]),
                    mur.mesure(b),
                )
        },
        mur.meilleur(s, spot, demi) is None ==> forall|i: int|
            0 <= i < s.len() ==> !mur.eligible(#[trigger] s[i], spot, demi),
    decreases s.len(),
{
    if s.len() > 0 {
        let t = s.drop_last();
        assert forall|i: int| 0 <= i < t.len() implies !mur.mesure(#[trigger] t[i]).nan() by {
            assert(!mur.mesure(s[i]).nan());
        }
        un_mur_est_du_bon_cote_et_rien_ne_le_bat(mur, t, spot, demi);
        assert(s[s.len() - 1] == s.last());
        match mur.meilleur(t, spot, demi) {
            Some(b) => {
                let k = choose|k: int| 0 <= k < t.len() && t[k] == b;
                assert(s[k] == b);
                assert forall|i: int|
                    0 <= i < s.len() && mur.eligible(#[trigger] s[i], spot, demi) implies !mur.mieux(
                    mur.mesure(s[i]),
                    mur.mesure(mur.meilleur(s, spot, demi)->Some_0),
                ) by {
                    if i < t.len() {
                        assert(t[i] == s[i]);
                    }
                }
            },
            None => {
                assert forall|i: int| 0 <= i < t.len() implies !mur.eligible(
                    #[trigger] s[i],
                    spot,
                    demi,
                ) by {
                    assert(t[i] == s[i]);
                }
            },
        }
    }
}

/// La somme de gauche à droite.
pub fn totaliser(s: &[Flottant]) -> (r: Flottant)
    ensures
        r == total(s@),
{
    let mut r: Flottant = Flottant::nul().neg();
    let mut i: usize = 0;
    while i < s.len()
        invariant
            i <= s@.len(),
            r == total(s@.take(i as int)),
        decreases s@.len() - i,
    {
        assert(s@.take(i + 1).drop_last() =~= s@.take(i as int));
        r = r.plus(s[i]);
        i += 1;
    }
    assert(s@.take(s@.len() as int) =~= s@);
    r
}

/// Points en deçà desquels un ajustement au premier degré ne veut rien dire.
pub const POINTS_SKEW_MINIMUM: usize = 3;

/// Les volatilités publiées d'une ligne : les contrats très dans la monnaie n'en ont
/// pas, et ne doivent pas tirer la moyenne vers zéro.
pub open spec fn vols_publiees(l: Ligne) -> Seq<Flottant> {
    if l.call.iv.positif() && l.put.iv.positif() {
        seq![l.call.iv, l.put.iv]
    } else if l.call.iv.positif() {
        seq![l.call.iv]
    } else if l.put.iv.positif() {
        seq![l.put.iv]
    } else {
        Seq::empty()
    }
}

/// La volatilité d'une ligne : la moyenne de celles qu'elle publie.
pub open spec fn vol_moyenne(l: Ligne) -> Option<Flottant> {
    let vols = vols_publiees(l);
    if vols.len() == 0 {
        None
    } else {
        Some(total(vols).par(rapport(vols.len() as int, 1)))
    }
}

/// Le point qu'une ligne donne à l'ajustement du skew : sa monnaie et sa volatilité.
///
/// Au-delà de quinze pour cent de monnaie, une droite ne décrit plus rien.
pub open spec fn point_skew(
    ln: spec_fn(Flottant) -> Flottant,
    l: Ligne,
    spot: Flottant,
) -> Option<(Flottant, Flottant)> {
    let m = ln(l.strike.par(spot));
    match vol_moyenne(l) {
        Some(v) if m.fini() && !Flottant::fraction(15, 100).inferieur(m.abs()) => Some((m, v)),
        _ => None,
    }
}

/// Les points d'une échéance.
pub open spec fn points_skew(
    ln: spec_fn(Flottant) -> Flottant,
    s: Seq<LigneExposee>,
    echeance: EcheanceNy,
    spot: Flottant,
) -> Seq<(Flottant, Flottant)>
    decreases s.len(),
{
    if s.len() == 0 {
        Seq::empty()
    } else {
        let avant = points_skew(ln, s.drop_last(), echeance, spot);
        if s.last().ligne.echeance != echeance {
            avant
        } else {
            match point_skew(ln, s.last().ligne, spot) {
                None => avant,
                Some(p) => avant.push(p),
            }
        }
    }
}

/// La pente des moindres carrés, nulle si les points sont trop peu ou confondus.
pub open spec fn pente_des_points(points: Seq<(Flottant, Flottant)>) -> Flottant {
    let n = rapport(points.len() as int, 1);
    let m = total(Seq::new(points.len(), |i: int| points[i].0));
    let v = total(Seq::new(points.len(), |i: int| points[i].1));
    let mv = total(Seq::new(points.len(), |i: int| points[i].0.fois(points[i].1)));
    let mm = total(Seq::new(points.len(), |i: int| points[i].0.fois(points[i].0)));
    let denominateur = n.fois(mm).moins(m.fois(m));
    if points.len() < POINTS_SKEW_MINIMUM {
        Flottant::nul()
    } else if denominateur.abs().inferieur(Flottant::fraction(1, 4_503_599_627_370_496)) {
        Flottant::nul()
    } else {
        n.fois(mv).moins(m.fois(v)).par(denominateur)
    }
}

/// La pente du smile d'une échéance.
pub open spec fn skew_de(
    ln: spec_fn(Flottant) -> Flottant,
    s: Seq<LigneExposee>,
    echeance: EcheanceNy,
    spot: Flottant,
) -> Flottant {
    pente_des_points(points_skew(ln, s, echeance, spot))
}

fn ajuster(points: &Vec<(Flottant, Flottant)>) -> (r: Flottant)
    ensures
        r == pente_des_points(points@),
{
    if points.len() < POINTS_SKEW_MINIMUM {
        return Flottant::nul();
    }
    let mut ms: Vec<Flottant> = Vec::new();
    let mut vs: Vec<Flottant> = Vec::new();
    let mut mvs: Vec<Flottant> = Vec::new();
    let mut mms: Vec<Flottant> = Vec::new();
    let mut i: usize = 0;
    while i < points.len()
        invariant
            i <= points@.len(),
            ms@ =~= Seq::new(i as nat, |j: int| points@[j].0),
            vs@ =~= Seq::new(i as nat, |j: int| points@[j].1),
            mvs@ =~= Seq::new(i as nat, |j: int| points@[j].0.fois(points@[j].1)),
            mms@ =~= Seq::new(i as nat, |j: int| points@[j].0.fois(points@[j].0)),
        decreases points@.len() - i,
    {
        let (m, v) = points[i];
        ms.push(m);
        vs.push(v);
        mvs.push(m.fois(v));
        mms.push(m.fois(m));
        i += 1;
    }
    proof {
        assert(ms@ =~= Seq::new(points@.len(), |j: int| points@[j].0));
        assert(vs@ =~= Seq::new(points@.len(), |j: int| points@[j].1));
        assert(mvs@ =~= Seq::new(points@.len(), |j: int| points@[j].0.fois(points@[j].1)));
        assert(mms@ =~= Seq::new(points@.len(), |j: int| points@[j].0.fois(points@[j].0)));
    }
    let n: Flottant = Flottant::naturel(points.len() as u64);
    let m: Flottant = totaliser(ms.as_slice());
    let v: Flottant = totaliser(vs.as_slice());
    let mv: Flottant = totaliser(mvs.as_slice());
    let mm: Flottant = totaliser(mms.as_slice());
    let denominateur: Flottant = n.fois(mm).moins(m.fois(m));
    if denominateur.abs().inf(Flottant::fraction(1, 4_503_599_627_370_496)) {
        return Flottant::nul();
    }
    n.fois(mv).moins(m.fois(v)).par(denominateur)
}

fn pointer<L: Fn(Flottant) -> Flottant>(l: &Ligne, spot: Flottant, ln: &L) -> (r: Option<
    (Flottant, Flottant),
>)
    requires
        est_fonction(*ln),
    ensures
        r == point_skew(courbe(*ln), *l, spot),
{
    let m: Flottant = appliquer(ln, l.strike.par(spot));
    match moyenner_vols(l) {
        Some(v) if m.est_fini() && !Flottant::fraction(15, 100).inf(m.abs()) => Some((m, v)),
        _ => None,
    }
}

fn moyenner_vols(l: &Ligne) -> (r: Option<Flottant>)
    ensures
        r == vol_moyenne(*l),
{
    let mut vols: Vec<Flottant> = Vec::new();
    if l.call.iv.est_positif() {
        vols.push(l.call.iv);
    }
    if l.put.iv.est_positif() {
        vols.push(l.put.iv);
    }
    assert(vols@ =~= vols_publiees(*l));
    if vols.len() == 0 {
        return None;
    }
    Some(totaliser(vols.as_slice()).par(Flottant::naturel(vols.len() as u64)))
}

/// Pente du smile, dIV / d(ln K/S), d'une échéance.
///
/// Une échéance trop pauvre en strikes reçoit une pente nulle plutôt qu'un skew
/// inventé.
pub fn pente_skew<L: Fn(Flottant) -> Flottant>(
    lignes: &[LigneExposee],
    echeance: EcheanceNy,
    spot: Flottant,
    ln: &L,
) -> (r: Flottant)
    requires
        est_fonction(*ln),
    ensures
        r == skew_de(courbe(*ln), lignes@, echeance, spot),
{
    let mut points: Vec<(Flottant, Flottant)> = Vec::new();
    let mut i: usize = 0;
    while i < lignes.len()
        invariant
            i <= lignes@.len(),
            est_fonction(*ln),
            points@ == points_skew(courbe(*ln), lignes@.take(i as int), echeance, spot),
        decreases lignes@.len() - i,
    {
        let l: LigneExposee = lignes[i];
        proof {
            assert(lignes@.take(i + 1).drop_last() =~= lignes@.take(i as int));
            assert(lignes@.take(i + 1).last() == l);
        }
        if l.ligne.echeance == echeance {
            match pointer(&l.ligne, spot, ln) {
                Some(p) => {
                    points.push(p);
                },
                None => {},
            }
        }
        i += 1;
    }
    assert(lignes@.take(lignes@.len() as int) =~= lignes@);
    ajuster(&points)
}

/// La volatilité d'un contrat au niveau hypothétique : un contrat sans volatilité
/// publiée n'en reçoit pas, et une volatilité négative est ramenée au plancher.
pub open spec fn vol_deplacee(iv: Flottant, decalage: Flottant) -> Flottant {
    if iv.positif() {
        iv.plus(decalage).max(Flottant::fraction(1, 10_000))
    } else {
        Flottant::nul()
    }
}

/// Les volatilités d'une ligne à un niveau, selon le régime.
pub open spec fn vols_au_niveau(
    ln: spec_fn(Flottant) -> Flottant,
    l: Ligne,
    pente: Flottant,
    niveau: Flottant,
    spot: Flottant,
    regime: RegimeVol,
) -> (Flottant, Flottant) {
    match regime {
        RegimeVol::StickyStrike => (l.call.iv, l.put.iv),
        RegimeVol::StickyMoneyness => {
            let decalage = pente.fois(ln(spot.par(niveau)));
            (vol_deplacee(l.call.iv, decalage), vol_deplacee(l.put.iv, decalage))
        },
    }
}

/// La contribution d'une ligne au profil, à un niveau.
pub open spec fn gex_au_niveau(
    ln: spec_fn(Flottant) -> Flottant,
    exp: spec_fn(Flottant) -> Flottant,
    l: LigneExposee,
    pente: Flottant,
    niveau: Flottant,
    spot: Flottant,
    params: Parametres,
) -> Flottant {
    let (vc, vp) = vols_au_niveau(ln, l.ligne, pente, niveau, spot, params.regime_vol);
    let z = Flottant::nul();
    let k = l.ligne.strike;
    let cs = params.taille_contrat;
    exposition_gamma(
        ln,
        exp,
        niveau,
        k,
        vc,
        l.t,
        z,
        z,
        Sens::Call,
        l.ligne.call.open_interest,
        cs,
    ).moins(
        exposition_gamma(
            ln,
            exp,
            niveau,
            k,
            vp,
            l.t,
            z,
            z,
            Sens::Put,
            l.ligne.put.open_interest,
            cs,
        ),
    )
}

/// Le profil à un niveau : la somme des contributions.
pub open spec fn profil_en(
    ln: spec_fn(Flottant) -> Flottant,
    exp: spec_fn(Flottant) -> Flottant,
    s: Seq<LigneExposee>,
    niveau: Flottant,
    spot: Flottant,
    params: Parametres,
) -> Flottant {
    total(
        Seq::new(
            s.len(),
            |i: int|
                gex_au_niveau(
                    ln,
                    exp,
                    s[i],
                    skew_de(ln, s, s[i].ligne.echeance, spot),
                    niveau,
                    spot,
                    params,
                ),
        ),
    )
}

/// Le profil de gamma sur une grille.
pub open spec fn profil_de(
    ln: spec_fn(Flottant) -> Flottant,
    exp: spec_fn(Flottant) -> Flottant,
    s: Seq<LigneExposee>,
    niveaux: Seq<Flottant>,
    spot: Flottant,
    params: Parametres,
) -> Seq<Flottant> {
    Seq::new(niveaux.len(), |i: int| profil_en(ln, exp, s, niveaux[i], spot, params))
}

/// Sans translation du smile, la pente ne compte pas.
proof fn lemme_pente_sans_effet(
    ln: spec_fn(Flottant) -> Flottant,
    exp: spec_fn(Flottant) -> Flottant,
    l: LigneExposee,
    p1: Flottant,
    p2: Flottant,
    niveau: Flottant,
    spot: Flottant,
    params: Parametres,
)
    requires
        params.regime_vol == RegimeVol::StickyStrike,
    ensures
        gex_au_niveau(ln, exp, l, p1, niveau, spot, params) == gex_au_niveau(
            ln,
            exp,
            l,
            p2,
            niveau,
            spot,
            params,
        ),
{
}

/// Une volatilité absente, ou au-dessus du plancher.
pub open spec fn vol_usuelle(iv: Flottant) -> bool {
    iv == Flottant::nul() || Flottant::fraction(1, 10_000).inferieur_ou_egal(iv)
}

/// La pente du smile d'une ligne est finie, ou la ligne n'a pas de volatilité à déplacer.
pub open spec fn pente_finie(
    ln: spec_fn(Flottant) -> Flottant,
    s: Seq<LigneExposee>,
    l: Ligne,
    spot: Flottant,
) -> bool {
    skew_de(ln, s, l.echeance, spot).fini() || (l.call.iv == Flottant::nul() && l.put.iv
        == Flottant::nul())
}

proof fn lemme_vol_immobile(iv: Flottant, decalage: Flottant)
    requires
        vol_usuelle(iv),
        decalage.rang() == 0,
    ensures
        vol_deplacee(iv, decalage) == iv,
{
    if iv.positif() {
        reveal(Flottant::somme);
        lemme_magnitude_nulle(iv);
        lemme_magnitude_nulle(decalage);
        if iv.fini() {
            un_nombre_fini_est_son_arrondi(iv, 1);
            assert(iv.magnitude() * 1 == iv.magnitude());
        }
        assert(iv.plus(decalage) == iv);
    } else {
        lemme_un_dix_millieme();
    }
}

proof fn lemme_un_dix_millieme()
    ensures
        Flottant::fraction(1, 10_000).positif(),
{
    reveal(rapport);
    vstd::arithmetic::power2::lemma2_to64();
    vstd::arithmetic::power2::lemma_pow2_strictly_increases(16, 1074);
    crate::flottant::lemme_arrondi_positif(
        1 * vstd::arithmetic::power2::pow2(1074),
        10_000,
    );
}

/// Le régime de volatilité ne déplace pas le profil au spot courant, et la source du gamma ne
/// le déplace nulle part : le décalage y est nul, le logarithme de un l'étant.
pub proof fn le_regime_ne_deplace_pas_le_centre(
    ln: spec_fn(Flottant) -> Flottant,
    exp: spec_fn(Flottant) -> Flottant,
    s: Seq<LigneExposee>,
    spot: Flottant,
    p: Parametres,
    q: Parametres,
)
    requires
        spot.fini(),
        spot.positif(),
        ln(rapport(1, 1)).rang() == 0,
        p.taille_contrat == q.taille_contrat,
        forall|i: int|
            0 <= i < s.len() ==> {
                let l = (#[trigger] s[i]).ligne;
                vol_usuelle(l.call.iv) && vol_usuelle(l.put.iv) && pente_finie(ln, s, l, spot)
            },
    ensures
        profil_de(ln, exp, s, seq![spot], spot, p) == profil_de(ln, exp, s, seq![spot], spot, q),
{
    lemme_quotient_par_soi(spot);
    let gp = |i: int|
        gex_au_niveau(ln, exp, s[i], skew_de(ln, s, s[i].ligne.echeance, spot), spot, spot, p);
    let gq = |i: int|
        gex_au_niveau(ln, exp, s[i], skew_de(ln, s, s[i].ligne.echeance, spot), spot, spot, q);
    assert forall|i: int| 0 <= i < s.len() implies #[trigger] gp(i) == gq(i) by {
        let l = s[i].ligne;
        let pente = skew_de(ln, s, l.echeance, spot);
        let decalage = pente.fois(ln(spot.par(spot)));
        if pente.fini() {
            lemme_produit_nul(pente, ln(rapport(1, 1)));
            lemme_vol_immobile(l.call.iv, decalage);
            lemme_vol_immobile(l.put.iv, decalage);
        }
        assert(vols_au_niveau(ln, l, pente, spot, spot, p.regime_vol) == (l.call.iv, l.put.iv));
        assert(vols_au_niveau(ln, l, pente, spot, spot, q.regime_vol) == (l.call.iv, l.put.iv));
    }
    assert(Seq::new(s.len(), gp) =~= Seq::new(s.len(), gq));
    assert(profil_en(ln, exp, s, spot, spot, p) == profil_en(ln, exp, s, spot, spot, q));
}

fn deplacer_vol(iv: Flottant, decalage: Flottant) -> (v: Flottant)
    ensures
        v == vol_deplacee(iv, decalage),
{
    if iv.est_positif() {
        iv.plus(decalage).max(Flottant::fraction(1, 10_000))
    } else {
        Flottant::nul()
    }
}

fn gex_du_niveau<L: Fn(Flottant) -> Flottant, E: Fn(Flottant) -> Flottant>(
    l: &LigneExposee,
    pente: Flottant,
    niveau: Flottant,
    spot: Flottant,
    params: &Parametres,
    ln: &L,
    exp: &E,
) -> (g: Flottant)
    requires
        est_fonction(*ln),
        est_fonction(*exp),
    ensures
        g == gex_au_niveau(courbe(*ln), courbe(*exp), *l, pente, niveau, spot, *params),
{
    let (vc, vp) = match params.regime_vol {
        RegimeVol::StickyStrike => (l.ligne.call.iv, l.ligne.put.iv),
        RegimeVol::StickyMoneyness => {
            let decalage: Flottant = pente.fois(appliquer(ln, spot.par(niveau)));
            (deplacer_vol(l.ligne.call.iv, decalage), deplacer_vol(l.ligne.put.iv, decalage))
        },
    };
    let z: Flottant = Flottant::nul();
    let k: Flottant = l.ligne.strike;
    let cs: Flottant = params.taille_contrat;
    let oc: Flottant = l.ligne.call.open_interest;
    let op: Flottant = l.ligne.put.open_interest;
    gamma_exposition(niveau, k, vc, l.t, z, z, Sens::Call, oc, cs, ln, exp).moins(
        gamma_exposition(niveau, k, vp, l.t, z, z, Sens::Put, op, cs, ln, exp),
    )
}

/// Le profil de gamma : GEX net à chaque niveau de spot hypothétique.
///
/// Le gamma y est recalculé depuis la volatilité : à un niveau hypothétique, aucun
/// gamma publié n'existe.
pub fn profil_gamma<L: Fn(Flottant) -> Flottant, E: Fn(Flottant) -> Flottant>(
    lignes: &[LigneExposee],
    niveaux: &[Flottant],
    spot: Flottant,
    params: &Parametres,
    ln: &L,
    exp: &E,
) -> (r: Vec<Flottant>)
    requires
        est_fonction(*ln),
        est_fonction(*exp),
    ensures
        r@ == profil_de(courbe(*ln), courbe(*exp), lignes@, niveaux@, spot, *params),
{
    let ghost lnf = courbe(*ln);
    let ghost expf = courbe(*exp);
    let mut pentes: Vec<Flottant> = Vec::new();
    let mut i: usize = 0;
    while i < lignes.len()
        invariant
            i <= lignes@.len(),
            est_fonction(*ln),
            pentes@.len() == i,
            params.regime_vol == RegimeVol::StickyMoneyness ==> forall|j: int|
                0 <= j < i ==> #[trigger] pentes@[j] == skew_de(
                    courbe(*ln),
                    lignes@,
                    lignes@[j].ligne.echeance,
                    spot,
                ),
        decreases lignes@.len() - i,
    {
        // La pente ne dépend que de l'échéance : une suite de lignes la partage.
        let pente: Flottant = if params.regime_vol == RegimeVol::StickyStrike {
            Flottant::nul()
        } else if i > 0 && lignes[i - 1].ligne.echeance == lignes[i].ligne.echeance {
            pentes[i - 1]
        } else {
            pente_skew(lignes, lignes[i].ligne.echeance, spot, ln)
        };
        pentes.push(pente);
        i += 1;
    }
    let mut r: Vec<Flottant> = Vec::new();
    let mut n: usize = 0;
    while n < niveaux.len()
        invariant
            n <= niveaux@.len(),
            est_fonction(*ln),
            est_fonction(*exp),
            lnf == courbe(*ln),
            expf == courbe(*exp),
            pentes@.len() == lignes@.len(),
            params.regime_vol == RegimeVol::StickyMoneyness ==> forall|j: int|
                0 <= j < lignes@.len() ==> #[trigger] pentes@[j] == skew_de(
                    lnf,
                    lignes@,
                    lignes@[j].ligne.echeance,
                    spot,
                ),
            r@.len() == n,
            forall|j: int|
                0 <= j < n ==> #[trigger] r@[j] == profil_en(
                    lnf,
                    expf,
                    lignes@,
                    niveaux@[j],
                    spot,
                    *params,
                ),
        decreases niveaux@.len() - n,
    {
        let niveau: Flottant = niveaux[n];
        let mut parts: Vec<Flottant> = Vec::new();
        let mut k: usize = 0;
        while k < lignes.len()
            invariant
                k <= lignes@.len(),
                est_fonction(*ln),
                est_fonction(*exp),
                lnf == courbe(*ln),
                expf == courbe(*exp),
                pentes@.len() == lignes@.len(),
                params.regime_vol == RegimeVol::StickyMoneyness ==> forall|j: int|
                    0 <= j < lignes@.len() ==> #[trigger] pentes@[j] == skew_de(
                        lnf,
                        lignes@,
                        lignes@[j].ligne.echeance,
                        spot,
                    ),
                parts@.len() == k,
                forall|j: int|
                    0 <= j < k ==> #[trigger] parts@[j] == gex_au_niveau(
                        lnf,
                        expf,
                        lignes@[j],
                        skew_de(lnf, lignes@, lignes@[j].ligne.echeance, spot),
                        niveau,
                        spot,
                        *params,
                    ),
            decreases lignes@.len() - k,
        {
            let l: LigneExposee = lignes[k];
            proof {
                let vraie = skew_de(lnf, lignes@, l.ligne.echeance, spot);
                if params.regime_vol == RegimeVol::StickyStrike {
                    lemme_pente_sans_effet(
                        lnf,
                        expf,
                        l,
                        pentes@[k as int],
                        vraie,
                        niveau,
                        spot,
                        *params,
                    );
                } else {
                    assert(pentes@[k as int] == vraie);
                }
            }
            parts.push(gex_du_niveau(&l, pentes[k], niveau, spot, params, ln, exp));
            k += 1;
        }
        proof {
            assert(parts@ =~= Seq::new(
                lignes@.len(),
                |j: int|
                    gex_au_niveau(
                        lnf,
                        expf,
                        lignes@[j],
                        skew_de(lnf, lignes@, lignes@[j].ligne.echeance, spot),
                        niveau,
                        spot,
                        *params,
                    ),
            ));
        }
        r.push(totaliser(parts.as_slice()));
        n += 1;
    }
    r
}

/// Deux nombres de signes strictement opposés.
pub open spec fn de_signes_opposes(a: Flottant, b: Flottant) -> bool {
    ||| a.positif() && b.inferieur(Flottant::nul())
    ||| a.inferieur(Flottant::nul()) && b.positif()
}

fn opposes(a: Flottant, b: Flottant) -> (r: bool)
    ensures
        r == de_signes_opposes(a, b),
{
    let z: Flottant = Flottant::nul();
    (a.est_positif() && b.inf(z)) || (a.inf(z) && b.est_positif())
}

/// Le dernier niveau, parmi les `n` premiers, où le profil n'est pas nul.
pub open spec fn dernier_non_nul(profil: Seq<Flottant>, n: nat) -> Option<int>
    decreases n,
{
    if n == 0 {
        None
    } else if profil[n - 1].de_meme_valeur(Flottant::nul()) {
        dernier_non_nul(profil, (n - 1) as nat)
    } else {
        Some(n - 1)
    }
}

/// Le niveau où la corde s'annule.
pub open spec fn zero_de_la_corde(
    x0: Flottant,
    x1: Flottant,
    y0: Flottant,
    y1: Flottant,
) -> Flottant {
    x1.moins(x1.moins(x0).fois(y1).par(y1.moins(y0)))
}

/// Le zéro de la corde entre les niveaux `k` et `k + 1`.
pub open spec fn zero_du_pas(niveaux: Seq<Flottant>, profil: Seq<Flottant>, k: int) -> Flottant {
    zero_de_la_corde(niveaux[k], niveaux[k + 1], profil[k], profil[k + 1])
}

/// Où le profil, d'un signe au niveau `i` et de l'autre au niveau `j`, nul entre les deux,
/// passe par zéro : sur le pas qui quitte les valeurs négatives, ou sur celui qui y entre.
pub open spec fn passage(niveaux: Seq<Flottant>, profil: Seq<Flottant>, i: int, j: int) -> Flottant {
    if profil[i].inferieur(Flottant::nul()) {
        zero_du_pas(niveaux, profil, i)
    } else {
        zero_du_pas(niveaux, profil, j - 1)
    }
}

/// Le profil change de signe en arrivant au niveau `j` : il y est du signe strictement
/// opposé à celui qu'il avait en dernier.
pub open spec fn change_de_signe(profil: Seq<Flottant>, j: int) -> bool {
    dernier_non_nul(profil, j as nat) matches Some(i) && de_signes_opposes(profil[i], profil[j])
}

/// Les croisements entre les `n` premiers niveaux, dans l'ordre.
pub open spec fn croisements_de(
    niveaux: Seq<Flottant>,
    profil: Seq<Flottant>,
    n: nat,
) -> Seq<Flottant>
    decreases n,
{
    if n == 0 {
        Seq::empty()
    } else {
        let avant = croisements_de(niveaux, profil, (n - 1) as nat);
        if change_de_signe(profil, n - 1) {
            avant.push(
                passage(niveaux, profil, dernier_non_nul(profil, (n - 1) as nat)->Some_0, n - 1),
            )
        } else {
            avant
        }
    }
}

/// Deux niveaux où le profil est de signes strictement opposés, et nul entre les deux.
pub open spec fn encadre_un_passage(profil: Seq<Flottant>, i: int, j: int) -> bool {
    &&& 0 <= i < j < profil.len()
    &&& de_signes_opposes(profil[i], profil[j])
    &&& forall|k: int| i < k < j ==> #[trigger] profil[k].de_meme_valeur(Flottant::nul())
}

/// Tout croisement sépare deux signes strictement opposés : un profil qui touche zéro sans
/// le traverser n'en a pas.
pub proof fn un_croisement_separe_deux_signes(
    niveaux: Seq<Flottant>,
    profil: Seq<Flottant>,
    n: nat,
    c: int,
)
    requires
        n <= profil.len(),
        0 <= c < croisements_de(niveaux, profil, n).len(),
    ensures
        exists|i: int, j: int|
            #[trigger] encadre_un_passage(profil, i, j) && croisements_de(niveaux, profil, n)[c]
                == passage(niveaux, profil, i, j),
    decreases n,
{
    let avant = croisements_de(niveaux, profil, (n - 1) as nat);
    if c < avant.len() {
        un_croisement_separe_deux_signes(niveaux, profil, (n - 1) as nat, c);
        let (i, j) = choose|i: int, j: int|
            #[trigger] encadre_un_passage(profil, i, j) && avant[c] == passage(
                niveaux,
                profil,
                i,
                j,
            );
        assert(croisements_de(niveaux, profil, n)[c] == passage(niveaux, profil, i, j));
    } else {
        lemme_nul_depuis(profil, (n - 1) as nat);
        let i = dernier_non_nul(profil, (n - 1) as nat)->Some_0;
        assert(encadre_un_passage(profil, i, n - 1));
    }
}

proof fn lemme_nul_depuis(profil: Seq<Flottant>, n: nat)
    ensures
        dernier_non_nul(profil, n) matches Some(i) ==> 0 <= i < n && forall|k: int|
            i < k < n ==> #[trigger] profil[k].de_meme_valeur(Flottant::nul()),
        dernier_non_nul(profil, n) is None ==> forall|k: int|
            0 <= k < n ==> #[trigger] profil[k].de_meme_valeur(Flottant::nul()),
    decreases n,
{
    if n > 0 {
        lemme_nul_depuis(profil, (n - 1) as nat);
    }
}

/// Deux signes strictement opposés, sans rien que des zéros entre eux, donnent un croisement.
pub proof fn deux_signes_opposes_se_croisent(
    niveaux: Seq<Flottant>,
    profil: Seq<Flottant>,
    n: nat,
    i: int,
    j: int,
)
    requires
        encadre_un_passage(profil, i, j),
        j < n <= profil.len(),
    ensures
        croisements_de(niveaux, profil, n).contains(passage(niveaux, profil, i, j)),
    decreases n,
{
    let p = passage(niveaux, profil, i, j);
    let avant = croisements_de(niveaux, profil, (n - 1) as nat);
    let tous = croisements_de(niveaux, profil, n);
    if j < n - 1 {
        deux_signes_opposes_se_croisent(niveaux, profil, (n - 1) as nat, i, j);
        let k = choose|k: int| 0 <= k < avant.len() && avant[k] == p;
        assert(tous[k] == p);
    } else {
        lemme_nul_depuis(profil, j as nat);
        assert(dernier_non_nul(profil, j as nat) == Some(i)) by {
            assert(!profil[i].de_meme_valeur(Flottant::nul()));
            if dernier_non_nul(profil, j as nat) is Some {
                let d = dernier_non_nul(profil, j as nat)->Some_0;
                lemme_dernier_non_nul(profil, j as nat);
                if i < d {
                    assert(profil[d].de_meme_valeur(Flottant::nul()));
                }
            }
        }
        assert(tous[tous.len() - 1] == p);
    }
}

proof fn lemme_dernier_non_nul(profil: Seq<Flottant>, n: nat)
    ensures
        dernier_non_nul(profil, n) matches Some(i) ==> !profil[i].de_meme_valeur(Flottant::nul()),
    decreases n,
{
    if n > 0 {
        lemme_dernier_non_nul(profil, (n - 1) as nat);
    }
}

/// Les dollars que la couverture force à acheter quand le prix va de `x0` à `x1`, le GEX y
/// valant `g0` puis `g1`.
///
/// Le GEX est ce qui se traite par mouvement d'un pour cent : rapporté au prix, cent fois,
/// c'est ce qui se traite par point. Il va de l'un à l'autre par la règle du trapèze, et
/// s'oppose au mouvement quand il est positif.
pub open spec fn flux_du_trajet(
    x0: Flottant,
    x1: Flottant,
    g0: Flottant,
    g1: Flottant,
) -> Flottant {
    x1.moins(x0).fois(g0.par(x0).plus(g1.par(x1))).fois(Flottant::entier(50)).neg()
}

fn trajet(x0: Flottant, x1: Flottant, g0: Flottant, g1: Flottant) -> (f: Flottant)
    ensures
        f == flux_du_trajet(x0, x1, g0, g1),
{
    x1.moins(x0).fois(g0.par(x0).plus(g1.par(x1))).fois(Flottant::entier(50)).neg()
}

/// Le flux cumulé du spot au niveau `i`, en montant de niveau en niveau.
pub open spec fn flux_en_montant(
    niveaux: Seq<Flottant>,
    profil: Seq<Flottant>,
    spot: Flottant,
    au_spot: Flottant,
    i: int,
) -> Flottant
    decreases i,
{
    if i <= 0 || niveaux[i - 1].inferieur(spot) {
        flux_du_trajet(spot, niveaux[i], au_spot, profil[i])
    } else {
        flux_en_montant(niveaux, profil, spot, au_spot, i - 1).plus(
            flux_du_trajet(niveaux[i - 1], niveaux[i], profil[i - 1], profil[i]),
        )
    }
}

/// Le flux cumulé du spot au niveau `i`, en descendant de niveau en niveau.
pub open spec fn flux_en_descendant(
    niveaux: Seq<Flottant>,
    profil: Seq<Flottant>,
    spot: Flottant,
    au_spot: Flottant,
    i: int,
) -> Flottant
    decreases niveaux.len() - i,
{
    if i + 1 >= niveaux.len() || !niveaux[i + 1].inferieur(spot) {
        flux_du_trajet(spot, niveaux[i], au_spot, profil[i])
    } else {
        flux_en_descendant(niveaux, profil, spot, au_spot, i + 1).plus(
            flux_du_trajet(niveaux[i + 1], niveaux[i], profil[i + 1], profil[i]),
        )
    }
}

/// Les dollars que la couverture forcerait à acheter pour aller du spot à chaque niveau, le
/// profil valant `au_spot` au spot.
pub open spec fn carburant_de(
    niveaux: Seq<Flottant>,
    profil: Seq<Flottant>,
    spot: Flottant,
    au_spot: Flottant,
) -> Seq<Flottant> {
    Seq::new(
        niveaux.len(),
        |i: int|
            if niveaux[i].inferieur(spot) {
                flux_en_descendant(niveaux, profil, spot, au_spot, i)
            } else {
                flux_en_montant(niveaux, profil, spot, au_spot, i)
            },
    )
}

/// Les dollars que la couverture forcerait à traiter pour aller du spot à chaque niveau d'une
/// grille croissante : positifs, les teneurs devraient acheter.
///
/// Le GEX dit si la couverture amortit ou amplifie ; celui-ci dit de combien.
pub fn carburant(
    niveaux: &[Flottant],
    profil: &[Flottant],
    spot: Flottant,
    au_spot: Flottant,
) -> (r: Vec<Flottant>)
    requires
        niveaux@.len() == profil@.len(),
    ensures
        r@ == carburant_de(niveaux@, profil@, spot, au_spot),
{
    let n: usize = niveaux.len();
    let mut r: Vec<Flottant> = Vec::new();
    let mut i: usize = 0;
    while i < n
        invariant
            n == niveaux@.len() == profil@.len(),
            i <= n,
            r@.len() == i,
            forall|j: int|
                0 <= j < i && !niveaux@[j].inferieur(spot) ==> #[trigger] r@[j] == flux_en_montant(
                    niveaux@,
                    profil@,
                    spot,
                    au_spot,
                    j,
                ),
        decreases n - i,
    {
        let f: Flottant = if niveaux[i].inf(spot) {
            Flottant::nul()
        } else if i == 0 || niveaux[i - 1].inf(spot) {
            trajet(spot, niveaux[i], au_spot, profil[i])
        } else {
            r[i - 1].plus(trajet(niveaux[i - 1], niveaux[i], profil[i - 1], profil[i]))
        };
        r.push(f);
        i += 1;
    }
    while i > 0
        invariant
            n == niveaux@.len() == profil@.len(),
            i <= n,
            r@.len() == n,
            forall|j: int|
                0 <= j < n && !niveaux@[j].inferieur(spot) ==> #[trigger] r@[j] == flux_en_montant(
                    niveaux@,
                    profil@,
                    spot,
                    au_spot,
                    j,
                ),
            forall|j: int|
                i <= j < n && niveaux@[j].inferieur(spot) ==> #[trigger] r@[j]
                    == flux_en_descendant(niveaux@, profil@, spot, au_spot, j),
        decreases i,
    {
        i -= 1;
        if niveaux[i].inf(spot) {
            let f: Flottant = if i + 1 == n || !niveaux[i + 1].inf(spot) {
                trajet(spot, niveaux[i], au_spot, profil[i])
            } else {
                r[i + 1].plus(trajet(niveaux[i + 1], niveaux[i], profil[i + 1], profil[i]))
            };
            r.set(i, f);
        }
    }
    assert(r@ =~= carburant_de(niveaux@, profil@, spot, au_spot));
    r
}

/// Les niveaux communs à la grille et au profil.
pub open spec fn commun(niveaux: Seq<Flottant>, profil: Seq<Flottant>) -> nat {
    if niveaux.len() < profil.len() {
        niveaux.len()
    } else {
        profil.len()
    }
}

/// Tous les niveaux où le gamma total change de signe, interpolés linéairement.
pub fn croisements_zero(niveaux: &[Flottant], profil: &[Flottant]) -> (r: Vec<Flottant>)
    ensures
        r@ == croisements_de(niveaux@, profil@, commun(niveaux@, profil@)),
{
    let n: usize = if niveaux.len() < profil.len() {
        niveaux.len()
    } else {
        profil.len()
    };
    let z: Flottant = Flottant::nul();
    let mut r: Vec<Flottant> = Vec::new();
    let mut dernier: Option<usize> = None;
    let mut j: usize = 0;
    while j < n
        invariant
            j <= n,
            n <= niveaux@.len(),
            n <= profil@.len(),
            z == Flottant::nul(),
            match dernier {
                Some(i) => i < j && dernier_non_nul(profil@, j as nat) == Some(i as int),
                None => dernier_non_nul(profil@, j as nat) is None,
            },
            r@ == croisements_de(niveaux@, profil@, j as nat),
        decreases n - j,
    {
        if let Some(i) = dernier {
            if opposes(profil[i], profil[j]) {
                let k: usize = if profil[i].inf(z) {
                    i
                } else {
                    j - 1
                };
                let (x0, x1) = (niveaux[k], niveaux[k + 1]);
                let (y0, y1) = (profil[k], profil[k + 1]);
                r.push(x1.moins(x1.moins(x0).fois(y1).par(y1.moins(y0))));
            }
        }
        if !profil[j].egal(z) {
            dernier = Some(j);
        }
        j += 1;
    }
    r
}

/// La distance d'un croisement au spot.
pub open spec fn distance(c: Flottant, spot: Flottant) -> Flottant {
    c.moins(spot).abs()
}

/// Toutes les distances au spot se comparent.
pub open spec fn distances_definies(s: Seq<Flottant>, spot: Flottant) -> bool {
    s.len() <= 1 || forall|i: int| 0 <= i < s.len() ==> !distance(#[trigger] s[i], spot).nan()
}

/// Le premier des croisements les plus proches.
pub open spec fn plus_proche(s: Seq<Flottant>, spot: Flottant) -> Option<Flottant>
    decreases s.len(),
{
    if s.len() == 0 {
        None
    } else {
        match plus_proche(s.drop_last(), spot) {
            None => Some(s.last()),
            Some(m) => if distance(s.last(), spot).inferieur(distance(m, spot)) {
                Some(s.last())
            } else {
                Some(m)
            },
        }
    }
}

/// Le croisement retenu est un des croisements, et aucun n'est plus près du spot.
pub proof fn le_zero_gamma_est_le_plus_proche(s: Seq<Flottant>, spot: Flottant)
    requires
        distances_definies(s, spot),
    ensures
        plus_proche(s, spot) is None <==> s.len() == 0,
        plus_proche(s, spot) matches Some(m) ==> s.contains(m) && forall|i: int|
            0 <= i < s.len() ==> !distance(#[trigger] s[i], spot).inferieur(distance(m, spot)),
    decreases s.len(),
{
    if s.len() > 0 {
        let t = s.drop_last();
        assert(distances_definies(t, spot)) by {
            if s.len() > 1 {
                assert forall|i: int| 0 <= i < t.len() implies !distance(
                    #[trigger] t[i],
                    spot,
                ).nan() by {
                    assert(!distance(s[i], spot).nan());
                }
            }
        }
        le_zero_gamma_est_le_plus_proche(t, spot);
        assert(s[s.len() - 1] == s.last());
        if t.len() > 0 {
            let m = plus_proche(t, spot)->Some_0;
            let k = choose|k: int| 0 <= k < t.len() && t[k] == m;
            assert(s[k] == m);
            assert forall|i: int| 0 <= i < s.len() implies !distance(
                #[trigger] s[i],
                spot,
            ).inferieur(distance(plus_proche(s, spot)->Some_0, spot)) by {
                if i < t.len() {
                    assert(t[i] == s[i]);
                }
                assert(!distance(s[k], spot).nan());
            }
        }
    }
}

/// Le croisement retenu : le plus proche du spot.
///
/// C'est lui qui délimite le régime dans lequel le marché se trouve effectivement.
pub fn zero_gamma(croisements: &[Flottant], spot: Flottant) -> (r: Option<Flottant>)
    requires
        distances_definies(croisements@, spot),
    ensures
        r == plus_proche(croisements@, spot),
{
    let mut r: Option<Flottant> = None;
    let mut i: usize = 0;
    while i < croisements.len()
        invariant
            i <= croisements@.len(),
            r == plus_proche(croisements@.take(i as int), spot),
        decreases croisements@.len() - i,
    {
        let c: Flottant = croisements[i];
        proof {
            assert(croisements@.take(i + 1).drop_last() =~= croisements@.take(i as int));
            assert(croisements@.take(i + 1).last() == c);
        }
        match r {
            None => {
                r = Some(c);
            },
            Some(m) => {
                if c.moins(spot).abs().inf(m.moins(spot).abs()) {
                    r = Some(c);
                }
            },
        }
        i += 1;
    }
    assert(croisements@.take(croisements@.len() as int) =~= croisements@);
    r
}

/// Ce qu'une mesure vaut sur chaque ligne.
pub open spec fn mesures(s: Seq<LigneExposee>, m: spec_fn(LigneExposee) -> Flottant) -> Seq<
    Flottant,
> {
    Seq::new(s.len(), |i: int| m(s[i]))
}

/// Les lignes à moins de `seuil` jours.
pub open spec fn proches(s: Seq<LigneExposee>, seuil: int) -> Seq<LigneExposee>
    decreases s.len(),
{
    if s.len() == 0 {
        s
    } else if s.last().dte <= seuil {
        proches(s.drop_last(), seuil).push(s.last())
    } else {
        proches(s.drop_last(), seuil)
    }
}

/// Le poids des échéances à 0-1 jour.
#[derive(Clone, Copy, Debug, PartialEq, Eq, Structural)]
pub struct PartCourtes {
    /// Part du GEX total, en valeur absolue.
    pub gex: Option<Flottant>,
    /// Part du charm total.
    pub charm: Option<Flottant>,
}

/// La part qu'un extrait porte d'un total, en valeurs absolues.
pub open spec fn part_de(extrait: Flottant, tout: Flottant) -> Option<Flottant> {
    if tout.de_meme_valeur(Flottant::nul()) {
        None
    } else {
        Some(extrait.abs().par(tout.abs()))
    }
}

fn part(extrait: Flottant, tout: Flottant) -> (r: Option<Flottant>)
    ensures
        r == part_de(extrait, tout),
{
    if tout.egal(Flottant::nul()) {
        None
    } else {
        Some(extrait.abs().par(tout.abs()))
    }
}

/// Les deux mesures dont on suit la part.
pub open spec fn le_gex() -> spec_fn(LigneExposee) -> Flottant {
    |l: LigneExposee| l.gex
}

pub open spec fn le_charm() -> spec_fn(LigneExposee) -> Flottant {
    |l: LigneExposee| l.charm
}

fn colonne<F: Fn(&LigneExposee) -> Flottant>(
    lignes: &[LigneExposee],
    f: F,
    Ghost(m): Ghost<spec_fn(LigneExposee) -> Flottant>,
) -> (r: Flottant)
    requires
        forall|l: LigneExposee| #[trigger] call_requires(f, (&l,)),
        forall|l: LigneExposee, y: Flottant| #[trigger] call_ensures(f, (&l,), y) ==> y == m(l),
    ensures
        r == total(mesures(lignes@, m)),
{
    let mut v: Vec<Flottant> = Vec::new();
    let mut i: usize = 0;
    while i < lignes.len()
        invariant
            i <= lignes@.len(),
            v@.len() == i,
            forall|j: int| 0 <= j < i ==> #[trigger] v@[j] == m(lignes@[j]),
            forall|l: LigneExposee| #[trigger] call_requires(f, (&l,)),
            forall|l: LigneExposee, y: Flottant| #[trigger]
                call_ensures(f, (&l,), y) ==> y == m(l),
        decreases lignes@.len() - i,
    {
        let l: LigneExposee = lignes[i];
        v.push(f(&l));
        i += 1;
    }
    assert(v@ =~= mesures(lignes@, m));
    totaliser(v.as_slice())
}

fn lire_gex(l: &LigneExposee) -> (y: Flottant)
    ensures
        y == l.gex,
{
    l.gex
}

fn lire_charm(l: &LigneExposee) -> (y: Flottant)
    ensures
        y == l.charm,
{
    l.charm
}

fn lire_vanna(l: &LigneExposee) -> (y: Flottant)
    ensures
        y == l.vanna,
{
    l.vanna
}

fn lire_delta(l: &LigneExposee) -> (y: Flottant)
    ensures
        y == l.delta,
{
    l.delta
}

fn lire_vega(l: &LigneExposee) -> (y: Flottant)
    ensures
        y == l.vega,
{
    l.vega
}

fn lire_theta(l: &LigneExposee) -> (y: Flottant)
    ensures
        y == l.theta,
{
    l.theta
}

fn lire_gex_iv(l: &LigneExposee) -> (y: Flottant)
    ensures
        y == l.gex_iv,
{
    l.gex_iv
}

fn lire_gex_publie(l: &LigneExposee) -> (y: Flottant)
    ensures
        y == l.gex_publie,
{
    l.gex_publie
}

/// Part du GEX et du charm portée par les échéances proches.
///
/// Rien quand aucune ligne n'est proche, ni d'un total nul.
pub fn part_courtes(lignes: &[LigneExposee], seuil_jours: i64) -> (r: PartCourtes)
    ensures
        ({
            let p = proches(lignes@, seuil_jours as int);
            if p.len() == 0 {
                r.gex is None && r.charm is None
            } else {
                &&& r.gex == part_de(total(mesures(p, le_gex())), total(mesures(lignes@, le_gex())))
                &&& r.charm == part_de(
                    total(mesures(p, le_charm())),
                    total(mesures(lignes@, le_charm())),
                )
            }
        }),
{
    let mut p: Vec<LigneExposee> = Vec::new();
    let mut i: usize = 0;
    while i < lignes.len()
        invariant
            i <= lignes@.len(),
            p@ == proches(lignes@.take(i as int), seuil_jours as int),
        decreases lignes@.len() - i,
    {
        let l: LigneExposee = lignes[i];
        proof {
            assert(lignes@.take(i + 1).drop_last() =~= lignes@.take(i as int));
            assert(lignes@.take(i + 1).last() == l);
        }
        if l.dte <= seuil_jours {
            p.push(l);
        }
        i += 1;
    }
    assert(lignes@.take(lignes@.len() as int) =~= lignes@);
    if p.len() == 0 {
        return PartCourtes { gex: None, charm: None };
    }
    let g: Flottant = colonne(p.as_slice(), lire_gex, Ghost(le_gex()));
    let gt: Flottant = colonne(lignes, lire_gex, Ghost(le_gex()));
    let c: Flottant = colonne(p.as_slice(), lire_charm, Ghost(le_charm()));
    let ct: Flottant = colonne(lignes, lire_charm, Ghost(le_charm()));
    PartCourtes { gex: part(g, gt), charm: part(c, ct) }
}

/// Les deux estimateurs du GEX, et leur écart.
#[derive(Clone, Copy, Debug, PartialEq, Eq, Structural)]
pub struct EcartGamma {
    /// Total avec le gamma recalculé depuis la volatilité.
    pub iv: Flottant,
    /// Total avec le gamma publié par la source.
    pub publie: Flottant,
    /// Écart relatif, rapporté au publié.
    pub relatif: Flottant,
}

/// L'écart de deux totaux.
pub open spec fn ecart_de(iv: Flottant, publie: Flottant) -> Option<EcartGamma> {
    if !publie.fini() || publie.de_meme_valeur(Flottant::nul()) {
        None
    } else {
        Some(EcartGamma { iv, publie, relatif: iv.moins(publie).par(publie.abs()) })
    }
}

/// L'écart entre les deux estimateurs de gamma.
///
/// Rien quand la source ne publie pas de gamma.
pub fn ecart_gamma(lignes: &[LigneExposee]) -> (r: Option<EcartGamma>)
    ensures
        r == ecart_de(
            total(mesures(lignes@, |l: LigneExposee| l.gex_iv)),
            total(mesures(lignes@, |l: LigneExposee| l.gex_publie)),
        ),
{
    let publie: Flottant = colonne(lignes, lire_gex_publie, Ghost(|l: LigneExposee| l.gex_publie));
    let iv: Flottant = colonne(lignes, lire_gex_iv, Ghost(|l: LigneExposee| l.gex_iv));
    if !publie.est_fini() || publie.egal(Flottant::nul()) {
        return None;
    }
    Some(EcartGamma { iv, publie, relatif: iv.moins(publie).par(publie.abs()) })
}

/// La plus proche échéance parmi les lignes retenues : toutes, ou les mensuelles.
pub open spec fn echeance_cible(s: Seq<LigneExposee>, mensuelle: bool) -> Option<EcheanceNy>
    decreases s.len(),
{
    if s.len() == 0 {
        None
    } else {
        let avant = echeance_cible(s.drop_last(), mensuelle);
        let e = s.last().ligne.echeance;
        if mensuelle && !troisieme_vendredi(e) {
            avant
        } else {
            match avant {
                None => Some(e),
                Some(m) => if e.0.micros < m.0.micros {
                    Some(e)
                } else {
                    Some(m)
                },
            }
        }
    }
}

fn cibler(lignes: &[LigneExposee], mensuelle: bool) -> (r: Option<EcheanceNy>)
    ensures
        r == echeance_cible(lignes@, mensuelle),
{
    let mut r: Option<EcheanceNy> = None;
    let mut i: usize = 0;
    while i < lignes.len()
        invariant
            i <= lignes@.len(),
            r == echeance_cible(lignes@.take(i as int), mensuelle),
        decreases lignes@.len() - i,
    {
        let e: EcheanceNy = lignes[i].ligne.echeance;
        proof {
            assert(lignes@.take(i + 1).drop_last() =~= lignes@.take(i as int));
            assert(lignes@.take(i + 1).last().ligne.echeance == e);
        }
        if !mensuelle || est_troisieme_vendredi(e) {
            match r {
                None => {
                    r = Some(e);
                },
                Some(m) => {
                    if e.0.micros < m.0.micros {
                        r = Some(e);
                    }
                },
            }
        }
        i += 1;
    }
    assert(lignes@.take(lignes@.len() as int) =~= lignes@);
    r
}

/// Les lignes d'une échéance, ou celles des autres.
pub open spec fn de_l_echeance(s: Seq<LigneExposee>, e: EcheanceNy, dedans: bool) -> Seq<
    LigneExposee,
>
    decreases s.len(),
{
    if s.len() == 0 {
        s
    } else if (s.last().ligne.echeance == e) == dedans {
        de_l_echeance(s.drop_last(), e, dedans).push(s.last())
    } else {
        de_l_echeance(s.drop_last(), e, dedans)
    }
}

fn extraire(lignes: &[LigneExposee], e: EcheanceNy, dedans: bool) -> (r: Vec<LigneExposee>)
    ensures
        r@ == de_l_echeance(lignes@, e, dedans),
{
    let mut r: Vec<LigneExposee> = Vec::new();
    let mut i: usize = 0;
    while i < lignes.len()
        invariant
            i <= lignes@.len(),
            r@ == de_l_echeance(lignes@.take(i as int), e, dedans),
        decreases lignes@.len() - i,
    {
        let l: LigneExposee = lignes[i];
        proof {
            assert(lignes@.take(i + 1).drop_last() =~= lignes@.take(i as int));
            assert(lignes@.take(i + 1).last() == l);
        }
        if (l.ligne.echeance == e) == dedans {
            r.push(l);
        }
        i += 1;
    }
    assert(lignes@.take(lignes@.len() as int) =~= lignes@);
    r
}

/// La valeur des contrats ouverts si le sous-jacent réglait à `k`.
pub open spec fn valeur_au_reglement(s: Seq<LigneExposee>, k: Flottant) -> Flottant {
    total(
        mesures(
            s,
            |l: LigneExposee|
                Sens::Call.valeur_intrinseque(k, l.ligne.strike).fois(
                    l.ligne.call.open_interest,
                ).plus(
                    Sens::Put.valeur_intrinseque(k, l.ligne.strike).fois(l.ligne.put.open_interest),
                ),
        ),
    )
}

/// Le premier des `n` premiers strikes où les contrats vaudraient le moins.
pub open spec fn moindre_valeur(s: Seq<LigneExposee>, n: nat) -> Option<Flottant>
    decreases n,
{
    if n == 0 {
        None
    } else {
        let k = s[n - 1].ligne.strike;
        match moindre_valeur(s, (n - 1) as nat) {
            None => Some(k),
            Some(m) => if valeur_au_reglement(s, k).inferieur(valeur_au_reglement(s, m)) {
                Some(k)
            } else {
                Some(m)
            },
        }
    }
}

/// Le max pain d'une chaîne : sur sa plus proche échéance.
pub open spec fn max_pain_de(s: Seq<LigneExposee>) -> Option<Flottant> {
    match echeance_cible(s, false) {
        None => None,
        Some(e) => {
            let t = de_l_echeance(s, e, true);
            moindre_valeur(t, t.len())
        },
    }
}

fn valeur_totale(lignes: &[LigneExposee], k: Flottant) -> (r: Flottant)
    ensures
        r == valeur_au_reglement(lignes@, k),
{
    let ghost m = |l: LigneExposee|
        Sens::Call.valeur_intrinseque(k, l.ligne.strike).fois(l.ligne.call.open_interest).plus(
            Sens::Put.valeur_intrinseque(k, l.ligne.strike).fois(l.ligne.put.open_interest),
        );
    let f = |l: &LigneExposee| -> (y: Flottant)
        ensures
            y == Sens::Call.valeur_intrinseque(k, l.ligne.strike).fois(
                l.ligne.call.open_interest,
            ).plus(Sens::Put.valeur_intrinseque(k, l.ligne.strike).fois(l.ligne.put.open_interest)),
        {
            Sens::Call.intrinseque(k, l.ligne.strike).fois(l.ligne.call.open_interest).plus(
                Sens::Put.intrinseque(k, l.ligne.strike).fois(l.ligne.put.open_interest),
            )
        };
    colonne(lignes, f, Ghost(m))
}

/// Le strike où les options de la plus proche échéance vaudraient le moins au
/// règlement.
///
/// Une seule échéance : deux échéances règlent deux jours différents, et les
/// additionner supposerait le même prix les deux jours.
pub fn max_pain(lignes: &[LigneExposee]) -> (r: Option<Flottant>)
    ensures
        r == max_pain_de(lignes@),
{
    let e: EcheanceNy = match cibler(lignes, false) {
        None => {
            return None;
        },
        Some(e) => e,
    };
    let t: Vec<LigneExposee> = extraire(lignes, e, true);
    let mut r: Option<Flottant> = None;
    let mut i: usize = 0;
    while i < t.len()
        invariant
            i <= t@.len(),
            r == moindre_valeur(t@, i as nat),
        decreases t@.len() - i,
    {
        let k: Flottant = t[i].ligne.strike;
        match r {
            None => {
                r = Some(k);
            },
            Some(m) => {
                if valeur_totale(t.as_slice(), k).inf(valeur_totale(t.as_slice(), m)) {
                    r = Some(k);
                }
            },
        }
        i += 1;
    }
    r
}

/// La ligne la plus proche de la monnaie parmi celles qui publient une volatilité, la
/// première à égalité.
pub open spec fn ligne_a_la_monnaie(s: Seq<LigneExposee>, spot: Flottant) -> Option<LigneExposee>
    decreases s.len(),
{
    if s.len() == 0 {
        None
    } else {
        let avant = ligne_a_la_monnaie(s.drop_last(), spot);
        let l = s.last();
        if vol_moyenne(l.ligne) is None {
            avant
        } else {
            match avant {
                None => Some(l),
                Some(m) => if distance(l.ligne.strike, spot).inferieur(
                    distance(m.ligne.strike, spot),
                ) {
                    Some(l)
                } else {
                    Some(m)
                },
            }
        }
    }
}

/// La ligne à la monnaie de la plus proche échéance.
pub open spec fn monnaie_proche(s: Seq<LigneExposee>, spot: Flottant) -> Option<LigneExposee> {
    match echeance_cible(s, false) {
        None => None,
        Some(e) => ligne_a_la_monnaie(de_l_echeance(s, e, true), spot),
    }
}

/// La volatilité implicite à la monnaie, sur la plus proche échéance.
pub open spec fn iv_atm_de(s: Seq<LigneExposee>, spot: Flottant) -> Option<Flottant> {
    match monnaie_proche(s, spot) {
        None => None,
        Some(l) => vol_moyenne(l.ligne),
    }
}

/// Le mouvement d'un écart-type que le marché price d'ici la plus proche échéance : le prix,
/// par la volatilité à la monnaie, par la racine du temps restant.
pub open spec fn attendu_de(s: Seq<LigneExposee>, spot: Flottant) -> Option<Flottant> {
    match (monnaie_proche(s, spot), iv_atm_de(s, spot)) {
        (Some(l), Some(v)) => Some(spot.fois(v).fois(l.t.racine())),
        _ => None,
    }
}

/// La pente du smile sur la plus proche échéance.
pub open spec fn skew_proche(
    ln: spec_fn(Flottant) -> Flottant,
    s: Seq<LigneExposee>,
    spot: Flottant,
) -> Option<Flottant> {
    match echeance_cible(s, false) {
        None => None,
        Some(e) => Some(skew_de(ln, s, e, spot)),
    }
}

fn chercher_la_monnaie(lignes: &[LigneExposee], spot: Flottant) -> (r: Option<LigneExposee>)
    ensures
        r == monnaie_proche(lignes@, spot),
{
    let e: EcheanceNy = match cibler(lignes, false) {
        None => {
            return None;
        },
        Some(e) => e,
    };
    let t: Vec<LigneExposee> = extraire(lignes, e, true);
    let mut r: Option<LigneExposee> = None;
    let mut i: usize = 0;
    while i < t.len()
        invariant
            i <= t@.len(),
            r == ligne_a_la_monnaie(t@.take(i as int), spot),
        decreases t@.len() - i,
    {
        let l: LigneExposee = t[i];
        proof {
            assert(t@.take(i + 1).drop_last() =~= t@.take(i as int));
            assert(t@.take(i + 1).last() == l);
        }
        if moyenner_vols(&l.ligne).is_some() {
            match r {
                None => {
                    r = Some(l);
                },
                Some(m) => {
                    if l.ligne.strike.moins(spot).abs().inf(m.ligne.strike.moins(spot).abs()) {
                        r = Some(l);
                    }
                },
            }
        }
        i += 1;
    }
    assert(t@.take(t@.len() as int) =~= t@);
    r
}

/// La volatilité implicite à la monnaie, sur la plus proche échéance.
pub fn iv_atm(lignes: &[LigneExposee], spot: Flottant) -> (r: Option<Flottant>)
    ensures
        r == iv_atm_de(lignes@, spot),
{
    match chercher_la_monnaie(lignes, spot) {
        None => None,
        Some(l) => moyenner_vols(&l.ligne),
    }
}

/// Le mouvement que le marché price d'ici la plus proche échéance.
pub fn mouvement_attendu(lignes: &[LigneExposee], spot: Flottant) -> (r: Option<Flottant>)
    ensures
        r == attendu_de(lignes@, spot),
{
    match chercher_la_monnaie(lignes, spot) {
        None => None,
        Some(l) => match moyenner_vols(&l.ligne) {
            None => None,
            Some(v) => Some(spot.fois(v).fois(l.t.racine())),
        },
    }
}

/// La pente du smile sur la plus proche échéance.
pub fn skew<L: Fn(Flottant) -> Flottant>(
    lignes: &[LigneExposee],
    spot: Flottant,
    ln: &L,
) -> (r: Option<Flottant>)
    requires
        est_fonction(*ln),
    ensures
        r == skew_proche(courbe(*ln), lignes@, spot),
{
    match cibler(lignes, false) {
        None => None,
        Some(e) => Some(pente_skew(lignes, e, spot, ln)),
    }
}

/// Le nombre de niveaux d'une grille : deux au moins.
pub open spec fn taille_grille(niveaux: usize) -> int {
    if niveaux < 2 {
        2
    } else {
        niveaux as int
    }
}

/// Les niveaux d'une grille régulière autour du spot.
pub open spec fn grille_de(spot: Flottant, plage: Flottant, niveaux: usize) -> Seq<Flottant> {
    let un = Flottant::entier(1);
    let bas = un.moins(plage).fois(spot);
    let haut = un.plus(plage).fois(spot);
    let n = taille_grille(niveaux);
    let pas = haut.moins(bas).par(rapport(n - 1, 1));
    Seq::new(n as nat, |i: int| bas.plus(pas.fois(rapport(i, 1))))
}

/// La grille de niveaux du profil.
pub fn grille(spot: Flottant, plage: Flottant, niveaux: usize) -> (r: Vec<Flottant>)
    ensures
        r@ == grille_de(spot, plage, niveaux),
{
    let un: Flottant = Flottant::entier(1);
    let bas: Flottant = un.moins(plage).fois(spot);
    let haut: Flottant = un.plus(plage).fois(spot);
    let n: usize = if niveaux < 2 {
        2
    } else {
        niveaux
    };
    let pas: Flottant = haut.moins(bas).par(Flottant::naturel((n - 1) as u64));
    let mut r: Vec<Flottant> = Vec::new();
    let mut i: usize = 0;
    while i < n
        invariant
            i <= n,
            r@.len() == i,
            forall|j: int| 0 <= j < i ==> #[trigger] r@[j] == bas.plus(pas.fois(rapport(j, 1))),
        decreases n - i,
    {
        r.push(bas.plus(pas.fois(Flottant::naturel(i as u64))));
        i += 1;
    }
    r
}

/// Tout ce qu'une séance produit.
#[derive(Clone, Debug, PartialEq, Eq)]
pub struct Analyse {
    /// Le prix du sous-jacent.
    pub spot: Flottant,
    /// L'instant du relevé.
    pub releve: InstantReleve,
    /// Le multiplicateur appliqué.
    pub taille_contrat: Flottant,
    /// Les lignes retenues, avec leurs expositions.
    pub lignes: Vec<LigneExposee>,
    /// L'agrégat par strike, trié.
    pub par_strike: Vec<AgregatStrike>,
    /// Les niveaux de spot du profil.
    pub niveaux: Vec<Flottant>,
    /// Le profil de gamma, toutes échéances.
    pub profil: Vec<Flottant>,
    /// Les dollars que la couverture forcerait à acheter pour aller du spot à chaque niveau.
    pub carburant: Vec<Flottant>,
    /// GEX total.
    pub gex: Flottant,
    /// Charm total.
    pub charm: Flottant,
    /// Vanna totale.
    pub vanna: Flottant,
    /// Delta dollar total.
    pub delta: Flottant,
    /// Vega dollar total.
    pub vega: Flottant,
    /// Thêta dollar du book, par jour.
    pub theta: Flottant,
    /// Le croisement de zéro retenu : le plus proche du spot.
    pub zero_gamma: Option<Flottant>,
    /// Tous les croisements trouvés.
    pub croisements: Vec<Flottant>,
    /// Les murs.
    pub murs: Murs,
    /// Les strikes où le gamma net est le plus concentré.
    pub gamma_majeur: GammaMajeur,
    /// Le strike de moindre valeur au règlement.
    pub max_pain: Option<Flottant>,
    /// La volatilité implicite à la monnaie, sur la plus proche échéance.
    pub iv_atm: Option<Flottant>,
    /// La pente du smile sur cette même échéance.
    pub skew: Option<Flottant>,
    /// Le mouvement que le marché price d'ici cette même échéance.
    pub attendu: Option<Flottant>,
    /// L'écart entre les deux estimateurs de gamma.
    pub ecart_gamma: Option<EcartGamma>,
    /// Le poids des échéances à 0-1 jour.
    pub part_courtes: PartCourtes,
}

/// Les lignes retenues par l'analyse, avec leurs expositions.
pub open spec fn lignes_analysees(
    ln: spec_fn(Flottant) -> Flottant,
    exp: spec_fn(Flottant) -> Flottant,
    chaine: Chaine,
    params: Parametres,
) -> Seq<LigneExposee> {
    exposees(
        ln,
        exp,
        lignes_vives(chaine.vue(), chaine.releve, params.dte_max, params.dte_min),
        chaine.spot,
        chaine.releve,
        params,
    )
}

/// Les croisements du profil de l'analyse.
pub open spec fn croisements_analyses(
    ln: spec_fn(Flottant) -> Flottant,
    exp: spec_fn(Flottant) -> Flottant,
    chaine: Chaine,
    params: Parametres,
) -> Seq<Flottant> {
    let lignes = lignes_analysees(ln, exp, chaine, params);
    let niveaux = grille_de(chaine.spot, params.plage, params.niveaux);
    let profil = profil_de(ln, exp, lignes, niveaux, chaine.spot, params);
    croisements_de(niveaux, profil, niveaux.len())
}

/// L'analyse est celle que la chaîne et les réglages veulent.
pub open spec fn analyse_juste(
    a: Analyse,
    ln: spec_fn(Flottant) -> Flottant,
    exp: spec_fn(Flottant) -> Flottant,
    chaine: Chaine,
    params: Parametres,
) -> bool {
    let lignes = lignes_analysees(ln, exp, chaine, params);
    let niveaux = grille_de(chaine.spot, params.plage, params.niveaux);
    let agrege = agregats(triee(lignes, |a: LigneExposee, b: LigneExposee| strike_avant(a, b)));
    let p = proches(lignes, 1);
    &&& a.spot == chaine.spot
    &&& a.releve == chaine.releve
    &&& a.taille_contrat == params.taille_contrat
    &&& a.lignes@ == lignes
    &&& a.par_strike@ == agrege
    &&& a.niveaux@ == niveaux
    &&& a.profil@ == profil_de(ln, exp, lignes, niveaux, chaine.spot, params)
    &&& a.carburant@ == carburant_de(
        niveaux,
        a.profil@,
        chaine.spot,
        profil_en(ln, exp, lignes, chaine.spot, chaine.spot, params),
    )
    &&& a.gex == total(mesures(lignes, le_gex()))
    &&& a.charm == total(mesures(lignes, le_charm()))
    &&& a.vanna == total(mesures(lignes, |l: LigneExposee| l.vanna))
    &&& a.delta == total(mesures(lignes, |l: LigneExposee| l.delta))
    &&& a.vega == total(mesures(lignes, |l: LigneExposee| l.vega))
    &&& a.theta == total(mesures(lignes, |l: LigneExposee| l.theta))
    &&& a.croisements@ == croisements_analyses(ln, exp, chaine, params)
    &&& a.zero_gamma == plus_proche(a.croisements@, chaine.spot)
    &&& a.murs.call == Mur::Call.strike(agrege, chaine.spot, params.plage_murs)
    &&& a.murs.put == Mur::Put.strike(agrege, chaine.spot, params.plage_murs)
    &&& a.murs.call_oi == Mur::CallOi.strike(agrege, chaine.spot, params.plage_murs_oi)
    &&& a.murs.put_oi == Mur::PutOi.strike(agrege, chaine.spot, params.plage_murs_oi)
    &&& a.murs.call_vol == Mur::CallVol.strike(agrege, chaine.spot, params.plage_murs_oi)
    &&& a.murs.put_vol == Mur::PutVol.strike(agrege, chaine.spot, params.plage_murs_oi)
    &&& a.gamma_majeur.long == strike_majeur(agrege, true)
    &&& a.gamma_majeur.court == strike_majeur(agrege, false)
    &&& a.max_pain == max_pain_de(lignes)
    &&& a.iv_atm == iv_atm_de(lignes, chaine.spot)
    &&& a.skew == skew_proche(ln, lignes, chaine.spot)
    &&& a.attendu == attendu_de(lignes, chaine.spot)
    &&& a.ecart_gamma == ecart_de(
        total(mesures(lignes, |l: LigneExposee| l.gex_iv)),
        total(mesures(lignes, |l: LigneExposee| l.gex_publie)),
    )
    &&& if p.len() == 0 {
        a.part_courtes.gex is None && a.part_courtes.charm is None
    } else {
        &&& a.part_courtes.gex == part_de(
            total(mesures(p, le_gex())),
            total(mesures(lignes, le_gex())),
        )
        &&& a.part_courtes.charm == part_de(
            total(mesures(p, le_charm())),
            total(mesures(lignes, le_charm())),
        )
    }
}

proof fn lemme_lignes_vives_de(
    s: Seq<Ligne>,
    releve: InstantReleve,
    dte_max: Option<i64>,
    dte_min: i64,
)
    ensures
        forall|i: int|
            0 <= i < lignes_vives(s, releve, dte_max, dte_min).len() ==> s.contains(
                #[trigger] lignes_vives(s, releve, dte_max, dte_min)[i],
            ),
    decreases s.len(),
{
    if s.len() > 0 {
        let t = s.drop_last();
        lemme_lignes_vives_de(t, releve, dte_max, dte_min);
        let v = lignes_vives(s, releve, dte_max, dte_min);
        let vt = lignes_vives(t, releve, dte_max, dte_min);
        assert forall|i: int| 0 <= i < v.len() implies s.contains(#[trigger] v[i]) by {
            if i < vt.len() {
                assert(v[i] == vt[i]);
                let k = choose|k: int| 0 <= k < t.len() && t[k] == vt[i];
                assert(s[k] == v[i]);
            } else {
                assert(s[s.len() - 1] == v[i]);
            }
        }
    }
}

/// Chaîne d'options brute -> tous les chiffres de la séance, si les croisements du
/// profil se comparent au spot.
///
/// Rien quand un croisement n'est pas un nombre : il n'y a alors pas de plus proche.
pub fn analyser_si_defini<L: Fn(Flottant) -> Flottant, E: Fn(Flottant) -> Flottant>(
    chaine: &Chaine,
    params: &Parametres,
    ln: &L,
    exp: &E,
) -> (r: Option<Result<Analyse, ChaineInvalide>>)
    requires
        chaine.valide(),
        echeances_usuelles(chaine.vue()),
        est_fonction(*ln),
        est_fonction(*exp),
    ensures
        ({
            let vives = lignes_vives(
                chaine.vue(),
                chaine.releve,
                params.dte_max,
                params.dte_min,
            );
            let croisements = croisements_analyses(courbe(*ln), courbe(*exp), *chaine, *params);
            match r {
                None => vives.len() > 0 && !distances_definies(croisements, chaine.spot),
                Some(Err(e)) => e == ChaineInvalide::Vide && vives.len() == 0,
                Some(Ok(a)) => {
                    &&& vives.len() > 0
                    &&& distances_definies(croisements, chaine.spot)
                    &&& analyse_juste(a, courbe(*ln), courbe(*exp), *chaine, *params)
                },
            }
        }),
{
    let retenue: Chaine = match filtre_echeances(chaine, params.dte_max, params.dte_min) {
        Ok(c) => c,
        Err(e) => {
            return Some(Err(e));
        },
    };
    proof {
        lemme_lignes_vives_de(chaine.vue(), chaine.releve, params.dte_max, params.dte_min);
    }
    let lignes: Vec<LigneExposee> = expositions(&retenue, params, ln, exp);
    proof {
        assert forall|i: int| 0 <= i < lignes@.len() implies !(#[trigger] lignes@[i]).ligne.strike.nan() by {
            assert(lignes@[i].ligne == retenue.vue()[i]);
            assert(retenue.vue()[i].exploitable());
        }
    }
    let agreges: Vec<AgregatStrike> = par_strike(lignes.as_slice());
    let spot: Flottant = chaine.spot;
    let niveaux: Vec<Flottant> = grille(spot, params.plage, params.niveaux);
    let profil: Vec<Flottant> = profil_gamma(
        lignes.as_slice(),
        niveaux.as_slice(),
        spot,
        params,
        ln,
        exp,
    );
    let ici: [Flottant; 1] = [spot];
    let au_spot: Vec<Flottant> = profil_gamma(
        lignes.as_slice(),
        ici.as_slice(),
        spot,
        params,
        ln,
        exp,
    );
    let reserve: Vec<Flottant> = carburant(
        niveaux.as_slice(),
        profil.as_slice(),
        spot,
        au_spot[0],
    );
    let croisements: Vec<Flottant> = croisements_zero(niveaux.as_slice(), profil.as_slice());
    if !comparables(croisements.as_slice(), spot) {
        return None;
    }
    let gex: Flottant = colonne(lignes.as_slice(), lire_gex, Ghost(le_gex()));
    let charm: Flottant = colonne(lignes.as_slice(), lire_charm, Ghost(le_charm()));
    let vanna: Flottant = colonne(
        lignes.as_slice(),
        lire_vanna,
        Ghost(|l: LigneExposee| l.vanna),
    );
    let delta: Flottant = colonne(
        lignes.as_slice(),
        lire_delta,
        Ghost(|l: LigneExposee| l.delta),
    );
    let vega: Flottant = colonne(lignes.as_slice(), lire_vega, Ghost(|l: LigneExposee| l.vega));
    let theta: Flottant = colonne(
        lignes.as_slice(),
        lire_theta,
        Ghost(|l: LigneExposee| l.theta),
    );
    let zero: Option<Flottant> = zero_gamma(croisements.as_slice(), spot);
    let murs: Murs = murs(agreges.as_slice(), spot, params);
    let majeur: GammaMajeur = gamma_majeur(agreges.as_slice());
    let pire: Option<Flottant> = max_pain(lignes.as_slice());
    let vol: Option<Flottant> = iv_atm(lignes.as_slice(), spot);
    let pente: Option<Flottant> = skew(lignes.as_slice(), spot, ln);
    let attendu: Option<Flottant> = mouvement_attendu(lignes.as_slice(), spot);
    let ecart: Option<EcartGamma> = ecart_gamma(lignes.as_slice());
    let courtes: PartCourtes = part_courtes(lignes.as_slice(), 1);
    Some(
        Ok(
            Analyse {
                spot,
                releve: chaine.releve,
                taille_contrat: params.taille_contrat,
                lignes,
                par_strike: agreges,
                niveaux,
                profil,
                carburant: reserve,
                gex,
                charm,
                vanna,
                delta,
                vega,
                theta,
                zero_gamma: zero,
                croisements,
                murs,
                gamma_majeur: majeur,
                max_pain: pire,
                iv_atm: vol,
                skew: pente,
                attendu,
                ecart_gamma: ecart,
                part_courtes: courtes,
            },
        ),
    )
}

fn comparables(s: &[Flottant], spot: Flottant) -> (b: bool)
    ensures
        b == distances_definies(s@, spot),
{
    if s.len() <= 1 {
        return true;
    }
    let mut i: usize = 0;
    while i < s.len()
        invariant
            i <= s@.len(),
            s@.len() > 1,
            forall|j: int| 0 <= j < i ==> !distance(#[trigger] s@[j], spot).nan(),
        decreases s@.len() - i,
    {
        if s[i].moins(spot).abs().est_nan() {
            assert(distance(s@[i as int], spot).nan());
            return false;
        }
        i += 1;
    }
    true
}

/// Chaîne d'options brute -> tous les chiffres de la séance.
///
/// Les croisements du profil doivent se comparer au spot ;
/// [`analyser_si_defini`] le vérifie.
pub fn analyser<L: Fn(Flottant) -> Flottant, E: Fn(Flottant) -> Flottant>(
    chaine: &Chaine,
    params: &Parametres,
    ln: &L,
    exp: &E,
) -> (r: Result<Analyse, ChaineInvalide>)
    requires
        chaine.valide(),
        echeances_usuelles(chaine.vue()),
        est_fonction(*ln),
        est_fonction(*exp),
        distances_definies(
            croisements_analyses(courbe(*ln), courbe(*exp), *chaine, *params),
            chaine.spot,
        ),
    ensures
        ({
            let vives = lignes_vives(
                chaine.vue(),
                chaine.releve,
                params.dte_max,
                params.dte_min,
            );
            match r {
                Err(e) => e == ChaineInvalide::Vide && vives.len() == 0,
                Ok(a) => vives.len() > 0 && analyse_juste(
                    a,
                    courbe(*ln),
                    courbe(*exp),
                    *chaine,
                    *params,
                ),
            }
        }),
{
    match analyser_si_defini(chaine, params, ln, exp) {
        Some(r) => r,
        None => Err(ChaineInvalide::Vide),
    }
}

/// Le profil restreint aux échéances autres que la plus proche, ou que la plus
/// proche mensuelle.
///
/// Sert à voir ce que la séance donnerait sans elle. Rien quand elle n'existe pas,
/// ou qu'il ne reste rien.
pub fn profil_hors_prochaine<L: Fn(Flottant) -> Flottant, E: Fn(Flottant) -> Flottant>(
    analyse: &Analyse,
    params: &Parametres,
    mensuelle: bool,
    ln: &L,
    exp: &E,
) -> (r: Option<Vec<Flottant>>)
    requires
        est_fonction(*ln),
        est_fonction(*exp),
    ensures
        match echeance_cible(analyse.lignes@, mensuelle) {
            None => r is None,
            Some(e) => {
                let reste = de_l_echeance(analyse.lignes@, e, false);
                if reste.len() == 0 {
                    r is None
                } else {
                    r is Some && r->Some_0@ == profil_de(
                        courbe(*ln),
                        courbe(*exp),
                        reste,
                        analyse.niveaux@,
                        analyse.spot,
                        *params,
                    )
                }
            },
        },
        forall|e: EcheanceNy|
            !mensuelle && #[trigger] est_la_plus_proche(analyse.lignes@, e) ==> {
                let autres = analyse.lignes@.filter(|l: LigneExposee| l.ligne.echeance != e);
                match r {
                    None => autres.len() == 0,
                    Some(v) => autres.len() > 0 && v@ == profil_de(
                        courbe(*ln),
                        courbe(*exp),
                        autres,
                        analyse.niveaux@,
                        analyse.spot,
                        *params,
                    ),
                }
            },
{
    proof {
        assert forall|e: EcheanceNy| #[trigger]
            est_la_plus_proche(analyse.lignes@, e) implies echeance_cible(analyse.lignes@, false)
            == Some(e) && de_l_echeance(analyse.lignes@, e, false) == analyse.lignes@.filter(
            |l: LigneExposee| l.ligne.echeance != e,
        ) by {
            lemme_cible(analyse.lignes@, e);
            extraire_partage_les_lignes(analyse.lignes@, e);
        }
    }
    let cible: EcheanceNy = match cibler(analyse.lignes.as_slice(), mensuelle) {
        None => {
            return None;
        },
        Some(e) => e,
    };
    let reste: Vec<LigneExposee> = extraire(analyse.lignes.as_slice(), cible, false);
    if reste.len() == 0 {
        return None;
    }
    Some(
        profil_gamma(
            reste.as_slice(),
            analyse.niveaux.as_slice(),
            analyse.spot,
            params,
            ln,
            exp,
        ),
    )
}

} // verus!
