//! Les deux séries qu'un écran de séance demande : les barres et les niveaux.
//!
//! Deux fichiers, parce que ce sont deux durées de vie : les barres viennent du future
//! et existent sans option, les niveaux viennent de la chaîne. Les deux partagent le
//! même axe de temps, un point par minute, en UTC.

use super::lot::{Colonne, Lot, Valeurs};
#[allow(unused_imports)]
use super::lot::{au_calendrier, lemme_rang_unique, ou_zero};
use super::chemins::chemin_de;
#[allow(unused_imports)]
use super::chemins::chemin_produit;
use super::releve::ErreurReleve;
use crate::calendrier::{ecrire_instant, Instant, CALENDRIER_DEBUT, JOURNEE, MINUTE};
#[allow(unused_imports)]
use crate::calendrier::instant_ecrit;
use crate::coeur::temps::debut_de_seance;
#[allow(unused_imports)]
use crate::coeur::temps::{seance_de, seance_usuelle};
use crate::fixe::{fixe, fixe_avec_signe};
#[allow(unused_imports)]
use crate::fixe::{fixe_de, fixe_signe};
use crate::flottant::Flottant;
use crate::texte::{ajouter, ajouter_texte, caracteres, en_texte, lire_i64, majuscules, rogner, tranche};
#[allow(unused_imports)]
use crate::texte::{entier_borne, majuscule, majuscules_de, rogne};
use crate::tri::trier;
#[allow(unused_imports)]
use crate::tri::{le_tri_range_sans_rien_perdre, ordonnee, ordre_faible, triee};
use vstd::prelude::*;

verus! {

/// Jours de série conservés par défaut.
pub const RETENTION_JOURS: i64 = 30;

/// Une barre de prix.
#[derive(Clone, Copy, Debug, PartialEq, Eq, Structural)]
pub struct Barre {
    /// Début de la barre, en UTC.
    pub instant: Instant,
    /// Prix d'ouverture.
    pub open: Flottant,
    /// Plus haut.
    pub high: Flottant,
    /// Plus bas.
    pub low: Flottant,
    /// Clôture.
    pub close: Flottant,
    /// Volume échangé.
    pub volume: Flottant,
}

/// Un point de la série des niveaux.
///
/// Ce qui peut manquer est vide et non nul : zéro est un prix, et un book à zéro se
/// lirait comme neutre.
#[derive(Clone, Copy, Debug, PartialEq, Eq, Structural)]
pub struct PointNiveaux {
    /// L'instant du calcul, en UTC.
    pub instant: Instant,
    /// Le prix au moment du calcul.
    pub spot: Flottant,
    /// Le niveau où le gamma change de signe.
    pub zero_gamma: Option<Flottant>,
    /// GEX total.
    pub gex: Flottant,
    /// Charm total.
    pub charm: Flottant,
    /// Vanna totale.
    pub vanna: Flottant,
    /// Mur call en gamma.
    pub call_wall: Option<Flottant>,
    /// Mur put en gamma.
    pub put_wall: Option<Flottant>,
    /// Mur call en intérêt ouvert brut.
    pub call_wall_oi: Option<Flottant>,
    /// Mur put en intérêt ouvert brut.
    pub put_wall_oi: Option<Flottant>,
    /// La volatilité implicite à la monnaie, sur l'échéance la plus proche.
    pub iv_atm: Option<Flottant>,
    /// La pente du smile sur cette même échéance.
    pub skew: Option<Flottant>,
    /// Le strike où les options de la plus proche échéance valent le moins au règlement.
    pub max_pain: Option<Flottant>,
    /// Delta dollar du book.
    pub delta: Option<Flottant>,
    /// Vega dollar du book, par point de volatilité.
    pub vega: Option<Flottant>,
    /// Thêta dollar du book, par jour.
    pub theta: Option<Flottant>,
    /// L'horizon d'échéance sous lequel ce point a été calculé, en jours.
    pub dte_max: Option<Flottant>,
    /// Mur call par le volume du jour.
    pub call_wall_vol: Option<Flottant>,
    /// Mur put par le volume du jour.
    pub put_wall_vol: Option<Flottant>,
    /// Le strike au GEX net le plus positif.
    pub long_gamma: Option<Flottant>,
    /// Le strike au GEX net le plus négatif.
    pub short_gamma: Option<Flottant>,
}

/// L'écart toléré entre le prix servi par la source et le dernier prix traité : un
/// demi pour cent.
#[verifier::allow_in_spec]
pub fn ecart_tolere() -> (f: Flottant)
    returns
        Flottant::fraction(5, 1000),
{
    Flottant::fraction(5, 1000)
}

/// Ce qu'on sait d'un prix qui a cessé de suivre.
#[derive(Clone, Copy, Debug, PartialEq, Eq, Structural)]
pub struct Perime {
    /// Le prix servi par la source, celui dont on doute.
    pub spot: Flottant,
    /// La clôture de la dernière barre.
    pub dernier_traite: Flottant,
    /// L'instant de cette barre, en UTC.
    pub instant_traite: Instant,
    /// L'écart, en fraction du prix servi.
    pub fraction: Flottant,
}

/// Ce qu'une confrontation au dernier prix traité dit.
pub open spec fn peremption(spot: Flottant, barres: Seq<Barre>) -> Option<Perime> {
    if barres.len() == 0 {
        None
    } else {
        let b = barres.last();
        let fraction = spot.moins(b.close).abs().par(spot);
        if spot.inferieur_ou_egal(Flottant::nul()) || b.close.inferieur_ou_egal(Flottant::nul()) {
            None
        } else if ecart_tolere().inferieur(fraction) {
            Some(Perime { spot, dernier_traite: b.close, instant_traite: b.instant, fraction })
        } else {
            None
        }
    }
}

/// Le prix servi est-il encore crédible face au dernier prix traité ?
///
/// Rien quand tout va bien, ou quand il n'y a rien à comparer.
pub fn spot_perime(spot: Flottant, barres: &[Barre]) -> (r: Option<Perime>)
    ensures
        r == peremption(spot, barres@),
{
    if barres.len() == 0 {
        return None;
    }
    let b: Barre = barres[barres.len() - 1];
    if spot.infeg(Flottant::nul()) || b.close.infeg(Flottant::nul()) {
        return None;
    }
    let fraction: Flottant = spot.moins(b.close).abs().par(spot);
    if ecart_tolere().inf(fraction) {
        Some(Perime { spot, dernier_traite: b.close, instant_traite: b.instant, fraction })
    } else {
        None
    }
}

/// La phrase d'un prix périmé, l'heure déjà écrite.
pub open spec fn phrase_de(p: Perime, heure: Seq<char>) -> Seq<char> {
    "Le prix servi par la source ("@ + fixe_de(p.spot, 2) + ") s'écarte de "@ + fixe_signe(
        p.dernier_traite.moins(p.spot),
        0,
    ) + " points du dernier prix traité ("@ + fixe_de(p.dernier_traite, 2) + " à "@ + heure
        + "). C'est "@ + fixe_de(p.fraction.fois(Flottant::entier(100)), 1)
        + " % — au-delà du demi pour cent toléré. Les ticks d'option ne se rafraîchissent probablement plus : niveaux, zéro gamma et murs sont calculés contre un prix qui n'existe plus."@
}

impl Perime {
    /// L'écart en points du sous-jacent.
    pub fn points(&self) -> (f: Flottant)
        ensures
            f == self.dernier_traite.moins(self.spot),
    {
        self.dernier_traite.moins(self.spot)
    }

    /// La phrase, l'heure de la dernière barre étant déjà écrite.
    pub fn phrase_a(&self, heure: &str) -> (s: String)
        ensures
            s@ == phrase_de(*self, heure@),
    {
        let mut v: Vec<char> = caracteres("Le prix servi par la source (");
        ajouter(&mut v, fixe(self.spot, 2).as_slice());
        ajouter_texte(&mut v, ") s'écarte de ");
        ajouter(&mut v, fixe_avec_signe(self.points(), 0).as_slice());
        ajouter_texte(&mut v, " points du dernier prix traité (");
        ajouter(&mut v, fixe(self.dernier_traite, 2).as_slice());
        ajouter_texte(&mut v, " à ");
        ajouter_texte(&mut v, heure);
        ajouter_texte(&mut v, "). C'est ");
        ajouter(&mut v, fixe(self.fraction.fois(Flottant::entier(100)), 1).as_slice());
        ajouter_texte(
            &mut v,
            " % — au-delà du demi pour cent toléré. Les ticks d'option ne se rafraîchissent probablement plus : niveaux, zéro gamma et murs sont calculés contre un prix qui n'existe plus.",
        );
        en_texte(v.as_slice())
    }

    /// Ce qu'on en dit, en une phrase, à qui lit le journal ou l'écran.
    pub fn phrase(&self) -> (s: String)
        requires
            au_calendrier(self.instant_traite.micros as int),
        ensures
            s@ == phrase_de(*self, instant_ecrit(self.instant_traite.micros as int, "%H:%M UTC"@)),
    {
        self.phrase_a(ecrire_instant(self.instant_traite, "%H:%M UTC").as_str())
    }
}

/// La minute d'un instant.
pub open spec fn minute_de(i: Instant) -> int {
    i.micros as int / MINUTE as int
}

/// La minute a-t-elle changé depuis le dernier point écrit ?
///
/// On compare la minute elle-même : comparer des durées écoulées dériverait.
pub fn faut_il_ecrire_un_point(dernier: Option<Instant>, maintenant: Instant) -> (b: bool)
    ensures
        b == match dernier {
            None => true,
            Some(avant) => minute_de(avant) != minute_de(maintenant),
        },
{
    match dernier {
        None => true,
        Some(avant) => rang_minute(avant) != rang_minute(maintenant),
    }
}

fn rang_minute(i: Instant) -> (r: i64)
    ensures
        r == minute_de(i),
{
    let q: i64 = i.micros / MINUTE;
    if i.micros % MINUTE < 0 {
        q - 1
    } else {
        q
    }
}

/// L'instant ramené au début de sa minute.
pub fn a_la_minute(instant: Instant) -> (r: Instant)
    requires
        instant.micros >= CALENDRIER_DEBUT,
    ensures
        r.micros == minute_de(instant) * MINUTE,
{
    Instant { micros: rang_minute(instant) * MINUTE }
}

/// Ramener à la minute garde la minute, et ne change plus rien ensuite.
pub proof fn la_minute_se_garde(i: Instant, r: Instant)
    requires
        r.micros == minute_de(i) * MINUTE,
    ensures
        minute_de(r) == minute_de(i),
        minute_de(r) * MINUTE == r.micros,
        r.micros <= i.micros < r.micros + MINUTE,
{
}

/// Les jours que l'on garde, jamais négatifs.
pub open spec fn jours_gardes(jours: i64) -> int {
    if jours < 0 {
        0
    } else {
        jours as int
    }
}

/// L'instant à partir duquel on garde, en jours glissants.
pub fn borne_de_retention(maintenant: Instant, jours: i64) -> (r: Instant)
    requires
        maintenant.micros - jours_gardes(jours) * JOURNEE >= CALENDRIER_DEBUT,
    ensures
        r.micros == maintenant.micros - jours_gardes(jours) * JOURNEE,
        r.micros <= maintenant.micros,
        jours >= 0 ==> maintenant.micros - r.micros == jours * 86_400_000_000,
{
    let j: i64 = if jours < 0 {
        0
    } else {
        jours
    };
    let recul: i128 = j as i128 * JOURNEE as i128;
    Instant { micros: (maintenant.micros as i128 - recul) as i64 }
}

/// Le pas de temps d'un chandelier.
#[derive(Clone, Copy, Debug, PartialEq, Eq, Structural)]
pub enum Pas {
    /// Un multiple de la minute.
    Minutes(i64),
    /// Une séance entière, bornée à 17 h à New York.
    Seance,
}

/// Le pas qu'écrit un texte sans blancs de bord.
pub open spec fn pas_lu(t: Seq<char>) -> Option<Pas> {
    if majuscules_de(t) == "1J"@ || majuscules_de(t) == "1D"@ {
        Some(Pas::Seance)
    } else if t.len() == 0 {
        None
    } else {
        match entier_borne(t.drop_last(), i64::MIN as int, i64::MAX as int) {
            None => None,
            Some(n) => if n <= 0 {
                None
            } else if majuscule(t.last()) == 'M' {
                Some(Pas::Minutes(n as i64))
            } else if majuscule(t.last()) == 'H' {
                Some(Pas::Minutes((n * 60) as i64))
            } else {
                None
            },
        }
    }
}

/// Les heures d'un texte de pas, s'il en dit, tiennent en minutes.
pub open spec fn heures_tenables(t: Seq<char>) -> bool {
    t.len() > 0 && majuscule(t.last()) == 'H' ==> match entier_borne(
        t.drop_last(),
        i64::MIN as int,
        i64::MAX as int,
    ) {
        Some(n) => n * 60 <= i64::MAX,
        None => true,
    }
}

impl Pas {
    /// Le pas écrit comme l'écran l'envoie : `1m`, `15m`, `4h`, `1J`.
    ///
    /// Un texte inconnu ne rend pas la minute par défaut : une faute de frappe ne doit
    /// pas passer pour un choix.
    pub fn depuis(texte: &str) -> (r: Option<Pas>)
        requires
            heures_tenables(rogne(texte@)),
        ensures
            r == pas_lu(rogne(texte@)),
    {
        let brut: Vec<char> = caracteres(texte);
        let t: Vec<char> = rogner(brut.as_slice());
        let haut: Vec<char> = majuscules(t.as_slice());
        let j: Vec<char> = caracteres("1J");
        let d: Vec<char> = caracteres("1D");
        if crate::texte::memes_caracteres(haut.as_slice(), j.as_slice())
            || crate::texte::memes_caracteres(haut.as_slice(), d.as_slice()) {
            return Some(Pas::Seance);
        }
        let k: usize = t.len();
        if k == 0 {
            return None;
        }
        let nombre: Vec<char> = tranche(t.as_slice(), 0, k - 1);
        assert(nombre@ =~= t@.drop_last());
        assert(haut@[k - 1] == majuscule(t@.last()));
        match lire_i64(nombre.as_slice()) {
            None => None,
            Some(n) => {
                if n <= 0 {
                    None
                } else if haut[k - 1] == 'M' {
                    Some(Pas::Minutes(n))
                } else if haut[k - 1] == 'H' {
                    Some(Pas::Minutes(n * 60))
                } else {
                    None
                }
            },
        }
    }

    /// Les heures de ce texte, s'il en dit, tiennent-elles en minutes ?
    pub fn tenable(texte: &str) -> (b: bool)
        ensures
            b == heures_tenables(rogne(texte@)),
    {
        let brut: Vec<char> = caracteres(texte);
        let t: Vec<char> = rogner(brut.as_slice());
        let k: usize = t.len();
        if k == 0 {
            return true;
        }
        let haut: Vec<char> = majuscules(t.as_slice());
        let nombre: Vec<char> = tranche(t.as_slice(), 0, k - 1);
        assert(nombre@ =~= t@.drop_last());
        assert(haut@[k - 1] == majuscule(t@.last()));
        if haut[k - 1] == 'H' {
            match lire_i64(nombre.as_slice()) {
                Some(n) => n <= i64::MAX / 60,
                None => true,
            }
        } else {
            true
        }
    }

    /// Le nombre de minutes, au moins une.
    pub open spec fn minutes(self) -> int {
        match self {
            Pas::Minutes(n) => if n < 1 {
                1
            } else {
                n as int
            },
            Pas::Seance => 1440,
        }
    }

    /// Sa durée en secondes. Une séance vaut vingt-quatre heures : c'est le pas entre
    /// deux ouvertures, pas la durée cotée.
    pub fn secondes(self) -> (s: i64)
        requires
            self.minutes() * 60 <= i64::MAX,
        ensures
            s == self.minutes() * 60,
    {
        match self {
            Pas::Minutes(n) => if n < 1 {
                60
            } else {
                n * 60
            },
            Pas::Seance => 86_400,
        }
    }
}

/// Le début du seau d'un instant dans la séance qui commence à `debut`.
pub open spec fn seau_depuis(debut: int, instant: int, pas: Pas) -> int {
    match pas {
        Pas::Seance => debut,
        Pas::Minutes(_) => {
            let ecoule = (instant - debut) / MINUTE as int;
            debut + (ecoule - ecoule % pas.minutes()) * MINUTE
        },
    }
}

/// Un instant est dans son seau : après son début, et à moins d'un pas de lui.
pub proof fn un_instant_est_dans_son_seau(debut: int, instant: int, pas: Pas)
    requires
        debut <= instant,
    ensures
        debut <= seau_depuis(debut, instant, pas) <= instant,
        pas is Minutes ==> instant < seau_depuis(debut, instant, pas) + pas.minutes() * MINUTE,
        pas is Minutes ==> (seau_depuis(debut, instant, pas) - debut) % MINUTE as int == 0,
{
    if pas is Minutes {
        let e = (instant - debut) / MINUTE as int;
        let n = pas.minutes();
        vstd::arithmetic::div_mod::lemma_mod_pos_bound(e, n);
        vstd::arithmetic::div_mod::lemma_mod_decreases(e as nat, n as nat);
        let k = e - e % n;
        assert((k * MINUTE) % (MINUTE as int) == 0) by {
            vstd::arithmetic::div_mod::lemma_mod_multiples_basic(k, MINUTE as int);
        }
    }
}

/// Le début du seau dans une séance.
pub fn seau_de_seance(debut: Instant, instant: Instant, pas: Pas) -> (r: Instant)
    requires
        debut.micros <= instant.micros,
    ensures
        r.micros == seau_depuis(debut.micros as int, instant.micros as int, pas),
        debut.micros <= r.micros <= instant.micros,
{
    proof {
        un_instant_est_dans_son_seau(debut.micros as int, instant.micros as int, pas);
    }
    match pas {
        Pas::Seance => debut,
        Pas::Minutes(n) => {
            let n: i128 = if n < 1 {
                1
            } else {
                n as i128
            };
            let ecoule: i128 = (instant.micros as i128 - debut.micros as i128) / MINUTE as i128;
            let plein: i128 = ecoule - ecoule % n;
            proof {
                vstd::arithmetic::div_mod::lemma_mod_pos_bound(ecoule as int, n as int);
                vstd::arithmetic::div_mod::lemma_mod_decreases(ecoule as nat, n as nat);
            }
            Instant { micros: (debut.micros as i128 + plein * MINUTE as i128) as i64 }
        },
    }
}

/// Le seau d'un instant, aligné sur sa séance.
pub open spec fn seau_de(instant: Instant, pas: Pas) -> int {
    seau_depuis(seance_de(instant.micros as int), instant.micros as int, pas)
}

/// Le début du seau qui contient cet instant.
///
/// Aligné sur la séance, pas sur l'époque : découper depuis minuit UTC ferait tomber
/// les frontières en plein après-midi américain. Et calculé sur le temps, jamais sur le
/// rang de la barre : il manque des minutes dès que le marché ne traite pas.
pub fn seau(instant: Instant, pas: Pas) -> (r: Instant)
    requires
        seance_usuelle(instant.micros as int),
    ensures
        r.micros == seau_de(instant, pas),
        r.micros <= instant.micros,
{
    seau_de_seance(debut_de_seance(instant), instant, pas)
}

/// Une barre datée du début de son seau.
pub open spec fn datee(b: Barre, pas: Pas) -> Barre {
    Barre { instant: Instant { micros: seau_de(b.instant, pas) as i64 }, ..b }
}

/// Un chandelier auquel s'ajoute une barre : extrêmes des extrêmes, clôture de la
/// dernière, volumes additionnés.
pub open spec fn prolongee(a: Barre, b: Barre) -> Barre {
    Barre {
        instant: a.instant,
        open: a.open,
        high: a.high.max(b.high),
        low: a.low.min(b.low),
        close: b.close,
        volume: a.volume.plus(b.volume),
    }
}

/// Les chandeliers d'une suite de barres.
pub open spec fn chandeliers(s: Seq<Barre>, pas: Pas) -> Seq<Barre>
    decreases s.len(),
{
    if s.len() == 0 {
        s
    } else {
        let avant = chandeliers(s.drop_last(), pas);
        let b = datee(s.last(), pas);
        if avant.len() > 0 && avant.last().instant == b.instant {
            avant.drop_last().push(prolongee(avant.last(), s.last()))
        } else {
            avant.push(b)
        }
    }
}

/// Les séances de tous les instants restent au calendrier.
pub open spec fn barres_usuelles(s: Seq<Barre>) -> bool {
    forall|i: int| 0 <= i < s.len() ==> seance_usuelle((#[trigger] s[i]).instant.micros as int)
}

pub open spec fn points_usuels(s: Seq<PointNiveaux>) -> bool {
    forall|i: int| 0 <= i < s.len() ==> seance_usuelle((#[trigger] s[i]).instant.micros as int)
}

/// Regroupe des barres d'une minute en chandeliers plus longs.
///
/// Les barres doivent être triées, ce dont [`recoller`] se charge.
pub fn agreger_barres(barres: &[Barre], pas: Pas) -> (r: Vec<Barre>)
    requires
        barres_usuelles(barres@),
    ensures
        r@ == chandeliers(barres@, pas),
{
    let mut r: Vec<Barre> = Vec::new();
    let mut i: usize = 0;
    while i < barres.len()
        invariant
            i <= barres@.len(),
            barres_usuelles(barres@),
            r@ == chandeliers(barres@.take(i as int), pas),
        decreases barres@.len() - i,
    {
        let b: Barre = barres[i];
        proof {
            assert(barres@.take(i + 1).drop_last() =~= barres@.take(i as int));
            assert(barres@.take(i + 1).last() == b);
            assert(seance_usuelle(barres@[i as int].instant.micros as int));
        }
        let debut: Instant = seau(b.instant, pas);
        let n: usize = r.len();
        if n > 0 && r[n - 1].instant == debut {
            let a: Barre = r[n - 1];
            r.pop();
            r.push(
                Barre {
                    instant: a.instant,
                    open: a.open,
                    high: a.high.max(b.high),
                    low: a.low.min(b.low),
                    close: b.close,
                    volume: a.volume.plus(b.volume),
                },
            );
        } else {
            r.push(
                Barre {
                    instant: debut,
                    open: b.open,
                    high: b.high,
                    low: b.low,
                    close: b.close,
                    volume: b.volume,
                },
            );
        }
        i += 1;
    }
    assert(barres@.take(barres@.len() as int) =~= barres@);
    r
}

/// Un point daté du début de son seau.
pub open spec fn point_date(p: PointNiveaux, pas: Pas) -> PointNiveaux {
    PointNiveaux { instant: Instant { micros: seau_de(p.instant, pas) as i64 }, ..p }
}

/// Les points d'une suite, un par seau : le dernier du seau l'emporte.
pub open spec fn points_par_seau(s: Seq<PointNiveaux>, pas: Pas) -> Seq<PointNiveaux>
    decreases s.len(),
{
    if s.len() == 0 {
        s
    } else {
        let avant = points_par_seau(s.drop_last(), pas);
        let p = point_date(s.last(), pas);
        if avant.len() > 0 && avant.last().instant == p.instant {
            avant.drop_last().push(p)
        } else {
            avant.push(p)
        }
    }
}

/// Regroupe des points de niveaux au même pas que les chandeliers.
///
/// Le dernier point du seau l'emporte, et non une moyenne : un zero gamma moyen n'est
/// le zero gamma d'aucun instant.
pub fn agreger_niveaux(points: &[PointNiveaux], pas: Pas) -> (r: Vec<PointNiveaux>)
    requires
        points_usuels(points@),
    ensures
        r@ == points_par_seau(points@, pas),
{
    let mut r: Vec<PointNiveaux> = Vec::new();
    let mut i: usize = 0;
    while i < points.len()
        invariant
            i <= points@.len(),
            points_usuels(points@),
            r@ == points_par_seau(points@.take(i as int), pas),
        decreases points@.len() - i,
    {
        let mut p: PointNiveaux = points[i];
        proof {
            assert(points@.take(i + 1).drop_last() =~= points@.take(i as int));
            assert(points@.take(i + 1).last() == p);
            assert(seance_usuelle(points@[i as int].instant.micros as int));
        }
        p.instant = seau(p.instant, pas);
        let n: usize = r.len();
        if n > 0 && r[n - 1].instant == p.instant {
            r.pop();
        }
        r.push(p);
        i += 1;
    }
    assert(points@.take(points@.len() as int) =~= points@);
    r
}

/// Un instant sur une minute pleine de sa séance.
pub open spec fn sur_la_minute(i: Instant) -> bool {
    (i.micros - seance_de(i.micros as int)) % MINUTE as int == 0
}

proof fn lemme_seau_d_une_minute(i: Instant)
    requires
        sur_la_minute(i),
    ensures
        seau_de(i, Pas::Minutes(1)) == i.micros,
{
    let e = i.micros - seance_de(i.micros as int);
    vstd::arithmetic::div_mod::lemma_fundamental_div_mod(e, MINUTE as int);
    assert((e / MINUTE as int) % 1 == 0);
}

/// À la minute, l'agrégation ne change rien : une série de barres sur la minute, dont
/// aucune n'a l'instant de la précédente, se rend telle quelle.
pub proof fn la_minute_rend_les_barres_intactes(s: Seq<Barre>)
    requires
        forall|i: int| 0 <= i < s.len() ==> sur_la_minute((#[trigger] s[i]).instant),
        forall|i: int| 0 < i < s.len() ==> (#[trigger] s[i]).instant != s[i - 1].instant,
    ensures
        chandeliers(s, Pas::Minutes(1)) == s,
    decreases s.len(),
{
    if s.len() > 0 {
        let u = s.drop_last();
        assert forall|i: int| 0 <= i < u.len() implies sur_la_minute((#[trigger] u[i]).instant) by {
            assert(u[i] == s[i]);
        }
        assert forall|i: int| 0 < i < u.len() implies (#[trigger] u[i]).instant != u[i
            - 1].instant by {
            assert(u[i] == s[i]);
        }
        la_minute_rend_les_barres_intactes(u);
        let d = s[s.len() - 1];
        lemme_seau_d_une_minute(d.instant);
        assert(datee(d, Pas::Minutes(1)) == d);
        assert(u.push(d) =~= s);
    }
}

/// Il en va de même des niveaux.
pub proof fn la_minute_rend_les_niveaux_intacts(s: Seq<PointNiveaux>)
    requires
        forall|i: int| 0 <= i < s.len() ==> sur_la_minute((#[trigger] s[i]).instant),
        forall|i: int| 0 < i < s.len() ==> (#[trigger] s[i]).instant != s[i - 1].instant,
    ensures
        points_par_seau(s, Pas::Minutes(1)) == s,
    decreases s.len(),
{
    if s.len() > 0 {
        let u = s.drop_last();
        assert forall|i: int| 0 <= i < u.len() implies sur_la_minute((#[trigger] u[i]).instant) by {
            assert(u[i] == s[i]);
        }
        assert forall|i: int| 0 < i < u.len() implies (#[trigger] u[i]).instant != u[i
            - 1].instant by {
            assert(u[i] == s[i]);
        }
        la_minute_rend_les_niveaux_intacts(u);
        let d = s[s.len() - 1];
        lemme_seau_d_une_minute(d.instant);
        assert(point_date(d, Pas::Minutes(1)) == d);
        assert(u.push(d) =~= s);
    }
}

/// Agrégées au même pas, une barre et un point du même instant tombent au même endroit :
/// deux séries aux mêmes instants en ont encore les mêmes.
pub proof fn les_deux_series_partagent_leur_axe(b: Seq<Barre>, p: Seq<PointNiveaux>, pas: Pas)
    requires
        b.len() == p.len(),
        forall|i: int| 0 <= i < b.len() ==> (#[trigger] b[i]).instant == p[i].instant,
    ensures
        chandeliers(b, pas).len() == points_par_seau(p, pas).len(),
        forall|i: int|
            0 <= i < chandeliers(b, pas).len() ==> (#[trigger] chandeliers(b, pas)[i]).instant
                == points_par_seau(p, pas)[i].instant,
    decreases b.len(),
{
    if b.len() > 0 {
        assert forall|i: int| 0 <= i < b.drop_last().len() implies (#[trigger] b.drop_last()[i]).instant
            == p.drop_last()[i].instant by {
            assert(b[i].instant == p[i].instant);
        }
        les_deux_series_partagent_leur_axe(b.drop_last(), p.drop_last(), pas);
        assert(b[b.len() - 1].instant == p[p.len() - 1].instant);
        let (cb, cp) = (chandeliers(b.drop_last(), pas), points_par_seau(p.drop_last(), pas));
        if cb.len() > 0 {
            assert(cb[cb.len() - 1].instant == cp[cp.len() - 1].instant);
        }
    }
}

/// Le rang de la première barre à cet instant.
pub open spec fn rang_instant(s: Seq<Barre>, t: Instant) -> Option<int>
    decreases s.len(),
{
    if s.len() == 0 {
        None
    } else {
        match rang_instant(s.drop_last(), t) {
            Some(i) => Some(i),
            None => if s.last().instant == t {
                Some(s.len() - 1)
            } else {
                None
            },
        }
    }
}

proof fn lemme_rang_instant(s: Seq<Barre>, t: Instant)
    ensures
        rang_instant(s, t) matches Some(i) ==> 0 <= i < s.len() && s[i].instant == t,
        rang_instant(s, t) is None ==> forall|i: int|
            0 <= i < s.len() ==> (#[trigger] s[i]).instant != t,
    decreases s.len(),
{
    if s.len() > 0 {
        lemme_rang_instant(s.drop_last(), t);
        if rang_instant(s, t) is None {
            assert forall|i: int| 0 <= i < s.len() implies (#[trigger] s[i]).instant != t by {
                if i < s.len() - 1 {
                    assert(s.drop_last()[i] == s[i]);
                }
            }
        }
    }
}

/// Une barre de plus : elle remplace celle de son instant, ou s'ajoute.
pub open spec fn avec_barre(s: Seq<Barre>, b: Barre) -> Seq<Barre> {
    match rang_instant(s, b.instant) {
        Some(i) => s.update(i, b),
        None => s.push(b),
    }
}

/// Des barres de plus, dans l'ordre où elles arrivent.
pub open spec fn avec_barres(s: Seq<Barre>, n: Seq<Barre>) -> Seq<Barre>
    decreases n.len(),
{
    if n.len() == 0 {
        s
    } else {
        avec_barre(avec_barres(s, n.drop_last()), n.last())
    }
}

/// L'ordre du temps.
pub open spec fn barre_avant(a: Barre, b: Barre) -> bool {
    a.instant.micros < b.instant.micros
}

fn barre_precede(a: Barre, b: Barre) -> (x: bool)
    ensures
        x == barre_avant(a, b),
{
    a.instant.micros < b.instant.micros
}

fn chercher_instant(v: &Vec<Barre>, t: Instant) -> (r: Option<usize>)
    ensures
        match r {
            Some(i) => rang_instant(v@, t) == Some(i as int) && i < v@.len(),
            None => rang_instant(v@, t) is None,
        },
{
    let mut r: Option<usize> = None;
    let mut i: usize = 0;
    assert(v@.take(0) =~= Seq::<Barre>::empty());
    while i < v.len()
        invariant
            i <= v@.len(),
            match r {
                Some(k) => rang_instant(v@.take(i as int), t) == Some(k as int) && k < i,
                None => rang_instant(v@.take(i as int), t) is None,
            },
        decreases v@.len() - i,
    {
        proof {
            assert(v@.take(i + 1).drop_last() =~= v@.take(i as int));
        }
        if r.is_none() && v[i].instant == t {
            r = Some(i);
        }
        i += 1;
    }
    assert(v@.take(v@.len() as int) =~= v@);
    r
}

/// Recolle des barres nouvelles sur des anciennes.
///
/// La dernière barre arrive plusieurs fois pendant qu'elle se forme : on écrase par
/// horodatage. Le résultat est trié, car l'ordre n'est pas garanti après une
/// reconnexion.
pub fn recoller(anciennes: &[Barre], nouvelles: &[Barre]) -> (r: Vec<Barre>)
    ensures
        r@ == triee(
            avec_barres(anciennes@, nouvelles@),
            |a: Barre, b: Barre| barre_avant(a, b),
        ),
{
    let mut toutes: Vec<Barre> = Vec::new();
    let mut i: usize = 0;
    while i < anciennes.len()
        invariant
            i <= anciennes@.len(),
            toutes@ =~= anciennes@.take(i as int),
        decreases anciennes@.len() - i,
    {
        toutes.push(anciennes[i]);
        i += 1;
    }
    assert(toutes@ =~= anciennes@);
    i = 0;
    assert(nouvelles@.take(0) =~= Seq::<Barre>::empty());
    while i < nouvelles.len()
        invariant
            i <= nouvelles@.len(),
            toutes@ == avec_barres(anciennes@, nouvelles@.take(i as int)),
        decreases nouvelles@.len() - i,
    {
        let b: Barre = nouvelles[i];
        proof {
            assert(nouvelles@.take(i + 1).drop_last() =~= nouvelles@.take(i as int));
            assert(nouvelles@.take(i + 1).last() == b);
        }
        match chercher_instant(&toutes, b.instant) {
            Some(k) => {
                toutes.set(k, b);
            },
            None => {
                toutes.push(b);
            },
        }
        i += 1;
    }
    assert(nouvelles@.take(nouvelles@.len() as int) =~= nouvelles@);
    trier(
        toutes.as_slice(),
        barre_precede,
        Ghost(|a: Barre, b: Barre| barre_avant(a, b)),
    )
}

/// Une seule barre par instant.
pub open spec fn instants_distincts(s: Seq<Barre>) -> bool {
    forall|i: int, j: int|
        0 <= i < j < s.len() ==> (#[trigger] s[i]).instant != (#[trigger] s[j]).instant
}

proof fn lemme_avec_barre(s: Seq<Barre>, b: Barre)
    ensures
        avec_barre(s, b).contains(b),
        instants_distincts(s) ==> instants_distincts(avec_barre(s, b)),
        forall|x: Barre| s.contains(x) && x.instant != b.instant ==> #[trigger] avec_barre(
            s,
            b,
        ).contains(x),
{
    let r = avec_barre(s, b);
    lemme_rang_instant(s, b.instant);
    match rang_instant(s, b.instant) {
        Some(i) => {
            assert(r[i] == b);
        },
        None => {
            assert(r[s.len() as int] == b);
        },
    }
    assert forall|x: Barre| s.contains(x) && x.instant != b.instant implies #[trigger] r.contains(
        x,
    ) by {
        let k = choose|k: int| 0 <= k < s.len() && s[k] == x;
        assert(r[k] == x);
    }
}

/// Une barre nouvelle que rien n'écrase ensuite est dans le résultat, ainsi qu'une
/// ancienne que rien n'écrase.
pub proof fn une_barre_nouvelle_ecrase_l_ancienne(a: Seq<Barre>, n: Seq<Barre>)
    ensures
        forall|i: int|
            0 <= i < n.len() && (forall|j: int|
                i < j < n.len() ==> (#[trigger] n[j]).instant != n[i].instant)
                ==> avec_barres(a, n).contains(#[trigger] n[i]),
        forall|x: Barre|
            a.contains(x) && (forall|j: int|
                0 <= j < n.len() ==> (#[trigger] n[j]).instant != x.instant)
                ==> #[trigger] avec_barres(a, n).contains(x),
        instants_distincts(a) ==> instants_distincts(avec_barres(a, n)),
    decreases n.len(),
{
    if n.len() > 0 {
        let m = n.drop_last();
        let s = avec_barres(a, m);
        une_barre_nouvelle_ecrase_l_ancienne(a, m);
        lemme_avec_barre(s, n.last());
        assert(n.last() == n[n.len() - 1]);
        assert forall|i: int|
            0 <= i < n.len() && (forall|j: int|
                i < j < n.len() ==> (#[trigger] n[j]).instant != n[i].instant) implies avec_barres(
            a,
            n,
        ).contains(#[trigger] n[i]) by {
            if i < m.len() {
                assert(m[i] == n[i]);
                assert forall|j: int| i < j < m.len() implies (#[trigger] m[j]).instant
                    != m[i].instant by {
                    assert(m[j] == n[j]);
                }
                assert(s.contains(m[i]));
                assert(n[n.len() - 1].instant != n[i].instant);
            }
        }
        assert forall|x: Barre|
            a.contains(x) && (forall|j: int|
                0 <= j < n.len() ==> (#[trigger] n[j]).instant
                    != x.instant) implies #[trigger] avec_barres(a, n).contains(x) by {
            assert forall|j: int| 0 <= j < m.len() implies (#[trigger] m[j]).instant
                != x.instant by {
                assert(m[j] == n[j]);
            }
            assert(s.contains(x));
            assert(n[n.len() - 1].instant != x.instant);
        }
    }
}

/// Ce que [`recoller`] rend est rangé dans le temps, et tient les mêmes barres que
/// l'écrasement.
pub proof fn le_recollage_est_range(a: Seq<Barre>, n: Seq<Barre>)
    ensures
        ({
            let avant = |x: Barre, y: Barre| barre_avant(x, y);
            let r = triee(avec_barres(a, n), avant);
            &&& ordonnee(r, avant)
            &&& r.to_multiset() == avec_barres(a, n).to_multiset()
        }),
{
    let avant = |x: Barre, y: Barre| barre_avant(x, y);
    assert(ordre_faible(avant));
    le_tri_range_sans_rien_perdre(avec_barres(a, n), avant);
}

/// Les barres à partir d'une borne, dans leur ordre.
pub open spec fn barres_apres(s: Seq<Barre>, borne: Instant) -> Seq<Barre>
    decreases s.len(),
{
    if s.len() == 0 {
        s
    } else if s.last().instant.micros >= borne.micros {
        barres_apres(s.drop_last(), borne).push(s.last())
    } else {
        barres_apres(s.drop_last(), borne)
    }
}

/// Ne garde que ce qui tombe après la borne.
pub fn elaguer_barres(barres: &[Barre], borne: Instant) -> (r: Vec<Barre>)
    ensures
        r@ == barres_apres(barres@, borne),
{
    let mut r: Vec<Barre> = Vec::new();
    let mut i: usize = 0;
    while i < barres.len()
        invariant
            i <= barres@.len(),
            r@ == barres_apres(barres@.take(i as int), borne),
        decreases barres@.len() - i,
    {
        let b: Barre = barres[i];
        proof {
            assert(barres@.take(i + 1).drop_last() =~= barres@.take(i as int));
            assert(barres@.take(i + 1).last() == b);
        }
        if b.instant.micros >= borne.micros {
            r.push(b);
        }
        i += 1;
    }
    assert(barres@.take(barres@.len() as int) =~= barres@);
    r
}

/// L'élagage garde exactement ce qui tombe à partir de la borne.
pub proof fn l_elagage_garde_ce_qui_suit_la_borne(s: Seq<Barre>, borne: Instant)
    ensures
        forall|x: Barre| #[trigger] barres_apres(s, borne).contains(x) <==> s.contains(x)
            && x.instant.micros >= borne.micros,
    decreases s.len(),
{
    if s.len() > 0 {
        let t = s.drop_last();
        l_elagage_garde_ce_qui_suit_la_borne(t, borne);
        assert(s == t.push(s.last()));
        assert forall|x: Barre| #[trigger] barres_apres(s, borne).contains(x) <==> s.contains(x)
            && x.instant.micros >= borne.micros by {
            crate::tri::lemme_push_contient(t, s.last(), x);
            crate::tri::lemme_push_contient(barres_apres(t, borne), s.last(), x);
            assert(barres_apres(t, borne).contains(x) <==> t.contains(x) && x.instant.micros
                >= borne.micros);
        }
    }
}

/// Les points à partir d'une borne, dans leur ordre.
pub open spec fn points_apres(s: Seq<PointNiveaux>, borne: Instant) -> Seq<PointNiveaux>
    decreases s.len(),
{
    if s.len() == 0 {
        s
    } else if s.last().instant.micros >= borne.micros {
        points_apres(s.drop_last(), borne).push(s.last())
    } else {
        points_apres(s.drop_last(), borne)
    }
}

/// L'élagage des points garde exactement ceux qui ne précèdent pas la borne.
pub proof fn l_elagage_garde_les_points_qui_suivent_la_borne(
    s: Seq<PointNiveaux>,
    borne: Instant,
)
    ensures
        forall|x: PointNiveaux| #[trigger] points_apres(s, borne).contains(x) <==> s.contains(x)
            && x.instant.micros >= borne.micros,
    decreases s.len(),
{
    if s.len() > 0 {
        let t = s.drop_last();
        l_elagage_garde_les_points_qui_suivent_la_borne(t, borne);
        assert(s == t.push(s.last()));
        assert forall|x: PointNiveaux| #[trigger]
            points_apres(s, borne).contains(x) <==> s.contains(x) && x.instant.micros
                >= borne.micros by {
            crate::tri::lemme_push_contient(t, s.last(), x);
            crate::tri::lemme_push_contient(points_apres(t, borne), s.last(), x);
            assert(points_apres(t, borne).contains(x) <==> t.contains(x) && x.instant.micros
                >= borne.micros);
        }
    }
}

/// Ne garde que ce qui tombe après la borne.
pub fn elaguer_niveaux(points: &[PointNiveaux], borne: Instant) -> (r: Vec<PointNiveaux>)
    ensures
        r@ == points_apres(points@, borne),
{
    let mut r: Vec<PointNiveaux> = Vec::new();
    let mut i: usize = 0;
    while i < points.len()
        invariant
            i <= points@.len(),
            r@ == points_apres(points@.take(i as int), borne),
        decreases points@.len() - i,
    {
        let p: PointNiveaux = points[i];
        proof {
            assert(points@.take(i + 1).drop_last() =~= points@.take(i as int));
            assert(points@.take(i + 1).last() == p);
        }
        if p.instant.micros >= borne.micros {
            r.push(p);
        }
        i += 1;
    }
    assert(points@.take(points@.len() as int) =~= points@);
    r
}

/// Le chemin de la série des barres.
pub fn chemin_barres(dossier: &str, produit: &str) -> (s: String)
    ensures
        s@ == chemin_produit(dossier@, produit@, "barres.parquet"@),
{
    chemin_de(dossier, produit, "barres.parquet")
}

/// Le chemin de la série des niveaux.
pub fn chemin_niveaux(dossier: &str, produit: &str) -> (s: String)
    ensures
        s@ == chemin_produit(dossier@, produit@, "niveaux.parquet"@),
{
    chemin_de(dossier, produit, "niveaux.parquet")
}

/// Les horodatages d'un lot de série.
pub open spec fn instants_du_lot(lot: Lot) -> Result<Seq<Instant>, ErreurReleve> {
    match lot.colonne("instant"@) {
        Some(Valeurs::Instants(v)) => if forall|i: int|
            0 <= i < v@.len() ==> au_calendrier(#[trigger] v@[i] as int) {
            Ok(Seq::new(v@.len(), |i: int| Instant { micros: v@[i] }))
        } else {
            Err(ErreurReleve::TypeInattendu("instant"))
        },
        _ => Err(ErreurReleve::ColonneAbsente("instant")),
    }
}

fn instants_de(lot: &Lot) -> (r: Result<Vec<Instant>, ErreurReleve>)
    requires
        lot.valide(),
    ensures
        match r {
            Ok(v) => instants_du_lot(*lot) == Ok::<Seq<Instant>, ErreurReleve>(v@) && v@.len()
                == lot.lignes,
            Err(e) => instants_du_lot(*lot) == Err::<Seq<Instant>, ErreurReleve>(e),
        },
{
    if !lot.porte_instants("instant") {
        return Err(ErreurReleve::ColonneAbsente("instant"));
    }
    lot.colonne_instants("instant")
}

/// La case d'une colonne de série, vide si la colonne manque.
pub open spec fn case_serie(lot: Lot, nom: Seq<char>, i: int) -> Option<Flottant> {
    match lot.colonne(nom) {
        Some(Valeurs::Nombres(v)) => v@[i],
        _ => None,
    }
}

fn cases_de(lot: &Lot, nom: &str) -> (r: Vec<Option<Flottant>>)
    requires
        lot.valide(),
    ensures
        r@ =~= Seq::new(lot.lignes as nat, |i: int| case_serie(*lot, nom@, i)),
{
    lot.cases(nom)
}

fn ou_zero_exec(x: Option<Flottant>) -> (f: Flottant)
    ensures
        f == ou_zero(x),
{
    match x {
        Some(f) => f,
        None => Flottant::nul(),
    }
}

/// Le nom de la colonne de rang `i` de la série des barres.
pub open spec fn nom_barre(i: int) -> Seq<char> {
    if i == 0 {
        "open"@
    } else if i == 1 {
        "high"@
    } else if i == 2 {
        "low"@
    } else if i == 3 {
        "close"@
    } else {
        "volume"@
    }
}

fn nom_de_barre(i: usize) -> (s: &'static str)
    requires
        i < 5,
    ensures
        s@ == nom_barre(i as int),
{
    match i {
        0 => "open",
        1 => "high",
        2 => "low",
        3 => "close",
        _ => "volume",
    }
}

/// La case de la barre dans la colonne de rang `i`.
pub open spec fn champ_barre(i: int, p: Barre) -> Option<Flottant> {
    if i == 0 {
        Some(p.open)
    } else if i == 1 {
        Some(p.high)
    } else if i == 2 {
        Some(p.low)
    } else if i == 3 {
        Some(p.close)
    } else {
        Some(p.volume)
    }
}

fn champ_de_barre(i: usize, p: &Barre) -> (f: Option<Flottant>)
    requires
        i < 5,
    ensures
        f == champ_barre(i as int, *p),
{
    match i {
        0 => Some(p.open),
        1 => Some(p.high),
        2 => Some(p.low),
        3 => Some(p.close),
        _ => Some(p.volume),
    }
}

/// Deux noms de colonne diffèrent par leur longueur ou par un caractère.
pub(crate) proof fn lemme_noms_barre(i: int, j: int)
    requires
        0 <= i < 5,
        0 <= j < 5,
    ensures
        i != j ==> nom_barre(i) != nom_barre(j),
        nom_barre(i) != "instant"@,
{
    reveal_strlit("open");
    reveal_strlit("high");
    reveal_strlit("low");
    reveal_strlit("close");
    reveal_strlit("volume");
    reveal_strlit("instant");
    assert("open"@[0] == 'o');
    assert("high"@[0] == 'h');
    assert("low"@[0] == 'l');
    assert("close"@[0] == 'c');
    assert("volume"@[0] == 'v');
    assert("instant"@[0] == 'i');
    let (a, b) = (nom_barre(i), nom_barre(j));
    assert(i != j ==> a.len() != b.len() || a[0] != b[0]);
    assert(a.len() != "instant"@.len() || a[0] != "instant"@[0]);
}

/// Le lot est celui de la série.
pub open spec fn est_lot_de_barres(lot: Lot, s: Seq<Barre>) -> bool {
    &&& lot.lignes == s.len()
    &&& lot.colonnes@.len() == 6
    &&& lot.colonnes@[0].nom@ == "instant"@
    &&& (lot.colonnes@[0].valeurs matches Valeurs::Instants(v) && v@ =~= Seq::new(
        s.len(),
        |j: int| s[j].instant.micros,
    ))
    &&& forall|i: int|
        0 <= i < 5 ==> (#[trigger] lot.colonnes@[i + 1]).nom@ == nom_barre(i)
            && colonne_de_barres(lot.colonnes@[i + 1].valeurs, i, s)
}

/// Les valeurs de la colonne de rang `i` sont celles de la série.
pub open spec fn colonne_de_barres(v: Valeurs, i: int, s: Seq<Barre>) -> bool {
    v matches Valeurs::Nombres(x) && x@ =~= Seq::new(s.len(), |j: int| champ_barre(i, s[j]))
}

/// Les colonnes de la série des barres. Une valeur absente laisse la case vide.
pub fn colonnes_barres(s: &[Barre]) -> (lot: Lot)
    ensures
        est_lot_de_barres(lot, s@),
        lot.valide(),
{
    let mut instants: Vec<i64> = Vec::new();
    let mut j: usize = 0;
    while j < s.len()
        invariant
            j <= s@.len(),
            instants@ =~= Seq::new(j as nat, |k: int| s@[k].instant.micros),
        decreases s@.len() - j,
    {
        instants.push(s[j].instant.micros);
        j += 1;
    }
    let mut colonnes: Vec<Colonne> = Vec::new();
    colonnes.push(Colonne { nom: "instant".to_owned(), valeurs: Valeurs::Instants(instants) });
    let mut i: usize = 0;
    while i < 5
        invariant
            i <= 5,
            colonnes@.len() == i + 1,
            colonnes@[0].nom@ == "instant"@,
            colonnes@[0].valeurs == Valeurs::Instants(instants),
            forall|k: int|
                0 <= k < i ==> (#[trigger] colonnes@[k + 1]).nom@ == nom_barre(k)
                    && colonne_de_barres(colonnes@[k + 1].valeurs, k, s@),
        decreases 5 - i,
    {
        let mut x: Vec<Option<Flottant>> = Vec::new();
        let mut j: usize = 0;
        while j < s.len()
            invariant
                i < 5,
                j <= s@.len(),
                x@ =~= Seq::new(j as nat, |k: int| champ_barre(i as int, s@[k])),
            decreases s@.len() - j,
        {
            x.push(champ_de_barre(i, &s[j]));
            j += 1;
        }
        let ghost avant = colonnes@;
        colonnes.push(Colonne { nom: nom_de_barre(i).to_owned(), valeurs: Valeurs::Nombres(x) });
        proof {
            assert forall|k: int| 0 <= k < i + 1 implies (#[trigger] colonnes@[k + 1]).nom@
                == nom_barre(k) && colonne_de_barres(colonnes@[k + 1].valeurs, k, s@) by {
                if k < i {
                    assert(colonnes@[k + 1] == avant[k + 1]);
                }
            }
        }
        i += 1;
    }
    let lot: Lot = Lot { lignes: s.len(), colonnes };
    proof {
        assert forall|k: int| 0 <= k < lot.colonnes@.len() implies (#[trigger] lot.colonnes@[k]).valeurs.de_taille(
            lot.lignes as nat,
        ) by {
            if k > 0 {
                let m = k - 1;
                assert(colonne_de_barres(lot.colonnes@[m + 1].valeurs, m, s@));
            }
        }
    }
    lot
}

/// La ligne de rang `i` d'un lot de la série.
pub open spec fn barre_du_lot(lot: Lot, quand: Instant, i: int) -> Barre {
    Barre {
        instant: quand,
        open: ou_zero(case_serie(lot, "open"@, i)),
        high: ou_zero(case_serie(lot, "high"@, i)),
        low: ou_zero(case_serie(lot, "low"@, i)),
        close: ou_zero(case_serie(lot, "close"@, i)),
        volume: ou_zero(case_serie(lot, "volume"@, i)),
    }
}

/// La série qu'un lot porte.
pub open spec fn barres_du_lot(lot: Lot) -> Result<Seq<Barre>, ErreurReleve> {
    match instants_du_lot(lot) {
        Err(e) => Err(e),
        Ok(t) => Ok(Seq::new(lot.lignes as nat, |i: int| barre_du_lot(lot, t[i], i))),
    }
}

/// La série que des lots portent, bout à bout.
pub open spec fn barres_lus(lots: Seq<Lot>) -> Result<Seq<Barre>, ErreurReleve>
    decreases lots.len(),
{
    if lots.len() == 0 {
        Ok(Seq::empty())
    } else {
        match barres_lus(lots.drop_last()) {
            Err(e) => Err(e),
            Ok(avant) => match barres_du_lot(lots.last()) {
                Err(e) => Err(e),
                Ok(suite) => Ok(avant + suite),
            },
        }
    }
}

proof fn lemme_erreur_barres(lots: Seq<Lot>, n: int)
    requires
        0 <= n <= lots.len(),
        barres_lus(lots.take(n)) is Err,
    ensures
        barres_lus(lots) == barres_lus(lots.take(n)),
    decreases lots.len(),
{
    if n < lots.len() {
        assert(lots.drop_last().take(n) =~= lots.take(n));
        lemme_erreur_barres(lots.drop_last(), n);
    } else {
        assert(lots.take(n) =~= lots);
    }
}

fn barres_de(lot: &Lot) -> (r: Result<Vec<Barre>, ErreurReleve>)
    requires
        lot.valide(),
    ensures
        match r {
            Ok(v) => barres_du_lot(*lot) == Ok::<Seq<Barre>, ErreurReleve>(v@),
            Err(e) => barres_du_lot(*lot) == Err::<Seq<Barre>, ErreurReleve>(e),
        },
{
    let t: Vec<Instant> = match instants_de(lot) {
        Ok(t) => t,
        Err(e) => {
            return Err(e);
        },
    };
    let mut c: Vec<Vec<Option<Flottant>>> = Vec::new();
    let mut k: usize = 0;
    while k < 5
        invariant
            k <= 5,
            lot.valide(),
            c@.len() == k,
            forall|m: int|
                0 <= m < k ==> (#[trigger] c@[m])@ =~= Seq::new(
                    lot.lignes as nat,
                    |i: int| case_serie(*lot, nom_barre(m), i),
                ),
        decreases 5 - k,
    {
        c.push(cases_de(lot, nom_de_barre(k)));
        k += 1;
    }
    let mut r: Vec<Barre> = Vec::new();
    let mut i: usize = 0;
    while i < lot.lignes
        invariant
            i <= lot.lignes,
            t@.len() == lot.lignes,
            c@.len() == 5,
            forall|m: int|
                0 <= m < 5 ==> (#[trigger] c@[m])@ =~= Seq::new(
                    lot.lignes as nat,
                    |i: int| case_serie(*lot, nom_barre(m), i),
                ),
            r@.len() == i,
            forall|j: int| 0 <= j < i ==> #[trigger] r@[j] == barre_du_lot(*lot, t@[j], j),
        decreases lot.lignes - i,
    {
        r.push(
            Barre {
                instant: t[i],
                open: ou_zero_exec(c[0][i]),
                high: ou_zero_exec(c[1][i]),
                low: ou_zero_exec(c[2][i]),
                close: ou_zero_exec(c[3][i]),
                volume: ou_zero_exec(c[4][i]),
            },
        );
        i += 1;
    }
    assert(r@ =~= barres_du_lot(*lot)->Ok_0);
    Ok(r)
}

/// Relit la série des barres. Sans aucun lot, elle est vide.
pub fn lire_barres(lots: &[Lot]) -> (r: Result<Vec<Barre>, ErreurReleve>)
    requires
        forall|i: int| 0 <= i < lots@.len() ==> (#[trigger] lots@[i]).valide(),
    ensures
        match r {
            Ok(v) => barres_lus(lots@) == Ok::<Seq<Barre>, ErreurReleve>(v@),
            Err(e) => barres_lus(lots@) == Err::<Seq<Barre>, ErreurReleve>(e),
        },
{
    let mut r: Vec<Barre> = Vec::new();
    let mut i: usize = 0;
    assert(r@ =~= Seq::<Barre>::empty());
    while i < lots.len()
        invariant
            i <= lots@.len(),
            forall|j: int| 0 <= j < lots@.len() ==> (#[trigger] lots@[j]).valide(),
            barres_lus(lots@.take(i as int)) == Ok::<Seq<Barre>, ErreurReleve>(r@),
        decreases lots@.len() - i,
    {
        proof {
            assert(lots@.take(i + 1).drop_last() =~= lots@.take(i as int));
            assert(lots@.take(i + 1).last() == lots@[i as int]);
            assert(lots@[i as int].valide());
        }
        match barres_de(&lots[i]) {
            Ok(v) => {
                let mut suite: Vec<Barre> = v;
                r.append(&mut suite);
            },
            Err(e) => {
                proof {
                    lemme_erreur_barres(lots@, i + 1);
                }
                return Err(e);
            },
        }
        i += 1;
    }
    assert(lots@.take(lots@.len() as int) =~= lots@);
    Ok(r)
}

proof fn lemme_case_barre(lot: Lot, s: Seq<Barre>, k: int)
    requires
        est_lot_de_barres(lot, s),
        0 <= k < 5,
    ensures
        forall|i: int|
            0 <= i < s.len() ==> #[trigger] case_serie(lot, nom_barre(k), i) == champ_barre(
                k,
                s[i],
            ),
{
    assert forall|i: int| 0 <= i < lot.colonnes@.len() && i != k + 1 implies (#[trigger] lot.colonnes@[i]).nom@
        != nom_barre(k) by {
        lemme_noms_barre(k, 0);
        if i > 0 {
            let m = i - 1;
            lemme_noms_barre(k, m);
            assert(lot.colonnes@[m + 1].nom@ == nom_barre(m));
        }
    }
    assert(lot.colonnes@[k + 1].nom@ == nom_barre(k));
    lemme_rang_unique(lot.colonnes@, nom_barre(k), k + 1);
    assert(colonne_de_barres(lot.colonnes@[k + 1].valeurs, k, s));
}

/// La série des barres écrite se relit à l'identique, cases vides comprises.
pub proof fn la_serie_des_barres_se_relit(lot: Lot, s: Seq<Barre>)
    requires
        est_lot_de_barres(lot, s),
        forall|i: int| 0 <= i < s.len() ==> au_calendrier((#[trigger] s[i]).instant.micros as int),
    ensures
        barres_lus(seq![lot]) == Ok::<Seq<Barre>, ErreurReleve>(s),
{
    assert forall|i: int| 0 <= i < lot.colonnes@.len() && i != 0 implies (#[trigger] lot.colonnes@[i]).nom@
        != "instant"@ by {
        let m = i - 1;
        lemme_noms_barre(m, 0);
        assert(lot.colonnes@[m + 1].nom@ == nom_barre(m));
    }
    lemme_rang_unique(lot.colonnes@, "instant"@, 0);
    match lot.colonnes@[0].valeurs {
        Valeurs::Instants(v) => {
            assert forall|i: int| 0 <= i < v@.len() implies au_calendrier(
                #[trigger] v@[i] as int,
            ) by {
                assert(au_calendrier(s[i].instant.micros as int));
            }
        },
        _ => {},
    }
    lemme_case_barre(lot, s, 0);
    lemme_case_barre(lot, s, 1);
    lemme_case_barre(lot, s, 2);
    lemme_case_barre(lot, s, 3);
    lemme_case_barre(lot, s, 4);
    assert(barres_du_lot(lot)->Ok_0 =~= s);
    let lots = seq![lot];
    assert(lots.drop_last() =~= Seq::<Lot>::empty());
    assert(barres_lus(lots.drop_last()) == Ok::<Seq<Barre>, ErreurReleve>(Seq::empty()));
    assert(Seq::<Barre>::empty() + s =~= s);
}

/// Le nom de la colonne de rang `i` de la série des niveaux.
pub open spec fn nom_point(i: int) -> Seq<char> {
    if i == 0 {
        "spot"@
    } else if i == 1 {
        "zero_gamma"@
    } else if i == 2 {
        "gex"@
    } else if i == 3 {
        "charm"@
    } else if i == 4 {
        "vanna"@
    } else if i == 5 {
        "call_wall"@
    } else if i == 6 {
        "put_wall"@
    } else if i == 7 {
        "call_wall_oi"@
    } else if i == 8 {
        "put_wall_oi"@
    } else if i == 9 {
        "iv_atm"@
    } else if i == 10 {
        "skew"@
    } else if i == 11 {
        "max_pain"@
    } else if i == 12 {
        "delta"@
    } else if i == 13 {
        "vega"@
    } else if i == 14 {
        "theta"@
    } else if i == 15 {
        "dte_max"@
    } else if i == 16 {
        "call_wall_vol"@
    } else if i == 17 {
        "put_wall_vol"@
    } else if i == 18 {
        "long_gamma"@
    } else {
        "short_gamma"@
    }
}

fn nom_de_point(i: usize) -> (s: &'static str)
    requires
        i < 20,
    ensures
        s@ == nom_point(i as int),
{
    match i {
        0 => "spot",
        1 => "zero_gamma",
        2 => "gex",
        3 => "charm",
        4 => "vanna",
        5 => "call_wall",
        6 => "put_wall",
        7 => "call_wall_oi",
        8 => "put_wall_oi",
        9 => "iv_atm",
        10 => "skew",
        11 => "max_pain",
        12 => "delta",
        13 => "vega",
        14 => "theta",
        15 => "dte_max",
        16 => "call_wall_vol",
        17 => "put_wall_vol",
        18 => "long_gamma",
        _ => "short_gamma",
    }
}

/// La case du point dans la colonne de rang `i`.
pub open spec fn champ_point(i: int, p: PointNiveaux) -> Option<Flottant> {
    if i == 0 {
        Some(p.spot)
    } else if i == 1 {
        p.zero_gamma
    } else if i == 2 {
        Some(p.gex)
    } else if i == 3 {
        Some(p.charm)
    } else if i == 4 {
        Some(p.vanna)
    } else if i == 5 {
        p.call_wall
    } else if i == 6 {
        p.put_wall
    } else if i == 7 {
        p.call_wall_oi
    } else if i == 8 {
        p.put_wall_oi
    } else if i == 9 {
        p.iv_atm
    } else if i == 10 {
        p.skew
    } else if i == 11 {
        p.max_pain
    } else if i == 12 {
        p.delta
    } else if i == 13 {
        p.vega
    } else if i == 14 {
        p.theta
    } else if i == 15 {
        p.dte_max
    } else if i == 16 {
        p.call_wall_vol
    } else if i == 17 {
        p.put_wall_vol
    } else if i == 18 {
        p.long_gamma
    } else {
        p.short_gamma
    }
}

fn champ_de_point(i: usize, p: &PointNiveaux) -> (f: Option<Flottant>)
    requires
        i < 20,
    ensures
        f == champ_point(i as int, *p),
{
    match i {
        0 => Some(p.spot),
        1 => p.zero_gamma,
        2 => Some(p.gex),
        3 => Some(p.charm),
        4 => Some(p.vanna),
        5 => p.call_wall,
        6 => p.put_wall,
        7 => p.call_wall_oi,
        8 => p.put_wall_oi,
        9 => p.iv_atm,
        10 => p.skew,
        11 => p.max_pain,
        12 => p.delta,
        13 => p.vega,
        14 => p.theta,
        15 => p.dte_max,
        16 => p.call_wall_vol,
        17 => p.put_wall_vol,
        18 => p.long_gamma,
        _ => p.short_gamma,
    }
}

/// Deux noms de colonne diffèrent par leur longueur ou par un caractère.
pub(crate) proof fn lemme_noms_point(i: int, j: int)
    requires
        0 <= i < 20,
        0 <= j < 20,
    ensures
        i != j ==> nom_point(i) != nom_point(j),
        nom_point(i) != "instant"@,
{
    reveal_strlit("spot");
    reveal_strlit("zero_gamma");
    reveal_strlit("gex");
    reveal_strlit("charm");
    reveal_strlit("vanna");
    reveal_strlit("call_wall");
    reveal_strlit("put_wall");
    reveal_strlit("call_wall_oi");
    reveal_strlit("put_wall_oi");
    reveal_strlit("iv_atm");
    reveal_strlit("skew");
    reveal_strlit("max_pain");
    reveal_strlit("delta");
    reveal_strlit("vega");
    reveal_strlit("theta");
    reveal_strlit("dte_max");
    reveal_strlit("call_wall_vol");
    reveal_strlit("put_wall_vol");
    reveal_strlit("long_gamma");
    reveal_strlit("short_gamma");
    reveal_strlit("instant");
    assert("spot"@[2] == 'o');
    assert("zero_gamma"@[2] == 'r');
    assert("gex"@[2] == 'x');
    assert("charm"@[2] == 'a');
    assert("vanna"@[2] == 'n');
    assert("call_wall"@[2] == 'l');
    assert("put_wall"@[2] == 't');
    assert("call_wall_oi"@[2] == 'l');
    assert("put_wall_oi"@[2] == 't');
    assert("iv_atm"@[2] == '_');
    assert("skew"@[2] == 'e');
    assert("max_pain"@[2] == 'x');
    assert("delta"@[2] == 'l');
    assert("vega"@[2] == 'g');
    assert("theta"@[2] == 'e');
    assert("dte_max"@[2] == 'e');
    assert("call_wall_vol"@[2] == 'l');
    assert("put_wall_vol"@[2] == 't');
    assert("long_gamma"@[2] == 'n');
    assert("short_gamma"@[2] == 'o');
    assert("instant"@[2] == 's');
    let (a, b) = (nom_point(i), nom_point(j));
    assert(i != j ==> a.len() != b.len() || a[2] != b[2]);
    assert(a.len() != "instant"@.len() || a[2] != "instant"@[2]);
}

/// Le lot est celui de la série.
pub open spec fn est_lot_de_niveaux(lot: Lot, s: Seq<PointNiveaux>) -> bool {
    &&& lot.lignes == s.len()
    &&& lot.colonnes@.len() == 21
    &&& lot.colonnes@[0].nom@ == "instant"@
    &&& (lot.colonnes@[0].valeurs matches Valeurs::Instants(v) && v@ =~= Seq::new(
        s.len(),
        |j: int| s[j].instant.micros,
    ))
    &&& forall|i: int|
        0 <= i < 20 ==> (#[trigger] lot.colonnes@[i + 1]).nom@ == nom_point(i)
            && colonne_de_niveaux(lot.colonnes@[i + 1].valeurs, i, s)
}

/// Les valeurs de la colonne de rang `i` sont celles de la série.
pub open spec fn colonne_de_niveaux(v: Valeurs, i: int, s: Seq<PointNiveaux>) -> bool {
    v matches Valeurs::Nombres(x) && x@ =~= Seq::new(s.len(), |j: int| champ_point(i, s[j]))
}

/// Les colonnes de la série des niveaux. Une valeur absente laisse la case vide.
pub fn colonnes_niveaux(s: &[PointNiveaux]) -> (lot: Lot)
    ensures
        est_lot_de_niveaux(lot, s@),
        lot.valide(),
{
    let mut instants: Vec<i64> = Vec::new();
    let mut j: usize = 0;
    while j < s.len()
        invariant
            j <= s@.len(),
            instants@ =~= Seq::new(j as nat, |k: int| s@[k].instant.micros),
        decreases s@.len() - j,
    {
        instants.push(s[j].instant.micros);
        j += 1;
    }
    let mut colonnes: Vec<Colonne> = Vec::new();
    colonnes.push(Colonne { nom: "instant".to_owned(), valeurs: Valeurs::Instants(instants) });
    let mut i: usize = 0;
    while i < 20
        invariant
            i <= 20,
            colonnes@.len() == i + 1,
            colonnes@[0].nom@ == "instant"@,
            colonnes@[0].valeurs == Valeurs::Instants(instants),
            forall|k: int|
                0 <= k < i ==> (#[trigger] colonnes@[k + 1]).nom@ == nom_point(k)
                    && colonne_de_niveaux(colonnes@[k + 1].valeurs, k, s@),
        decreases 20 - i,
    {
        let mut x: Vec<Option<Flottant>> = Vec::new();
        let mut j: usize = 0;
        while j < s.len()
            invariant
                i < 20,
                j <= s@.len(),
                x@ =~= Seq::new(j as nat, |k: int| champ_point(i as int, s@[k])),
            decreases s@.len() - j,
        {
            x.push(champ_de_point(i, &s[j]));
            j += 1;
        }
        let ghost avant = colonnes@;
        colonnes.push(Colonne { nom: nom_de_point(i).to_owned(), valeurs: Valeurs::Nombres(x) });
        proof {
            assert forall|k: int| 0 <= k < i + 1 implies (#[trigger] colonnes@[k + 1]).nom@
                == nom_point(k) && colonne_de_niveaux(colonnes@[k + 1].valeurs, k, s@) by {
                if k < i {
                    assert(colonnes@[k + 1] == avant[k + 1]);
                }
            }
        }
        i += 1;
    }
    let lot: Lot = Lot { lignes: s.len(), colonnes };
    proof {
        assert forall|k: int| 0 <= k < lot.colonnes@.len() implies (#[trigger] lot.colonnes@[k]).valeurs.de_taille(
            lot.lignes as nat,
        ) by {
            if k > 0 {
                let m = k - 1;
                assert(colonne_de_niveaux(lot.colonnes@[m + 1].valeurs, m, s@));
            }
        }
    }
    lot
}

/// La ligne de rang `i` d'un lot de la série.
pub open spec fn point_du_lot(lot: Lot, quand: Instant, i: int) -> PointNiveaux {
    PointNiveaux {
        instant: quand,
        spot: ou_zero(case_serie(lot, "spot"@, i)),
        zero_gamma: case_serie(lot, "zero_gamma"@, i),
        gex: ou_zero(case_serie(lot, "gex"@, i)),
        charm: ou_zero(case_serie(lot, "charm"@, i)),
        vanna: ou_zero(case_serie(lot, "vanna"@, i)),
        call_wall: case_serie(lot, "call_wall"@, i),
        put_wall: case_serie(lot, "put_wall"@, i),
        call_wall_oi: case_serie(lot, "call_wall_oi"@, i),
        put_wall_oi: case_serie(lot, "put_wall_oi"@, i),
        iv_atm: case_serie(lot, "iv_atm"@, i),
        skew: case_serie(lot, "skew"@, i),
        max_pain: case_serie(lot, "max_pain"@, i),
        delta: case_serie(lot, "delta"@, i),
        vega: case_serie(lot, "vega"@, i),
        theta: case_serie(lot, "theta"@, i),
        dte_max: case_serie(lot, "dte_max"@, i),
        call_wall_vol: case_serie(lot, "call_wall_vol"@, i),
        put_wall_vol: case_serie(lot, "put_wall_vol"@, i),
        long_gamma: case_serie(lot, "long_gamma"@, i),
        short_gamma: case_serie(lot, "short_gamma"@, i),
    }
}

/// La série qu'un lot porte.
pub open spec fn niveaux_du_lot(lot: Lot) -> Result<Seq<PointNiveaux>, ErreurReleve> {
    match instants_du_lot(lot) {
        Err(e) => Err(e),
        Ok(t) => Ok(Seq::new(lot.lignes as nat, |i: int| point_du_lot(lot, t[i], i))),
    }
}

/// La série que des lots portent, bout à bout.
pub open spec fn niveaux_lus(lots: Seq<Lot>) -> Result<Seq<PointNiveaux>, ErreurReleve>
    decreases lots.len(),
{
    if lots.len() == 0 {
        Ok(Seq::empty())
    } else {
        match niveaux_lus(lots.drop_last()) {
            Err(e) => Err(e),
            Ok(avant) => match niveaux_du_lot(lots.last()) {
                Err(e) => Err(e),
                Ok(suite) => Ok(avant + suite),
            },
        }
    }
}

proof fn lemme_erreur_niveaux(lots: Seq<Lot>, n: int)
    requires
        0 <= n <= lots.len(),
        niveaux_lus(lots.take(n)) is Err,
    ensures
        niveaux_lus(lots) == niveaux_lus(lots.take(n)),
    decreases lots.len(),
{
    if n < lots.len() {
        assert(lots.drop_last().take(n) =~= lots.take(n));
        lemme_erreur_niveaux(lots.drop_last(), n);
    } else {
        assert(lots.take(n) =~= lots);
    }
}

fn niveaux_de(lot: &Lot) -> (r: Result<Vec<PointNiveaux>, ErreurReleve>)
    requires
        lot.valide(),
    ensures
        match r {
            Ok(v) => niveaux_du_lot(*lot) == Ok::<Seq<PointNiveaux>, ErreurReleve>(v@),
            Err(e) => niveaux_du_lot(*lot) == Err::<Seq<PointNiveaux>, ErreurReleve>(e),
        },
{
    let t: Vec<Instant> = match instants_de(lot) {
        Ok(t) => t,
        Err(e) => {
            return Err(e);
        },
    };
    let mut c: Vec<Vec<Option<Flottant>>> = Vec::new();
    let mut k: usize = 0;
    while k < 20
        invariant
            k <= 20,
            lot.valide(),
            c@.len() == k,
            forall|m: int|
                0 <= m < k ==> (#[trigger] c@[m])@ =~= Seq::new(
                    lot.lignes as nat,
                    |i: int| case_serie(*lot, nom_point(m), i),
                ),
        decreases 20 - k,
    {
        c.push(cases_de(lot, nom_de_point(k)));
        k += 1;
    }
    let mut r: Vec<PointNiveaux> = Vec::new();
    let mut i: usize = 0;
    while i < lot.lignes
        invariant
            i <= lot.lignes,
            t@.len() == lot.lignes,
            c@.len() == 20,
            forall|m: int|
                0 <= m < 20 ==> (#[trigger] c@[m])@ =~= Seq::new(
                    lot.lignes as nat,
                    |i: int| case_serie(*lot, nom_point(m), i),
                ),
            r@.len() == i,
            forall|j: int| 0 <= j < i ==> #[trigger] r@[j] == point_du_lot(*lot, t@[j], j),
        decreases lot.lignes - i,
    {
        r.push(
            PointNiveaux {
                instant: t[i],
                spot: ou_zero_exec(c[0][i]),
                zero_gamma: c[1][i],
                gex: ou_zero_exec(c[2][i]),
                charm: ou_zero_exec(c[3][i]),
                vanna: ou_zero_exec(c[4][i]),
                call_wall: c[5][i],
                put_wall: c[6][i],
                call_wall_oi: c[7][i],
                put_wall_oi: c[8][i],
                iv_atm: c[9][i],
                skew: c[10][i],
                max_pain: c[11][i],
                delta: c[12][i],
                vega: c[13][i],
                theta: c[14][i],
                dte_max: c[15][i],
                call_wall_vol: c[16][i],
                put_wall_vol: c[17][i],
                long_gamma: c[18][i],
                short_gamma: c[19][i],
            },
        );
        i += 1;
    }
    assert(r@ =~= niveaux_du_lot(*lot)->Ok_0);
    Ok(r)
}

/// Relit la série des niveaux. Sans aucun lot, elle est vide.
pub fn lire_niveaux(lots: &[Lot]) -> (r: Result<Vec<PointNiveaux>, ErreurReleve>)
    requires
        forall|i: int| 0 <= i < lots@.len() ==> (#[trigger] lots@[i]).valide(),
    ensures
        match r {
            Ok(v) => niveaux_lus(lots@) == Ok::<Seq<PointNiveaux>, ErreurReleve>(v@),
            Err(e) => niveaux_lus(lots@) == Err::<Seq<PointNiveaux>, ErreurReleve>(e),
        },
{
    let mut r: Vec<PointNiveaux> = Vec::new();
    let mut i: usize = 0;
    assert(r@ =~= Seq::<PointNiveaux>::empty());
    while i < lots.len()
        invariant
            i <= lots@.len(),
            forall|j: int| 0 <= j < lots@.len() ==> (#[trigger] lots@[j]).valide(),
            niveaux_lus(lots@.take(i as int)) == Ok::<Seq<PointNiveaux>, ErreurReleve>(r@),
        decreases lots@.len() - i,
    {
        proof {
            assert(lots@.take(i + 1).drop_last() =~= lots@.take(i as int));
            assert(lots@.take(i + 1).last() == lots@[i as int]);
            assert(lots@[i as int].valide());
        }
        match niveaux_de(&lots[i]) {
            Ok(v) => {
                let mut suite: Vec<PointNiveaux> = v;
                r.append(&mut suite);
            },
            Err(e) => {
                proof {
                    lemme_erreur_niveaux(lots@, i + 1);
                }
                return Err(e);
            },
        }
        i += 1;
    }
    assert(lots@.take(lots@.len() as int) =~= lots@);
    Ok(r)
}

proof fn lemme_case_point(lot: Lot, s: Seq<PointNiveaux>, k: int)
    requires
        est_lot_de_niveaux(lot, s),
        0 <= k < 20,
    ensures
        forall|i: int|
            0 <= i < s.len() ==> #[trigger] case_serie(lot, nom_point(k), i) == champ_point(
                k,
                s[i],
            ),
{
    assert forall|i: int| 0 <= i < lot.colonnes@.len() && i != k + 1 implies (#[trigger] lot.colonnes@[i]).nom@
        != nom_point(k) by {
        lemme_noms_point(k, 0);
        if i > 0 {
            let m = i - 1;
            lemme_noms_point(k, m);
            assert(lot.colonnes@[m + 1].nom@ == nom_point(m));
        }
    }
    assert(lot.colonnes@[k + 1].nom@ == nom_point(k));
    lemme_rang_unique(lot.colonnes@, nom_point(k), k + 1);
    assert(colonne_de_niveaux(lot.colonnes@[k + 1].valeurs, k, s));
}

/// La série des niveaux écrite se relit à l'identique, cases vides comprises.
pub proof fn la_serie_des_niveaux_se_relit(lot: Lot, s: Seq<PointNiveaux>)
    requires
        est_lot_de_niveaux(lot, s),
        forall|i: int| 0 <= i < s.len() ==> au_calendrier((#[trigger] s[i]).instant.micros as int),
    ensures
        niveaux_lus(seq![lot]) == Ok::<Seq<PointNiveaux>, ErreurReleve>(s),
{
    assert forall|i: int| 0 <= i < lot.colonnes@.len() && i != 0 implies (#[trigger] lot.colonnes@[i]).nom@
        != "instant"@ by {
        let m = i - 1;
        lemme_noms_point(m, 0);
        assert(lot.colonnes@[m + 1].nom@ == nom_point(m));
    }
    lemme_rang_unique(lot.colonnes@, "instant"@, 0);
    match lot.colonnes@[0].valeurs {
        Valeurs::Instants(v) => {
            assert forall|i: int| 0 <= i < v@.len() implies au_calendrier(
                #[trigger] v@[i] as int,
            ) by {
                assert(au_calendrier(s[i].instant.micros as int));
            }
        },
        _ => {},
    }
    lemme_case_point(lot, s, 0);
    lemme_case_point(lot, s, 1);
    lemme_case_point(lot, s, 2);
    lemme_case_point(lot, s, 3);
    lemme_case_point(lot, s, 4);
    lemme_case_point(lot, s, 5);
    lemme_case_point(lot, s, 6);
    lemme_case_point(lot, s, 7);
    lemme_case_point(lot, s, 8);
    lemme_case_point(lot, s, 9);
    lemme_case_point(lot, s, 10);
    lemme_case_point(lot, s, 11);
    lemme_case_point(lot, s, 12);
    lemme_case_point(lot, s, 13);
    lemme_case_point(lot, s, 14);
    lemme_case_point(lot, s, 15);
    lemme_case_point(lot, s, 16);
    lemme_case_point(lot, s, 17);
    lemme_case_point(lot, s, 18);
    lemme_case_point(lot, s, 19);
    assert(niveaux_du_lot(lot)->Ok_0 =~= s);
    let lots = seq![lot];
    assert(lots.drop_last() =~= Seq::<Lot>::empty());
    assert(niveaux_lus(lots.drop_last()) == Ok::<Seq<PointNiveaux>, ErreurReleve>(Seq::empty()));
    assert(Seq::<PointNiveaux>::empty() + s =~= s);
}

} // verus!
