//! Les chandeliers du sous-jacent.

use crate::calendrier::{Instant, CALENDRIER_DEBUT, CALENDRIER_FIN, SECONDE};
use crate::flottant::Flottant;
use crate::store::series::Barre;
use vstd::prelude::*;

verus! {

/// Profondeur d'historique demandée à l'amorçage, en jours. La série sur disque garde
/// l'historique long, IB ne sert qu'à combler ce qui manque depuis le dernier arrêt.
pub const PROFONDEUR_JOURS: i32 = 2;

/// La profondeur d'une demande : un jour au moins.
pub fn profondeur(jours: i32) -> (r: i32)
    ensures
        r == if jours < 1 {
            1
        } else {
            jours as int
        },
{
    if jours < 1 {
        1
    } else {
        jours
    }
}

/// L'horodatage d'une barre : un instant absolu pour les barres intraday, une simple date
/// pour les journalières.
#[derive(Clone, Copy, Debug, PartialEq, Eq, Structural)]
pub enum Horodatage {
    /// Secondes depuis le 1er janvier 1970, en UTC.
    DateTime(i64),
    /// Une date sans heure.
    Date,
}

/// Une barre telle qu'IB la sert.
#[derive(Clone, Copy, Debug, PartialEq, Eq, Structural)]
pub struct BarreIb {
    pub date: Horodatage,
    pub open: Flottant,
    pub high: Flottant,
    pub low: Flottant,
    pub close: Flottant,
    pub volume: Flottant,
}

/// L'instant UTC d'une barre. Une barre journalière n'a pas d'heure, et la placer à minuit
/// en inventerait une.
pub open spec fn instant_de_barre(h: Horodatage) -> Option<Instant> {
    match h {
        Horodatage::DateTime(s) => if CALENDRIER_DEBUT <= s * SECONDE <= CALENDRIER_FIN {
            Some(Instant { micros: (s * SECONDE) as i64 })
        } else {
            None
        },
        Horodatage::Date => None,
    }
}

/// Traduit l'horodatage d'une barre en instant UTC.
pub fn en_utc(horodatage: Horodatage) -> (r: Option<Instant>)
    ensures
        r == instant_de_barre(horodatage),
{
    match horodatage {
        Horodatage::DateTime(s) => match s.checked_mul(SECONDE) {
            Some(m) => if CALENDRIER_DEBUT <= m && m <= CALENDRIER_FIN {
                Some(Instant { micros: m })
            } else {
                None
            },
            None => None,
        },
        Horodatage::Date => None,
    }
}

pub open spec fn barre_traduite(b: BarreIb) -> Option<Barre> {
    match instant_de_barre(b.date) {
        Some(instant) => Some(
            Barre {
                instant,
                open: b.open,
                high: b.high,
                low: b.low,
                close: b.close,
                volume: b.volume,
            },
        ),
        None => None,
    }
}

/// Une barre d'IB vers une barre du dépôt.
pub fn traduire(b: &BarreIb) -> (r: Option<Barre>)
    ensures
        r == barre_traduite(*b),
{
    match en_utc(b.date) {
        Some(instant) => Some(
            Barre {
                instant,
                open: b.open,
                high: b.high,
                low: b.low,
                close: b.close,
                volume: b.volume,
            },
        ),
        None => None,
    }
}

/// Les barres qui ont un instant, dans leur ordre.
pub open spec fn barres_traduites(v: Seq<BarreIb>) -> Seq<Barre>
    decreases v.len(),
{
    if v.len() == 0 {
        Seq::empty()
    } else {
        let debut = barres_traduites(v.drop_last());
        match barre_traduite(v.last()) {
            Some(b) => debut.push(b),
            None => debut,
        }
    }
}

/// Les barres d'un historique. Une barre sans instant exploitable est écartée : un
/// chandelier au mauvais moment est pire qu'un trou.
pub fn barres(historique: &[BarreIb]) -> (v: Vec<Barre>)
    ensures
        v@ == barres_traduites(historique@),
{
    let mut v: Vec<Barre> = Vec::new();
    let mut i: usize = 0;
    while i < historique.len()
        invariant
            i <= historique@.len(),
            v@ == barres_traduites(historique@.take(i as int)),
        decreases historique@.len() - i,
    {
        proof {
            assert(historique@.take(i + 1).drop_last() =~= historique@.take(i as int));
            assert(historique@.take(i + 1).last() == historique@[i as int]);
        }
        if let Some(b) = traduire(&historique[i]) {
            v.push(b);
        }
        i += 1;
    }
    assert(historique@.take(i as int) =~= historique@);
    v
}

} // verus!
