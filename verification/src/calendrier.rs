//! Les instants et les jours, comme des entiers.
//!
//! Un instant ne porte pas de fuseau : c'est à qui le tient de dire s'il est en
//! UTC ou en heure locale. Sa résolution est la microseconde, celle des fichiers.
//! La lecture des dates et les règles de fuseau restent à `chrono` et `chrono-tz`.

use chrono::{DateTime, Datelike, MappedLocalTime, NaiveDate, NaiveDateTime, Offset, TimeZone};
use vstd::prelude::*;

verus! {

/// Microsecondes dans une seconde.
pub const SECONDE: i64 = 1_000_000;

/// Microsecondes dans une minute.
pub const MINUTE: i64 = 60_000_000;

/// Microsecondes dans une heure.
pub const HEURE: i64 = 3_600_000_000;

/// Microsecondes dans un jour.
pub const JOURNEE: i64 = 86_400_000_000;

/// Le premier et le dernier instant que `chrono` représente.
pub const CALENDRIER_DEBUT: i64 = -8_334_601_228_800_000_000;

pub const CALENDRIER_FIN: i64 = 8_210_266_876_799_999_999;

/// Un instant du calendrier, à plus de trois jours de ses bouts : les changements de
/// fuseau n'en font pas sortir.
pub open spec fn usuel(micros: int) -> bool {
    CALENDRIER_DEBUT + 3 * JOURNEE <= micros <= CALENDRIER_FIN - 3 * JOURNEE
}

/// Le fuseau de New York.
pub open spec fn new_york() -> Seq<char> {
    "America/New_York"@
}

/// Un instant sans fuseau, en microsecondes depuis le 1er janvier 1970 à minuit.
#[derive(Clone, Copy, Debug, PartialEq, Eq, PartialOrd, Ord, Hash, Structural)]
pub struct Instant {
    pub micros: i64,
}

/// Un jour du calendrier, compté depuis le 1er janvier 1970.
#[derive(Clone, Copy, Debug, PartialEq, Eq, PartialOrd, Ord, Hash, Structural)]
pub struct Jour {
    pub numero: i32,
}

/// Le quotient entier arrondi vers zéro.
pub open spec fn tronque(a: int, b: int) -> int {
    if a >= 0 {
        a / b
    } else {
        -((-a) / b)
    }
}

impl Instant {
    /// Le jour de cet instant.
    pub open spec fn jour_compte(self) -> int {
        self.micros as int / JOURNEE as int
    }

    /// Le jour de cet instant.
    pub fn jour(self) -> (j: Jour)
        ensures
            j.numero == self.jour_compte(),
    {
        let q: i128 = self.micros as i128 / JOURNEE as i128;
        let r: i128 = self.micros as i128 % JOURNEE as i128;
        if r < 0 {
            Jour { numero: (q - 1) as i32 }
        } else {
            Jour { numero: q as i32 }
        }
    }

    /// Les secondes entières depuis le 1er janvier 1970.
    pub fn secondes(self) -> (s: i64)
        ensures
            s == self.micros as int / SECONDE as int,
    {
        let q: i64 = self.micros / SECONDE;
        if self.micros % SECONDE < 0 {
            q - 1
        } else {
            q
        }
    }

    /// L'instant plus tard, ou plus tôt si le décalage est négatif.
    pub fn decale(self, micros: i64) -> (r: Option<Instant>)
        ensures
            match r {
                Some(i) => i.micros == self.micros + micros,
                None => !(i64::MIN <= self.micros + micros <= i64::MAX),
            },
    {
        match self.micros.checked_add(micros) {
            Some(m) => Some(Instant { micros: m }),
            None => None,
        }
    }

    /// Les unités entières de `b` à `self`, arrondies vers zéro.
    pub fn ecart_tronque(self, b: Instant, unite: i64) -> (n: i128)
        requires
            unite > 0,
        ensures
            n == tronque(self.micros - b.micros, unite as int),
    {
        let e: i128 = self.micros as i128 - b.micros as i128;
        if e >= 0 {
            e / unite as i128
        } else {
            -((-e) / unite as i128)
        }
    }
}

impl Jour {
    /// Le jour de la semaine, lundi valant zéro.
    pub open spec fn rang_semaine(self) -> int {
        (self.numero + 3) % 7
    }

    pub fn jour_semaine(self) -> (r: u8)
        ensures
            r == self.rang_semaine(),
    {
        let n: i64 = self.numero as i64 + 3;
        let r: i64 = n % 7;
        if r < 0 {
            (r + 7) as u8
        } else {
            r as u8
        }
    }
}

/// Ce que `NaiveDateTime::parse_from_str` lit d'un texte selon un format.
pub uninterp spec fn instant_lu(texte: Seq<char>, format: Seq<char>) -> Option<int>;

/// Un format qui commence par l'année.
pub open spec fn commence_par_l_annee(format: Seq<char>) -> bool {
    format.len() >= 2 && format[0] == '%' && format[1] == 'Y'
}

/// `chrono::NaiveDateTime::parse_from_str`, ramené en microsecondes.
///
/// Le résultat ne dépend que du texte et du format : il porte un nom. D'un format qui
/// commence par l'année, il est dit en plus qu'il ne lit rien d'un texte qui commence par
/// une lettre ASCII : une année veut un signe ou un chiffre.
#[verifier::external_body]
pub(crate) fn lire_instant(texte: &str, format: &str) -> (r: Option<Instant>)
    ensures
        match r {
            Some(i) => instant_lu(texte@, format@) == Some(i.micros as int),
            None => instant_lu(texte@, format@) is None,
        },
        texte@.len() > 0 && ('a' <= texte@[0] <= 'z' || 'A' <= texte@[0] <= 'Z')
            && commence_par_l_annee(format@) ==> r is None,
{
    NaiveDateTime::parse_from_str(texte, format)
        .ok()
        .map(|t| Instant { micros: t.and_utc().timestamp_micros() })
}

/// Ce que `NaiveDate::parse_from_str` lit d'un texte selon un format.
pub uninterp spec fn jour_lu(texte: Seq<char>, format: Seq<char>) -> Option<int>;

/// `chrono::NaiveDate::parse_from_str`, ramené en jours.
///
/// Le résultat ne dépend que du texte et du format : il porte un nom, et rien
/// d'autre n'est dit de lui.
#[verifier::external_body]
pub(crate) fn lire_jour(texte: &str, format: &str) -> (r: Option<Jour>)
    ensures
        match r {
            Some(j) => jour_lu(texte@, format@) == Some(j.numero as int),
            None => jour_lu(texte@, format@) is None,
        },
{
    NaiveDate::parse_from_str(texte, format).ok().map(|d| Jour { numero: d.to_epoch_days() })
}

/// Le quantième que `Datelike::day` donne d'un jour, s'il est au calendrier.
pub uninterp spec fn quantieme_de(numero: int) -> Option<int>;

/// `chrono::NaiveDate::day` : le quantième du mois, de 1 à 31, ou rien si le jour
/// sort du calendrier que `chrono` tient.
#[verifier::external_body]
pub(crate) fn quantieme(j: Jour) -> (r: Option<u32>)
    ensures
        match r {
            Some(q) => quantieme_de(j.numero as int) == Some(q as int) && 1 <= q <= 31,
            None => quantieme_de(j.numero as int) is None,
        },
{
    NaiveDate::from_epoch_days(j.numero).map(|d| d.day())
}

/// Ce texte nomme-t-il un fuseau de `chrono-tz` ?
pub uninterp spec fn fuseau_admis(nom: Seq<char>) -> bool;

/// `<chrono_tz::Tz as FromStr>::from_str` réussit-il ? La réponse ne dépend que du texte.
#[verifier::external_body]
pub(crate) fn est_un_fuseau(nom: &str) -> (b: bool)
    ensures
        b == fuseau_admis(nom@),
{
    nom.parse::<chrono_tz::Tz>().is_ok()
}

/// Les décalages qu'un fuseau admet à une heure locale : aucun si l'heure n'existe
/// pas, deux si elle est vécue deux fois. Rien si le fuseau est inconnu ou l'heure
/// hors du calendrier.
pub uninterp spec fn decalages_de(fuseau: Seq<char>, micros: int) -> Option<Seq<i32>>;

/// `chrono::TimeZone::from_local_datetime` du fuseau nommé, au sens de `chrono-tz`.
///
/// Les décalages sont en secondes à l'est de l'UTC, dans l'ordre où `chrono` les
/// donne. Il y en a au plus deux, chacun de moins d'un jour. New York est un fuseau
/// connu, et ses heures inexistantes ne durent qu'une heure : la table de
/// `chrono-tz` n'y avance jamais l'horloge de plus.
#[verifier::external_body]
pub(crate) fn decalages_locaux(fuseau: &str, local: Instant) -> (r: Option<Vec<i32>>)
    ensures
        match r {
            Some(v) => decalages_de(fuseau@, local.micros as int) == Some(v@) && v@.len() <= 2 && (
            forall|i: int| 0 <= i < v@.len() ==> -86_400 < #[trigger] v@[i] < 86_400),
            None => decalages_de(fuseau@, local.micros as int) is None,
        },
        fuseau@ == new_york() && usuel(local.micros as int) ==> r is Some && (r->Some_0@.len() == 0
            ==> {
            &&& decalages_de(fuseau@, local.micros + HEURE) is Some
            &&& decalages_de(fuseau@, local.micros + HEURE)->Some_0.len() > 0
        }),
{
    let tz: chrono_tz::Tz = fuseau.parse().ok()?;
    let naif: NaiveDateTime = DateTime::from_timestamp_micros(local.micros)?.naive_utc();
    Some(match tz.from_local_datetime(&naif) {
        MappedLocalTime::Single(t) => vec![t.offset().fix().local_minus_utc()],
        MappedLocalTime::Ambiguous(a, b) =>
            vec![a.offset().fix().local_minus_utc(), b.offset().fix().local_minus_utc()],
        MappedLocalTime::None => vec![],
    })
}

/// Le décalage d'un fuseau à un instant UTC, ou rien si le fuseau est inconnu ou
/// l'instant hors du calendrier.
pub uninterp spec fn decalage_a(fuseau: Seq<char>, micros: int) -> Option<int>;

/// `chrono::TimeZone::offset_from_utc_datetime` du fuseau nommé, au sens de
/// `chrono-tz` : en secondes à l'est de l'UTC, de moins d'un jour. New York est un
/// fuseau connu.
#[verifier::external_body]
pub(crate) fn decalage_utc(fuseau: &str, utc: Instant) -> (r: Option<i32>)
    ensures
        match r {
            Some(d) => decalage_a(fuseau@, utc.micros as int) == Some(d as int) && -86_400 < d
                < 86_400,
            None => decalage_a(fuseau@, utc.micros as int) is None,
        },
        fuseau@ == new_york() && usuel(utc.micros as int) ==> r is Some,
{
    let tz: chrono_tz::Tz = fuseau.parse().ok()?;
    let naif: NaiveDateTime = DateTime::from_timestamp_micros(utc.micros)?.naive_utc();
    Some(tz.offset_from_utc_datetime(&naif).fix().local_minus_utc())
}

/// Un instant écrit par `chrono` selon un format.
pub uninterp spec fn instant_ecrit(micros: int, format: Seq<char>) -> Seq<char>;

/// Les formats que ce projet écrit : aucun ne contient de virgule ni de fin de ligne.
pub open spec fn format_connu(format: Seq<char>) -> bool {
    ||| format == "%Y-%m-%d %H:%M"@
    ||| format == "%Y-%m-%d_%H%M"@
    ||| format == "%H:%M UTC"@
}

/// Un instant dont l'année s'écrit en quatre chiffres, de 1 à 9999.
pub open spec fn annee_a_quatre_chiffres(micros: int) -> bool {
    -62_135_596_800_000_000 <= micros < 253_402_300_800_000_000
}

/// `chrono::NaiveDateTime::format` d'un instant du calendrier. Le texte ne tient que
/// des chiffres, des tirets, des espaces, des deux-points, un signe devant une année
/// de plus de quatre chiffres, et les lettres du format. Quand le format porte la date et
/// que l'année a quatre chiffres, `parse_from_str` en relit le début de la minute.
#[verifier::external_body]
pub(crate) fn ecrire_instant(i: Instant, format: &str) -> (r: String)
    requires
        CALENDRIER_DEBUT <= i.micros <= CALENDRIER_FIN,
        format_connu(format@),
    ensures
        r@ == instant_ecrit(i.micros as int, format@),
        forall|k: int|
            0 <= k < r@.len() ==> #[trigger] r@[k] != ',' && r@[k] != '\n' && r@[k] != '\r',
        format@ != "%H:%M UTC"@ && annee_a_quatre_chiffres(i.micros as int) ==> instant_lu(
            r@,
            format@,
        ) == Some(i.micros - i.micros as int % MINUTE as int),
{
    DateTime::from_timestamp_micros(i.micros)
        .expect("un instant du calendrier")
        .naive_utc()
        .format(format)
        .to_string()
}

} // verus!
