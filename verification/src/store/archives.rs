//! Les archives horodatées : leur nom, et celles qui s'effacent.
//!
//! C'est le nom qui décide de l'âge, pas la date du fichier : une copie ou une horloge
//! remise à l'heure changeraient la seconde, jamais le premier.

use super::chemins::chemin_de;
#[allow(unused_imports)]
use super::chemins::chemin_produit;
use crate::calendrier::{ecrire_instant, lire_instant, Instant, CALENDRIER_DEBUT, CALENDRIER_FIN};
#[allow(unused_imports)]
use crate::calendrier::{annee_a_quatre_chiffres, instant_ecrit, instant_lu, MINUTE};
use crate::texte::{ajouter_texte, caracteres, en_texte, memes_caracteres, tranche};
use vstd::prelude::*;

verus! {

/// Le format d'horodatage porté par le nom d'une archive.
pub const HORODATAGE: &'static str = "%Y-%m-%d_%H%M";

/// Le nom d'une archive horodatée.
pub open spec fn nom_d_archive(horodatage: Seq<char>) -> Seq<char> {
    horodatage + ".parquet"@
}

/// Le chemin de l'archive que porte cet horodatage.
pub fn chemin_horodate(dossier: &str, produit: &str, horodatage: &str) -> (s: String)
    ensures
        s@ == chemin_produit(dossier@, produit@, nom_d_archive(horodatage@)),
{
    let mut nom: Vec<char> = caracteres(horodatage);
    ajouter_texte(&mut nom, ".parquet");
    assert(nom@ =~= nom_d_archive(horodatage@));
    chemin_de(dossier, produit, en_texte(nom.as_slice()).as_str())
}

/// Le chemin d'une archive, horodatée à la minute du relevé.
pub fn chemin_archive(dossier: &str, produit: &str, releve: Instant) -> (s: String)
    requires
        CALENDRIER_DEBUT <= releve.micros <= CALENDRIER_FIN,
    ensures
        s@ == chemin_produit(
            dossier@,
            produit@,
            nom_d_archive(instant_ecrit(releve.micros as int, HORODATAGE@)),
        ),
        annee_a_quatre_chiffres(releve.micros as int) ==> instant_lu(
            instant_ecrit(releve.micros as int, HORODATAGE@),
            HORODATAGE@,
        ) == Some(releve.micros - releve.micros as int % MINUTE as int),
{
    proof {
        reveal_strlit("%Y-%m-%d_%H%M");
        reveal_strlit("%H:%M UTC");
        assert("%Y-%m-%d_%H%M"@.len() != "%H:%M UTC"@.len());
    }
    chemin_horodate(dossier, produit, ecrire_instant(releve, HORODATAGE).as_str())
}

/// La place du dernier point d'un nom, s'il en a un ailleurs qu'en tête.
pub open spec fn dernier_point(nom: Seq<char>) -> Option<int>
    decreases nom.len(),
{
    if nom.len() <= 1 {
        None
    } else if nom.last() == '.' {
        Some(nom.len() - 1)
    } else {
        dernier_point(nom.drop_last())
    }
}

/// Ce qui précède l'extension `parquet` d'un nom de fichier, s'il l'a.
pub open spec fn radical_parquet(nom: Seq<char>) -> Option<Seq<char>> {
    match dernier_point(nom) {
        Some(k) => if nom.skip(k + 1) == "parquet"@ {
            Some(nom.take(k))
        } else {
            None
        },
        None => None,
    }
}

/// Ce qui précède l'extension `parquet`, si le nom l'a.
pub fn radical(nom: &str) -> (r: Option<String>)
    ensures
        match r {
            Some(t) => radical_parquet(nom@) == Some(t@),
            None => radical_parquet(nom@) is None,
        },
{
    let v: Vec<char> = caracteres(nom);
    let mut n: usize = v.len();
    assert(v@.take(n as int) =~= v@);
    while n > 1
        invariant
            n <= v@.len(),
            v@ == nom@,
            dernier_point(v@) == dernier_point(v@.take(n as int)),
        decreases n,
    {
        proof {
            assert(v@.take(n as int).drop_last() =~= v@.take(n - 1));
            assert(v@.take(n as int).last() == v@[n - 1]);
        }
        if v[n - 1] == '.' {
            let fin: Vec<char> = tranche(v.as_slice(), n, v.len());
            assert(fin@ =~= v@.skip(n as int));
            if !memes_caracteres(fin.as_slice(), caracteres("parquet").as_slice()) {
                return None;
            }
            let tete: Vec<char> = tranche(v.as_slice(), 0, n - 1);
            assert(tete@ =~= v@.take(n - 1));
            return Some(en_texte(tete.as_slice()));
        }
        n -= 1;
    }
    None
}

/// Une archive s'efface quand son nom est un horodatage, et qu'il précède la borne.
pub open spec fn perimee(lu: Option<int>, borne: int) -> bool {
    match lu {
        Some(quand) => quand < borne,
        None => false,
    }
}

/// Le nom, lu ou non comme un horodatage, est-il celui d'une archive à effacer ?
pub fn est_perimee(lu: Option<Instant>, borne: Instant) -> (b: bool)
    ensures
        b == perimee(
            match lu {
                Some(i) => Some(i.micros as int),
                None => None,
            },
            borne.micros as int,
        ),
{
    match lu {
        Some(quand) => quand.micros < borne.micros,
        None => false,
    }
}

/// Un fichier s'efface-t-il ? Son nom doit finir par `.parquet`, et ce qui précède être
/// un horodatage antérieur à la borne.
pub open spec fn s_efface(nom: Seq<char>, borne: int) -> bool {
    match radical_parquet(nom) {
        Some(t) => perimee(instant_lu(t, HORODATAGE@), borne),
        None => false,
    }
}

/// Les trois fichiers vivants de la séance.
pub open spec fn fichier_de_seance(nom: Seq<char>) -> bool {
    nom == "courant.parquet"@ || nom == "barres.parquet"@ || nom == "niveaux.parquet"@
}

/// Le fichier de ce nom s'efface-t-il ? Ceux de la séance, jamais.
pub fn a_effacer(nom: &str, borne: Instant) -> (b: bool)
    ensures
        b == s_efface(nom@, borne.micros as int),
        fichier_de_seance(nom@) ==> !b,
{
    match radical(nom) {
        None => false,
        Some(t) => {
            proof {
                reveal_strlit("%Y-%m-%d_%H%M");
                reveal_strlit("courant.parquet");
                reveal_strlit("barres.parquet");
                reveal_strlit("niveaux.parquet");
                if fichier_de_seance(nom@) {
                    lemme_point(nom@);
                    assert(nom@[0] == t@[0]);
                }
            }
            est_perimee(lire_instant(t.as_str(), HORODATAGE), borne)
        },
    }
}

proof fn lemme_point(nom: Seq<char>)
    ensures
        match dernier_point(nom) {
            Some(k) => 0 < k < nom.len() && nom[k] == '.',
            None => true,
        },
    decreases nom.len(),
{
    if nom.len() > 1 && nom.last() != '.' {
        lemme_point(nom.drop_last());
    }
}

/// Les rangs des noms qui s'effacent, dans l'ordre.
pub open spec fn effaces(noms: Seq<String>, borne: int) -> Seq<usize>
    decreases noms.len(),
{
    if noms.len() == 0 {
        Seq::empty()
    } else {
        let debut = effaces(noms.drop_last(), borne);
        if s_efface(noms.last()@, borne) {
            debut.push((noms.len() - 1) as usize)
        } else {
            debut
        }
    }
}

/// Les archives antérieures à la borne, parmi les noms d'un dossier, désignées par leur
/// rang. Les fichiers de la séance, qui vivent dans le même dossier, n'en sont jamais.
pub fn elaguer_archives(noms: &[String], borne: Instant) -> (v: Vec<usize>)
    ensures
        v@ == effaces(noms@, borne.micros as int),
        forall|k: int|
            0 <= k < v@.len() ==> (#[trigger] v@[k]) < noms@.len() && !fichier_de_seance(
                noms@[v@[k] as int]@,
            ),
{
    let mut v: Vec<usize> = Vec::new();
    let mut i: usize = 0;
    while i < noms.len()
        invariant
            i <= noms@.len(),
            v@ == effaces(noms@.take(i as int), borne.micros as int),
            forall|k: int|
                0 <= k < v@.len() ==> (#[trigger] v@[k]) < i && !fichier_de_seance(
                    noms@[v@[k] as int]@,
                ),
        decreases noms@.len() - i,
    {
        proof {
            assert(noms@.take(i + 1).drop_last() =~= noms@.take(i as int));
            assert(noms@.take(i + 1).last() == noms@[i as int]);
        }
        if a_effacer(noms[i].as_str(), borne) {
            v.push(i);
        }
        i += 1;
    }
    assert(noms@.take(i as int) =~= noms@);
    v
}

/// Une archive s'efface si et seulement si la minute qu'elle porte précède la borne : ce
/// que l'horodatage écrit, le nom le rend.
pub proof fn une_archive_s_efface_a_son_age(horodatage: Seq<char>, quand: int, borne: int)
    requires
        horodatage.len() > 0,
        instant_lu(horodatage, HORODATAGE@) == Some(quand),
    ensures
        s_efface(nom_d_archive(horodatage), borne) <==> quand < borne,
{
    let nom = nom_d_archive(horodatage);
    reveal_strlit(".parquet");
    reveal_strlit("parquet");
    lemme_radical(horodatage, "parquet"@);
    assert(nom =~= horodatage.push('.') + "parquet"@);
    assert(nom.skip(horodatage.len() as int + 1) =~= "parquet"@);
    assert(nom.take(horodatage.len() as int) =~= horodatage);
}

proof fn lemme_radical(tete: Seq<char>, fin: Seq<char>)
    requires
        tete.len() > 0,
        forall|i: int| 0 <= i < fin.len() ==> #[trigger] fin[i] != '.',
    ensures
        dernier_point(tete.push('.') + fin) == Some(tete.len() as int),
    decreases fin.len(),
{
    let nom = tete.push('.') + fin;
    if fin.len() > 0 {
        assert(nom.drop_last() =~= tete.push('.') + fin.drop_last());
        assert(nom.last() == fin.last());
        lemme_radical(tete, fin.drop_last());
    } else {
        assert(nom =~= tete.push('.'));
    }
}

/// Les noms effacés sont exactement ceux qui s'effacent, chacun une fois et dans l'ordre ; reculer
/// la borne n'en efface pas davantage.
pub proof fn les_noms_effaces_sont_ceux_qui_s_effacent(noms: Seq<String>, borne: int, avant: int)
    requires
        noms.len() <= usize::MAX,
        avant <= borne,
    ensures
        ({
            let r = effaces(noms, borne);
            &&& forall|i: int, j: int| 0 <= i < j < r.len() ==> #[trigger] r[i] < #[trigger] r[j]
            &&& forall|i: int|
                0 <= i < r.len() ==> (#[trigger] r[i] as int) < noms.len() && s_efface(
                    noms[r[i] as int]@,
                    borne,
                )
            &&& forall|k: int|
                0 <= k < noms.len() && s_efface((#[trigger] noms[k])@, borne) ==> r.contains(
                    k as usize,
                )
            &&& forall|k: int|
                0 <= k < noms.len() && s_efface((#[trigger] noms[k])@, avant) ==> s_efface(
                    noms[k]@,
                    borne,
                )
        }),
    decreases noms.len(),
{
    if noms.len() > 0 {
        let t = noms.drop_last();
        les_noms_effaces_sont_ceux_qui_s_effacent(t, borne, avant);
        let (a, r) = (effaces(t, borne), effaces(noms, borne));
        assert forall|i: int| 0 <= i < r.len() implies (#[trigger] r[i] as int) < noms.len()
            && s_efface(noms[r[i] as int]@, borne) by {
            if i < a.len() {
                assert(r[i] == a[i]);
                assert(t[a[i] as int] == noms[a[i] as int]);
            }
        }
        assert forall|k: int|
            0 <= k < noms.len() && s_efface((#[trigger] noms[k])@, borne) implies r.contains(
            k as usize,
        ) by {
            if k < t.len() {
                assert(t[k] == noms[k]);
                let i = choose|i: int| 0 <= i < a.len() && a[i] == k as usize;
                assert(r[i] == k as usize);
            } else {
                assert(r[r.len() - 1] == k as usize);
            }
        }
    }
}

} // verus!
