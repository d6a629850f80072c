//! Le postulat du signe, confronté à une mesure publique.
//!
//! Tout le signe du GEX repose sur une convention : les teneurs sont longs des calls et
//! courts des puts. Le rapport hebdomadaire de la CFTC ventile l'open interest par
//! catégorie de participant, en deux versions : futures seuls, et futures et options
//! combinés, ces dernières converties par leur delta. Leur différence est le delta net du
//! livre d'options des teneurs, et la convention en prédit le signe : positif.
//!
//! Ce test mesure un positionnement en delta, jamais le gamma. Il peut affaiblir la
//! convention sans valider le signe du GEX.

#[allow(unused_imports)]
use crate::entiers::lemme_part_extreme;
use crate::flottant::Flottant;
#[allow(unused_imports)]
use crate::flottant::rapport;
use crate::texte::{
    ajouter, ajouter_texte, caracteres, en_texte, lire_i64, memes_caracteres, meme_texte, rogner,
    tranche, vient_avant,
};
#[allow(unused_imports)]
use crate::texte::{entier_borne, lexicographique, rogne};
use crate::tri::trier;
#[allow(unused_imports)]
use crate::tri::{
    inseree, le_tri_garde_les_elements, le_tri_range_sans_rien_perdre, lemme_push_contient, triee,
};
use vstd::prelude::*;

verus! {

/// Une ligne de rapport hebdomadaire.
#[derive(Clone, Debug, PartialEq, Eq)]
pub struct Rapport {
    /// Le mardi photographié, en `AAAA-MM-JJ`.
    pub jour: String,
    /// Position nette des teneurs : longues moins courtes.
    pub net: i64,
    /// Open interest total du contrat.
    pub open_interest: i64,
}

/// Ce qu'une ligne de rapport dit.
pub struct RapportVu {
    pub jour: Seq<char>,
    pub net: int,
    pub open_interest: int,
}

impl Rapport {
    pub open spec fn vue(&self) -> RapportVu {
        RapportVu {
            jour: self.jour@,
            net: self.net as int,
            open_interest: self.open_interest as int,
        }
    }
}

pub open spec fn vus(v: Seq<Rapport>) -> Seq<RapportVu> {
    Seq::new(v.len(), |i: int| v[i].vue())
}

/// Ce qui empêche de lire un rapport.
#[derive(Clone, Debug, PartialEq, Eq)]
pub enum ErreurCftc {
    /// Le fichier est absent ou illisible, pour la raison dite.
    Fichier(String),
    /// Le contenu n'est pas le JSON attendu.
    Format(String),
}

impl ErreurCftc {
    /// Ce que dit l'erreur.
    pub open spec fn dit(&self) -> Seq<char> {
        match self {
            ErreurCftc::Fichier(e) => "rapport CFTC illisible : "@ + e@
                + ". Lance `scripts/cftc-telecharger.sh` — il dépose les deux fichiers attendus."@,
            ErreurCftc::Format(m) => "rapport CFTC inexploitable : "@ + m@,
        }
    }

    /// Le texte de l'erreur.
    pub fn message(&self) -> (s: String)
        ensures
            s@ == self.dit(),
    {
        let mut v: Vec<char> = Vec::new();
        match self {
            ErreurCftc::Fichier(e) => {
                ajouter_texte(&mut v, "rapport CFTC illisible : ");
                ajouter_texte(&mut v, e.as_str());
                ajouter_texte(
                    &mut v,
                    ". Lance `scripts/cftc-telecharger.sh` — il dépose les deux fichiers attendus.",
                );
            },
            ErreurCftc::Format(m) => {
                ajouter_texte(&mut v, "rapport CFTC inexploitable : ");
                ajouter_texte(&mut v, m.as_str());
            },
        }
        let s: String = en_texte(v.as_slice());
        assert(s@ =~= self.dit());
        s
    }
}

/// Un objet d'un document, ou rien si c'est autre chose : ses champs, et leur texte quand
/// ils en portent un.
pub type Objet = Option<Vec<(String, Option<String>)>>;

/// Les champs d'un objet.
pub type ObjetVu = Option<Seq<(Seq<char>, Option<Seq<char>>)>>;

pub open spec fn texte_vu(t: Option<String>) -> Option<Seq<char>> {
    match t {
        Some(s) => Some(s@),
        None => None,
    }
}

pub open spec fn objet_vu(o: Objet) -> ObjetVu {
    match o {
        Some(v) => Some(Seq::new(v@.len(), |i: int| (v@[i].0@, texte_vu(v@[i].1)))),
        None => None,
    }
}

pub open spec fn objets_vus(v: Seq<Objet>) -> Seq<ObjetVu> {
    Seq::new(v.len(), |i: int| objet_vu(v[i]))
}

pub open spec fn document_vu(r: Result<Option<Vec<Objet>>, String>) -> Result<
    Option<Seq<ObjetVu>>,
    Seq<char>,
> {
    match r {
        Ok(Some(v)) => Ok(Some(objets_vus(v@))),
        Ok(None) => Ok(None),
        Err(e) => Err(e@),
    }
}

/// Ce que `serde_json::from_str` lit d'un texte : l'erreur qu'il écrit, ou la liste que le
/// document est, ou rien s'il n'est pas une liste.
pub uninterp spec fn document_lu(json: Seq<char>) -> Result<
    Option<Seq<Option<Seq<(Seq<char>, Option<Seq<char>>)>>>>,
    Seq<char>,
>;

/// Lit un document par `serde_json::from_str::<Value>`, et en rend les éléments : pour
/// chaque objet, ses champs avec le texte que `Value::as_str` en donne. Ce qui est lu ne
/// dépend que du texte.
#[verifier::external_body]
fn lire_document(json: &str) -> (r: Result<Option<Vec<Objet>>, String>)
    ensures
        document_vu(r) == document_lu(json@),
{
    let racine: serde_json::Value = match serde_json::from_str(json) {
        Ok(v) => v,
        Err(e) => return Err(e.to_string()),
    };
    let champ = |(k, v): (&String, &serde_json::Value)| (k.clone(), v.as_str().map(String::from));
    let objet = |o: &serde_json::Value| o.as_object().map(|m| m.iter().map(champ).collect());
    Ok(racine.as_array().map(|l| l.iter().map(objet).collect()))
}

/// Le texte du champ `cle`, s'il existe et en est un.
pub open spec fn champ_de(o: ObjetVu, cle: Seq<char>) -> Option<Seq<char>> {
    match o {
        None => None,
        Some(v) => champ_parmi(v, cle),
    }
}

pub open spec fn champ_parmi(
    v: Seq<(Seq<char>, Option<Seq<char>>)>,
    cle: Seq<char>,
) -> Option<Seq<char>>
    decreases v.len(),
{
    if v.len() == 0 {
        None
    } else if v[0].0 == cle {
        v[0].1
    } else {
        champ_parmi(v.skip(1), cle)
    }
}

fn champ(o: &Objet, cle: &str) -> (r: Option<Vec<char>>)
    ensures
        match r {
            Some(t) => champ_de(objet_vu(*o), cle@) == Some(t@),
            None => champ_de(objet_vu(*o), cle@) is None,
        },
{
    match o {
        None => None,
        Some(v) => {
            let ghost vu = objet_vu(*o)->0;
            let mut i: usize = 0;
            assert(vu.skip(0) =~= vu);
            while i < v.len()
                invariant
                    i <= v@.len(),
                    objet_vu(*o) == Some(vu),
                    vu == (Seq::new(v@.len(), |i: int| (v@[i].0@, texte_vu(v@[i].1)))),
                    champ_parmi(vu, cle@) == champ_parmi(vu.skip(i as int), cle@),
                decreases v@.len() - i,
            {
                assert(vu.skip(i as int).skip(1) =~= vu.skip(i + 1));
                assert(vu.skip(i as int)[0] == vu[i as int]);
                if meme_texte(v[i].0.as_str(), cle) {
                    return match &v[i].1 {
                        Some(t) => Some(caracteres(t.as_str())),
                        None => None,
                    };
                }
                i += 1;
            }
            None
        },
    }
}

/// Le service rend ses nombres en chaînes : le texte du champ, rogné, lu en entier.
pub open spec fn entier_de(o: ObjetVu, cle: Seq<char>) -> Option<int> {
    match champ_de(o, cle) {
        Some(t) => entier_borne(rogne(t), i64::MIN as int, i64::MAX as int),
        None => None,
    }
}

fn entier(o: &Objet, cle: &str) -> (r: Option<i64>)
    ensures
        match r {
            Some(n) => entier_de(objet_vu(*o), cle@) == Some(n as int),
            None => entier_de(objet_vu(*o), cle@) is None,
        },
{
    match champ(o, cle) {
        None => None,
        Some(t) => lire_i64(rogner(t.as_slice()).as_slice()),
    }
}

/// La version qu'un objet annonce, vide s'il n'en annonce pas.
pub open spec fn version_de(o: ObjetVu) -> Seq<char> {
    match champ_de(o, "futonly_or_combined"@) {
        Some(t) => t,
        None => Seq::empty(),
    }
}

/// La ligne de rapport qu'un objet porte, si ses quatre champs se lisent. L'horodatage
/// porte une heure qui ne veut rien dire : seul le jour reste.
pub open spec fn rapport_de(o: ObjetVu) -> Option<RapportVu> {
    match (
        entier_de(o, "dealer_positions_long_all"@),
        entier_de(o, "dealer_positions_short_all"@),
        entier_de(o, "open_interest_all"@),
        champ_de(o, "report_date_as_yyyy_mm_dd"@),
    ) {
        (Some(long), Some(court), Some(oi), Some(jour)) => Some(
            RapportVu {
                jour: if jour.len() < 10 {
                    jour
                } else {
                    jour.take(10)
                },
                net: long - court,
                open_interest: oi,
            },
        ),
        _ => None,
    }
}

/// Le refus d'une version qui n'est pas celle annoncée.
pub open spec fn refus_de_version(version: Seq<char>, attendu: Seq<char>) -> Seq<char> {
    "ce fichier est « "@ + version + " » alors que « "@ + attendu
        + " » était attendu : les deux versions ont la même forme, et les confondre rendrait une différence nulle qu'on prendrait pour une mesure"@
}

fn dire_refus(version: &[char], attendu: &str) -> (s: String)
    ensures
        s@ == refus_de_version(version@, attendu@),
{
    let mut v: Vec<char> = Vec::new();
    ajouter_texte(&mut v, "ce fichier est « ");
    ajouter(&mut v, version);
    ajouter_texte(&mut v, " » alors que « ");
    ajouter_texte(&mut v, attendu);
    ajouter_texte(
        &mut v,
        " » était attendu : les deux versions ont la même forme, et les confondre rendrait une différence nulle qu'on prendrait pour une mesure",
    );
    let s: String = en_texte(v.as_slice());
    assert(s@ =~= refus_de_version(version@, attendu@));
    s
}

/// Les lignes exploitables d'un document, dans son ordre ; ou le refus de la première
/// ligne qui n'est pas de la version attendue.
pub open spec fn exploitees(v: Seq<ObjetVu>, attendu: Seq<char>) -> Result<
    Seq<RapportVu>,
    Seq<char>,
>
    decreases v.len(),
{
    if v.len() == 0 {
        Ok(Seq::empty())
    } else {
        match exploitees(v.drop_last(), attendu) {
            Err(e) => Err(e),
            Ok(s) => if version_de(v.last()) != attendu {
                Err(refus_de_version(version_de(v.last()), attendu))
            } else {
                match rapport_de(v.last()) {
                    Some(x) => Ok(s.push(x)),
                    None => Ok(s),
                }
            },
        }
    }
}

/// L'ordre des jours.
pub open spec fn jour_avant(a: RapportVu, b: RapportVu) -> bool {
    lexicographique(a.jour, b.jour)
}

/// Les lignes exploitables rangées par jour, ou ce qui les fait refuser.
pub open spec fn rapports_de(v: Seq<ObjetVu>, attendu: Seq<char>) -> Result<
    Seq<RapportVu>,
    Seq<char>,
> {
    match exploitees(v, attendu) {
        Err(e) => Err(e),
        Ok(s) => if s.len() == 0 {
            Err("aucune ligne exploitable"@)
        } else {
            Ok(triee(s, |a: RapportVu, b: RapportVu| jour_avant(a, b)))
        },
    }
}

/// Les positions nettes que la lecture calcule tiennent dans un entier.
pub open spec fn positions_tenables(v: Seq<ObjetVu>, attendu: Seq<char>) -> bool {
    forall|i: int|
        0 <= i < v.len() && exploitees(v.take(i), attendu) is Ok && version_de(#[trigger] v[i])
            == attendu ==> match rapport_de(v[i]) {
            Some(x) => i64::MIN <= x.net <= i64::MAX,
            None => true,
        }
}

/// Ce que la lecture d'un document donne.
pub open spec fn lecture_de(
    d: Result<Option<Seq<ObjetVu>>, Seq<char>>,
    attendu: Seq<char>,
) -> Result<Seq<RapportVu>, Seq<char>> {
    match d {
        Err(e) => Err(e),
        Ok(None) => Err("le document n'est pas une liste"@),
        Ok(Some(v)) => rapports_de(v, attendu),
    }
}

pub open spec fn document_tenable(
    d: Result<Option<Seq<ObjetVu>>, Seq<char>>,
    attendu: Seq<char>,
) -> bool {
    match d {
        Ok(Some(v)) => positions_tenables(v, attendu),
        _ => true,
    }
}

pub open spec fn lecture_vue(r: Result<Vec<Rapport>, ErreurCftc>) -> Result<
    Seq<RapportVu>,
    Seq<char>,
> {
    match r {
        Ok(v) => Ok(vus(v@)),
        Err(ErreurCftc::Format(m)) => Err(m@),
        Err(ErreurCftc::Fichier(m)) => Err(m@),
    }
}

/// Range une ligne à sa place, après celles du même jour.
fn ranger(v: &mut Vec<Rapport>, x: Rapport)
    ensures
        vus(final(v)@) == inseree(
            vus(old(v)@),
            x.vue(),
            |a: RapportVu, b: RapportVu| jour_avant(a, b),
        ),
{
    let ghost avant = |a: RapportVu, b: RapportVu| jour_avant(a, b);
    let ghost s = vus(v@);
    let ghost y = x.vue();
    let clef: Vec<char> = caracteres(x.jour.as_str());
    let mut j: usize = v.len();
    proof {
        assert(s.take(j as int) =~= s);
        assert(s.skip(j as int) =~= Seq::<RapportVu>::empty());
        assert(inseree(s, y, avant) =~= inseree(s.take(j as int), y, avant) + s.skip(j as int));
    }
    while j > 0 && vient_avant(clef.as_slice(), caracteres(v[j - 1].jour.as_str()).as_slice())
        invariant
            j <= v@.len(),
            s == vus(v@),
            y == x.vue(),
            clef@ == x.jour@,
            avant == (|a: RapportVu, b: RapportVu| jour_avant(a, b)),
            inseree(s, y, avant) == inseree(s.take(j as int), y, avant) + s.skip(j as int),
        decreases j,
    {
        proof {
            let t = s.take(j as int);
            assert(t.last() == s[j - 1]);
            assert(t.drop_last() =~= s.take(j - 1));
            assert(avant(y, t.last()));
            assert(inseree(t, y, avant) + s.skip(j as int) =~= inseree(s.take(j - 1), y, avant)
                + s.skip(j - 1));
        }
        j -= 1;
    }
    proof {
        let t = s.take(j as int);
        if j > 0 {
            assert(t.last() == s[j - 1]);
            assert(!avant(y, t.last()));
        }
        assert(inseree(t, y, avant) == t.push(y));
    }
    v.insert(j, x);
    assert(vus(v@) =~= inseree(s, y, avant));
}

/// Les lignes exploitables de `lignes`, rangées par jour. Toutes doivent être de la
/// version attendue : les deux fichiers ont la même forme, et les intervertir donnerait
/// une différence nulle.
pub fn exploiter(lignes: &Vec<Objet>, attendu: &str) -> (r: Result<Vec<Rapport>, ErreurCftc>)
    requires
        positions_tenables(objets_vus(lignes@), attendu@),
    ensures
        lecture_vue(r) == rapports_de(objets_vus(lignes@), attendu@),
        r matches Err(e) ==> e is Format,
{
    let ghost v = objets_vus(lignes@);
    let ghost avant = |a: RapportVu, b: RapportVu| jour_avant(a, b);
    let ghost mut lues: Seq<RapportVu> = Seq::empty();
    let mut sortie: Vec<Rapport> = Vec::new();
    let mut i: usize = 0;
    assert(vus(sortie@) =~= triee(lues, avant));
    while i < lignes.len()
        invariant
            i <= lignes@.len(),
            v == objets_vus(lignes@),
            positions_tenables(v, attendu@),
            avant == (|a: RapportVu, b: RapportVu| jour_avant(a, b)),
            exploitees(v.take(i as int), attendu@) == Ok::<Seq<RapportVu>, Seq<char>>(lues),
            vus(sortie@) == triee(lues, avant),
            sortie@.len() == lues.len(),
        decreases lignes@.len() - i,
    {
        proof {
            assert(v.take(i + 1).drop_last() =~= v.take(i as int));
            assert(v.take(i + 1).last() == v[i as int]);
        }
        let ligne: &Objet = &lignes[i];
        assert(v[i as int] == objet_vu(*ligne));
        let version: Vec<char> = match champ(ligne, "futonly_or_combined") {
            Some(t) => t,
            None => Vec::new(),
        };
        assert(version@ =~= version_de(v[i as int]));
        if !memes_caracteres(version.as_slice(), caracteres(attendu).as_slice()) {
            proof {
                lemme_refus(v, attendu@, i as int);
            }
            return Err(ErreurCftc::Format(dire_refus(version.as_slice(), attendu)));
        }
        let long: Option<i64> = entier(ligne, "dealer_positions_long_all");
        let court: Option<i64> = entier(ligne, "dealer_positions_short_all");
        let oi: Option<i64> = entier(ligne, "open_interest_all");
        let jour: Option<Vec<char>> = champ(ligne, "report_date_as_yyyy_mm_dd");
        if let (Some(l), Some(c), Some(o), Some(j)) = (long, court, oi, jour) {
            let jour: String = if j.len() < 10 {
                en_texte(j.as_slice())
            } else {
                en_texte(tranche(j.as_slice(), 0, 10).as_slice())
            };
            proof {
                if j@.len() >= 10 {
                    assert(j@.subrange(0, 10) =~= j@.take(10));
                }
            }
            let x: Rapport = Rapport { jour, net: l - c, open_interest: o };
            assert(rapport_de(v[i as int]) == Some(x.vue()));
            ranger(&mut sortie, x);
            proof {
                let avant_lues = lues;
                lues = lues.push(x.vue());
                assert(lues.drop_last() =~= avant_lues);
                le_tri_garde_les_elements(lues, avant);
            }
        }
        i += 1;
    }
    assert(v.take(i as int) =~= v);
    if sortie.len() == 0 {
        return Err(
            ErreurCftc::Format(
                en_texte(caracteres("aucune ligne exploitable").as_slice()),
            ),
        );
    }
    Ok(sortie)
}

/// Un refus ne se rattrape pas.
proof fn lemme_refus(v: Seq<ObjetVu>, attendu: Seq<char>, i: int)
    requires
        0 <= i < v.len(),
        exploitees(v.take(i), attendu) is Ok,
        version_de(v[i]) != attendu,
    ensures
        exploitees(v, attendu) == Err::<Seq<RapportVu>, Seq<char>>(
            refus_de_version(version_de(v[i]), attendu),
        ),
    decreases v.len(),
{
    if i == v.len() - 1 {
        assert(v.drop_last() =~= v.take(i));
    } else {
        assert(v.drop_last().take(i) =~= v.take(i));
        lemme_refus(v.drop_last(), attendu, i);
    }
}

/// Lit un rapport, en exigeant qu'il soit de la version annoncée, « Combined » ou
/// « FutOnly ».
pub fn lire(json: &str, attendu: &str) -> (r: Result<Vec<Rapport>, ErreurCftc>)
    requires
        document_tenable(document_lu(json@), attendu@),
    ensures
        lecture_vue(r) == lecture_de(document_lu(json@), attendu@),
        r matches Err(e) ==> e is Format,
{
    match lire_document(json) {
        Err(e) => Err(ErreurCftc::Format(e)),
        Ok(None) => Err(
            ErreurCftc::Format(
                en_texte(caracteres("le document n'est pas une liste").as_slice()),
            ),
        ),
        Ok(Some(lignes)) => exploiter(&lignes, attendu),
    }
}

/// Les positions nettes de `lignes` tiennent-elles toutes dans un entier ?
fn sont_tenables(lignes: &Vec<Objet>, attendu: &str) -> (b: bool)
    ensures
        b == positions_tenables(objets_vus(lignes@), attendu@),
{
    let ghost v = objets_vus(lignes@);
    let voulu: Vec<char> = caracteres(attendu);
    let mut i: usize = 0;
    while i < lignes.len()
        invariant
            i <= lignes@.len(),
            v == objets_vus(lignes@),
            voulu@ == attendu@,
            exploitees(v.take(i as int), attendu@) is Ok,
            forall|k: int|
                0 <= k < i && exploitees(v.take(k), attendu@) is Ok && version_de(#[trigger] v[k])
                    == attendu@ ==> match rapport_de(v[k]) {
                    Some(x) => i64::MIN <= x.net <= i64::MAX,
                    None => true,
                },
        decreases lignes@.len() - i,
    {
        proof {
            assert(v.take(i + 1).drop_last() =~= v.take(i as int));
            assert(v.take(i + 1).last() == v[i as int]);
        }
        let ligne: &Objet = &lignes[i];
        assert(v[i as int] == objet_vu(*ligne));
        let version: Vec<char> = match champ(ligne, "futonly_or_combined") {
            Some(t) => t,
            None => Vec::new(),
        };
        assert(version@ =~= version_de(v[i as int]));
        if !memes_caracteres(version.as_slice(), voulu.as_slice()) {
            proof {
                assert forall|k: int|
                    0 <= k < v.len() && exploitees(v.take(k), attendu@) is Ok && version_de(
                        #[trigger] v[k],
                    ) == attendu@ implies match rapport_de(v[k]) {
                    Some(x) => i64::MIN <= x.net <= i64::MAX,
                    None => true,
                } by {
                    if k > i {
                        assert(v.take(k).take(i as int) =~= v.take(i as int));
                        lemme_refus(v.take(k), attendu@, i as int);
                    }
                }
            }
            return true;
        }
        let long: Option<i64> = entier(ligne, "dealer_positions_long_all");
        let court: Option<i64> = entier(ligne, "dealer_positions_short_all");
        let oi: Option<i64> = entier(ligne, "open_interest_all");
        let jour: Option<Vec<char>> = champ(ligne, "report_date_as_yyyy_mm_dd");
        if let (Some(l), Some(c), Some(_o), Some(_j)) = (long, court, oi, jour) {
            assert(rapport_de(v[i as int]) is Some && rapport_de(v[i as int])->0.net == l - c);
            if l.checked_sub(c).is_none() {
                return false;
            }
        }
        i += 1;
    }
    true
}

/// Lit un rapport si ses positions nettes tiennent dans un entier ; rien sinon.
pub fn lire_si_tenable(json: &str, attendu: &str) -> (r: Option<
    Result<Vec<Rapport>, ErreurCftc>,
>)
    ensures
        r is Some <==> document_tenable(document_lu(json@), attendu@),
        r matches Some(l) ==> lecture_vue(l) == lecture_de(document_lu(json@), attendu@),
        r matches Some(Err(e)) ==> e is Format,
{
    match lire_document(json) {
        Ok(Some(lignes)) if !sont_tenables(&lignes, attendu) => None,
        _ => Some(lire(json, attendu)),
    }
}

/// Ce que la confrontation donne.
#[derive(Clone, Debug, PartialEq, Eq)]
pub struct Confrontation {
    /// Semaines présentes dans les deux versions.
    pub semaines: usize,
    /// La première.
    pub debut: String,
    /// La dernière.
    pub fin: String,
    /// Semaines où le delta d'options est positif : ce que la convention prédit.
    pub conformes: usize,
    /// Semaines où il est négatif.
    pub contraires: usize,
    /// Semaines où il est exactement nul.
    pub nuls: usize,
    /// Amplitude médiane du delta d'options, en contrats.
    pub amplitude_mediane: i64,
    /// Open interest optionnel médian, en contrats.
    pub oi_optionnel_median: i64,
    /// Semaines où la position nette globale est courte.
    pub nettes_courtes: usize,
}

/// La dernière ligne du jour, si le jour y est.
pub open spec fn ligne_du(v: Seq<RapportVu>, jour: Seq<char>) -> Option<RapportVu>
    decreases v.len(),
{
    if v.len() == 0 {
        None
    } else if v.last().jour == jour {
        Some(v.last())
    } else {
        ligne_du(v.drop_last(), jour)
    }
}

/// Une semaine présente des deux côtés : la ligne combinée, puis celle des futures seuls.
pub type Semaine = (RapportVu, RapportVu);

/// Les semaines présentes des deux côtés, dans l'ordre de la version combinée.
pub open spec fn semaines_de(c: Seq<RapportVu>, f: Seq<RapportVu>) -> Seq<Semaine>
    decreases c.len(),
{
    if c.len() == 0 {
        Seq::empty()
    } else {
        let debut = semaines_de(c.drop_last(), f);
        match ligne_du(f, c.last().jour) {
            Some(x) => debut.push((c.last(), x)),
            None => debut,
        }
    }
}

/// Le delta du livre d'options d'une semaine.
pub open spec fn delta_de(s: Semaine) -> int {
    s.0.net - s.1.net
}

/// L'open interest optionnel d'une semaine.
pub open spec fn oi_de(s: Semaine) -> int {
    s.0.open_interest - s.1.open_interest
}

/// Ce qui se calcule d'une semaine tient dans un entier.
pub open spec fn semaine_tenable(s: Semaine) -> bool {
    &&& -i64::MAX <= delta_de(s) <= i64::MAX
    &&& i64::MIN <= oi_de(s) <= i64::MAX
}

pub open spec fn semaines_tenables(c: Seq<RapportVu>, f: Seq<RapportVu>) -> bool {
    forall|i: int|
        0 <= i < semaines_de(c, f).len() ==> semaine_tenable(#[trigger] semaines_de(c, f)[i])
}

/// Combien de semaines satisfont `p`.
pub open spec fn compte(s: Seq<Semaine>, p: spec_fn(Semaine) -> bool) -> nat
    decreases s.len(),
{
    if s.len() == 0 {
        0
    } else {
        compte(s.drop_last(), p) + if p(s.last()) {
            1nat
        } else {
            0nat
        }
    }
}

/// La médiane d'entiers : l'élément du milieu, le plus haut des deux quand leur nombre est
/// pair, zéro sur rien.
pub open spec fn mediane_entiere(v: Seq<i64>) -> i64 {
    if v.len() == 0 {
        0
    } else {
        triee(v, |a: i64, b: i64| a < b)[v.len() as int / 2]
    }
}

fn avant_entier(a: i64, b: i64) -> (r: bool)
    ensures
        r == (a < b),
{
    a < b
}

fn mediane(v: &Vec<i64>) -> (m: i64)
    ensures
        m == mediane_entiere(v@),
{
    if v.len() == 0 {
        return 0;
    }
    let ghost avant = |a: i64, b: i64| a < b;
    let t: Vec<i64> = trier(v.as_slice(), avant_entier, Ghost(avant));
    proof {
        le_tri_garde_les_elements(v@, avant);
    }
    t[v.len() / 2]
}

/// La valeur absolue d'un delta.
pub open spec fn amplitude_de(s: Semaine) -> i64 {
    if delta_de(s) < 0 {
        (-delta_de(s)) as i64
    } else {
        delta_de(s) as i64
    }
}

pub open spec fn amplitudes(s: Seq<Semaine>) -> Seq<i64> {
    Seq::new(s.len(), |i: int| amplitude_de(s[i]))
}

pub open spec fn ois(s: Seq<Semaine>) -> Seq<i64> {
    Seq::new(s.len(), |i: int| oi_de(s[i]) as i64)
}

/// Cherche la dernière ligne du jour.
fn chercher_jour(v: &[Rapport], jour: &str) -> (r: Option<usize>)
    ensures
        match r {
            Some(k) => k < v@.len() && ligne_du(vus(v@), jour@) == Some(v@[k as int].vue()),
            None => ligne_du(vus(v@), jour@) is None,
        },
{
    let mut i: usize = v.len();
    assert(vus(v@).take(i as int) =~= vus(v@));
    while i > 0
        invariant
            i <= v@.len(),
            ligne_du(vus(v@), jour@) == ligne_du(vus(v@).take(i as int), jour@),
        decreases i,
    {
        proof {
            assert(vus(v@).take(i as int).last() == v@[i - 1].vue());
            assert(vus(v@).take(i as int).drop_last() =~= vus(v@).take(i - 1));
        }
        if meme_texte(v[i - 1].jour.as_str(), jour) {
            return Some(i - 1);
        }
        i -= 1;
    }
    None
}

/// Ce que la confrontation de `p` semaines dit.
pub open spec fn confrontation_de(c: Confrontation, p: Seq<Semaine>) -> bool {
    &&& c.semaines == p.len()
    &&& c.debut@ == if p.len() == 0 {
        Seq::empty()
    } else {
        p[0].0.jour
    }
    &&& c.fin@ == if p.len() == 0 {
        Seq::empty()
    } else {
        p.last().0.jour
    }
    &&& c.conformes == compte(p, |s: Semaine| delta_de(s) > 0)
    &&& c.contraires == compte(p, |s: Semaine| delta_de(s) < 0)
    &&& c.nuls == compte(p, |s: Semaine| delta_de(s) == 0)
    &&& c.amplitude_mediane == mediane_entiere(amplitudes(p))
    &&& c.oi_optionnel_median == mediane_entiere(ois(p))
    &&& c.nettes_courtes == compte(p, |s: Semaine| s.0.net < 0)
}

/// Chaque semaine appariée est conforme, contraire ou nulle, et une seule fois.
pub proof fn les_semaines_se_partagent(p: Seq<Semaine>)
    ensures
        compte(p, |s: Semaine| delta_de(s) > 0) + compte(p, |s: Semaine| delta_de(s) < 0) + compte(
            p,
            |s: Semaine| delta_de(s) == 0,
        ) == p.len(),
        compte(p, |s: Semaine| s.0.net < 0) <= p.len(),
    decreases p.len(),
{
    if p.len() > 0 {
        les_semaines_se_partagent(p.drop_last());
    }
}

/// Confronte les deux versions du rapport. Seules les semaines présentes des deux côtés
/// comptent : la différence n'a de sens qu'entre deux photos du même mardi.
pub fn confronter(combine: &[Rapport], futures: &[Rapport]) -> (r: Confrontation)
    requires
        semaines_tenables(vus(combine@), vus(futures@)),
    ensures
        confrontation_de(r, semaines_de(vus(combine@), vus(futures@))),
        r.conformes + r.contraires + r.nuls == r.semaines,
{
    let ghost (c, f) = (vus(combine@), vus(futures@));
    let ghost mut p: Seq<Semaine> = Seq::empty();
    let mut conformes: usize = 0;
    let mut contraires: usize = 0;
    let mut nuls: usize = 0;
    let mut nettes_courtes: usize = 0;
    let mut amp: Vec<i64> = Vec::new();
    let mut oi: Vec<i64> = Vec::new();
    let mut debut: Option<usize> = None;
    let mut fin: usize = 0;
    let mut i: usize = 0;
    while i < combine.len()
        invariant
            i <= combine@.len(),
            c == vus(combine@),
            f == vus(futures@),
            semaines_tenables(c, f),
            p == semaines_de(c.take(i as int), f),
            p.len() <= i,
            conformes == compte(p, |s: Semaine| delta_de(s) > 0),
            contraires == compte(p, |s: Semaine| delta_de(s) < 0),
            nuls == compte(p, |s: Semaine| delta_de(s) == 0),
            nettes_courtes == compte(p, |s: Semaine| s.0.net < 0),
            amp@ == amplitudes(p),
            oi@ == ois(p),
            (debut is None) == (p.len() == 0),
            debut matches Some(k) ==> k < combine@.len() && p[0].0 == combine@[k as int].vue(),
            debut is Some ==> fin < combine@.len() && p.last().0 == combine@[fin as int].vue(),
        decreases combine@.len() - i,
    {
        let ghost avant = p;
        proof {
            assert(c.take(i + 1).drop_last() =~= c.take(i as int));
            assert(c.take(i + 1).last() == combine@[i as int].vue());
            les_semaines_se_partagent(p);
        }
        let ligne: &Rapport = &combine[i];
        if let Some(k) = chercher_jour(futures, ligne.jour.as_str()) {
            let autre: &Rapport = &futures[k];
            proof {
                let s = (ligne.vue(), autre.vue());
                p = avant.push(s);
                assert(p == semaines_de(c.take(i + 1), f));
                lemme_prefixe_de_semaines(c, f, i + 1);
                assert(semaines_de(c, f)[p.len() - 1] == s);
                assert(semaine_tenable(s));
                assert(p.drop_last() =~= avant);
                assert(p.last() == s);
            }
            let delta: i64 = ligne.net - autre.net;
            let amplitude: i64 = if delta < 0 {
                -delta
            } else {
                delta
            };
            if delta > 0 {
                conformes += 1;
            } else if delta < 0 {
                contraires += 1;
            } else {
                nuls += 1;
            }
            if ligne.net < 0 {
                nettes_courtes += 1;
            }
            amp.push(amplitude);
            oi.push(ligne.open_interest - autre.open_interest);
            assert(amp@ =~= amplitudes(p));
            assert(oi@ =~= ois(p));
            if debut.is_none() {
                debut = Some(i);
            }
            fin = i;
        }
        i += 1;
    }
    proof {
        assert(c.take(i as int) =~= c);
        les_semaines_se_partagent(p);
    }
    let (premier, dernier): (String, String) = match debut {
        Some(k) => (
            en_texte(caracteres(combine[k].jour.as_str()).as_slice()),
            en_texte(caracteres(combine[fin].jour.as_str()).as_slice()),
        ),
        None => (en_texte(Vec::new().as_slice()), en_texte(Vec::new().as_slice())),
    };
    let semaines: usize = amp.len();
    assert(debut is None ==> premier@ =~= Seq::empty() && dernier@ =~= Seq::empty());
    Confrontation {
        semaines,
        debut: premier,
        fin: dernier,
        conformes,
        contraires,
        nuls,
        amplitude_mediane: mediane(&amp),
        oi_optionnel_median: mediane(&oi),
        nettes_courtes,
    }
}

/// Les semaines des premières lignes sont les premières semaines.
proof fn lemme_prefixe_de_semaines(c: Seq<RapportVu>, f: Seq<RapportVu>, i: int)
    requires
        0 <= i <= c.len(),
    ensures
        semaines_de(c.take(i), f).len() <= semaines_de(c, f).len(),
        forall|k: int|
            0 <= k < semaines_de(c.take(i), f).len() ==> semaines_de(c.take(i), f)[k]
                == #[trigger] semaines_de(c, f)[k],
    decreases c.len(),
{
    if i == c.len() {
        assert(c.take(i) =~= c);
    } else {
        lemme_prefixe_de_semaines(c.drop_last(), f, i);
        assert(c.drop_last().take(i) =~= c.take(i));
    }
}

/// Aucun jour n'est présent deux fois.
pub open spec fn jours_distincts(v: Seq<RapportVu>) -> bool {
    forall|i: int, j: int| 0 <= i < j < v.len() ==> #[trigger] v[i].jour != #[trigger] v[j].jour
}

/// La même semaine, les deux versions interverties.
pub open spec fn intervertie(s: Semaine) -> Semaine {
    (s.1, s.0)
}

pub open spec fn interverties(s: Seq<Semaine>) -> Seq<Semaine> {
    Seq::new(s.len(), |i: int| intervertie(s[i]))
}

proof fn lemme_ligne_du(v: Seq<RapportVu>, jour: Seq<char>)
    ensures
        ligne_du(v, jour) matches Some(x) ==> v.contains(x) && x.jour == jour,
        ligne_du(v, jour) is None ==> forall|x: RapportVu| #[trigger] v.contains(x) ==> x.jour
            != jour,
    decreases v.len(),
{
    if v.len() > 0 {
        let t = v.drop_last();
        lemme_ligne_du(t, jour);
        assert(v == t.push(v.last()));
        assert forall|x: RapportVu| #[trigger] v.contains(x) implies t.contains(x) || x
            == v.last() by {
            lemme_push_contient(t, v.last(), x);
        }
        if v.last().jour != jour && ligne_du(v, jour) is Some {
            lemme_push_contient(t, v.last(), ligne_du(t, jour)->Some_0);
        }
        assert(v[v.len() - 1] == v.last());
    }
}

/// Les semaines communes sont les paires d'un même jour, une de chaque version.
proof fn lemme_semaines(c: Seq<RapportVu>, f: Seq<RapportVu>)
    requires
        jours_distincts(c),
        jours_distincts(f),
    ensures
        forall|s: Semaine| #[trigger]
            semaines_de(c, f).contains(s) <==> c.contains(s.0) && f.contains(s.1) && s.0.jour
                == s.1.jour,
        semaines_de(c, f).no_duplicates(),
    decreases c.len(),
{
    if c.len() > 0 {
        let t = c.drop_last();
        let d = c.last();
        let p = semaines_de(c, f);
        let q = semaines_de(t, f);
        assert(jours_distincts(t));
        lemme_semaines(t, f);
        lemme_ligne_du(f, d.jour);
        assert(c == t.push(d));
        assert(!t.contains(d)) by {
            if t.contains(d) {
                let k = choose|k: int| 0 <= k < t.len() && t[k] == d;
                assert(c[k].jour != c[c.len() - 1].jour);
            }
        }
        assert forall|s: Semaine| #[trigger] p.contains(s) <==> c.contains(s.0) && f.contains(s.1)
            && s.0.jour == s.1.jour by {
            lemme_push_contient(t, d, s.0);
            match ligne_du(f, d.jour) {
                Some(x) => {
                    lemme_push_contient(q, (d, x), s);
                    if s.0 == d && f.contains(s.1) && s.1.jour == d.jour {
                        let i = choose|i: int| 0 <= i < f.len() && f[i] == s.1;
                        let j = choose|j: int| 0 <= j < f.len() && f[j] == x;
                        assert(i == j);
                    }
                },
                None => {},
            }
        }
        if let Some(x) = ligne_du(f, d.jour) {
            assert(!q.contains((d, x)));
            assert forall|i: int, j: int| 0 <= i < p.len() && 0 <= j < p.len() && i != j implies p[i]
                != p[j] by {
                if i == q.len() {
                    assert(q[j] == p[j]);
                } else if j == q.len() {
                    assert(q[i] == p[i]);
                } else {
                    assert(q[i] == p[i] && q[j] == p[j]);
                }
            }
        }
    }
}

proof fn lemme_memes_elements(a: Seq<Semaine>, b: Seq<Semaine>)
    requires
        a.no_duplicates(),
        b.no_duplicates(),
        forall|s: Semaine| #[trigger] a.contains(s) <==> b.contains(s),
    ensures
        a.to_multiset() == b.to_multiset(),
{
    a.to_multiset_ensures();
    b.to_multiset_ensures();
    a.lemma_multiset_has_no_duplicates();
    b.lemma_multiset_has_no_duplicates();
    assert forall|s: Semaine| #[trigger] a.to_multiset().count(s) == b.to_multiset().count(s) by {
        assert(a.contains(s) <==> b.contains(s));
        assert(a.to_multiset().contains(s) <==> a.to_multiset().count(s) > 0);
        assert(b.to_multiset().contains(s) <==> b.to_multiset().count(s) > 0);
    }
    assert(a.to_multiset() =~= b.to_multiset());
}

/// Retirer une ligne de deux suites permutées les laisse permutées.
proof fn lemme_retrait(a: Seq<Semaine>, b: Seq<Semaine>) -> (k: int)
    requires
        a.len() > 0,
        a.to_multiset() == b.to_multiset(),
    ensures
        0 <= k < b.len(),
        b[k] == a.last(),
        a.drop_last().to_multiset() == b.remove(k).to_multiset(),
        a.len() == b.len(),
{
    a.to_multiset_ensures();
    b.to_multiset_ensures();
    a.drop_last().to_multiset_ensures();
    let x = a.last();
    assert(a[a.len() - 1] == x);
    assert(a.contains(x));
    assert(a.to_multiset().count(x) > 0);
    assert(b.to_multiset().count(x) > 0);
    assert(b.contains(x));
    let k = choose|k: int| 0 <= k < b.len() && b[k] == x;
    assert(a == a.drop_last().push(x));
    assert(a.drop_last().to_multiset() =~= a.to_multiset().remove(x));
    k
}

proof fn lemme_compte_retrait(s: Seq<Semaine>, k: int, p: spec_fn(Semaine) -> bool)
    requires
        0 <= k < s.len(),
    ensures
        compte(s, p) == compte(s.remove(k), p) + if p(s[k]) {
            1nat
        } else {
            0nat
        },
    decreases s.len(),
{
    if k < s.len() - 1 {
        lemme_compte_retrait(s.drop_last(), k, p);
        assert(s.remove(k).drop_last() =~= s.drop_last().remove(k));
        assert(s.remove(k).last() == s.last());
    } else {
        assert(s.remove(k) =~= s.drop_last());
    }
}

proof fn lemme_compte_permute(a: Seq<Semaine>, b: Seq<Semaine>, p: spec_fn(Semaine) -> bool)
    requires
        a.to_multiset() == b.to_multiset(),
    ensures
        compte(a, p) == compte(b, p),
        a.len() == b.len(),
    decreases a.len(),
{
    a.to_multiset_ensures();
    b.to_multiset_ensures();
    if a.len() > 0 {
        let k = lemme_retrait(a, b);
        lemme_compte_permute(a.drop_last(), b.remove(k), p);
        lemme_compte_retrait(b, k, p);
    }
}

proof fn lemme_amplitudes_permutees(a: Seq<Semaine>, b: Seq<Semaine>)
    requires
        a.to_multiset() == b.to_multiset(),
    ensures
        amplitudes(a).to_multiset() == amplitudes(b).to_multiset(),
    decreases a.len(),
{
    a.to_multiset_ensures();
    b.to_multiset_ensures();
    if a.len() > 0 {
        let k = lemme_retrait(a, b);
        let (ra, rb) = (a.drop_last(), b.remove(k));
        lemme_amplitudes_permutees(ra, rb);
        let x = amplitude_de(a.last());
        amplitudes(ra).to_multiset_ensures();
        amplitudes(b).to_multiset_ensures();
        assert(amplitudes(a) =~= amplitudes(ra).push(x));
        assert(amplitudes(rb) =~= amplitudes(b).remove(k));
        assert(amplitudes(b)[k] == x);
        assert(amplitudes(b).contains(x));
        assert(amplitudes(b).to_multiset() =~= amplitudes(b).to_multiset().remove(x).insert(x));
    } else {
        assert(amplitudes(a) =~= amplitudes(b));
    }
}

proof fn lemme_mediane_permutee(a: Seq<i64>, b: Seq<i64>)
    requires
        a.to_multiset() == b.to_multiset(),
    ensures
        mediane_entiere(a) == mediane_entiere(b),
{
    let avant = |x: i64, y: i64| x < y;
    let ordre = |x: i64, y: i64| x <= y;
    a.to_multiset_ensures();
    b.to_multiset_ensures();
    le_tri_range_sans_rien_perdre(a, avant);
    le_tri_range_sans_rien_perdre(b, avant);
    let (ta, tb) = (triee(a, avant), triee(b, avant));
    assert(vstd::relations::sorted_by(ta, ordre)) by {
        assert forall|i: int, j: int| 0 <= i < j < ta.len() implies ordre(
            #[trigger] ta[i],
            #[trigger] ta[j],
        ) by {
            assert(!avant(ta[j], ta[i]));
        }
    }
    assert(vstd::relations::sorted_by(tb, ordre)) by {
        assert forall|i: int, j: int| 0 <= i < j < tb.len() implies ordre(
            #[trigger] tb[i],
            #[trigger] tb[j],
        ) by {
            assert(!avant(tb[j], tb[i]));
        }
    }
    vstd::seq_lib::lemma_sorted_unique(ta, tb, ordre);
}

proof fn lemme_compte_interverti(s: Seq<Semaine>)
    ensures
        compte(interverties(s), |x: Semaine| delta_de(x) > 0) == compte(
            s,
            |x: Semaine| delta_de(x) < 0,
        ),
        compte(interverties(s), |x: Semaine| delta_de(x) < 0) == compte(
            s,
            |x: Semaine| delta_de(x) > 0,
        ),
        compte(interverties(s), |x: Semaine| delta_de(x) == 0) == compte(
            s,
            |x: Semaine| delta_de(x) == 0,
        ),
    decreases s.len(),
{
    if s.len() > 0 {
        lemme_compte_interverti(s.drop_last());
        assert(interverties(s).drop_last() =~= interverties(s.drop_last()));
        assert(interverties(s).last() == intervertie(s.last()));
    }
}

/// Intervertir les deux versions change chaque delta de signe : les semaines conformes
/// deviennent contraires et réciproquement, et le reste de la mesure ne bouge pas.
pub proof fn intervertir_echange_conformes_et_contraires(
    c: Seq<RapportVu>,
    f: Seq<RapportVu>,
    r: Confrontation,
    s: Confrontation,
)
    requires
        jours_distincts(c),
        jours_distincts(f),
        semaines_tenables(c, f),
        confrontation_de(r, semaines_de(c, f)),
        confrontation_de(s, semaines_de(f, c)),
    ensures
        s.semaines == r.semaines,
        s.conformes == r.contraires,
        s.contraires == r.conformes,
        s.nuls == r.nuls,
        s.amplitude_mediane == r.amplitude_mediane,
{
    let p = semaines_de(c, f);
    let q = semaines_de(f, c);
    let i = interverties(p);
    lemme_semaines(c, f);
    lemme_semaines(f, c);
    assert forall|x: Semaine| #[trigger] i.contains(x) <==> q.contains(x) by {
        if i.contains(x) {
            let k = choose|k: int| 0 <= k < i.len() && i[k] == x;
            assert(p.contains(p[k]));
            assert(q.contains(intervertie(p[k])));
        }
        if q.contains(x) {
            assert(p.contains(intervertie(x)));
            let k = choose|k: int| 0 <= k < p.len() && p[k] == intervertie(x);
            assert(i[k] == x);
        }
    }
    assert(i.no_duplicates());
    lemme_memes_elements(i, q);
    lemme_compte_interverti(p);
    lemme_compte_permute(i, q, |x: Semaine| delta_de(x) > 0);
    lemme_compte_permute(i, q, |x: Semaine| delta_de(x) < 0);
    lemme_compte_permute(i, q, |x: Semaine| delta_de(x) == 0);
    lemme_amplitudes_permutees(i, q);
    assert(amplitudes(i) =~= amplitudes(p)) by {
        assert forall|k: int| 0 <= k < p.len() implies amplitude_de(intervertie(p[k]))
            == amplitude_de(#[trigger] p[k]) by {
            assert(semaine_tenable(p[k]));
        }
    }
    lemme_mediane_permutee(amplitudes(p), amplitudes(q));
}

impl Confrontation {
    /// Part des semaines conformes à la convention. Rien si aucune n'a pu être appariée.
    pub fn part_conforme(&self) -> (r: Option<Flottant>)
        ensures
            r == (if self.semaines > 0 {
                Some(rapport(self.conformes as int, 1).par(rapport(self.semaines as int, 1)))
            } else {
                None
            }),
            0 < self.semaines < 0x20_0000_0000_0000 ==> {
                &&& self.conformes == self.semaines ==> r == Some(rapport(1, 1))
                &&& self.conformes == 0 ==> r->Some_0.rang() == 0
            },
    {
        proof {
            if 0 < self.semaines < 0x20_0000_0000_0000 {
                lemme_part_extreme(self.semaines as int);
            }
        }
        if self.semaines > 0 {
            Some(
                Flottant::naturel(self.conformes as u64).par(
                    Flottant::naturel(self.semaines as u64),
                ),
            )
        } else {
            None
        }
    }
}

} // verus!
