//! L'historique des relevés : une ligne de CSV par passage.

use crate::calendrier::{ecrire_instant, Instant};
#[allow(unused_imports)]
use crate::calendrier::instant_ecrit;
use crate::court::court;
#[allow(unused_imports)]
use crate::court::{
    court_de, que_des_signes, signe_de_nombre, un_entier_ecrit_est_propre,
    une_ecriture_courte_est_propre,
};
use crate::fixe::{ecrire, ecrire_signe};
#[allow(unused_imports)]
use crate::fixe::{ecrit, ecrit_relatif};
use crate::flottant::Flottant;
#[allow(unused_imports)]
use super::lot::au_calendrier;
use crate::texte::{
    ajouter, ajouter_texte, caracteres, chercher, copie, couper, en_lignes, en_texte, joindre,
    memes_caracteres, rogner,
};
#[allow(unused_imports)]
use crate::texte::{
    couper_defait_joindre, joints, la_premiere_ligne, lemme_morceaux_sans, lemme_rang,
    lemme_rang_seul, lignes_de, morceaux, rang_de, rogne, sans, une_ligne_s_ajoute, vues,
};
use vstd::prelude::*;

verus! {

/// Les colonnes du fichier, dans l'ordre où elles y sont écrites.
///
/// Les neuf dernières décrivent la séance du sous-jacent. Aucune source sur futures ne
/// les publie : elles restent vides, et le schéma les garde pour que les historiques
/// déjà écrits restent lisibles.
pub const COLONNES: [&'static str; 26] = [
    "timestamp",
    "ticker",
    "dte_max",
    "source_gamma",
    "time_convention",
    "spot",
    "total_gex",
    "zero_gamma",
    "call_wall",
    "put_wall",
    "call_wall_oi",
    "put_wall_oi",
    "charm",
    "vanna",
    "strikes",
    "expiries",
    "iv_atm",
    "open",
    "high",
    "low",
    "close",
    "prev_close",
    "volume",
    "dollar_volume",
    "iv30",
    "gex_sur_volume",
];

/// Les noms des colonnes.
pub open spec fn noms() -> Seq<Seq<char>> {
    Seq::new(26, |i: int| COLONNES@[i]@)
}

fn noms_exec() -> (v: Vec<Vec<char>>)
    ensures
        vues(v@) == noms(),
{
    let mut v: Vec<Vec<char>> = Vec::new();
    let mut i: usize = 0;
    while i < 26
        invariant
            i <= 26,
            v@.len() == i,
            forall|k: int| 0 <= k < i ==> (#[trigger] v@[k])@ == COLONNES@[k]@,
        decreases 26 - i,
    {
        v.push(caracteres(COLONNES[i]));
        i += 1;
    }
    assert(vues(v@) =~= noms());
    v
}

/// Un caractère qui ne sépare ni les champs ni les lignes.
pub open spec fn neutre(c: char) -> bool {
    c != ',' && c != '\n' && c != '\r'
}

/// Un texte sans séparateur.
pub open spec fn sans_separateur(s: Seq<char>) -> bool {
    forall|i: int| 0 <= i < s.len() ==> neutre(#[trigger] s[i])
}

/// Aucun nom de colonne n'est vide ni ne porte de séparateur, et tous diffèrent.
proof fn lemme_noms_propres()
    ensures
        forall|i: int| 0 <= i < 26 ==> sans_separateur(#[trigger] noms()[i]),
        forall|i: int| 0 <= i < 26 ==> (#[trigger] noms()[i]).len() > 0,
{
    reveal_strlit("timestamp");
    assert("timestamp"@ =~= seq!['t', 'i', 'm', 'e', 's', 't', 'a', 'm', 'p']);
    reveal_strlit("ticker");
    assert("ticker"@ =~= seq!['t', 'i', 'c', 'k', 'e', 'r']);
    reveal_strlit("dte_max");
    assert("dte_max"@ =~= seq!['d', 't', 'e', '_', 'm', 'a', 'x']);
    reveal_strlit("source_gamma");
    assert("source_gamma"@ =~= seq!['s', 'o', 'u', 'r', 'c', 'e', '_', 'g', 'a', 'm', 'm', 'a']);
    reveal_strlit("time_convention");
    assert("time_convention"@ =~= seq!['t', 'i', 'm', 'e', '_', 'c', 'o', 'n', 'v', 'e', 'n', 't', 'i', 'o', 'n']);
    reveal_strlit("spot");
    assert("spot"@ =~= seq!['s', 'p', 'o', 't']);
    reveal_strlit("total_gex");
    assert("total_gex"@ =~= seq!['t', 'o', 't', 'a', 'l', '_', 'g', 'e', 'x']);
    reveal_strlit("zero_gamma");
    assert("zero_gamma"@ =~= seq!['z', 'e', 'r', 'o', '_', 'g', 'a', 'm', 'm', 'a']);
    reveal_strlit("call_wall");
    assert("call_wall"@ =~= seq!['c', 'a', 'l', 'l', '_', 'w', 'a', 'l', 'l']);
    reveal_strlit("put_wall");
    assert("put_wall"@ =~= seq!['p', 'u', 't', '_', 'w', 'a', 'l', 'l']);
    reveal_strlit("call_wall_oi");
    assert("call_wall_oi"@ =~= seq!['c', 'a', 'l', 'l', '_', 'w', 'a', 'l', 'l', '_', 'o', 'i']);
    reveal_strlit("put_wall_oi");
    assert("put_wall_oi"@ =~= seq!['p', 'u', 't', '_', 'w', 'a', 'l', 'l', '_', 'o', 'i']);
    reveal_strlit("charm");
    assert("charm"@ =~= seq!['c', 'h', 'a', 'r', 'm']);
    reveal_strlit("vanna");
    assert("vanna"@ =~= seq!['v', 'a', 'n', 'n', 'a']);
    reveal_strlit("strikes");
    assert("strikes"@ =~= seq!['s', 't', 'r', 'i', 'k', 'e', 's']);
    reveal_strlit("expiries");
    assert("expiries"@ =~= seq!['e', 'x', 'p', 'i', 'r', 'i', 'e', 's']);
    reveal_strlit("iv_atm");
    assert("iv_atm"@ =~= seq!['i', 'v', '_', 'a', 't', 'm']);
    reveal_strlit("open");
    assert("open"@ =~= seq!['o', 'p', 'e', 'n']);
    reveal_strlit("high");
    assert("high"@ =~= seq!['h', 'i', 'g', 'h']);
    reveal_strlit("low");
    assert("low"@ =~= seq!['l', 'o', 'w']);
    reveal_strlit("close");
    assert("close"@ =~= seq!['c', 'l', 'o', 's', 'e']);
    reveal_strlit("prev_close");
    assert("prev_close"@ =~= seq!['p', 'r', 'e', 'v', '_', 'c', 'l', 'o', 's', 'e']);
    reveal_strlit("volume");
    assert("volume"@ =~= seq!['v', 'o', 'l', 'u', 'm', 'e']);
    reveal_strlit("dollar_volume");
    assert("dollar_volume"@ =~= seq!['d', 'o', 'l', 'l', 'a', 'r', '_', 'v', 'o', 'l', 'u', 'm', 'e']);
    reveal_strlit("iv30");
    assert("iv30"@ =~= seq!['i', 'v', '3', '0']);
    reveal_strlit("gex_sur_volume");
    assert("gex_sur_volume"@ =~= seq!['g', 'e', 'x', '_', 's', 'u', 'r', '_', 'v', 'o', 'l', 'u', 'm', 'e']);
    assert forall|i: int| 0 <= i < 26 implies sans_separateur(#[trigger] noms()[i])
        && noms()[i].len() > 0 by {
        if i == 0 {
            assert(noms()[i] == "timestamp"@);
        } else if i == 1 {
            assert(noms()[i] == "ticker"@);
        } else if i == 2 {
            assert(noms()[i] == "dte_max"@);
        } else if i == 3 {
            assert(noms()[i] == "source_gamma"@);
        } else if i == 4 {
            assert(noms()[i] == "time_convention"@);
        } else if i == 5 {
            assert(noms()[i] == "spot"@);
        } else if i == 6 {
            assert(noms()[i] == "total_gex"@);
        } else if i == 7 {
            assert(noms()[i] == "zero_gamma"@);
        } else if i == 8 {
            assert(noms()[i] == "call_wall"@);
        } else if i == 9 {
            assert(noms()[i] == "put_wall"@);
        } else if i == 10 {
            assert(noms()[i] == "call_wall_oi"@);
        } else if i == 11 {
            assert(noms()[i] == "put_wall_oi"@);
        } else if i == 12 {
            assert(noms()[i] == "charm"@);
        } else if i == 13 {
            assert(noms()[i] == "vanna"@);
        } else if i == 14 {
            assert(noms()[i] == "strikes"@);
        } else if i == 15 {
            assert(noms()[i] == "expiries"@);
        } else if i == 16 {
            assert(noms()[i] == "iv_atm"@);
        } else if i == 17 {
            assert(noms()[i] == "open"@);
        } else if i == 18 {
            assert(noms()[i] == "high"@);
        } else if i == 19 {
            assert(noms()[i] == "low"@);
        } else if i == 20 {
            assert(noms()[i] == "close"@);
        } else if i == 21 {
            assert(noms()[i] == "prev_close"@);
        } else if i == 22 {
            assert(noms()[i] == "volume"@);
        } else if i == 23 {
            assert(noms()[i] == "dollar_volume"@);
        } else if i == 24 {
            assert(noms()[i] == "iv30"@);
        } else {
            assert(noms()[i] == "gex_sur_volume"@);
        }
    }
}

/// Deux colonnes diffèrent par leur longueur ou par leur troisième caractère.
proof fn lemme_noms_distincts(i: int, j: int)
    requires
        0 <= i < 26,
        0 <= j < 26,
        i != j,
    ensures
        noms()[i] != noms()[j],
{
    reveal_strlit("timestamp");
    reveal_strlit("ticker");
    reveal_strlit("dte_max");
    reveal_strlit("source_gamma");
    reveal_strlit("time_convention");
    reveal_strlit("spot");
    reveal_strlit("total_gex");
    reveal_strlit("zero_gamma");
    reveal_strlit("call_wall");
    reveal_strlit("put_wall");
    reveal_strlit("call_wall_oi");
    reveal_strlit("put_wall_oi");
    reveal_strlit("charm");
    reveal_strlit("vanna");
    reveal_strlit("strikes");
    reveal_strlit("expiries");
    reveal_strlit("iv_atm");
    reveal_strlit("open");
    reveal_strlit("high");
    reveal_strlit("low");
    reveal_strlit("close");
    reveal_strlit("prev_close");
    reveal_strlit("volume");
    reveal_strlit("dollar_volume");
    reveal_strlit("iv30");
    reveal_strlit("gex_sur_volume");
    assert("timestamp"@[2] == 'm');
    assert("ticker"@[2] == 'c');
    assert("dte_max"@[2] == 'e');
    assert("source_gamma"@[2] == 'u');
    assert("time_convention"@[2] == 'm');
    assert("spot"@[2] == 'o');
    assert("total_gex"@[2] == 't');
    assert("zero_gamma"@[2] == 'r');
    assert("call_wall"@[2] == 'l');
    assert("put_wall"@[2] == 't');
    assert("call_wall_oi"@[2] == 'l');
    assert("put_wall_oi"@[2] == 't');
    assert("charm"@[2] == 'a');
    assert("vanna"@[2] == 'n');
    assert("strikes"@[2] == 'r');
    assert("expiries"@[2] == 'p');
    assert("iv_atm"@[2] == '_');
    assert("open"@[2] == 'e');
    assert("high"@[2] == 'g');
    assert("low"@[2] == 'w');
    assert("close"@[2] == 'o');
    assert("prev_close"@[2] == 'e');
    assert("volume"@[2] == 'l');
    assert("dollar_volume"@[2] == 'l');
    assert("iv30"@[2] == '3');
    assert("gex_sur_volume"@[2] == 'x');
    let (a, b) = (COLONNES@[i]@, COLONNES@[j]@);
    assert(a.len() != b.len() || a[2] != b[2]);
}

/// L'en-tête du fichier.
pub open spec fn schema() -> Seq<char> {
    joints(noms(), ","@)
}

/// Ce qu'un relevé inscrit dans l'historique.
///
/// Le périmètre, la source de gamma et la convention de temps voyagent avec les
/// chiffres : deux relevés qui n'en partagent pas ne sont pas comparables.
#[derive(Clone, Debug, PartialEq, Eq)]
pub struct LigneHistorique {
    /// L'instant du relevé.
    pub instant: Instant,
    /// Le produit.
    pub ticker: String,
    /// L'horizon d'échéance, ou rien pour « toutes ».
    pub dte_max: Option<i64>,
    /// D'où venait le gamma.
    pub source_gamma: String,
    /// Comment le temps était mesuré.
    pub convention: String,
    /// Prix du sous-jacent.
    pub spot: Flottant,
    /// GEX total.
    pub gex: Flottant,
    /// Zero gamma retenu.
    pub zero_gamma: Option<Flottant>,
    /// Mur call en gamma.
    pub call_wall: Option<Flottant>,
    /// Mur put en gamma.
    pub put_wall: Option<Flottant>,
    /// Mur call en intérêt ouvert.
    pub call_wall_oi: Option<Flottant>,
    /// Mur put en intérêt ouvert.
    pub put_wall_oi: Option<Flottant>,
    /// Charm total.
    pub charm: Flottant,
    /// Vanna totale.
    pub vanna: Flottant,
    /// Nombre de strikes distincts.
    pub strikes: usize,
    /// Nombre d'échéances distinctes.
    pub echeances: usize,
    /// Volatilité implicite à la monnaie sur l'échéance la plus proche.
    pub iv_atm: Option<Flottant>,
}

/// Un flottant tel que le fichier l'attend, ou rien.
pub open spec fn champ_de(x: Option<Flottant>) -> Seq<char> {
    match x {
        Some(f) => court_de(f),
        None => Seq::empty(),
    }
}

fn champ(x: Option<Flottant>) -> (v: Vec<char>)
    ensures
        v@ == champ_de(x),
{
    match x {
        Some(f) => court(f),
        None => {
            let v: Vec<char> = Vec::new();
            assert(v@ =~= champ_de(x));
            v
        },
    }
}

/// L'horizon écrit : « all » et non vide, qui se lirait comme une donnée manquante.
pub open spec fn horizon_ecrit(d: Option<i64>) -> Seq<char> {
    match d {
        Some(n) => ecrit_relatif(n as int),
        None => "all"@,
    }
}

/// Les cases d'une ligne, l'horodatage étant déjà écrit : dix-sept valeurs, et les neuf
/// colonnes de contexte, vides sur futures.
pub open spec fn cases_de(l: LigneHistorique, quand: Seq<char>) -> Seq<Seq<char>> {
    seq![
        quand,
        l.ticker@,
        horizon_ecrit(l.dte_max),
        l.source_gamma@,
        l.convention@,
        court_de(l.spot),
        court_de(l.gex),
        champ_de(l.zero_gamma),
        champ_de(l.call_wall),
        champ_de(l.put_wall),
        champ_de(l.call_wall_oi),
        champ_de(l.put_wall_oi),
        court_de(l.charm),
        court_de(l.vanna),
        ecrit(l.strikes as nat),
        ecrit(l.echeances as nat),
        champ_de(l.iv_atm),
    ] + Seq::new(9, |i: int| Seq::<char>::empty())
}

impl LigneHistorique {
    /// La ligne de CSV, l'horodatage étant déjà écrit, sans fin de ligne.
    pub fn en_csv_a(&self, quand: &str) -> (s: String)
        ensures
            s@ == joints(cases_de(*self, quand@), ","@),
    {
        let mut v: Vec<Vec<char>> = Vec::new();
        v.push(caracteres(quand));
        v.push(caracteres(self.ticker.as_str()));
        v.push(
            match self.dte_max {
                Some(n) => ecrire_signe(n),
                None => caracteres("all"),
            },
        );
        v.push(caracteres(self.source_gamma.as_str()));
        v.push(caracteres(self.convention.as_str()));
        v.push(court(self.spot));
        v.push(court(self.gex));
        v.push(champ(self.zero_gamma));
        v.push(champ(self.call_wall));
        v.push(champ(self.put_wall));
        v.push(champ(self.call_wall_oi));
        v.push(champ(self.put_wall_oi));
        v.push(court(self.charm));
        v.push(court(self.vanna));
        v.push(ecrire(self.strikes as u64));
        v.push(ecrire(self.echeances as u64));
        v.push(champ(self.iv_atm));
        let ghost pleines = v@;
        let ghost tete = cases_de(*self, quand@).take(17);
        proof {
            assert(vues(pleines) =~= tete);
        }
        let mut i: usize = 0;
        while i < 9
            invariant
                i <= 9,
                v@.len() == pleines.len() + i,
                forall|k: int| 0 <= k < pleines.len() ==> v@[k] == pleines[k],
                forall|k: int| pleines.len() <= k < v@.len() ==> (#[trigger] v@[k])@.len() == 0,
            decreases 9 - i,
        {
            v.push(Vec::new());
            i += 1;
        }
        proof {
            let c = cases_de(*self, quand@);
            assert forall|k: int| 0 <= k < 26 implies #[trigger] vues(v@)[k] == c[k] by {
                if k < 17 {
                    assert(v@[k] == pleines[k]);
                    assert(vues(pleines)[k] == tete[k]);
                } else {
                    assert(v@[k]@ =~= c[k]);
                }
            }
            assert(vues(v@) =~= c);
        }
        en_texte(joindre(&v, ",").as_slice())
    }

    /// La ligne de CSV, sans fin de ligne.
    pub fn en_csv(&self) -> (s: String)
        requires
            au_calendrier(self.instant.micros as int),
        ensures
            s@ == joints(
                cases_de(*self, instant_ecrit(self.instant.micros as int, "%Y-%m-%d %H:%M"@)),
                ","@,
            ),
    {
        self.en_csv_a(ecrire_instant(self.instant, "%Y-%m-%d %H:%M").as_str())
    }
}

/// Ce que l'écriture a dû faire au fichier avant d'y ajouter une ligne.
#[derive(Clone, Debug, PartialEq, Eq)]
pub enum Migration {
    /// Le fichier n'existait pas, ou était vide.
    Cree,
    /// L'en-tête correspondait déjà au schéma courant.
    Aucune,
    /// Le fichier portait un en-tête plus ancien : il est à réécrire.
    Faite {
        /// Les colonnes que l'ancien en-tête n'avait pas.
        ajoutees: Vec<String>,
        /// Combien de relevés sont reportés sous le nouvel en-tête.
        releves: usize,
        /// L'extension sous laquelle garder le fichier d'avant.
        sauvegarde: String,
    },
}

/// Une migration, et le texte qui remplace le fichier s'il faut le réécrire.
#[derive(Clone, Debug, PartialEq, Eq)]
pub struct Reprise {
    pub migration: Migration,
    pub contenu: Option<String>,
}

/// L'historique porte des colonnes que le schéma ne connaît plus : les reporter est
/// impossible, les perdre serait silencieux.
#[derive(Clone, Debug, PartialEq, Eq)]
pub struct ColonnesInconnues {
    pub noms: Vec<String>,
}

impl ColonnesInconnues {
    /// Ce qu'il y a à en dire.
    pub fn message(&self) -> (s: String)
        ensures
            s@ == "l'historique porte des colonnes que le schéma ne connaît plus ("@ + joints(
                textes(self.noms@),
                ", "@,
            ) + ") : migration interrompue plutôt que de les perdre"@,
    {
        let mut v: Vec<Vec<char>> = Vec::new();
        let mut i: usize = 0;
        while i < self.noms.len()
            invariant
                i <= self.noms@.len(),
                v@.len() == i,
                forall|k: int| 0 <= k < i ==> (#[trigger] v@[k])@ == self.noms@[k]@,
            decreases self.noms@.len() - i,
        {
            v.push(caracteres(self.noms[i].as_str()));
            i += 1;
        }
        assert(vues(v@) =~= textes(self.noms@));
        let mut t: Vec<char> = caracteres(
            "l'historique porte des colonnes que le schéma ne connaît plus (",
        );
        ajouter(&mut t, joindre(&v, ", ").as_slice());
        ajouter_texte(&mut t, ") : migration interrompue plutôt que de les perdre");
        en_texte(t.as_slice())
    }
}

/// Les textes que tiennent des chaînes.
pub open spec fn textes(v: Seq<String>) -> Seq<Seq<char>> {
    v.map_values(|s: String| s@)
}

/// Les colonnes nommées que le schéma ne connaît pas.
pub open spec fn inconnues(anciennes: Seq<Seq<char>>) -> Seq<Seq<char>>
    decreases anciennes.len(),
{
    if anciennes.len() == 0 {
        Seq::empty()
    } else {
        let avant = inconnues(anciennes.drop_last());
        let c = anciennes.last();
        if c.len() > 0 && rang_de(noms(), c) is None {
            avant.push(c)
        } else {
            avant
        }
    }
}

/// Les champs d'une ancienne ligne, replacés par nom. Une ligne plus courte que son
/// en-tête laisse des cases vides.
pub open spec fn reportee(anciennes: Seq<Seq<char>>, champs: Seq<Seq<char>>) -> Seq<Seq<char>> {
    Seq::new(26, |i: int| valeur_nommee(anciennes, champs, noms()[i]))
}

/// Le champ d'une ligne sous ce nom d'en-tête, vide s'il manque.
pub open spec fn valeur_nommee(
    entete: Seq<Seq<char>>,
    champs: Seq<Seq<char>>,
    nom: Seq<char>,
) -> Seq<char> {
    match rang_de(entete, nom) {
        Some(k) => if k < champs.len() {
            champs[k]
        } else {
            Seq::empty()
        },
        None => Seq::empty(),
    }
}

/// Une ligne à reporter : elle porte autre chose que des blancs.
pub open spec fn pleine(l: Seq<char>) -> bool {
    rogne(l).len() > 0
}

/// Les lignes reportées, chacune terminée.
pub open spec fn corps(anciennes: Seq<Seq<char>>, lignes: Seq<Seq<char>>) -> Seq<char>
    decreases lignes.len(),
{
    if lignes.len() == 0 {
        Seq::empty()
    } else {
        let avant = corps(anciennes, lignes.drop_last());
        if pleine(lignes.last()) {
            avant + joints(reportee(anciennes, morceaux(lignes.last(), ',')), ","@) + "\n"@
        } else {
            avant
        }
    }
}

/// Le nombre de lignes à reporter.
pub open spec fn compte_pleines(lignes: Seq<Seq<char>>) -> nat
    decreases lignes.len(),
{
    if lignes.len() == 0 {
        0
    } else {
        compte_pleines(lignes.drop_last()) + if pleine(lignes.last()) {
            1nat
        } else {
            0
        }
    }
}

/// Les colonnes du schéma que l'en-tête n'a pas, parmi les `n` premières.
pub open spec fn manquantes(anciennes: Seq<Seq<char>>, n: nat) -> Seq<Seq<char>>
    decreases n,
{
    if n == 0 {
        Seq::empty()
    } else {
        let avant = manquantes(anciennes, (n - 1) as nat);
        if rang_de(anciennes, noms()[n - 1]) is None {
            avant.push(noms()[n - 1])
        } else {
            avant
        }
    }
}

/// Le fichier réécrit sous le schéma courant.
pub open spec fn contenu_migre(lignes: Seq<Seq<char>>) -> Seq<char> {
    schema() + "\n"@ + corps(morceaux(lignes[0], ','), lignes.skip(1))
}

fn reporter(anciennes: &Vec<Vec<char>>, colonnes: &Vec<Vec<char>>, ligne: &[char]) -> (v: Vec<
    char,
>)
    requires
        vues(colonnes@) == noms(),
    ensures
        v@ == joints(reportee(vues(anciennes@), morceaux(ligne@, ',')), ","@),
{
    let champs: Vec<Vec<char>> = couper(ligne, ',');
    let mut r: Vec<Vec<char>> = Vec::new();
    let mut i: usize = 0;
    assert(colonnes@.len() == vues(colonnes@).len());
    while i < 26
        invariant
            i <= 26,
            colonnes@.len() == 26,
            vues(colonnes@) == noms(),
            r@.len() == i,
            forall|k: int|
                0 <= k < i ==> (#[trigger] r@[k])@ == valeur_nommee(
                    vues(anciennes@),
                    vues(champs@),
                    noms()[k],
                ),
        decreases 26 - i,
    {
        assert(vues(colonnes@)[i as int] == colonnes@[i as int]@);
        let case: Vec<char> = match chercher(anciennes, colonnes[i].as_slice()) {
            Some(k) => {
                if k < champs.len() {
                    assert(vues(champs@)[k as int] == champs@[k as int]@);
                    copie(champs[k].as_slice())
                } else {
                    Vec::new()
                }
            },
            None => Vec::new(),
        };
        proof {
            let attendu = valeur_nommee(vues(anciennes@), vues(champs@), noms()[i as int]);
            if case@.len() == 0 {
                assert(case@ =~= attendu);
            }
        }
        r.push(case);
        i += 1;
    }
    assert(vues(r@) =~= reportee(vues(anciennes@), morceaux(ligne@, ',')));
    joindre(&r, ",")
}

/// Met un historique existant au niveau de [`COLONNES`].
///
/// Les valeurs sont replacées par nom, jamais par position : un ajout en fin de schéma,
/// une insertion au milieu et un réordonnancement se traitent de la même façon. Sans
/// contenu, ou sur un fichier vide, il n'y a rien à reprendre.
pub fn migrer(contenu: Option<&str>) -> (r: Result<Reprise, ColonnesInconnues>)
    ensures
        match contenu {
            None => r matches Ok(x) && x.migration is Cree && x.contenu is None,
            Some(texte) => {
                let lignes = lignes_de(texte@);
                if lignes.len() == 0 {
                    r matches Ok(x) && x.migration is Cree && x.contenu is None
                } else if lignes[0] == schema() {
                    r matches Ok(x) && x.migration is Aucune && x.contenu is None
                } else {
                    let anciennes = morceaux(lignes[0], ',');
                    if inconnues(anciennes).len() > 0 {
                        r matches Err(e) && textes(e.noms@) == inconnues(anciennes)
                    } else {
                        r matches Ok(x) && {
                            &&& x.contenu is Some
                            &&& x.contenu->Some_0@ == contenu_migre(lignes)
                            &&& x.migration is Faite
                            &&& textes(x.migration->ajoutees@) == manquantes(anciennes, 26)
                            &&& x.migration->releves == compte_pleines(lignes.skip(1))
                            &&& x.migration->sauvegarde@ == "csv.avant-"@ + ecrit(
                                anciennes.len(),
                            ) + "-colonnes"@
                        }
                    }
                }
            },
        },
{
    let texte: &str = match contenu {
        None => {
            return Ok(Reprise { migration: Migration::Cree, contenu: None });
        },
        Some(t) => t,
    };
    let brut: Vec<char> = caracteres(texte);
    let lignes: Vec<Vec<char>> = en_lignes(brut.as_slice());
    let ghost ll = lignes_de(texte@);
    assert(lignes@.len() == ll.len());
    if lignes.len() == 0 {
        return Ok(Reprise { migration: Migration::Cree, contenu: None });
    }
    assert(ll[0] == lignes@[0]@);
    let colonnes: Vec<Vec<char>> = noms_exec();
    let entete: Vec<char> = joindre(&colonnes, ",");
    if memes_caracteres(lignes[0].as_slice(), entete.as_slice()) {
        return Ok(Reprise { migration: Migration::Aucune, contenu: None });
    }
    let anciennes: Vec<Vec<char>> = couper(lignes[0].as_slice(), ',');
    let etrangeres: Vec<String> = nommer_inconnues(&anciennes, &colonnes);
    if etrangeres.len() > 0 {
        assert(textes(etrangeres@).len() > 0);
        return Err(ColonnesInconnues { noms: etrangeres });
    }
    assert(textes(etrangeres@).len() == 0);
    let mut sortie: Vec<char> = entete;
    ajouter_texte(&mut sortie, "\n");
    let mut releves: usize = 0;
    let mut i: usize = 1;
    let ghost reste = ll.skip(1);
    proof {
        assert(reste.take(0) =~= Seq::<Seq<char>>::empty());
        assert(sortie@ =~= schema() + "\n"@ + corps(vues(anciennes@), reste.take(0)));
    }
    while i < lignes.len()
        invariant
            1 <= i <= lignes@.len(),
            vues(lignes@) == ll,
            reste == ll.skip(1),
            vues(colonnes@) == noms(),
            releves == compte_pleines(reste.take(i - 1)),
            releves < i,
            sortie@ == schema() + "\n"@ + corps(vues(anciennes@), reste.take(i - 1)),
        decreases lignes@.len() - i,
    {
        proof {
            assert(reste.take(i as int).drop_last() =~= reste.take(i - 1));
            assert(reste.take(i as int).last() == lignes@[i as int]@);
        }
        let sans: Vec<char> = rogner(lignes[i].as_slice());
        if sans.len() > 0 {
            let ghost avant = sortie@;
            let l: Vec<char> = reporter(&anciennes, &colonnes, lignes[i].as_slice());
            ajouter(&mut sortie, l.as_slice());
            ajouter_texte(&mut sortie, "\n");
            proof {
                assert(sortie@ =~= schema() + "\n"@ + corps(
                    vues(anciennes@),
                    reste.take(i as int),
                ));
            }
            releves += 1;
        }
        i += 1;
    }
    proof {
        assert(reste.take(reste.len() as int) =~= reste);
    }
    let ajoutees: Vec<String> = nommer_manquantes(&anciennes, &colonnes);
    let mut sauvegarde: Vec<char> = caracteres("csv.avant-");
    ajouter(&mut sauvegarde, ecrire(anciennes.len() as u64).as_slice());
    ajouter_texte(&mut sauvegarde, "-colonnes");
    Ok(
        Reprise {
            migration: Migration::Faite {
                ajoutees,
                releves,
                sauvegarde: en_texte(sauvegarde.as_slice()),
            },
            contenu: Some(en_texte(sortie.as_slice())),
        },
    )
}

fn nommer_inconnues(anciennes: &Vec<Vec<char>>, colonnes: &Vec<Vec<char>>) -> (r: Vec<String>)
    requires
        vues(colonnes@) == noms(),
    ensures
        textes(r@) == inconnues(vues(anciennes@)),
{
    let mut r: Vec<String> = Vec::new();
    let ghost w = vues(anciennes@);
    let mut i: usize = 0;
    assert(textes(r@) =~= inconnues(w.take(0)));
    while i < anciennes.len()
        invariant
            i <= anciennes@.len(),
            w == vues(anciennes@),
            vues(colonnes@) == noms(),
            textes(r@) == inconnues(w.take(i as int)),
        decreases anciennes@.len() - i,
    {
        proof {
            assert(w.take(i + 1).drop_last() =~= w.take(i as int));
            assert(w.take(i + 1).last() == anciennes@[i as int]@);
        }
        if anciennes[i].len() > 0 && chercher(colonnes, anciennes[i].as_slice()).is_none() {
            let ghost avant = r@;
            r.push(en_texte(anciennes[i].as_slice()));
            assert(textes(r@) =~= textes(avant).push(anciennes@[i as int]@));
        }
        i += 1;
    }
    assert(w.take(w.len() as int) =~= w);
    r
}

fn nommer_manquantes(anciennes: &Vec<Vec<char>>, colonnes: &Vec<Vec<char>>) -> (r: Vec<String>)
    requires
        vues(colonnes@) == noms(),
    ensures
        textes(r@) == manquantes(vues(anciennes@), 26),
{
    let mut r: Vec<String> = Vec::new();
    let mut i: usize = 0;
    assert(colonnes@.len() == vues(colonnes@).len());
    assert(textes(r@) =~= manquantes(vues(anciennes@), 0));
    while i < 26
        invariant
            i <= 26,
            colonnes@.len() == 26,
            vues(colonnes@) == noms(),
            textes(r@) == manquantes(vues(anciennes@), i as nat),
        decreases 26 - i,
    {
        assert(vues(colonnes@)[i as int] == colonnes@[i as int]@);
        if chercher(anciennes, colonnes[i].as_slice()).is_none() {
            let ghost avant = r@;
            r.push(en_texte(colonnes[i].as_slice()));
            assert(textes(r@) =~= textes(avant).push(noms()[i as int]));
        }
        i += 1;
    }
    r
}

/// Ce qu'un relevé ajoute au fichier : l'en-tête s'il vient d'être créé, puis sa ligne.
pub open spec fn ajout_de(cree: bool, ligne: Seq<char>) -> Seq<char> {
    (if cree {
        schema() + "\n"@
    } else {
        Seq::empty()
    }) + ligne + "\n"@
}

/// Ce qu'un relevé ajoute au fichier, une fois la migration faite.
pub fn enregistrer(migration: &Migration, ligne: &str) -> (s: String)
    ensures
        s@ == ajout_de(migration is Cree, ligne@),
{
    let mut v: Vec<char> = Vec::new();
    if let Migration::Cree = migration {
        let colonnes: Vec<Vec<char>> = noms_exec();
        ajouter(&mut v, joindre(&colonnes, ",").as_slice());
        ajouter_texte(&mut v, "\n");
    }
    ajouter_texte(&mut v, ligne);
    ajouter_texte(&mut v, "\n");
    assert(v@ =~= ajout_de(migration is Cree, ligne@));
    en_texte(v.as_slice())
}

/// Une ligne reportée a vingt-six champs, qui sont les valeurs d'avant, chacune sous le
/// nom qu'elle portait.
pub proof fn les_valeurs_suivent_leur_nom(entete: Seq<Seq<char>>, ligne: Seq<char>)
    ensures
        ({
            let champs = morceaux(ligne, ',');
            let nouvelle = joints(reportee(entete, champs), ","@);
            &&& morceaux(nouvelle, ',') == reportee(entete, champs)
            &&& morceaux(nouvelle, ',').len() == 26
            &&& forall|i: int|
                0 <= i < 26 ==> valeur_nommee(
                    noms(),
                    morceaux(nouvelle, ','),
                    #[trigger] noms()[i],
                ) == valeur_nommee(entete, champs, noms()[i])
        }),
{
    let champs = morceaux(ligne, ',');
    let r = reportee(entete, champs);
    reveal_strlit(",");
    assert(","@ =~= seq![',']);
    lemme_morceaux_sans(ligne, ',', ',');
    assert forall|i: int| 0 <= i < r.len() implies sans(#[trigger] r[i], ',') by {
        lemme_rang(entete, noms()[i]);
        match rang_de(entete, noms()[i]) {
            Some(k) => {
                if k < champs.len() {
                    assert(sans(champs[k], ','));
                }
            },
            None => {},
        }
    }
    couper_defait_joindre(r, ',');
    assert forall|i: int| 0 <= i < 26 implies valeur_nommee(
        noms(),
        r,
        #[trigger] noms()[i],
    ) == valeur_nommee(entete, champs, noms()[i]) by {
        lemme_rang_du_nom(i);
    }
}

/// Une colonne du schéma s'y trouve à son rang.
pub proof fn lemme_rang_du_nom(i: int)
    requires
        0 <= i < 26,
    ensures
        rang_de(noms(), noms()[i]) == Some(i),
{
    assert forall|j: int| 0 <= j < noms().len() && j != i implies #[trigger] noms()[j]
        != noms()[i] by {
        lemme_noms_distincts(i, j);
    }
    lemme_rang_seul(noms(), i);
}

/// Le schéma n'a pas de colonne pour le max pain.
pub proof fn lemme_sans_max_pain()
    ensures
        !noms().contains("max_pain"@),
{
    reveal_strlit("max_pain");
    reveal_strlit("timestamp");
    reveal_strlit("ticker");
    reveal_strlit("dte_max");
    reveal_strlit("source_gamma");
    reveal_strlit("time_convention");
    reveal_strlit("spot");
    reveal_strlit("total_gex");
    reveal_strlit("zero_gamma");
    reveal_strlit("call_wall");
    reveal_strlit("put_wall");
    reveal_strlit("call_wall_oi");
    reveal_strlit("put_wall_oi");
    reveal_strlit("charm");
    reveal_strlit("vanna");
    reveal_strlit("strikes");
    reveal_strlit("expiries");
    reveal_strlit("iv_atm");
    reveal_strlit("open");
    reveal_strlit("high");
    reveal_strlit("low");
    reveal_strlit("close");
    reveal_strlit("prev_close");
    reveal_strlit("volume");
    reveal_strlit("dollar_volume");
    reveal_strlit("iv30");
    reveal_strlit("gex_sur_volume");
    assert("max_pain"@[0] == 'm');
    assert forall|i: int| 0 <= i < 26 implies #[trigger] noms()[i] != "max_pain"@ by {
        assert(noms()[i][0] != 'm');
    }
}

/// L'en-tête tient sur une ligne.
proof fn lemme_schema()
    ensures
        sans(schema(), '\n'),
        schema().len() > 0,
        schema().last() != '\r',
{
    lemme_noms_propres();
    reveal_strlit(",");
    assert(","@ =~= seq![',']);
    lemme_joints_propres(noms(), ","@);
}

proof fn lemme_joints_propres(v: Seq<Seq<char>>, sep: Seq<char>)
    requires
        v.len() >= 1,
        forall|i: int| 0 <= i < v.len() ==> sans_separateur(#[trigger] v[i]) && v[i].len() > 0,
        sep == seq![','],
    ensures
        sans(joints(v, sep), '\n'),
        joints(v, sep).len() > 0,
        joints(v, sep).last() != '\r',
    decreases v.len(),
{
    let d = v[v.len() - 1];
    assert(sans_separateur(d) && d.len() > 0);
    assert(neutre(d[d.len() - 1]));
    if v.len() > 1 {
        let u = v.drop_last();
        assert forall|i: int| 0 <= i < u.len() implies sans_separateur(#[trigger] u[i])
            && u[i].len() > 0 by {
            assert(u[i] == v[i]);
        }
        lemme_joints_propres(u, sep);
        let j = joints(v, sep);
        let a = joints(u, sep);
        assert(j =~= a + sep + d);
        assert forall|i: int| 0 <= i < j.len() implies #[trigger] j[i] != '\n' by {
            if i < a.len() {
                assert(j[i] == a[i]);
            } else if i > a.len() {
                assert(j[i] == d[i - a.len() - 1]);
                assert(neutre(d[i - a.len() - 1]));
            }
        }
        assert(j.last() == d.last());
    } else {
        assert forall|i: int| 0 <= i < d.len() implies #[trigger] d[i] != '\n' by {
            assert(neutre(d[i]));
        }
    }
}

/// Un historique migré n'a plus à l'être : son en-tête est celui du schéma.
pub proof fn migrer_deux_fois_revient_a_une(lignes: Seq<Seq<char>>)
    requires
        lignes.len() >= 1,
    ensures
        lignes_de(contenu_migre(lignes)).len() >= 1,
        lignes_de(contenu_migre(lignes))[0] == schema(),
{
    lemme_schema();
    reveal_strlit("\n");
    assert("\n"@ =~= seq!['\n']);
    la_premiere_ligne(schema(), corps(morceaux(lignes[0], ','), lignes.skip(1)));
}

/// Les textes d'une ligne ne portent ni virgule ni fin de ligne.
pub open spec fn textes_propres(l: LigneHistorique, quand: Seq<char>) -> bool {
    &&& sans_separateur(quand)
    &&& sans_separateur(l.ticker@)
    &&& sans_separateur(l.source_gamma@)
    &&& sans_separateur(l.convention@)
}

proof fn lemme_signes_neutres(s: Seq<char>)
    requires
        que_des_signes(s),
    ensures
        sans_separateur(s),
{
    assert forall|i: int| 0 <= i < s.len() implies neutre(#[trigger] s[i]) by {
        assert(signe_de_nombre(s[i]));
    }
}

proof fn lemme_champ_propre(x: Option<Flottant>)
    ensures
        sans_separateur(champ_de(x)),
{
    if let Some(f) = x {
        une_ecriture_courte_est_propre(f);
        lemme_signes_neutres(court_de(f));
    }
}

proof fn lemme_cases_propres(l: LigneHistorique, quand: Seq<char>)
    requires
        textes_propres(l, quand),
    ensures
        forall|i: int| 0 <= i < 26 ==> sans_separateur(#[trigger] cases_de(l, quand)[i]),
{
    reveal_strlit("all");
    assert("all"@ =~= seq!['a', 'l', 'l']);
    if let Some(n) = l.dte_max {
        un_entier_ecrit_est_propre(n as int);
        lemme_signes_neutres(ecrit_relatif(n as int));
    }
    assert(sans_separateur(horizon_ecrit(l.dte_max)));
    lemme_champ_propre(Some(l.spot));
    lemme_champ_propre(Some(l.gex));
    lemme_champ_propre(l.zero_gamma);
    lemme_champ_propre(l.call_wall);
    lemme_champ_propre(l.put_wall);
    lemme_champ_propre(l.call_wall_oi);
    lemme_champ_propre(l.put_wall_oi);
    lemme_champ_propre(Some(l.charm));
    lemme_champ_propre(Some(l.vanna));
    lemme_champ_propre(l.iv_atm);
    un_entier_ecrit_est_propre(l.strikes as int);
    lemme_signes_neutres(ecrit(l.strikes as nat));
    un_entier_ecrit_est_propre(l.echeances as int);
    lemme_signes_neutres(ecrit(l.echeances as nat));
    let c = cases_de(l, quand);
    assert forall|i: int| 0 <= i < 26 implies sans_separateur(#[trigger] c[i]) by {
        if i >= 17 {
            assert(c[i] =~= Seq::<char>::empty());
        }
    }
}

/// Une ligne a exactement les colonnes du schéma, chacune à sa place, et tient sur une
/// seule ligne, si ses textes ne portent pas de séparateur.
pub proof fn une_ligne_a_les_colonnes_du_schema(l: LigneHistorique, quand: Seq<char>)
    requires
        textes_propres(l, quand),
    ensures
        morceaux(joints(cases_de(l, quand), ","@), ',') == cases_de(l, quand),
        cases_de(l, quand).len() == 26,
        sans(joints(cases_de(l, quand), ","@), '\n'),
        joints(cases_de(l, quand), ","@).len() > 0,
        joints(cases_de(l, quand), ","@).last() == ',',
{
    reveal_strlit(",");
    assert(","@ =~= seq![',']);
    let c = cases_de(l, quand);
    lemme_cases_propres(l, quand);
    assert forall|i: int| 0 <= i < c.len() implies sans(#[trigger] c[i], ',') by {
        assert(sans_separateur(c[i]));
        assert forall|k: int| 0 <= k < c[i].len() implies c[i][k] != ',' by {
            assert(neutre(c[i][k]));
        }
    }
    couper_defait_joindre(c, ',');
    lemme_joints_sans_fin(c, ","@);
    assert(c[25] =~= Seq::<char>::empty());
    assert(joints(c, ","@) =~= joints(c.drop_last(), ","@) + ","@);
}

proof fn lemme_joints_sans_fin(v: Seq<Seq<char>>, sep: Seq<char>)
    requires
        forall|i: int| 0 <= i < v.len() ==> sans_separateur(#[trigger] v[i]),
        sep == seq![','],
    ensures
        sans(joints(v, sep), '\n'),
    decreases v.len(),
{
    if v.len() > 0 {
        let d = v[v.len() - 1];
        assert(sans_separateur(d));
        let u = v.drop_last();
        assert forall|i: int| 0 <= i < u.len() implies sans_separateur(#[trigger] u[i]) by {
            assert(u[i] == v[i]);
        }
        lemme_joints_sans_fin(u, sep);
        let j = joints(v, sep);
        let a = joints(u, sep);
        assert forall|i: int| 0 <= i < j.len() implies #[trigger] j[i] != '\n' by {
            if v.len() == 1 {
                assert(j == d);
                assert(neutre(d[i]));
            } else {
                assert(j =~= a + sep + d);
                if i < a.len() {
                    assert(j[i] == a[i]);
                } else if i > a.len() {
                    assert(j[i] == d[i - a.len() - 1]);
                    assert(neutre(d[i - a.len() - 1]));
                }
            }
        }
    }
}

/// L'en-tête du fichier se relit comme les noms du schéma.
pub proof fn l_en_tete_nomme_le_schema()
    ensures
        morceaux(schema(), ',') == noms(),
        lignes_de(schema() + "\n"@) == seq![schema()],
{
    lemme_noms_propres();
    lemme_schema();
    reveal_strlit(",");
    reveal_strlit("\n");
    assert(","@ =~= seq![',']);
    assert("\n"@ =~= seq!['\n']);
    assert forall|i: int| 0 <= i < noms().len() implies sans(#[trigger] noms()[i], ',') by {
        assert(sans_separateur(noms()[i]));
        assert forall|k: int| 0 <= k < noms()[i].len() implies noms()[i][k] != ',' by {
            assert(neutre(noms()[i][k]));
        }
    }
    couper_defait_joindre(noms(), ',');
    let vide = Seq::<char>::empty();
    assert(lignes_de(vide) =~= Seq::empty());
    une_ligne_s_ajoute(vide, schema());
    assert(vide + schema() + seq!['\n'] =~= schema() + "\n"@);
    assert(lignes_de(vide).push(schema()) =~= seq![schema()]);
}

} // verus!
