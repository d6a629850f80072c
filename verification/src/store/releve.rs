//! Le format d'un relevé : une ligne par strike et par échéance, en colonnes.
//!
//! Beaucoup de colonnes restent à zéro : ni le carnet ni le dernier prix ne servent au
//! calcul. Elles sont écrites quand même, parce que le format est le contrat entre le
//! collecteur et tout ce qui relira ces fichiers.

use super::lot::{Colonne, Lot, Valeurs};
#[allow(unused_imports)]
use super::lot::{au_calendrier, lemme_rang_unique, ou_zero};
use crate::calendrier::Instant;
use crate::coeur::chaine::{Chaine, ChaineInvalide, Cote, Ligne};
#[allow(unused_imports)]
use crate::coeur::chaine::{ligne_avant, lignes_gardees, spot_valide};
use crate::coeur::temps::{EcheanceNy, InstantReleve};
use crate::flottant::Flottant;
use crate::texte::{ajouter_texte, echapper, en_texte};
#[allow(unused_imports)]
use crate::texte::texte_echappe;
#[allow(unused_imports)]
use crate::tri::{trier_ce_qui_est_range_ne_change_rien, triee};
use vstd::prelude::*;

verus! {

/// Ce qui empêche de lire un relevé, une fois le fichier ouvert.
#[derive(Clone, Copy, Debug, PartialEq, Eq)]
pub enum ErreurReleve {
    /// Une colonne indispensable manque.
    ColonneAbsente(&'static str),
    /// Une colonne existe mais n'a pas le type attendu.
    TypeInattendu(&'static str),
    /// Le relevé est lisible mais ne décrit rien d'exploitable.
    Chaine(ChaineInvalide),
}

impl ErreurReleve {
    /// La colonne que l'erreur nomme, vide si elle n'en nomme pas.
    pub open spec fn colonne(&self) -> Seq<char> {
        match self {
            ErreurReleve::ColonneAbsente(c) => c@,
            ErreurReleve::TypeInattendu(c) => c@,
            ErreurReleve::Chaine(_) => Seq::empty(),
        }
    }

    /// Ce que dit l'erreur, la colonne étant citée `cite`.
    pub open spec fn dit(&self, cite: Seq<char>) -> Seq<char> {
        match self {
            ErreurReleve::ColonneAbsente(_) => "Colonne "@ + cite
                + " absente : ce fichier n'est pas un relevé de ce projet."@,
            ErreurReleve::TypeInattendu(_) => "Colonne "@ + cite + " d'un type inattendu."@,
            ErreurReleve::Chaine(e) => e.texte(),
        }
    }

    /// Le texte de l'erreur, la colonne étant citée `cite`.
    pub fn message_avec(&self, cite: &str) -> (s: String)
        ensures
            s@ == self.dit(cite@),
    {
        let mut v: Vec<char> = Vec::new();
        match self {
            ErreurReleve::ColonneAbsente(_) => {
                ajouter_texte(&mut v, "Colonne ");
                ajouter_texte(&mut v, cite);
                ajouter_texte(&mut v, " absente : ce fichier n'est pas un relevé de ce projet.");
            },
            ErreurReleve::TypeInattendu(_) => {
                ajouter_texte(&mut v, "Colonne ");
                ajouter_texte(&mut v, cite);
                ajouter_texte(&mut v, " d'un type inattendu.");
            },
            ErreurReleve::Chaine(e) => {
                return e.message();
            },
        }
        let s: String = en_texte(v.as_slice());
        assert(s@ =~= self.dit(cite@));
        s
    }

    /// Le texte de l'erreur.
    pub fn message(&self) -> (s: String)
        ensures
            s@ == self.dit(texte_echappe(self.colonne())),
    {
        match self {
            ErreurReleve::ColonneAbsente(c) => self.message_avec(echapper(c).as_str()),
            ErreurReleve::TypeInattendu(c) => self.message_avec(echapper(c).as_str()),
            ErreurReleve::Chaine(e) => e.message(),
        }
    }
}

/// Les colonnes du format, dans l'ordre où elles sont écrites : l'échéance, deux
/// textes, vingt-quatre nombres, et l'instant du relevé.
pub const COLONNES: usize = 28;

/// Le nom de la colonne de rang `i`.
pub open spec fn nom_colonne(i: int) -> Seq<char> {
    if i == 0 {
        "ExpirationDate"@
    } else if i == 1 {
        "Calls"@
    } else if i == 2 {
        "Puts"@
    } else if i == 3 {
        "CallLastSale"@
    } else if i == 4 {
        "CallNet"@
    } else if i == 5 {
        "CallBid"@
    } else if i == 6 {
        "CallAsk"@
    } else if i == 7 {
        "CallVol"@
    } else if i == 8 {
        "CallIV"@
    } else if i == 9 {
        "CallDelta"@
    } else if i == 10 {
        "CallGamma"@
    } else if i == 11 {
        "CallOpenInt"@
    } else if i == 12 {
        "StrikePrice"@
    } else if i == 13 {
        "PutLastSale"@
    } else if i == 14 {
        "PutNet"@
    } else if i == 15 {
        "PutBid"@
    } else if i == 16 {
        "PutAsk"@
    } else if i == 17 {
        "PutVol"@
    } else if i == 18 {
        "PutIV"@
    } else if i == 19 {
        "PutDelta"@
    } else if i == 20 {
        "PutGamma"@
    } else if i == 21 {
        "PutOpenInt"@
    } else if i == 22 {
        "CallVega"@
    } else if i == 23 {
        "PutVega"@
    } else if i == 24 {
        "CallTheta"@
    } else if i == 25 {
        "PutTheta"@
    } else if i == 26 {
        "_spot"@
    } else {
        "_quote_date"@
    }
}

/// Le nom de la colonne de rang `i`.
fn nom(i: usize) -> (s: &'static str)
    requires
        i < COLONNES,
    ensures
        s@ == nom_colonne(i as int),
{
    match i {
        0 => "ExpirationDate",
        1 => "Calls",
        2 => "Puts",
        3 => "CallLastSale",
        4 => "CallNet",
        5 => "CallBid",
        6 => "CallAsk",
        7 => "CallVol",
        8 => "CallIV",
        9 => "CallDelta",
        10 => "CallGamma",
        11 => "CallOpenInt",
        12 => "StrikePrice",
        13 => "PutLastSale",
        14 => "PutNet",
        15 => "PutBid",
        16 => "PutAsk",
        17 => "PutVol",
        18 => "PutIV",
        19 => "PutDelta",
        20 => "PutGamma",
        21 => "PutOpenInt",
        22 => "CallVega",
        23 => "PutVega",
        24 => "CallTheta",
        25 => "PutTheta",
        26 => "_spot",
        _ => "_quote_date",
    }
}

/// Deux colonnes diffèrent par leur longueur ou par leur cinquième caractère.
pub(crate) proof fn lemme_noms_distincts(i: int, j: int)
    requires
        0 <= i < COLONNES,
        0 <= j < COLONNES,
        i != j,
    ensures
        nom_colonne(i) != nom_colonne(j),
{
    reveal_strlit("ExpirationDate");
    reveal_strlit("Calls");
    reveal_strlit("Puts");
    reveal_strlit("CallLastSale");
    reveal_strlit("CallNet");
    reveal_strlit("CallBid");
    reveal_strlit("CallAsk");
    reveal_strlit("CallVol");
    reveal_strlit("CallIV");
    reveal_strlit("CallDelta");
    reveal_strlit("CallGamma");
    reveal_strlit("CallOpenInt");
    reveal_strlit("StrikePrice");
    reveal_strlit("PutLastSale");
    reveal_strlit("PutNet");
    reveal_strlit("PutBid");
    reveal_strlit("PutAsk");
    reveal_strlit("PutVol");
    reveal_strlit("PutIV");
    reveal_strlit("PutDelta");
    reveal_strlit("PutGamma");
    reveal_strlit("PutOpenInt");
    reveal_strlit("CallVega");
    reveal_strlit("PutVega");
    reveal_strlit("CallTheta");
    reveal_strlit("PutTheta");
    reveal_strlit("_spot");
    reveal_strlit("_quote_date");
    assert("ExpirationDate"@[4] == 'r');
    assert("Calls"@[4] == 's');
    assert("CallLastSale"@[4] == 'L');
    assert("CallNet"@[4] == 'N');
    assert("CallBid"@[4] == 'B');
    assert("CallAsk"@[4] == 'A');
    assert("CallVol"@[4] == 'V');
    assert("CallIV"@[4] == 'I');
    assert("CallDelta"@[4] == 'D');
    assert("CallGamma"@[4] == 'G');
    assert("CallOpenInt"@[4] == 'O');
    assert("StrikePrice"@[4] == 'k');
    assert("PutLastSale"@[4] == 'a');
    assert("PutNet"@[4] == 'e');
    assert("PutBid"@[4] == 'i');
    assert("PutAsk"@[4] == 's');
    assert("PutVol"@[4] == 'o');
    assert("PutIV"@[4] == 'V');
    assert("PutDelta"@[4] == 'e');
    assert("PutGamma"@[4] == 'a');
    assert("PutOpenInt"@[4] == 'p');
    assert("CallVega"@[4] == 'V');
    assert("PutVega"@[4] == 'e');
    assert("CallTheta"@[4] == 'T');
    assert("PutTheta"@[4] == 'h');
    assert("_spot"@[4] == 't');
    assert("_quote_date"@[4] == 't');
    let (a, b) = (nom_colonne(i), nom_colonne(j));
    assert(a.len() != b.len() || a[4] != b[4]);
}

/// La valeur d'une ligne dans la colonne de rang `i`. Le prix du sous-jacent y est
/// constant : c'est ainsi que le format le transporte.
pub open spec fn champ(i: int, l: Ligne, spot: Flottant) -> Flottant {
    if i == 7 {
        l.call.volume
    } else if i == 8 {
        l.call.iv
    } else if i == 9 {
        l.call.delta
    } else if i == 10 {
        l.call.gamma
    } else if i == 11 {
        l.call.open_interest
    } else if i == 12 {
        l.strike
    } else if i == 17 {
        l.put.volume
    } else if i == 18 {
        l.put.iv
    } else if i == 19 {
        l.put.delta
    } else if i == 20 {
        l.put.gamma
    } else if i == 21 {
        l.put.open_interest
    } else if i == 22 {
        l.call.vega
    } else if i == 23 {
        l.put.vega
    } else if i == 24 {
        l.call.theta
    } else if i == 25 {
        l.put.theta
    } else if i == 26 {
        spot
    } else {
        Flottant::nul()
    }
}

fn valeur_champ(i: usize, l: &Ligne, spot: Flottant) -> (f: Flottant)
    ensures
        f == champ(i as int, *l, spot),
{
    match i {
        7 => l.call.volume,
        8 => l.call.iv,
        9 => l.call.delta,
        10 => l.call.gamma,
        11 => l.call.open_interest,
        12 => l.strike,
        17 => l.put.volume,
        18 => l.put.iv,
        19 => l.put.delta,
        20 => l.put.gamma,
        21 => l.put.open_interest,
        22 => l.call.vega,
        23 => l.put.vega,
        24 => l.call.theta,
        25 => l.put.theta,
        26 => spot,
        _ => Flottant::nul(),
    }
}

/// Les valeurs de la colonne de rang `i` sont celles de la chaîne.
pub open spec fn valeurs_de(v: Valeurs, i: int, c: Chaine) -> bool {
    let n = c.vue().len();
    if i == 0 {
        v matches Valeurs::Instants(x) && x@ =~= Seq::new(
            n,
            |j: int| c.vue()[j].echeance.0.micros,
        )
    } else if i == 27 {
        v matches Valeurs::Instants(x) && x@ =~= Seq::new(n, |j: int| c.releve.0.micros)
    } else if i == 1 || i == 2 {
        v matches Valeurs::Textes(x) && x@.len() == n && forall|j: int|
            0 <= j < n ==> (#[trigger] x@[j])@ == ""@
    } else {
        v matches Valeurs::Nombres(x) && x@ =~= Seq::new(
            n,
            |j: int| Some(champ(i, c.vue()[j], c.spot)),
        )
    }
}

/// Le lot est celui de la chaîne, colonne par colonne.
pub open spec fn est_lot_de(lot: Lot, c: Chaine) -> bool {
    &&& lot.lignes == c.vue().len()
    &&& lot.colonnes@.len() == COLONNES
    &&& forall|i: int|
        0 <= i < COLONNES ==> (#[trigger] lot.colonnes@[i]).nom@ == nom_colonne(i) && valeurs_de(
            lot.colonnes@[i].valeurs,
            i,
            c,
        )
}

fn valeurs_colonne(chaine: &Chaine, i: usize) -> (v: Valeurs)
    requires
        i < COLONNES,
    ensures
        valeurs_de(v, i as int, *chaine),
{
    let n: usize = chaine.lignes.len();
    let mut k: usize = 0;
    if i == 0 || i == 27 {
        let mut x: Vec<i64> = Vec::new();
        while k < n
            invariant
                k <= n,
                n == chaine.vue().len(),
                x@.len() == k,
                forall|j: int|
                    0 <= j < k ==> #[trigger] x@[j] == if i == 0 {
                        chaine.vue()[j].echeance.0.micros
                    } else {
                        chaine.releve.0.micros
                    },
            decreases n - k,
        {
            x.push(
                if i == 0 {
                    chaine.lignes[k].echeance.0.micros
                } else {
                    chaine.releve.0.micros
                },
            );
            k += 1;
        }
        Valeurs::Instants(x)
    } else if i == 1 || i == 2 {
        let mut x: Vec<String> = Vec::new();
        while k < n
            invariant
                k <= n,
                n == chaine.vue().len(),
                x@.len() == k,
                forall|j: int| 0 <= j < k ==> (#[trigger] x@[j])@ == ""@,
            decreases n - k,
        {
            x.push("".to_owned());
            k += 1;
        }
        Valeurs::Textes(x)
    } else {
        let mut x: Vec<Option<Flottant>> = Vec::new();
        while k < n
            invariant
                k <= n,
                n == chaine.vue().len(),
                x@.len() == k,
                forall|j: int|
                    0 <= j < k ==> #[trigger] x@[j] == Some(
                        champ(i as int, chaine.vue()[j], chaine.spot),
                    ),
            decreases n - k,
        {
            x.push(Some(valeur_champ(i, &chaine.lignes[k], chaine.spot)));
            k += 1;
        }
        Valeurs::Nombres(x)
    }
}

/// Assemble les colonnes d'une chaîne.
pub fn en_lot(chaine: &Chaine) -> (lot: Lot)
    ensures
        est_lot_de(lot, *chaine),
        lot.valide(),
{
    let mut colonnes: Vec<Colonne> = Vec::new();
    let mut i: usize = 0;
    while i < COLONNES
        invariant
            i <= COLONNES,
            colonnes@.len() == i,
            forall|j: int|
                0 <= j < i ==> (#[trigger] colonnes@[j]).nom@ == nom_colonne(j) && valeurs_de(
                    colonnes@[j].valeurs,
                    j,
                    *chaine,
                ),
        decreases COLONNES - i,
    {
        let v: Valeurs = valeurs_colonne(chaine, i);
        colonnes.push(Colonne { nom: nom(i).to_owned(), valeurs: v });
        i += 1;
    }
    Lot { lignes: chaine.lignes.len(), colonnes }
}

/// Les sept champs d'un côté, dans l'ordre où [`Cote`] les tient.
pub open spec fn noms_cote(call: bool) -> Seq<&'static str> {
    if call {
        seq![
            "CallIV",
            "CallGamma",
            "CallDelta",
            "CallOpenInt",
            "CallVega",
            "CallTheta",
            "CallVol",
        ]
    } else {
        seq!["PutIV", "PutGamma", "PutDelta", "PutOpenInt", "PutVega", "PutTheta", "PutVol"]
    }
}

/// La case d'une colonne facultative.
pub open spec fn case(lot: Lot, nom: &'static str, i: int) -> Flottant {
    lot.nombres_ou_zeros(nom@)->Ok_0[i]
}

/// Un côté d'une ligne du lot.
pub open spec fn cote_du_lot(lot: Lot, call: bool, i: int) -> Cote {
    let n = noms_cote(call);
    Cote {
        iv: case(lot, n[0], i),
        gamma: case(lot, n[1], i),
        delta: case(lot, n[2], i),
        open_interest: case(lot, n[3], i),
        vega: case(lot, n[4], i),
        theta: case(lot, n[5], i),
        volume: case(lot, n[6], i),
    }
}

/// Les colonnes d'un côté sont des nombres, ou manquent.
pub open spec fn cote_lisible(lot: Lot, call: bool) -> bool {
    forall|k: int| 0 <= k < 7 ==> lot.nombres_ou_zeros((#[trigger] noms_cote(call)[k])@) is Ok
}

fn lire_cote(lot: &Lot, call: bool) -> (r: Result<Vec<Cote>, ErreurReleve>)
    requires
        lot.valide(),
    ensures
        match r {
            Ok(v) => cote_lisible(*lot, call) && v@ =~= Seq::new(
                lot.lignes as nat,
                |i: int| cote_du_lot(*lot, call, i),
            ),
            Err(e) => !cote_lisible(*lot, call) && e == ErreurReleve::TypeInattendu(
                "colonne numérique",
            ),
        },
{
    let noms: [&'static str; 7] = if call {
        ["CallIV", "CallGamma", "CallDelta", "CallOpenInt", "CallVega", "CallTheta", "CallVol"]
    } else {
        ["PutIV", "PutGamma", "PutDelta", "PutOpenInt", "PutVega", "PutTheta", "PutVol"]
    };
    assert(noms@ =~= noms_cote(call));
    let mut colonnes: Vec<Vec<Flottant>> = Vec::new();
    let mut k: usize = 0;
    while k < 7
        invariant
            k <= 7,
            lot.valide(),
            noms@ == noms_cote(call),
            colonnes@.len() == k,
            forall|j: int|
                0 <= j < k ==> {
                    &&& lot.nombres_ou_zeros((#[trigger] noms_cote(call)[j])@) == Ok::<
                        Seq<Flottant>,
                        ErreurReleve,
                    >(colonnes@[j]@)
                    &&& colonnes@[j]@.len() == lot.lignes
                },
        decreases 7 - k,
    {
        match lot.colonne_ou_zeros(noms[k]) {
            Ok(v) => {
                colonnes.push(v);
            },
            Err(e) => {
                assert(lot.nombres_ou_zeros(noms_cote(call)[k as int]@) is Err);
                return Err(e);
            },
        }
        k += 1;
    }
    proof {
        assert forall|j: int| 0 <= j < 7 implies {
            &&& (#[trigger] colonnes@[j])@ == lot.nombres_ou_zeros(noms_cote(call)[j]@)->Ok_0
            &&& colonnes@[j]@.len() == lot.lignes
        } by {
            assert(lot.nombres_ou_zeros(noms_cote(call)[j]@) == Ok::<Seq<Flottant>, ErreurReleve>(
                colonnes@[j]@,
            ));
        }
    }
    let mut r: Vec<Cote> = Vec::new();
    let mut i: usize = 0;
    while i < lot.lignes
        invariant
            i <= lot.lignes,
            colonnes@.len() == 7,
            forall|j: int|
                0 <= j < 7 ==> {
                    &&& (#[trigger] colonnes@[j])@ == lot.nombres_ou_zeros(
                        noms_cote(call)[j]@,
                    )->Ok_0
                    &&& colonnes@[j]@.len() == lot.lignes
                },
            r@.len() == i,
            forall|j: int| 0 <= j < i ==> #[trigger] r@[j] == cote_du_lot(*lot, call, j),
        decreases lot.lignes - i,
    {
        r.push(
            Cote {
                iv: colonnes[0][i],
                gamma: colonnes[1][i],
                delta: colonnes[2][i],
                open_interest: colonnes[3][i],
                vega: colonnes[4][i],
                theta: colonnes[5][i],
                volume: colonnes[6][i],
            },
        );
        i += 1;
    }
    Ok(r)
}

/// Ce qu'un lot non vide donne : le prix, l'instant, et les lignes.
pub open spec fn lot_lu(lot: Lot) -> Result<(Flottant, Instant, Seq<Ligne>), ErreurReleve> {
    match lot.nombres_requis("StrikePrice") {
        Err(e) => Err(e),
        Ok(strikes) => match lot.instants_requis("ExpirationDate") {
            Err(e) => Err(e),
            Ok(echeances) => match lot.nombres_requis("_spot") {
                Err(e) => Err(e),
                Ok(spots) => match lot.instants_requis("_quote_date") {
                    Err(e) => Err(e),
                    Ok(dates) => if !cote_lisible(lot, true) || !cote_lisible(lot, false) {
                        Err(ErreurReleve::TypeInattendu("colonne numérique"))
                    } else {
                        Ok(
                            (
                                spots[0],
                                dates[0],
                                Seq::new(
                                    lot.lignes as nat,
                                    |i: int|
                                        Ligne {
                                            echeance: EcheanceNy(echeances[i]),
                                            strike: strikes[i],
                                            call: cote_du_lot(lot, true, i),
                                            put: cote_du_lot(lot, false, i),
                                        },
                                ),
                            ),
                        )
                    },
                },
            },
        },
    }
}

fn lire_lot(lot: &Lot) -> (r: Result<(Flottant, Instant, Vec<Ligne>), ErreurReleve>)
    requires
        lot.valide(),
        lot.lignes > 0,
    ensures
        match r {
            Ok((s, d, l)) => lot_lu(*lot) == Ok::<(Flottant, Instant, Seq<Ligne>), ErreurReleve>(
                (s, d, l@),
            ),
            Err(e) => lot_lu(*lot) == Err::<(Flottant, Instant, Seq<Ligne>), ErreurReleve>(e),
        },
{
    let strikes: Vec<Flottant> = match lot.colonne_requise("StrikePrice") {
        Ok(v) => v,
        Err(e) => {
            return Err(e);
        },
    };
    let echeances: Vec<Instant> = match lot.colonne_instants("ExpirationDate") {
        Ok(v) => v,
        Err(e) => {
            return Err(e);
        },
    };
    let spots: Vec<Flottant> = match lot.colonne_requise("_spot") {
        Ok(v) => v,
        Err(e) => {
            return Err(e);
        },
    };
    let dates: Vec<Instant> = match lot.colonne_instants("_quote_date") {
        Ok(v) => v,
        Err(e) => {
            return Err(e);
        },
    };
    let calls: Vec<Cote> = match lire_cote(lot, true) {
        Ok(v) => v,
        Err(e) => {
            return Err(e);
        },
    };
    let puts: Vec<Cote> = match lire_cote(lot, false) {
        Ok(v) => v,
        Err(e) => {
            return Err(e);
        },
    };
    let mut lignes: Vec<Ligne> = Vec::new();
    let mut i: usize = 0;
    while i < lot.lignes
        invariant
            i <= lot.lignes,
            strikes@.len() == lot.lignes,
            echeances@.len() == lot.lignes,
            calls@ =~= Seq::new(lot.lignes as nat, |j: int| cote_du_lot(*lot, true, j)),
            puts@ =~= Seq::new(lot.lignes as nat, |j: int| cote_du_lot(*lot, false, j)),
            lignes@.len() == i,
            forall|j: int|
                0 <= j < i ==> #[trigger] lignes@[j] == (Ligne {
                    echeance: EcheanceNy(echeances@[j]),
                    strike: strikes@[j],
                    call: cote_du_lot(*lot, true, j),
                    put: cote_du_lot(*lot, false, j),
                }),
        decreases lot.lignes - i,
    {
        lignes.push(
            Ligne {
                echeance: EcheanceNy(echeances[i]),
                strike: strikes[i],
                call: calls[i],
                put: puts[i],
            },
        );
        i += 1;
    }
    proof {
        assert(lignes@ =~= lot_lu(*lot)->Ok_0.2);
    }
    Ok((spots[0], dates[0], lignes))
}

/// Ce que des lots donnent ensemble. Le prix et l'instant sont constants par
/// construction : ceux du premier lot non vide.
pub open spec fn lots_lus(lots: Seq<Lot>) -> Result<
    (Option<(Flottant, Instant)>, Seq<Ligne>),
    ErreurReleve,
>
    decreases lots.len(),
{
    if lots.len() == 0 {
        Ok((None, Seq::empty()))
    } else {
        match lots_lus(lots.drop_last()) {
            Err(e) => Err(e),
            Ok((tete, lignes)) => if lots.last().lignes == 0 {
                Ok((tete, lignes))
            } else {
                match lot_lu(lots.last()) {
                    Err(e) => Err(e),
                    Ok((s, d, l)) => Ok(
                        (
                            if tete is Some {
                                tete
                            } else {
                                Some((s, d))
                            },
                            lignes + l,
                        ),
                    ),
                }
            },
        }
    }
}

proof fn lemme_erreur_reste(lots: Seq<Lot>, n: int)
    requires
        0 <= n <= lots.len(),
        lots_lus(lots.take(n)) is Err,
    ensures
        lots_lus(lots) == lots_lus(lots.take(n)),
    decreases lots.len(),
{
    if n < lots.len() {
        assert(lots.drop_last().take(n) =~= lots.take(n));
        lemme_erreur_reste(lots.drop_last(), n);
    } else {
        assert(lots.take(n) =~= lots);
    }
}

/// Lit un relevé et en fait une chaîne.
///
/// L'échéance y est entendue en heure de New York et l'instant du relevé en UTC.
pub fn lire_releve(lots: &[Lot]) -> (r: Result<Chaine, ErreurReleve>)
    requires
        forall|i: int| 0 <= i < lots@.len() ==> (#[trigger] lots@[i]).valide(),
    ensures
        match lots_lus(lots@) {
            Err(e) => r == Err::<Chaine, ErreurReleve>(e),
            Ok((None, _)) => r == Err::<Chaine, ErreurReleve>(
                ErreurReleve::ColonneAbsente("_spot"),
            ),
            Ok((Some((spot, date)), lignes)) => match r {
                Err(ErreurReleve::Chaine(ChaineInvalide::SpotInvalide)) => !spot_valide(spot),
                Err(ErreurReleve::Chaine(ChaineInvalide::Vide)) => spot_valide(spot)
                    && lignes_gardees(lignes).len() == 0,
                Err(_) => false,
                Ok(c) => {
                    &&& spot_valide(spot)
                    &&& lignes_gardees(lignes).len() > 0
                    &&& c.spot == spot
                    &&& c.releve == InstantReleve(date)
                    &&& c.vue() == triee(
                        lignes_gardees(lignes),
                        |a: Ligne, b: Ligne| ligne_avant(a, b),
                    )
                    &&& c.valide()
                },
            },
        },
{
    let mut tete: Option<(Flottant, Instant)> = None;
    let mut lignes: Vec<Ligne> = Vec::new();
    let mut i: usize = 0;
    assert(lignes@ =~= Seq::<Ligne>::empty());
    while i < lots.len()
        invariant
            i <= lots@.len(),
            forall|j: int| 0 <= j < lots@.len() ==> (#[trigger] lots@[j]).valide(),
            lots_lus(lots@.take(i as int)) == Ok::<
                (Option<(Flottant, Instant)>, Seq<Ligne>),
                ErreurReleve,
            >((tete, lignes@)),
        decreases lots@.len() - i,
    {
        proof {
            assert(lots@.take(i + 1).drop_last() =~= lots@.take(i as int));
            assert(lots@.take(i + 1).last() == lots@[i as int]);
            assert(lots@[i as int].valide());
        }
        if lots[i].lignes > 0 {
            match lire_lot(&lots[i]) {
                Err(e) => {
                    proof {
                        lemme_erreur_reste(lots@, i + 1);
                    }
                    return Err(e);
                },
                Ok((s, d, l)) => {
                    if tete.is_none() {
                        tete = Some((s, d));
                    }
                    let mut suite: Vec<Ligne> = l;
                    lignes.append(&mut suite);
                },
            }
        }
        i += 1;
    }
    assert(lots@.take(lots@.len() as int) =~= lots@);
    match tete {
        None => Err(ErreurReleve::ColonneAbsente("_spot")),
        Some((spot, date)) => match Chaine::nouvelle(lignes, spot, InstantReleve(date)) {
            Ok(c) => Ok(c),
            Err(e) => Err(ErreurReleve::Chaine(e)),
        },
    }
}

proof fn lemme_colonne(lot: Lot, c: Chaine, k: int)
    requires
        est_lot_de(lot, c),
        0 <= k < COLONNES,
    ensures
        lot.colonne(nom_colonne(k)) == Some(lot.colonnes@[k].valeurs),
{
    assert forall|i: int| 0 <= i < lot.colonnes@.len() && i != k implies (#[trigger] lot.colonnes@[i]).nom@
        != nom_colonne(k) by {
        lemme_noms_distincts(i, k);
    }
    assert(lot.colonnes@[k].nom@ == nom_colonne(k));
    lemme_rang_unique(lot.colonnes@, nom_colonne(k), k);
}

proof fn lemme_nombres(lot: Lot, c: Chaine, k: int)
    requires
        est_lot_de(lot, c),
        3 <= k < 27,
    ensures
        lot.colonne(nom_colonne(k)) is Some,
        lot.nombres_ou_zeros(nom_colonne(k)) == Ok::<Seq<Flottant>, ErreurReleve>(
            Seq::new(c.vue().len(), |j: int| champ(k, c.vue()[j], c.spot)),
        ),
{
    lemme_colonne(lot, c, k);
    assert(valeurs_de(lot.colonnes@[k].valeurs, k, c));
    match lot.colonnes@[k].valeurs {
        Valeurs::Nombres(v) => {
            assert(Seq::new(v@.len(), |i: int| ou_zero(v@[i])) =~= Seq::new(
                c.vue().len(),
                |j: int| champ(k, c.vue()[j], c.spot),
            ));
        },
        _ => {},
    }
}

proof fn lemme_instants(lot: Lot, c: Chaine, k: int, nom: &'static str)
    requires
        est_lot_de(lot, c),
        k == 0 || k == 27,
        nom@ == nom_colonne(k),
        forall|i: int|
            0 <= i < c.vue().len() ==> au_calendrier(
                (#[trigger] c.vue()[i]).echeance.0.micros as int,
            ),
        au_calendrier(c.releve.0.micros as int),
    ensures
        lot.instants_requis(nom) == Ok::<Seq<Instant>, ErreurReleve>(
            Seq::new(
                c.vue().len(),
                |j: int|
                    if k == 0 {
                        c.vue()[j].echeance.0
                    } else {
                        c.releve.0
                    },
            ),
        ),
{
    lemme_colonne(lot, c, k);
    assert(valeurs_de(lot.colonnes@[k].valeurs, k, c));
    match lot.colonnes@[k].valeurs {
        Valeurs::Instants(v) => {
            assert forall|i: int| 0 <= i < v@.len() implies au_calendrier(
                #[trigger] v@[i] as int,
            ) by {
                assert(au_calendrier(c.vue()[i].echeance.0.micros as int));
            }
            assert(Seq::new(v@.len(), |i: int| Instant { micros: v@[i] }) =~= Seq::new(
                c.vue().len(),
                |j: int|
                    if k == 0 {
                        c.vue()[j].echeance.0
                    } else {
                        c.releve.0
                    },
            ));
        },
        _ => {},
    }
}

proof fn lemme_cotes(lot: Lot, c: Chaine)
    requires
        est_lot_de(lot, c),
    ensures
        cote_lisible(lot, true),
        cote_lisible(lot, false),
        forall|i: int|
            0 <= i < c.vue().len() ==> #[trigger] cote_du_lot(lot, true, i) == c.vue()[i].call,
        forall|i: int|
            0 <= i < c.vue().len() ==> #[trigger] cote_du_lot(lot, false, i) == c.vue()[i].put,
{
    lemme_nombres(lot, c, 7);
    lemme_nombres(lot, c, 8);
    lemme_nombres(lot, c, 9);
    lemme_nombres(lot, c, 10);
    lemme_nombres(lot, c, 11);
    lemme_nombres(lot, c, 17);
    lemme_nombres(lot, c, 18);
    lemme_nombres(lot, c, 19);
    lemme_nombres(lot, c, 20);
    lemme_nombres(lot, c, 21);
    lemme_nombres(lot, c, 22);
    lemme_nombres(lot, c, 23);
    lemme_nombres(lot, c, 24);
    lemme_nombres(lot, c, 25);
}

/// Tout ce qu'une chaîne valide porte est déjà propre.
proof fn lemme_deja_propre(s: Seq<Ligne>)
    requires
        forall|i: int|
            0 <= i < s.len() ==> {
                &&& (#[trigger] s[i]).exploitable()
                &&& s[i].call.tout_fini()
                &&& s[i].put.tout_fini()
            },
    ensures
        lignes_gardees(s) == s,
    decreases s.len(),
{
    if s.len() > 0 {
        let t = s.drop_last();
        assert forall|i: int| 0 <= i < t.len() implies {
            &&& (#[trigger] t[i]).exploitable()
            &&& t[i].call.tout_fini()
            &&& t[i].put.tout_fini()
        } by {
            assert(s[i] == t[i]);
        }
        lemme_deja_propre(t);
        assert(s[s.len() - 1].exploitable());
        assert(s.last().assainie() == s.last());
        assert(t.push(s.last()) =~= s);
    }
}

/// Ce qui est écrit se relit à l'identique : le prix, l'instant, et chaque ligne.
pub proof fn ce_qui_est_ecrit_se_relit(c: Chaine, lot: Lot)
    requires
        c.valide(),
        est_lot_de(lot, c),
        forall|i: int|
            0 <= i < c.vue().len() ==> au_calendrier(
                (#[trigger] c.vue()[i]).echeance.0.micros as int,
            ),
        au_calendrier(c.releve.0.micros as int),
    ensures
        lots_lus(seq![lot]) == Ok::<(Option<(Flottant, Instant)>, Seq<Ligne>), ErreurReleve>(
            (Some((c.spot, c.releve.0)), c.vue()),
        ),
        triee(lignes_gardees(c.vue()), |a: Ligne, b: Ligne| ligne_avant(a, b)) == c.vue(),
{
    lemme_nombres(lot, c, 12);
    lemme_nombres(lot, c, 26);
    lemme_instants(lot, c, 0, "ExpirationDate");
    lemme_instants(lot, c, 27, "_quote_date");
    lemme_cotes(lot, c);
    assert(lot_lu(lot)->Ok_0.2 =~= c.vue());
    let lots = seq![lot];
    assert(lots.drop_last() =~= Seq::<Lot>::empty());
    assert(lots_lus(lots.drop_last()) == Ok::<
        (Option<(Flottant, Instant)>, Seq<Ligne>),
        ErreurReleve,
    >((None, Seq::empty())));
    assert(Seq::<Ligne>::empty() + c.vue() =~= c.vue());
    lemme_deja_propre(c.vue());
    trier_ce_qui_est_range_ne_change_rien(c.vue(), |a: Ligne, b: Ligne| ligne_avant(a, b));
}

} // verus!
