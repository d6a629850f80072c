//! Le format pivot : ce qu'une chaîne d'options est, une fois lue.
//!
//! Une ligne est une ligne et un côté un côté : rien ne permet de lire la
//! volatilité du call avec l'intérêt ouvert du put.

use super::temps::{EcheanceNy, InstantReleve};
use crate::flottant::Flottant;
#[allow(unused_imports)]
use crate::flottant::zero;
use crate::tri::trier;
#[allow(unused_imports)]
use crate::tri::{le_tri_garde_les_elements, le_tri_range_sans_rien_perdre, ordonnee, ordre_faible, triee};
use vstd::prelude::*;

verus! {

/// Un côté d'un strike : tout ce que la source publie pour un contrat.
#[derive(Clone, Copy, Debug, PartialEq, Eq, Structural)]
pub struct Cote {
    /// Volatilité implicite, en décimal.
    pub iv: Flottant,
    /// Gamma tel que publié par la source, nul quand elle n'en publie pas.
    pub gamma: Flottant,
    /// Delta publié, nul quand absent.
    pub delta: Flottant,
    /// Intérêt ouvert, en contrats.
    pub open_interest: Flottant,
    /// Vega publié, nul quand absent.
    pub vega: Flottant,
    /// Theta publié, nul quand absent.
    pub theta: Flottant,
    /// Contrats échangés dans la séance, nul quand absent.
    pub volume: Flottant,
}

/// Un nombre fini, ou zéro à sa place.
pub open spec fn fini_ou_nul(f: Flottant) -> Flottant {
    if f.fini() {
        f
    } else {
        zero()
    }
}

fn fini_ou_zero(f: Flottant) -> (r: Flottant)
    ensures
        r == fini_ou_nul(f),
{
    if f.est_fini() {
        f
    } else {
        Flottant::nul()
    }
}

impl Default for Cote {
    fn default() -> (c: Cote)
        ensures
            c == cote_nul(),
    {
        let z: Flottant = Flottant::nul();
        Cote { iv: z, gamma: z, delta: z, open_interest: z, vega: z, theta: z, volume: z }
    }
}

/// Le côté dont tout est nul.
pub open spec fn cote_nul() -> Cote {
    Cote {
        iv: zero(),
        gamma: zero(),
        delta: zero(),
        open_interest: zero(),
        vega: zero(),
        theta: zero(),
        volume: zero(),
    }
}

impl Cote {
    /// Tout ce qui n'est pas un nombre fini est remplacé par zéro.
    pub open spec fn assaini(self) -> Cote {
        Cote {
            iv: fini_ou_nul(self.iv),
            gamma: fini_ou_nul(self.gamma),
            delta: fini_ou_nul(self.delta),
            open_interest: fini_ou_nul(self.open_interest),
            vega: fini_ou_nul(self.vega),
            theta: fini_ou_nul(self.theta),
            volume: fini_ou_nul(self.volume),
        }
    }

    /// Tous les champs sont des nombres finis.
    pub open spec fn tout_fini(self) -> bool {
        &&& self.iv.fini()
        &&& self.gamma.fini()
        &&& self.delta.fini()
        &&& self.open_interest.fini()
        &&& self.vega.fini()
        &&& self.theta.fini()
        &&& self.volume.fini()
    }

    /// Remplace par zéro tout ce qui n'est pas un nombre fini.
    ///
    /// Un seul non-nombre contaminerait la somme entière ; zéro se lit comme
    /// l'absence de donnée et ne contribue à rien.
    pub fn assainir(self) -> (c: Cote)
        ensures
            c == self.assaini(),
    {
        Cote {
            iv: fini_ou_zero(self.iv),
            gamma: fini_ou_zero(self.gamma),
            delta: fini_ou_zero(self.delta),
            open_interest: fini_ou_zero(self.open_interest),
            vega: fini_ou_zero(self.vega),
            theta: fini_ou_zero(self.theta),
            volume: fini_ou_zero(self.volume),
        }
    }
}

/// Un strike sur une échéance, avec ses deux côtés.
#[derive(Clone, Copy, Debug, PartialEq, Eq, Structural)]
pub struct Ligne {
    /// L'instant de règlement, en heure de New York.
    pub echeance: EcheanceNy,
    /// Le prix d'exercice.
    pub strike: Flottant,
    /// Le call.
    pub call: Cote,
    /// Le put.
    pub put: Cote,
}

impl Ligne {
    /// Le prix d'exercice est un nombre fini et positif.
    pub open spec fn exploitable(self) -> bool {
        self.strike.fini() && self.strike.positif()
    }

    pub open spec fn assainie(self) -> Ligne {
        Ligne { call: self.call.assaini(), put: self.put.assaini(), ..self }
    }
}

/// L'ordre des lignes : par échéance, puis par prix d'exercice.
pub open spec fn ligne_avant(a: Ligne, b: Ligne) -> bool {
    a.echeance.0.micros < b.echeance.0.micros || (a.echeance.0.micros == b.echeance.0.micros
        && a.strike.clef() < b.strike.clef())
}

fn ligne_precede(a: Ligne, b: Ligne) -> (x: bool)
    ensures
        x == ligne_avant(a, b),
{
    a.echeance.0.micros < b.echeance.0.micros || (a.echeance.0.micros == b.echeance.0.micros
        && a.strike.clef_exec() < b.strike.clef_exec())
}

/// Les lignes exploitables, assainies, dans leur ordre d'arrivée.
pub open spec fn lignes_gardees(s: Seq<Ligne>) -> Seq<Ligne>
    decreases s.len(),
{
    if s.len() == 0 {
        s
    } else if s.last().exploitable() {
        lignes_gardees(s.drop_last()).push(s.last().assainie())
    } else {
        lignes_gardees(s.drop_last())
    }
}

/// Les éléments d'une suite que `garde` retient.
pub open spec fn selection<T>(s: Seq<T>, garde: Seq<bool>) -> Seq<T>
    decreases s.len(),
{
    if s.len() == 0 {
        s
    } else if garde[s.len() - 1] {
        selection(s.drop_last(), garde).push(s.last())
    } else {
        selection(s.drop_last(), garde)
    }
}

/// Les échéances de lignes consécutives, sans répétition.
pub open spec fn echeances_vues(s: Seq<Ligne>) -> Seq<EcheanceNy>
    decreases s.len(),
{
    if s.len() == 0 {
        Seq::empty()
    } else {
        let avant = echeances_vues(s.drop_last());
        if avant.len() > 0 && avant.last() == s.last().echeance {
            avant
        } else {
            avant.push(s.last().echeance)
        }
    }
}

/// Une chaîne complète, telle qu'un relevé la porte.
#[derive(Clone, Debug, PartialEq, Eq)]
pub struct Chaine {
    /// Les lignes, triées par échéance puis par prix d'exercice.
    pub lignes: Vec<Ligne>,
    /// Le prix du sous-jacent au moment du relevé.
    pub spot: Flottant,
    /// L'instant du relevé, en UTC.
    pub releve: InstantReleve,
}

/// Ce qui empêche une chaîne d'exister.
#[derive(Clone, Copy, Debug, PartialEq, Eq, Structural)]
pub enum ChaineInvalide {
    /// Aucune ligne exploitable après nettoyage.
    Vide,
    /// Le prix du sous-jacent est absent ou absurde.
    SpotInvalide,
}

impl ChaineInvalide {
    pub open spec fn texte(self) -> Seq<char> {
        match self {
            ChaineInvalide::Vide =>
                "Aucune ligne exploitable : tous les strikes sont absents ou non finis."@,
            ChaineInvalide::SpotInvalide =>
                "Prix du sous-jacent absent ou negatif : rien ne peut etre calcule sans lui."@,
        }
    }

    /// Ce qu'il y a à en dire à l'utilisateur.
    pub fn message(&self) -> (s: String)
        ensures
            s@ == self.texte(),
    {
        match self {
            ChaineInvalide::Vide =>
                "Aucune ligne exploitable : tous les strikes sont absents ou non finis.".to_owned(),
            ChaineInvalide::SpotInvalide =>
                "Prix du sous-jacent absent ou negatif : rien ne peut etre calcule sans lui.".to_owned(),
        }
    }
}

/// Le prix du sous-jacent est un nombre fini et positif.
pub open spec fn spot_valide(spot: Flottant) -> bool {
    spot.fini() && spot.positif()
}

/// Ce que donne la construction d'une chaîne : un prix du sous-jacent inutilisable la
/// refuse, puis l'absence de ligne exploitable ; sinon elle tient les lignes gardées,
/// assainies et triées.
pub open spec fn est_nouvelle(
    r: Result<Chaine, ChaineInvalide>,
    lignes: Seq<Ligne>,
    spot: Flottant,
    releve: InstantReleve,
) -> bool {
    match r {
        Err(ChaineInvalide::SpotInvalide) => !spot_valide(spot),
        Err(ChaineInvalide::Vide) => spot_valide(spot) && lignes_gardees(lignes).len() == 0,
        Ok(c) => {
            &&& spot_valide(spot)
            &&& lignes_gardees(lignes).len() > 0
            &&& c.spot == spot
            &&& c.releve == releve
            &&& c.vue() == triee(lignes_gardees(lignes), |a: Ligne, b: Ligne| ligne_avant(a, b))
            &&& c.valide()
        },
    }
}

impl Chaine {
    /// Les lignes, dans l'ordre.
    pub open spec fn vue(&self) -> Seq<Ligne> {
        self.lignes@
    }

    /// Ce que toute chaîne garantit : un prix utilisable, au moins une ligne, que
    /// des nombres finis, des prix d'exercice positifs, et l'ordre.
    pub open spec fn valide(&self) -> bool {
        &&& spot_valide(self.spot)
        &&& self.vue().len() > 0
        &&& ordonnee(self.vue(), |a: Ligne, b: Ligne| ligne_avant(a, b))
        &&& forall|i: int|
            0 <= i < self.vue().len() ==> {
                &&& (#[trigger] self.vue()[i]).exploitable()
                &&& self.vue()[i].call.tout_fini()
                &&& self.vue()[i].put.tout_fini()
            }
    }

    /// Construit une chaîne à partir de lignes brutes.
    ///
    /// Assainit chaque côté, écarte les prix d'exercice inexploitables, et trie.
    pub fn nouvelle(lignes: Vec<Ligne>, spot: Flottant, releve: InstantReleve) -> (r: Result<
        Chaine,
        ChaineInvalide,
    >)
        ensures
            est_nouvelle(r, lignes@, spot, releve),
    {
        if !spot.est_fini() || !spot.est_positif() {
            return Err(ChaineInvalide::SpotInvalide);
        }
        let mut gardees: Vec<Ligne> = Vec::new();
        let mut i: usize = 0;
        while i < lignes.len()
            invariant
                i <= lignes@.len(),
                gardees@ == lignes_gardees(lignes@.take(i as int)),
                forall|k: int|
                    0 <= k < gardees@.len() ==> {
                        &&& (#[trigger] gardees@[k]).exploitable()
                        &&& gardees@[k].call.tout_fini()
                        &&& gardees@[k].put.tout_fini()
                    },
            decreases lignes@.len() - i,
        {
            let l: Ligne = lignes[i];
            proof {
                assert(lignes@.take(i + 1).drop_last() =~= lignes@.take(i as int));
                assert(lignes@.take(i + 1).last() == l);
            }
            if l.strike.est_fini() && l.strike.est_positif() {
                gardees.push(
                    Ligne {
                        echeance: l.echeance,
                        strike: l.strike,
                        call: l.call.assainir(),
                        put: l.put.assainir(),
                    },
                );
            }
            i += 1;
        }
        assert(lignes@.take(lignes@.len() as int) =~= lignes@);
        if gardees.len() == 0 {
            return Err(ChaineInvalide::Vide);
        }
        let ghost avant = |a: Ligne, b: Ligne| ligne_avant(a, b);
        let rangees: Vec<Ligne> = trier(
            gardees.as_slice(),
            ligne_precede,
            Ghost(avant),
        );
        let c: Chaine = Chaine { lignes: rangees, spot, releve };
        proof {
            lemme_ordre_des_lignes();
            le_tri_range_sans_rien_perdre(gardees@, avant);
            le_tri_garde_les_elements(gardees@, avant);
            assert forall|k: int| 0 <= k < c.vue().len() implies {
                &&& (#[trigger] c.vue()[k]).exploitable()
                &&& c.vue()[k].call.tout_fini()
                &&& c.vue()[k].put.tout_fini()
            } by {
                assert(triee(gardees@, avant).contains(c.vue()[k]));
                assert(gardees@.contains(c.vue()[k]));
            }
        }
        Ok(c)
    }

    /// Les lignes, triées.
    pub fn lignes(&self) -> (l: &[Ligne])
        ensures
            l@ == self.vue(),
    {
        self.lignes.as_slice()
    }

    /// Les échéances distinctes, dans l'ordre.
    pub fn echeances(&self) -> (v: Vec<EcheanceNy>)
        ensures
            v@ == echeances_vues(self.vue()),
    {
        let mut v: Vec<EcheanceNy> = Vec::new();
        let mut i: usize = 0;
        while i < self.lignes.len()
            invariant
                i <= self.lignes@.len(),
                v@ == echeances_vues(self.lignes@.take(i as int)),
            decreases self.lignes@.len() - i,
        {
            let e: EcheanceNy = self.lignes[i].echeance;
            proof {
                assert(self.lignes@.take(i + 1).drop_last() =~= self.lignes@.take(i as int));
            }
            if v.len() == 0 || v[v.len() - 1] != e {
                v.push(e);
            }
            i += 1;
        }
        assert(self.lignes@.take(self.lignes@.len() as int) =~= self.lignes@);
        v
    }

    /// Une chaîne restreinte aux lignes retenues, sans retrier.
    pub fn filtrer<F: Fn(&Ligne) -> bool>(&self, garde: F) -> (r: Result<Chaine, ChaineInvalide>)
        requires
            forall|i: int|
                0 <= i < self.vue().len() ==> call_requires(garde, (&#[trigger] self.vue()[i],)),
        ensures
            exists|choix: Seq<bool>|
                {
                    &&& choix.len() == self.vue().len()
                    &&& forall|i: int|
                        0 <= i < self.vue().len() ==> call_ensures(
                            garde,
                            (&self.vue()[i],),
                            #[trigger] choix[i],
                        )
                    &&& match r {
                        Ok(c) => {
                            &&& c.vue() == #[trigger] selection(self.vue(), choix)
                            &&& c.vue().len() > 0
                            &&& c.spot == self.spot
                            &&& c.releve == self.releve
                        },
                        Err(e) => e == ChaineInvalide::Vide && selection(self.vue(), choix).len()
                            == 0,
                    }
                },
            self.valide() && r is Ok ==> r->Ok_0.valide(),
    {
        let mut lignes: Vec<Ligne> = Vec::new();
        let ghost mut choix: Seq<bool> = Seq::empty();
        let ghost mut origine: Seq<int> = Seq::empty();
        let mut i: usize = 0;
        while i < self.lignes.len()
            invariant
                i <= self.lignes@.len(),
                choix.len() == i,
                lignes@ == selection(self.lignes@.take(i as int), choix),
                forall|k: int|
                    0 <= k < self.vue().len() ==> call_requires(
                        garde,
                        (&#[trigger] self.vue()[k],),
                    ),
                forall|k: int|
                    0 <= k < i ==> call_ensures(garde, (&self.lignes@[k],), #[trigger] choix[k]),
                origine.len() == lignes@.len(),
                forall|k: int|
                    0 <= k < origine.len() ==> 0 <= #[trigger] origine[k] < i && lignes@[k]
                        == self.lignes@[origine[k]],
                forall|k: int, m: int|
                    0 <= k < m < origine.len() ==> #[trigger] origine[k] < #[trigger] origine[m],
            decreases self.lignes@.len() - i,
        {
            let l: Ligne = self.lignes[i];
            assert(l == self.vue()[i as int]);
            let oui: bool = garde(&l);
            proof {
                let s = self.lignes@.take(i + 1);
                assert(s.drop_last() =~= self.lignes@.take(i as int));
                lemme_selection_prefixe(self.lignes@.take(i as int), choix, oui);
                choix = choix.push(oui);
                assert(s.last() == l);
                if oui {
                    origine = origine.push(i as int);
                }
            }
            if oui {
                lignes.push(l);
            }
            i += 1;
        }
        proof {
            assert(self.lignes@.take(self.lignes@.len() as int) =~= self.lignes@);
            assert(lignes@ == selection(self.vue(), choix));
        }
        if lignes.len() == 0 {
            return Err(ChaineInvalide::Vide);
        }
        let c: Chaine = Chaine { lignes, spot: self.spot, releve: self.releve };
        proof {
            let avant = |a: Ligne, b: Ligne| ligne_avant(a, b);
            if self.valide() {
                assert forall|x: int, y: int| 0 <= x < y < c.vue().len() implies !avant(
                    #[trigger] c.vue()[y],
                    #[trigger] c.vue()[x],
                ) by {
                    assert(origine[x] < origine[y]);
                    assert(!avant(self.vue()[origine[y]], self.vue()[origine[x]]));
                }
                assert forall|k: int| 0 <= k < c.vue().len() implies {
                    &&& (#[trigger] c.vue()[k]).exploitable()
                    &&& c.vue()[k].call.tout_fini()
                    &&& c.vue()[k].put.tout_fini()
                } by {
                    assert(c.vue()[k] == self.vue()[origine[k]]);
                }
            }
        }
        Ok(c)
    }
}

proof fn lemme_ordre_des_lignes()
    ensures
        ordre_faible(|a: Ligne, b: Ligne| ligne_avant(a, b)),
{
}

pub proof fn lemme_selection_prefixe<T>(s: Seq<T>, garde: Seq<bool>, b: bool)
    requires
        s.len() <= garde.len(),
    ensures
        selection(s, garde.push(b)) == selection(s, garde),
    decreases s.len(),
{
    if s.len() > 0 {
        lemme_selection_prefixe(s.drop_last(), garde, b);
    }
}

} // verus!
