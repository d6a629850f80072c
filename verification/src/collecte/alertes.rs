//! Ce qui mérite d'interrompre quelqu'un, et ce qui n'est que du bruit.
//!
//! Trois événements changent la lecture du terrain : le GEX qui change de signe, le
//! prix qui franchit le zero gamma, le prix qui franchit un mur. Deux garde-fous
//! empêchent de crier sur du bruit : un nouveau signe doit tenir plusieurs passages
//! d'affilée, et chaque niveau a une bande morte où le prix n'est d'aucun côté.

use crate::fixe::{ecrire, ecrire_signe, fixe, fixe_avec_signe};
#[allow(unused_imports)]
use crate::fixe::{ecrit_relatif, fixe_de, fixe_signe};
use crate::flottant::Flottant;
use crate::json::{borner, citer, membre, objet_de_trois};
#[allow(unused_imports)]
use crate::json::{
    json_ecrit, lemme_tableaux, lemme_trois_membres, lemme_un_membre, Json,
};
use crate::texte::{ajouter, ajouter_texte, capitales, caracteres, en_texte, joindre};
#[allow(unused_imports)]
use crate::texte::{capitales_de, joints, vues};
use vstd::prelude::*;

verus! {

/// L'état du terrain à un instant, réduit à ce qui peut déclencher.
#[derive(Clone, Copy, Debug, PartialEq, Eq, Structural)]
pub struct Etat {
    /// Prix du sous-jacent.
    pub spot: Flottant,
    /// GEX total.
    pub gex: Flottant,
    /// Zero gamma retenu, s'il existe.
    pub zero_gamma: Option<Flottant>,
    /// Mur call en gamma.
    pub call_wall: Option<Flottant>,
    /// Mur put en gamma.
    pub put_wall: Option<Flottant>,
}

/// Ce qui a basculé depuis le passage précédent.
#[derive(Clone, Copy, Debug, PartialEq, Eq)]
pub enum Bascule {
    /// Le GEX a changé de signe, et le nouveau signe a tenu.
    RegimeGamma {
        /// Le GEX au moment où le nouveau signe s'est confirmé.
        gex: Flottant,
        /// Le nouveau régime amplifie-t-il ?
        negatif: bool,
    },
    /// Le prix a franchi le zero gamma, d'un côté franc à l'autre.
    ZeroGamma {
        /// Le niveau franchi.
        niveau: Flottant,
        /// Vers le haut ?
        vers_le_haut: bool,
    },
    /// Le prix a franchi un mur.
    Mur {
        /// « call wall » ou « put wall ».
        nom: &'static str,
        /// Le niveau franchi.
        niveau: Flottant,
        /// Vers le haut ?
        vers_le_haut: bool,
    },
}

/// Nombre de passages pendant lesquels un nouveau signe doit tenir.
pub const CONFIRMATIONS_DEFAUT: u32 = 3;

/// Demi-largeur de la bande morte autour d'un niveau, en fraction de ce niveau : un
/// millième. En deçà, le prix est collé au niveau.
#[verifier::allow_in_spec]
pub fn marge_defaut() -> (m: Flottant)
    returns
        Flottant::fraction(1, 1000),
{
    Flottant::fraction(1, 1000)
}

/// Par où un niveau est franchi.
pub open spec fn par_ou(vers_le_haut: bool) -> Seq<char> {
    if vers_le_haut {
        "PAR LE HAUT"@
    } else {
        "PAR LE BAS"@
    }
}

/// Ce qu'on dit d'un mur, son nom déjà en majuscules.
pub open spec fn intitule_de_mur(nom: Seq<char>, vers_le_haut: bool) -> Seq<char> {
    nom + " FRANCHI "@ + par_ou(vers_le_haut)
}

/// L'annonce d'un mur, son nom déjà en majuscules.
pub fn titre_de_mur(nom: &str, vers_le_haut: bool) -> (s: String)
    ensures
        s@ == intitule_de_mur(nom@, vers_le_haut),
{
    let mut v: Vec<char> = caracteres(nom);
    ajouter_texte(&mut v, " FRANCHI ");
    ajouter_texte(
        &mut v,
        if vers_le_haut {
            "PAR LE HAUT"
        } else {
            "PAR LE BAS"
        },
    );
    en_texte(v.as_slice())
}

impl Bascule {
    /// Ce qu'on dit d'une bascule.
    pub open spec fn intitule(self) -> Seq<char> {
        match self {
            Bascule::RegimeGamma { gex: _, negatif } => if negatif {
                "GAMMA NÉGATIF : les couvertures amplifient désormais"@
            } else {
                "GAMMA POSITIF : les couvertures amortissent désormais"@
            },
            Bascule::ZeroGamma { niveau: _, vers_le_haut } => "ZERO GAMMA FRANCHI "@ + par_ou(
                vers_le_haut,
            ),
            Bascule::Mur { nom, niveau: _, vers_le_haut } => intitule_de_mur(
                capitales_de(nom@),
                vers_le_haut,
            ),
        }
    }

    /// Ce qu'on en dit, en une ligne.
    pub fn titre(&self) -> (s: String)
        ensures
            s@ == self.intitule(),
    {
        let mut v: Vec<char> = Vec::new();
        match self {
            Bascule::RegimeGamma { gex: _, negatif } => {
                if *negatif {
                    ajouter_texte(&mut v, "GAMMA NÉGATIF : les couvertures amplifient désormais");
                } else {
                    ajouter_texte(&mut v, "GAMMA POSITIF : les couvertures amortissent désormais");
                }
            },
            Bascule::ZeroGamma { niveau: _, vers_le_haut } => {
                ajouter_texte(&mut v, "ZERO GAMMA FRANCHI ");
                ajouter_texte(
                    &mut v,
                    if *vers_le_haut {
                        "PAR LE HAUT"
                    } else {
                        "PAR LE BAS"
                    },
                );
            },
            Bascule::Mur { nom, niveau: _, vers_le_haut } => {
                return titre_de_mur(capitales(nom).as_str(), *vers_le_haut);
            },
        }
        assert(v@ =~= self.intitule());
        en_texte(v.as_slice())
    }
}

/// De quel côté d'un niveau se trouve le prix. D'aucun, dans la bande morte.
pub open spec fn cote_de(spot: Flottant, niveau: Flottant, marge: Flottant) -> Option<bool> {
    let bande = niveau.abs().fois(marge);
    if niveau.plus(bande).inferieur(spot) {
        Some(true)
    } else if spot.inferieur(niveau.moins(bande)) {
        Some(false)
    } else {
        None
    }
}

/// Le côté d'un niveau qui peut manquer.
pub open spec fn cote_si(spot: Flottant, niveau: Option<Flottant>, marge: Flottant) -> Option<
    bool,
> {
    match niveau {
        None => None,
        Some(n) => cote_de(spot, n, marge),
    }
}

fn cote(spot: Flottant, niveau: Option<Flottant>, marge: Flottant) -> (r: Option<bool>)
    ensures
        r == cote_si(spot, niveau, marge),
{
    match niveau {
        None => None,
        Some(n) => {
            let bande: Flottant = n.abs().fois(marge);
            if n.plus(bande).inf(spot) {
                Some(true)
            } else if spot.inf(n.moins(bande)) {
                Some(false)
            } else {
                None
            }
        },
    }
}

/// Le signe d'un GEX : un non-nombre n'en a pas.
pub open spec fn signe_de(gex: Flottant) -> i8 {
    if gex.positif() {
        1
    } else if gex.inferieur(Flottant::nul()) {
        -1i8
    } else {
        0
    }
}

fn signe(gex: Flottant) -> (s: i8)
    ensures
        s == signe_de(gex),
{
    if gex.est_positif() {
        1
    } else if gex.inf(Flottant::nul()) {
        -1
    } else {
        0
    }
}

/// La mémoire qui distingue un basculement d'une oscillation.
#[derive(Clone, Copy, Debug)]
pub struct Veilleuse {
    pub signe_confirme: Option<i8>,
    pub candidat: Option<(i8, u32)>,
    pub cote_zero: Option<bool>,
    pub cote_call: Option<bool>,
    pub cote_put: Option<bool>,
    pub amorcee: bool,
    pub confirmations: u32,
    pub marge: Flottant,
}

/// Le niveau franchi, s'il l'est : d'un côté connu à l'autre.
pub open spec fn franchi(avant: Option<bool>, apres: Option<bool>) -> bool {
    avant is Some && apres is Some && avant != apres
}

/// Le dernier côté connu.
pub open spec fn retenu(apres: Option<bool>, avant: Option<bool>) -> Option<bool> {
    if apres is Some {
        apres
    } else {
        avant
    }
}

impl Veilleuse {
    /// Il faut au moins une confirmation, et un candidat n'en a pas encore assez.
    pub open spec fn valide(self) -> bool {
        &&& self.confirmations >= 1
        &&& self.candidat matches Some((s, n)) ==> 1 <= n < self.confirmations
    }

    /// Les passages d'affilée où l'on voit ce signe, celui-ci compris.
    pub open spec fn compte(self, s: i8) -> int {
        match self.candidat {
            Some((c, n)) if c == s => n + 1,
            _ => 1,
        }
    }

    /// Un signe qui n'est pas celui confirmé, et qui vient de tenir assez.
    pub open spec fn confirme(self, s: i8) -> bool {
        self.signe_confirme != Some(s) && self.compte(s) >= self.confirmations
    }

    /// La mémoire après un passage.
    pub open spec fn apres(self, etat: Etat) -> Veilleuse {
        let s = signe_de(etat.gex);
        let z = cote_si(etat.spot, etat.zero_gamma, self.marge);
        let c = cote_si(etat.spot, etat.call_wall, self.marge);
        let p = cote_si(etat.spot, etat.put_wall, self.marge);
        if !self.amorcee {
            Veilleuse {
                amorcee: true,
                signe_confirme: Some(s),
                cote_zero: z,
                cote_call: c,
                cote_put: p,
                ..self
            }
        } else {
            Veilleuse {
                signe_confirme: if self.confirme(s) {
                    Some(s)
                } else {
                    self.signe_confirme
                },
                candidat: if self.signe_confirme == Some(s) || self.confirme(s) {
                    None
                } else {
                    Some((s, self.compte(s) as u32))
                },
                cote_zero: retenu(z, self.cote_zero),
                cote_call: retenu(c, self.cote_call),
                cote_put: retenu(p, self.cote_put),
                ..self
            }
        }
    }

    /// L'annonce de régime d'un passage : un GEX nul n'est pas un régime.
    pub open spec fn annonce_regime(self, etat: Etat) -> Seq<Bascule> {
        let s = signe_de(etat.gex);
        if self.amorcee && self.confirme(s) && s != 0 {
            seq![Bascule::RegimeGamma { gex: etat.gex, negatif: s < 0 }]
        } else {
            Seq::empty()
        }
    }

    /// L'annonce du zero gamma.
    pub open spec fn annonce_zero(self, etat: Etat) -> Seq<Bascule> {
        let z = cote_si(etat.spot, etat.zero_gamma, self.marge);
        if self.amorcee && franchi(self.cote_zero, z) {
            seq![
                Bascule::ZeroGamma { niveau: etat.zero_gamma->Some_0, vers_le_haut: z->Some_0 },
            ]
        } else {
            Seq::empty()
        }
    }

    /// L'annonce d'un mur.
    pub open spec fn annonce_mur(
        self,
        etat: Etat,
        nom: &'static str,
        niveau: Option<Flottant>,
        avant: Option<bool>,
    ) -> Seq<Bascule> {
        let c = cote_si(etat.spot, niveau, self.marge);
        if self.amorcee && franchi(avant, c) {
            seq![Bascule::Mur { nom, niveau: niveau->Some_0, vers_le_haut: c->Some_0 }]
        } else {
            Seq::empty()
        }
    }

    /// Tout ce qu'un passage annonce, dans l'ordre.
    pub open spec fn annonces(self, etat: Etat) -> Seq<Bascule> {
        self.annonce_regime(etat) + self.annonce_zero(etat) + self.annonce_mur(
            etat,
            "call wall",
            etat.call_wall,
            self.cote_call,
        ) + self.annonce_mur(etat, "put wall", etat.put_wall, self.cote_put)
    }

    /// Une veilleuse vierge.
    ///
    /// Zéro confirmation ferait du premier passage sa propre confirmation : il en faut
    /// au moins une. Une marge négative est ramenée à zéro.
    pub fn neuve(confirmations: u32, marge: Flottant) -> (v: Veilleuse)
        ensures
            v.valide(),
            !v.amorcee,
            v.signe_confirme is None,
            v.candidat is None,
            v.cote_zero is None,
            v.cote_call is None,
            v.cote_put is None,
            v.confirmations == if confirmations < 1 {
                1
            } else {
                confirmations
            },
            v.marge == marge.max(Flottant::nul()),
    {
        Veilleuse {
            signe_confirme: None,
            candidat: None,
            cote_zero: None,
            cote_call: None,
            cote_put: None,
            amorcee: false,
            confirmations: if confirmations < 1 {
                1
            } else {
                confirmations
            },
            marge: marge.max(Flottant::nul()),
        }
    }

    /// Observe un état, et rend ce qui a basculé.
    ///
    /// Le premier passage n'annonce rien : il enregistre où l'on se trouve.
    pub fn observer(&mut self, etat: &Etat) -> (sorties: Vec<Bascule>)
        requires
            old(self).valide(),
        ensures
            *final(self) == old(self).apres(*etat),
            final(self).valide(),
            sorties@ == old(self).annonces(*etat),
    {
        let mut sorties: Vec<Bascule> = Vec::new();
        let s: i8 = signe(etat.gex);
        let z: Option<bool> = cote(etat.spot, etat.zero_gamma, self.marge);
        let c: Option<bool> = cote(etat.spot, etat.call_wall, self.marge);
        let p: Option<bool> = cote(etat.spot, etat.put_wall, self.marge);
        let ghost debut = *self;
        if !self.amorcee {
            self.amorcee = true;
            self.signe_confirme = Some(s);
            self.cote_zero = z;
            self.cote_call = c;
            self.cote_put = p;
            assert(sorties@ =~= debut.annonces(*etat));
            return sorties;
        }
        // Le signe : il doit tenir avant d'être annoncé.
        let deja: bool = match self.signe_confirme {
            Some(confirme) => confirme == s,
            None => false,
        };
        if deja {
            self.candidat = None;
        } else {
            let compte: u32 = match self.candidat {
                Some((k, n)) => if k == s {
                    n + 1
                } else {
                    1
                },
                None => 1,
            };
            if compte >= self.confirmations {
                self.signe_confirme = Some(s);
                self.candidat = None;
                if s != 0 {
                    sorties.push(Bascule::RegimeGamma { gex: etat.gex, negatif: s < 0 });
                }
            } else {
                self.candidat = Some((s, compte));
            }
        }
        assert(sorties@ =~= debut.annonce_regime(*etat));
        // Les niveaux : entrer dans la bande morte ne bascule rien, en sortir du même
        // côté non plus.
        if let (Some(avant), Some(apres), Some(niveau)) = (self.cote_zero, z, etat.zero_gamma) {
            if avant != apres {
                sorties.push(Bascule::ZeroGamma { niveau, vers_le_haut: apres });
            }
        }
        assert(sorties@ =~= debut.annonce_regime(*etat) + debut.annonce_zero(*etat));
        if let (Some(avant), Some(apres), Some(niveau)) = (self.cote_call, c, etat.call_wall) {
            if avant != apres {
                sorties.push(Bascule::Mur { nom: "call wall", niveau, vers_le_haut: apres });
            }
        }
        assert(sorties@ =~= debut.annonce_regime(*etat) + debut.annonce_zero(*etat)
            + debut.annonce_mur(*etat, "call wall", etat.call_wall, debut.cote_call));
        if let (Some(avant), Some(apres), Some(niveau)) = (self.cote_put, p, etat.put_wall) {
            if avant != apres {
                sorties.push(Bascule::Mur { nom: "put wall", niveau, vers_le_haut: apres });
            }
        }
        assert(sorties@ =~= debut.annonces(*etat));
        // Un côté indéterminé n'écrase pas le dernier côté connu.
        if z.is_some() {
            self.cote_zero = z;
        }
        if c.is_some() {
            self.cote_call = c;
        }
        if p.is_some() {
            self.cote_put = p;
        }
        sorties
    }
}

impl Default for Veilleuse {
    fn default() -> (v: Veilleuse)
        ensures
            v.valide(),
            !v.amorcee,
            v.signe_confirme is None,
            v.candidat is None,
            v.cote_zero is None,
            v.cote_call is None,
            v.cote_put is None,
            v.confirmations == CONFIRMATIONS_DEFAUT,
            v.marge == Flottant::fraction(1, 1000).max(Flottant::nul()),
    {
        Veilleuse::neuve(CONFIRMATIONS_DEFAUT, marge_defaut())
    }
}

/// La mémoire après une suite de passages.
pub open spec fn apres_tous(v: Veilleuse, etats: Seq<Etat>) -> Veilleuse
    decreases etats.len(),
{
    if etats.len() == 0 {
        v
    } else {
        apres_tous(v, etats.drop_last()).apres(etats.last())
    }
}

/// Le premier passage n'annonce rien.
pub proof fn le_premier_passage_se_tait(v: Veilleuse, etat: Etat)
    requires
        !v.amorcee,
    ensures
        v.annonces(etat).len() == 0,
        v.apres(etat).amorcee,
{
}

proof fn lemme_signe_qui_tient(v: Veilleuse, etats: Seq<Etat>, s: i8)
    requires
        v.valide(),
        v.amorcee,
        v.candidat is None,
        v.signe_confirme != Some(s),
        forall|i: int| 0 <= i < etats.len() ==> signe_de((#[trigger] etats[i]).gex) == s,
        etats.len() < v.confirmations,
    ensures
        ({
            let w = apres_tous(v, etats);
            &&& w.valide()
            &&& w.amorcee
            &&& w.confirmations == v.confirmations
            &&& w.signe_confirme == v.signe_confirme
            &&& etats.len() == 0 ==> w.candidat is None
            &&& etats.len() > 0 ==> w.candidat == Some((s, etats.len() as u32))
        }),
    decreases etats.len(),
{
    if etats.len() > 0 {
        let t = etats.drop_last();
        assert forall|i: int| 0 <= i < t.len() implies signe_de((#[trigger] t[i]).gex) == s by {
            assert(t[i] == etats[i]);
        }
        lemme_signe_qui_tient(v, t, s);
        assert(etats.last() == etats[etats.len() - 1]);
    }
}

/// Un nouveau signe n'est annoncé qu'au passage où il a tenu autant de fois d'affilée
/// qu'il le faut, et il l'est alors, sauf s'il est nul.
pub proof fn un_signe_s_annonce_quand_il_a_tenu(
    v: Veilleuse,
    etats: Seq<Etat>,
    dernier: Etat,
    s: i8,
)
    requires
        v.valide(),
        v.amorcee,
        v.candidat is None,
        v.signe_confirme != Some(s),
        forall|i: int| 0 <= i < etats.len() ==> signe_de((#[trigger] etats[i]).gex) == s,
        signe_de(dernier.gex) == s,
        etats.len() < v.confirmations,
    ensures
        ({
            let w = apres_tous(v, etats);
            &&& etats.len() + 1 < v.confirmations || s == 0 ==> w.annonce_regime(dernier).len() == 0
            &&& etats.len() + 1 == v.confirmations && s != 0 ==> w.annonce_regime(dernier) == seq![
                Bascule::RegimeGamma { gex: dernier.gex, negatif: s < 0 },
            ]
            &&& etats.len() + 1 == v.confirmations ==> w.apres(dernier).signe_confirme == Some(s)
        }),
{
    lemme_signe_qui_tient(v, etats, s);
}

/// Le signe confirmé ne s'annonce plus, et efface tout candidat.
pub proof fn un_signe_confirme_ne_se_repete_pas(v: Veilleuse, etat: Etat)
    requires
        v.signe_confirme == Some(signe_de(etat.gex)),
    ensures
        v.annonce_regime(etat).len() == 0,
        v.amorcee ==> v.apres(etat).candidat is None,
{
}

/// Un GEX nul n'annonce aucun régime.
pub proof fn un_gex_nul_n_annonce_rien(v: Veilleuse, etat: Etat)
    requires
        signe_de(etat.gex) == 0,
    ensures
        v.annonce_regime(etat).len() == 0,
{
}

/// Dans la bande morte, ou sans niveau, rien n'est franchi, et le côté d'avant n'est
/// pas oublié.
pub proof fn la_bande_morte_ne_franchit_rien(v: Veilleuse, etat: Etat)
    requires
        v.amorcee,
        cote_si(etat.spot, etat.zero_gamma, v.marge) is None,
    ensures
        v.annonce_zero(etat).len() == 0,
        v.apres(etat).cote_zero == v.cote_zero,
{
}

/// En ressortir du même côté n'annonce rien ; en sortir de l'autre s'annonce.
pub proof fn la_bande_traversee_ne_compte_que_d_un_cote_a_l_autre(
    v: Veilleuse,
    dedans: Etat,
    sortie: Etat,
)
    requires
        v.amorcee,
        v.cote_zero is Some,
        cote_si(dedans.spot, dedans.zero_gamma, v.marge) is None,
        cote_si(sortie.spot, sortie.zero_gamma, v.marge) is Some,
    ensures
        v.apres(dedans).annonce_zero(sortie).len() == if cote_si(
            sortie.spot,
            sortie.zero_gamma,
            v.marge,
        ) == v.cote_zero {
            0nat
        } else {
            1nat
        },
{
}

/// La couleur d'une annonce.
pub open spec fn couleur_de(b: Bascule) -> nat {
    match b {
        Bascule::RegimeGamma { gex: _, negatif } => if negatif {
            0xe0_2b_2b
        } else {
            0x1f_6b_4a
        },
        Bascule::ZeroGamma { .. } => 0xe0_8a_2b,
        Bascule::Mur { .. } => 0x2b_7b_e0,
    }
}

/// La zone que dit le signe du GEX, jamais le sens du franchissement.
pub open spec fn zone_de(gex: Flottant) -> Seq<char> {
    if gex.inferieur(Flottant::nul()) {
        "zone NÉGATIVE — les couvertures amplifient"@
    } else {
        "zone POSITIVE — les couvertures amortissent"@
    }
}

/// Ce qu'une annonce dit du niveau en cause.
pub open spec fn precisions_de(b: Bascule, etat: Etat) -> Seq<Seq<char>> {
    match b {
        Bascule::ZeroGamma { niveau, vers_le_haut: _ } => seq![
            "zero gamma "@ + fixe_de(niveau, 2),
            zone_de(etat.gex),
        ],
        Bascule::Mur { nom, niveau, vers_le_haut: _ } => seq![nom@ + " "@ + fixe_de(niveau, 2)],
        Bascule::RegimeGamma { .. } => match etat.zero_gamma {
            Some(z) => seq!["zero gamma "@ + fixe_de(z, 2)],
            None => Seq::empty(),
        },
    }
}

/// Les lignes d'une annonce.
pub open spec fn lignes_de_charge(
    b: Bascule,
    etat: Etat,
    horizon: i64,
    instant: Seq<char>,
) -> Seq<Seq<char>> {
    seq!["spot "@ + fixe_de(etat.spot, 2), "GEX "@ + fixe_signe(etat.gex, 0)] + precisions_de(
        b,
        etat,
    ) + seq!["horizon <= "@ + ecrit_relatif(horizon as int) + " j  |  "@ + instant]
}

/// L'annonce comme valeur JSON : aucune mention interprétée, un encart d'une couleur, d'une
/// description et d'un titre, et le nom de qui l'envoie.
pub open spec fn valeur_de_charge(couleur: nat, description: Seq<char>, titre: Seq<char>) -> Json {
    let encart = Json::Objet(
        seq![
            ("color"@, Json::Nombre(couleur)),
            ("description"@, Json::Texte(description)),
            ("title"@, Json::Texte(titre)),
        ],
    );
    Json::Objet(
        seq![
            ("allowed_mentions"@, Json::Objet(seq![("parse"@, Json::Tableau(Seq::empty()))])),
            ("embeds"@, Json::Tableau(seq![encart])),
            ("username"@, Json::Texte("GEX"@)),
        ],
    )
}

/// La charge d'une annonce : l'écriture JSON de sa valeur, quels que soient le produit,
/// l'horizon et l'instant.
pub open spec fn charge_de(
    b: Bascule,
    etat: Etat,
    produit: Seq<char>,
    horizon: i64,
    instant: Seq<char>,
) -> Seq<char> {
    json_ecrit(
        valeur_de_charge(
            couleur_de(b),
            joints(lignes_de_charge(b, etat, horizon, instant), "\n"@),
            produit + " — "@ + b.intitule(),
        ),
    )
}

/// D'un franchissement du zero gamma, la zone annoncée suit le signe du GEX et jamais le sens
/// du franchissement : une seule des deux lignes de zone y est.
pub proof fn la_zone_suit_le_gex(
    niveau: Flottant,
    vers_le_haut: bool,
    etat: Etat,
    horizon: i64,
    instant: Seq<char>,
)
    ensures
        ({
            let l = lignes_de_charge(
                Bascule::ZeroGamma { niveau, vers_le_haut },
                etat,
                horizon,
                instant,
            );
            &&& l.contains("zone NÉGATIVE — les couvertures amplifient"@) <==> etat.gex.inferieur(
                Flottant::nul(),
            )
            &&& l.contains("zone POSITIVE — les couvertures amortissent"@) <==> !etat.gex.inferieur(
                Flottant::nul(),
            )
        }),
{
    let l = lignes_de_charge(Bascule::ZeroGamma { niveau, vers_le_haut }, etat, horizon, instant);
    let non = "zone NÉGATIVE — les couvertures amplifient"@;
    let oui = "zone POSITIVE — les couvertures amortissent"@;
    reveal_strlit("zone NÉGATIVE — les couvertures amplifient");
    reveal_strlit("zone POSITIVE — les couvertures amortissent");
    reveal_strlit("spot ");
    reveal_strlit("GEX ");
    reveal_strlit("zero gamma ");
    reveal_strlit("horizon <= ");
    assert(l.len() == 5);
    assert(l[0][0] == 's' && l[1][0] == 'G' && l[2][1] == 'e' && l[4][0] == 'h');
    assert(non[0] == 'z' && non[1] == 'o' && oui[0] == 'z' && oui[1] == 'o');
    assert(non[5] == 'N' && oui[5] == 'P');
    assert(l[3] == zone_de(etat.gex));
    assert forall|k: int| 0 <= k < l.len() && k != 3 implies #[trigger] l[k] != non && l[k]
        != oui by {
        assert(k == 0 || k == 1 || k == 2 || k == 4);
    }
}

fn assembler(couleur: u64, description: &str, titre: &str) -> (s: String)
    ensures
        s@ == json_ecrit(valeur_de_charge(couleur as nat, description@, titre@)),
{
    let texte_description: Vec<char> = caracteres(citer(description).as_str());
    let texte_titre: Vec<char> = caracteres(citer(titre).as_str());
    let encart: Vec<char> = objet_de_trois(
        membre("color", ecrire(couleur).as_slice()).as_slice(),
        membre("description", texte_description.as_slice()).as_slice(),
        membre("title", texte_titre.as_slice()).as_slice(),
    );
    let liste: Vec<char> = borner('[', encart.as_slice(), ']');
    let rien: Vec<char> = Vec::new();
    let aucune: Vec<char> = borner('[', rien.as_slice(), ']');
    let mentions: Vec<char> = borner('{', membre("parse", aucune.as_slice()).as_slice(), '}');
    let nom: Vec<char> = caracteres(citer("GEX").as_str());
    let tout: Vec<char> = objet_de_trois(
        membre("allowed_mentions", mentions.as_slice()).as_slice(),
        membre("embeds", liste.as_slice()).as_slice(),
        membre("username", nom.as_slice()).as_slice(),
    );
    proof {
        let (c, d, t) = (
            ("color"@, Json::Nombre(couleur as nat)),
            ("description"@, Json::Texte(description@)),
            ("title"@, Json::Texte(titre@)),
        );
        let j = Json::Objet(seq![c, d, t]);
        let parse = ("parse"@, Json::Tableau(Seq::empty()));
        let m = ("allowed_mentions"@, Json::Objet(seq![parse]));
        let e = ("embeds"@, Json::Tableau(seq![j]));
        let u = ("username"@, Json::Texte("GEX"@));
        lemme_trois_membres(c, d, t);
        lemme_un_membre(parse);
        lemme_tableaux(j);
        lemme_trois_membres(m, e, u);
        assert(aucune@ =~= seq!['[', ']']);
        assert(encart@ == json_ecrit(j));
        assert(mentions@ == json_ecrit(m.1));
        assert(liste@ == json_ecrit(e.1));
        assert(tout@ == json_ecrit(Json::Objet(seq![m, e, u])));
    }
    en_texte(tout.as_slice())
}

fn precisions(b: &Bascule, etat: &Etat) -> (v: Vec<Vec<char>>)
    ensures
        vues(v@) == precisions_de(*b, *etat),
{
    let mut v: Vec<Vec<char>> = Vec::new();
    match b {
        Bascule::ZeroGamma { niveau, vers_le_haut: _ } => {
            let mut l: Vec<char> = caracteres("zero gamma ");
            ajouter(&mut l, fixe(*niveau, 2).as_slice());
            v.push(l);
            // Le signe du GEX est mesuré ; le sens du franchissement, lui, ne dit pas la
            // zone dès que le profil croise zéro plusieurs fois.
            let zone: Vec<char> = if etat.gex.inf(Flottant::nul()) {
                caracteres("zone NÉGATIVE — les couvertures amplifient")
            } else {
                caracteres("zone POSITIVE — les couvertures amortissent")
            };
            v.push(zone);
        },
        Bascule::Mur { nom, niveau, vers_le_haut: _ } => {
            let mut l: Vec<char> = caracteres(nom);
            ajouter_texte(&mut l, " ");
            ajouter(&mut l, fixe(*niveau, 2).as_slice());
            v.push(l);
        },
        Bascule::RegimeGamma { gex: _, negatif: _ } => {
            if let Some(z) = etat.zero_gamma {
                let mut l: Vec<char> = caracteres("zero gamma ");
                ajouter(&mut l, fixe(z, 2).as_slice());
                v.push(l);
            }
        },
    }
    assert(vues(v@) =~= precisions_de(*b, *etat));
    v
}

fn couleur(b: &Bascule) -> (c: u64)
    ensures
        c == couleur_de(*b),
{
    match b {
        Bascule::RegimeGamma { gex: _, negatif } => if *negatif {
            0xe0_2b_2b
        } else {
            0x1f_6b_4a
        },
        Bascule::ZeroGamma { niveau: _, vers_le_haut: _ } => 0xe0_8a_2b,
        Bascule::Mur { nom: _, niveau: _, vers_le_haut: _ } => 0x2b_7b_e0,
    }
}

/// La charge à remettre au programme d'envoi, au format que Discord attend.
///
/// Aucune mention n'y est interprétée : une donnée recopiée ne doit jamais devenir une
/// commande.
pub fn charge_json(
    bascule: &Bascule,
    etat: &Etat,
    produit: &str,
    horizon: i64,
    instant: &str,
) -> (s: String)
    ensures
        s@ == charge_de(*bascule, *etat, produit@, horizon, instant@),
{
    let mut lignes: Vec<Vec<char>> = Vec::new();
    let mut l: Vec<char> = caracteres("spot ");
    ajouter(&mut l, fixe(etat.spot, 2).as_slice());
    lignes.push(l);
    let mut l: Vec<char> = caracteres("GEX ");
    ajouter(&mut l, fixe_avec_signe(etat.gex, 0).as_slice());
    lignes.push(l);
    let mut suite: Vec<Vec<char>> = precisions(bascule, etat);
    let ghost tete = lignes@;
    let ghost milieu = suite@;
    lignes.append(&mut suite);
    let mut l: Vec<char> = caracteres("horizon <= ");
    ajouter(&mut l, ecrire_signe(horizon).as_slice());
    ajouter_texte(&mut l, " j  |  ");
    ajouter_texte(&mut l, instant);
    lignes.push(l);
    proof {
        assert(vues(lignes@) =~= vues(tete) + vues(milieu) + seq![l@]);
        assert(vues(lignes@) =~= lignes_de_charge(*bascule, *etat, horizon, instant@));
    }
    let description: String = en_texte(joindre(&lignes, "\n").as_slice());
    let mut titre: Vec<char> = caracteres(produit);
    ajouter_texte(&mut titre, " — ");
    ajouter_texte(&mut titre, bascule.titre().as_str());
    let titre: String = en_texte(titre.as_slice());
    assembler(couleur(bascule), description.as_str(), titre.as_str())
}

} // verus!
