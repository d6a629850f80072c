//! Une session de collecte : ce que chaque réponse de la passerelle fait décider.
//!
//! Ce qui parle à la passerelle, à l'horloge et au disque vit ailleurs ; ici, l'état que
//! le collecteur garde d'une session à l'autre, et chacune de ses transitions.

use super::decisions::{
    attente_avant_reprise, bande_couverte, faut_il_rebalayer, faut_il_reselectionner, marge_bande,
};
#[allow(unused_imports)]
use super::decisions::{attente_de, bande_de, datable, rebalayage_du, reselection_due};
use crate::calendrier::{Instant, CALENDRIER_DEBUT};
#[allow(unused_imports)]
use crate::calendrier::{usuel, JOURNEE, MINUTE};
use crate::coeur::analyse::{analyser_si_defini, Analyse, Parametres};
#[allow(unused_imports)]
use crate::coeur::analyse;
#[allow(unused_imports)]
use crate::coeur::analyse::{
    agregats, croisements_analyses, distances_definies, iv_atm_de, le_charm, le_gex,
    lignes_analysees, lignes_vives, max_pain_de, mesures, plus_proche, skew_proche, strike_avant,
    strike_majeur, total, LigneExposee, Mur, RegimeVol, SourceGamma,
};
use crate::coeur::chaine::{Chaine, ChaineInvalide, Ligne};
#[allow(unused_imports)]
use crate::coeur::chaine::est_nouvelle;
#[allow(unused_imports)]
use crate::coeur::fonctions::{courbe, est_fonction};
use crate::coeur::temps::InstantReleve;
#[allow(unused_imports)]
use crate::coeur::temps::Convention;
use crate::decimal::lire_flottant;
#[allow(unused_imports)]
use crate::decimal::flottant_lu;
#[allow(unused_imports)]
use crate::entiers::{
    le_produit_de_petits_entiers_est_exact, le_quotient_d_un_multiple_est_exact, petit,
};
use crate::flottant::Flottant;
#[allow(unused_imports)]
use crate::flottant::rapport;
use crate::ib::assemblage::{build_chain, fusionner};
#[allow(unused_imports)]
use crate::ib::assemblage;
#[allow(unused_imports)]
use crate::ib::assemblage::{identifiants, lignes_fondues, prix_servis};
use crate::ib::client::Valeurs;
use crate::ib::decisions::{avec_conid, perimetre, selection_vif, CleContrat, ContratOption};
#[allow(unused_imports)]
use crate::ib::decisions::{
    contrat_avant, contrats_dans_la_plage, recollee, vif_de,
};
#[allow(unused_imports)]
use crate::ib::selections::lemme_un_milliardieme;
#[allow(unused_imports)]
use crate::ordre::{lemme_difference_ordonnee, lemme_oppose};
use crate::store::series::{
    a_la_minute, borne_de_retention, elaguer_barres, elaguer_niveaux, faut_il_ecrire_un_point,
    recoller, Barre, PointNiveaux,
};
#[allow(unused_imports)]
use crate::store::series::{
    avec_barres, barre_avant, barres_apres, jours_gardes,
    l_elagage_garde_les_points_qui_suivent_la_borne, minute_de, points_apres,
};
#[allow(unused_imports)]
use crate::store::validation::{rangeable, valeur_avant};
use crate::texte::{caracteres, en_texte, rogner};
#[allow(unused_imports)]
use crate::texte::rogne;
use crate::tri::trier;
#[allow(unused_imports)]
use crate::tri::{le_tri_garde_les_elements, triee};
use std::collections::HashMap;
use vstd::prelude::*;

verus! {

/// Durée, en millisecondes, au-delà de laquelle une session compte comme ayant tenu.
pub const SESSION_SAINE: u64 = 120_000;

/// Ce que le collecteur garde d'une session à l'autre.
///
/// Le socle survit à la coupure : l'open interest qu'il porte ne bougera pas avant la
/// publication du soir.
#[derive(Clone, Debug, PartialEq, Eq)]
pub struct Etat {
    /// La chaîne du dernier balayage.
    pub socle: Option<Chaine>,
    /// Les contrats balayés.
    pub catalogue: Vec<ContratOption>,
    /// Les contrats entretenus.
    pub vif: Vec<ContratOption>,
    /// Le prix du sous-jacent.
    pub spot: Flottant,
    /// L'instant du dernier balayage.
    pub date_socle: Option<Instant>,
    /// Les chandeliers, relus au démarrage puis entretenus.
    pub barres: Vec<Barre>,
    /// La trace des niveaux.
    pub niveaux: Vec<PointNiveaux>,
    /// La minute du dernier point écrit.
    pub derniere_minute: Option<Instant>,
    /// L'absence de vif a-t-elle déjà été dite ?
    pub vif_absent_signale: bool,
    /// Un marché qui ne cote pas a-t-il déjà été dit ?
    pub rien_ne_cote_signale: bool,
    /// Un refus de la passerelle sur le vif a-t-il déjà été dit ?
    pub refus_signale: bool,
    /// Des barres qui ne se rafraîchissent plus ont-elles déjà été dites ?
    pub barres_muettes_signale: bool,
    /// Le coût des archives a-t-il été annoncé ?
    pub cout_archives_annonce: bool,
}

/// Ce qu'un tour de boucle décide avant toute chose.
#[derive(Clone, Copy, Debug, PartialEq, Eq, Structural)]
pub enum Suite {
    /// L'arrêt a été demandé.
    Arreter,
    /// La passerelle ne répond plus : la session se rompt.
    Rompre,
    /// Le socle est périmé : il faut rebalayer.
    Balayer,
    /// Le socle vaut toujours : le vif s'entretient.
    Entretenir,
}

/// Ce qu'il y a à dire des barres.
#[derive(Clone, Copy, Debug, PartialEq, Eq, Structural)]
pub enum AnnonceBarres {
    /// Rien de nouveau.
    Rien,
    /// Elles repartent après un silence.
    Repartent,
    /// Elles viennent de se taire.
    Bloquees,
}

impl Etat {
    /// Ce que l'état garantit toujours : un socle daté existe, il est sain, et toutes les
    /// échéances connues sont au calendrier.
    pub open spec fn valide(&self) -> bool {
        &&& self.date_socle matches Some(i) ==> datable(i)
        &&& self.date_socle is Some ==> self.socle is Some
        &&& self.socle matches Some(c) ==> c.valide() && analyse::echeances_usuelles(c.vue())
        &&& assemblage::echeances_usuelles(self.catalogue@)
        &&& assemblage::echeances_usuelles(self.vif@)
    }

    /// L'état d'un collecteur qui démarre.
    pub fn vierge() -> (e: Etat)
        ensures
            e.valide(),
            e.socle is None,
            e.date_socle is None,
            e.catalogue@.len() == 0,
            e.vif@.len() == 0,
            e.spot == Flottant::nul(),
            e.barres@.len() == 0,
            e.niveaux@.len() == 0,
            e.derniere_minute is None,
            !e.vif_absent_signale && !e.rien_ne_cote_signale && !e.refus_signale
                && !e.barres_muettes_signale && !e.cout_archives_annonce,
    {
        Etat {
            socle: None,
            catalogue: Vec::new(),
            vif: Vec::new(),
            spot: Flottant::nul(),
            date_socle: None,
            barres: Vec::new(),
            niveaux: Vec::new(),
            derniere_minute: None,
            vif_absent_signale: false,
            rien_ne_cote_signale: false,
            refus_signale: false,
            barres_muettes_signale: false,
            cout_archives_annonce: false,
        }
    }

    /// Ouvre une session. Le vif ne survit pas à la coupure : ses souscriptions sont
    /// mortes avec la connexion. Le reste est de la donnée, pas un abonnement.
    pub fn ouvrir(&mut self)
        requires
            old(self).valide(),
        ensures
            final(self).valide(),
            final(self).vif@.len() == 0,
            *final(self) == (Etat { vif: final(self).vif, ..*old(self) }),
    {
        self.vif = Vec::new();
    }

    /// Que faire au début d'un tour ?
    pub open spec fn suite_de(&self, arret: bool, vivante: bool, instant: Instant) -> Suite {
        if arret {
            Suite::Arreter
        } else if !vivante {
            Suite::Rompre
        } else if rebalayage_du(self.date_socle, instant) {
            Suite::Balayer
        } else {
            Suite::Entretenir
        }
    }

    /// Le début d'un tour. La passerelle se teste avant toute souscription : lancée sur
    /// une connexion morte, elle ne rendrait pas d'erreur, elle bloquerait.
    pub fn tour(&self, arret: bool, vivante: bool, instant: Instant) -> (s: Suite)
        requires
            self.valide(),
            datable(instant),
        ensures
            s == self.suite_de(arret, vivante, instant),
            s == Suite::Entretenir ==> self.socle is Some,
    {
        if arret {
            Suite::Arreter
        } else if !vivante {
            Suite::Rompre
        } else if faut_il_rebalayer(self.date_socle, instant) {
            Suite::Balayer
        } else {
            Suite::Entretenir
        }
    }
}

/// Le dernier prix connu des barres : la clôture de la dernière, si elle est positive.
pub open spec fn prix_connu(barres: Seq<Barre>) -> Option<Flottant> {
    if barres.len() > 0 && barres.last().close.positif() {
        Some(barres.last().close)
    } else {
        None
    }
}

/// Le dernier prix connu des barres.
pub fn prix_des_barres(barres: &[Barre]) -> (r: Option<Flottant>)
    ensures
        r == prix_connu(barres@),
{
    let n: usize = barres.len();
    if n > 0 && barres[n - 1].close.est_positif() {
        Some(barres[n - 1].close)
    } else {
        None
    }
}

/// Les prix d'exercice de contrats.
pub open spec fn strikes_de(v: Seq<ContratOption>) -> Seq<Flottant> {
    Seq::new(v.len(), |i: int| v[i].cle.strike)
}

fn strikes(v: &[ContratOption]) -> (s: Vec<Flottant>)
    ensures
        s@ == strikes_de(v@),
{
    let mut s: Vec<Flottant> = Vec::new();
    let mut i: usize = 0;
    while i < v.len()
        invariant
            i <= v@.len(),
            s@ =~= strikes_de(v@.take(i as int)),
        decreases v@.len() - i,
    {
        s.push(v[i].cle.strike);
        i += 1;
    }
    assert(v@.take(i as int) =~= v@);
    s
}

/// L'élément du milieu d'un échantillon rangé, le plus haut des deux s'ils sont deux.
/// Zéro sur rien.
pub open spec fn milieu_haut(v: Seq<Flottant>) -> Flottant {
    if v.len() == 0 {
        Flottant::nul()
    } else {
        triee(v, |a: Flottant, b: Flottant| valeur_avant(a, b))[v.len() as int / 2]
    }
}

fn prendre_milieu(v: &[Flottant]) -> (m: Flottant)
    ensures
        m == milieu_haut(v@),
{
    if v.len() == 0 {
        return Flottant::nul();
    }
    let ghost avant = |a: Flottant, b: Flottant| valeur_avant(a, b);
    let t: Vec<Flottant> = trier(v, crate::store::validation::valeur_precede, Ghost(avant));
    proof {
        le_tri_garde_les_elements(v@, avant);
    }
    t[v.len() / 2]
}

/// Le repère autour duquel le périmètre se centre : le spot connu, sinon la dernière
/// barre, sinon le milieu de la grille des strikes.
pub open spec fn repere_de(spot: Flottant, barres: Seq<Barre>, tous: Seq<ContratOption>) -> Flottant {
    if spot.positif() {
        spot
    } else {
        match prix_connu(barres) {
            Some(p) => p,
            None => milieu_haut(strikes_de(tous)),
        }
    }
}

/// Un des contrats porte-t-il cet identifiant ?
pub open spec fn porte_l_id(v: Seq<ContratOption>, con_id: i32) -> bool {
    exists|i: int| 0 <= i < v.len() && (#[trigger] v[i]).con_id == con_id
}

/// Les rangs des contrats que `retenus` porte, dans l'ordre.
pub open spec fn rangs_retenus(tous: Seq<ContratOption>, retenus: Seq<ContratOption>) -> Seq<usize>
    decreases tous.len(),
{
    if tous.len() == 0 {
        Seq::empty()
    } else {
        let debut = rangs_retenus(tous.drop_last(), retenus);
        if porte_l_id(retenus, tous.last().con_id) {
            debut.push((tous.len() - 1) as usize)
        } else {
            debut
        }
    }
}

/// Les contrats à balayer, désignés par leur rang : tous, ou ceux de la plage demandée.
pub open spec fn a_balayer(
    spot: Flottant,
    barres: Seq<Barre>,
    tous: Seq<ContratOption>,
    plage: Option<Flottant>,
) -> Seq<usize> {
    match plage {
        None => Seq::new(tous.len(), |i: int| i as usize),
        Some(p) => rangs_retenus(
            tous,
            triee(
                contrats_dans_la_plage(tous, repere_de(spot, barres, tous), p),
                |a: ContratOption, b: ContratOption| contrat_avant(a, b),
            ),
        ),
    }
}

fn contient_id(v: &[ContratOption], con_id: i32) -> (b: bool)
    ensures
        b == porte_l_id(v@, con_id),
{
    let mut i: usize = 0;
    while i < v.len()
        invariant
            i <= v@.len(),
            forall|k: int| 0 <= k < i ==> (#[trigger] v@[k]).con_id != con_id,
        decreases v@.len() - i,
    {
        if v[i].con_id == con_id {
            return true;
        }
        i += 1;
    }
    false
}

impl Etat {
    /// Restreint ce qui est coté à ce qu'on demande, par rang.
    pub fn restreindre(&self, tous: &[ContratOption], plage: Option<Flottant>) -> (v: Vec<usize>)
        requires
            plage is Some && !self.spot.positif() && prix_connu(self.barres@) is None ==> rangeable(
                strikes_de(tous@),
            ),
        ensures
            v@ == a_balayer(self.spot, self.barres@, tous@, plage),
    {
        let mut v: Vec<usize> = Vec::new();
        let mut i: usize = 0;
        match plage {
            None => {
                while i < tous.len()
                    invariant
                        i <= tous@.len(),
                        v@ =~= Seq::new(i as nat, |k: int| k as usize),
                    decreases tous@.len() - i,
                {
                    v.push(i);
                    i += 1;
                }
                v
            },
            Some(p) => {
                let repere: Flottant = if self.spot.est_positif() {
                    self.spot
                } else {
                    match prix_des_barres(self.barres.as_slice()) {
                        Some(prix) => prix,
                        None => prendre_milieu(strikes(tous).as_slice()),
                    }
                };
                let retenus: Vec<ContratOption> = perimetre(tous, repere, p);
                while i < tous.len()
                    invariant
                        i <= tous@.len(),
                        v@ == rangs_retenus(tous@.take(i as int), retenus@),
                    decreases tous@.len() - i,
                {
                    proof {
                        assert(tous@.take(i + 1).drop_last() =~= tous@.take(i as int));
                        assert(tous@.take(i + 1).last() == tous@[i as int]);
                    }
                    if contient_id(retenus.as_slice(), tous[i].con_id) {
                        v.push(i);
                    }
                    i += 1;
                }
                assert(tous@.take(i as int) =~= tous@);
                v
            },
        }
    }
}

/// Un socle, et le prix de secours qu'il a fallu lui donner.
#[derive(Clone, Debug, PartialEq, Eq)]
pub struct Socle {
    /// La chaîne.
    pub chaine: Chaine,
    /// Le prix repris de la dernière barre, quand aucun tick ne l'a servi.
    pub secours: Option<Flottant>,
}

/// Fait le socle de ce que le balayage a reçu.
///
/// IB sert le prix du sous-jacent dans chaque tick d'option, sauf quand aucun contrat ne
/// répond : la dernière barre le porte aussi, et s'en servir vaut mieux qu'abandonner un
/// balayage qu'on vient de payer.
pub fn faire_socle<L: Fn(Flottant) -> Flottant, E: Fn(Flottant) -> Flottant>(
    contrats: &[ContratOption],
    valeurs: &HashMap<i32, Valeurs>,
    barres: &[Barre],
    releve: InstantReleve,
    ln: &L,
    exp: &E,
) -> (r: Result<Socle, String>)
    requires
        assemblage::echeances_usuelles(contrats@),
        est_fonction(*ln),
        est_fonction(*exp),
    ensures
        socle_fait(
            r,
            courbe(*ln),
            courbe(*exp),
            contrats@,
            valeurs@,
            barres@,
            releve,
        ),
        r matches Ok(s) ==> s.chaine.valide() && analyse::echeances_usuelles(s.chaine.vue()),
{
    match build_chain(contrats, valeurs, releve, None, ln, exp) {
        Ok(chaine) => Ok(Socle { chaine, secours: None }),
        Err(refus) => {
            assert(refus_d_assemblage(
                refus,
                courbe(*ln),
                courbe(*exp),
                contrats@,
                valeurs@,
                releve,
                None,
            ));
            match prix_des_barres(barres) {
                None => Err(
                    en_texte(
                        caracteres(
                            "Prix du sous-jacent introuvable : ni undPrice, ni barre.",
                        ).as_slice(),
                    ),
                ),
                Some(p) => match build_chain(contrats, valeurs, releve, Some(p), ln, exp) {
                    Ok(chaine) => Ok(Socle { chaine, secours: Some(p) }),
                    Err(e) => {
                        assert(refus_d_assemblage(
                            e,
                            courbe(*ln),
                            courbe(*exp),
                            contrats@,
                            valeurs@,
                            releve,
                            Some(p),
                        ));
                        Err(e.message())
                    },
                },
            }
        },
    }
}

/// L'assemblage est refusé, pour cette raison.
pub open spec fn refus_d_assemblage(
    e: ChaineInvalide,
    ln: spec_fn(Flottant) -> Flottant,
    exp: spec_fn(Flottant) -> Flottant,
    contrats: Seq<ContratOption>,
    m: Map<i32, Valeurs>,
    releve: InstantReleve,
    prix_impose: Option<Flottant>,
) -> bool {
    assemblage::est_assemblee(Err(e), ln, exp, contrats, m, releve, prix_impose)
}

/// Le socle est l'assemblage au prix des ticks ; à défaut, au prix de la dernière barre ;
/// à défaut, une erreur qui dit laquelle.
pub open spec fn socle_fait(
    r: Result<Socle, String>,
    ln: spec_fn(Flottant) -> Flottant,
    exp: spec_fn(Flottant) -> Flottant,
    contrats: Seq<ContratOption>,
    m: Map<i32, Valeurs>,
    barres: Seq<Barre>,
    releve: InstantReleve,
) -> bool {
    let sans_prix = exists|e: ChaineInvalide|
        refus_d_assemblage(e, ln, exp, contrats, m, releve, None);
    match r {
        Ok(s) => match s.secours {
            None => assemblage::est_assemblee(
                Ok(s.chaine),
                ln,
                exp,
                contrats,
                m,
                releve,
                None,
            ),
            Some(p) => sans_prix && prix_connu(barres) == Some(p) && assemblage::est_assemblee(
                Ok(s.chaine),
                ln,
                exp,
                contrats,
                m,
                releve,
                Some(p),
            ),
        },
        Err(message) => sans_prix && match prix_connu(barres) {
            None => message@ == "Prix du sous-jacent introuvable : ni undPrice, ni barre."@,
            Some(p) => exists|e: ChaineInvalide| #[trigger]
                refus_d_assemblage(e, ln, exp, contrats, m, releve, Some(p)) && message@
                    == e.texte(),
        },
    }
}

/// Les contrats du catalogue que des contrats choisis désignent par leur identifiant.
pub open spec fn rattaches(choisis: Seq<ContratOption>, catalogue: Seq<ContratOption>) -> Seq<
    ContratOption,
>
    decreases choisis.len(),
{
    if choisis.len() == 0 {
        Seq::empty()
    } else {
        let debut = rattaches(choisis.drop_last(), catalogue);
        match premier_id(catalogue, choisis.last().con_id) {
            Some(c) => debut.push(c),
            None => debut,
        }
    }
}

/// Le premier contrat qui porte cet identifiant.
pub open spec fn premier_id(v: Seq<ContratOption>, con_id: i32) -> Option<ContratOption>
    decreases v.len(),
{
    if v.len() == 0 {
        None
    } else if v[0].con_id == con_id {
        Some(v[0])
    } else {
        premier_id(v.skip(1), con_id)
    }
}

fn trouver_id(v: &[ContratOption], con_id: i32) -> (r: Option<ContratOption>)
    ensures
        r == premier_id(v@, con_id),
        r matches Some(c) ==> v@.contains(c),
{
    let mut i: usize = 0;
    assert(v@.skip(0) =~= v@);
    while i < v.len()
        invariant
            i <= v@.len(),
            premier_id(v@, con_id) == premier_id(v@.skip(i as int), con_id),
        decreases v@.len() - i,
    {
        proof {
            assert(v@.skip(i as int).skip(1) =~= v@.skip(i + 1));
            assert(v@.skip(i as int)[0] == v@[i as int]);
        }
        if v[i].con_id == con_id {
            return Some(v[i]);
        }
        i += 1;
    }
    None
}

/// Le vif qu'un socle fait choisir : les contrats les plus lourds en gamma, tels que le
/// catalogue les porte.
pub open spec fn vif_choisi(socle: Seq<Ligne>, catalogue: Seq<ContratOption>, budget: nat) -> Seq<
    ContratOption,
> {
    rattaches(recollee(vif_de(socle, budget), catalogue), catalogue)
}

/// Le prix le plus récent : le milieu de ceux que les ticks ont servis, ou l'ancien.
pub open spec fn spot_recent(ancien: Flottant, m: Map<i32, Valeurs>) -> Flottant {
    let vus = prix_servis(identifiants(m), m);
    if vus.len() == 0 {
        ancien
    } else {
        milieu_haut(vus)
    }
}

/// Le relevé fusionné, et s'il faut dire que le vif est absent.
#[derive(Clone, Debug, PartialEq, Eq)]
pub struct Fonte {
    /// La chaîne à écrire.
    pub chaine: Chaine,
    /// Le vif vient de se taire : le relevé reprend le socle seul.
    pub vif_absent: bool,
}

/// Le résultat de la fusion du socle et de ce que le vif a donné, qui est `vif` s'il
/// s'est assemblé et le socle sinon.
pub open spec fn fonte_de(
    r: Result<Fonte, ChaineInvalide>,
    vif: Result<Chaine, ChaineInvalide>,
    socle: Chaine,
    spot: Flottant,
    deja_dit: bool,
) -> bool {
    let frais = match vif {
        Ok(c) => c,
        Err(_) => socle,
    };
    &&& est_nouvelle(
        match r {
            Ok(f) => Ok(f.chaine),
            Err(e) => Err(e),
        },
        lignes_fondues(socle.vue(), frais.vue()),
        spot,
        frais.releve,
    )
    &&& r matches Ok(f) ==> f.vif_absent == (vif is Err && !deja_dit)
}

impl Etat {
    /// Pose un socle neuf, et oublie le vif qu'il périme.
    pub fn poser_socle(&mut self, neuf: Chaine, catalogue: Vec<ContratOption>, instant: Instant)
        requires
            old(self).valide(),
            neuf.valide(),
            analyse::echeances_usuelles(neuf.vue()),
            assemblage::echeances_usuelles(catalogue@),
            datable(instant),
        ensures
            final(self).valide(),
            final(self).socle == Some(neuf),
            final(self).spot == neuf.spot,
            final(self).catalogue == catalogue,
            final(self).date_socle == Some(instant),
            final(self).vif@.len() == 0,
            *final(self) == (Etat {
                socle: final(self).socle,
                spot: final(self).spot,
                catalogue: final(self).catalogue,
                date_socle: final(self).date_socle,
                vif: final(self).vif,
                ..*old(self)
            }),
    {
        self.spot = neuf.spot;
        self.socle = Some(neuf);
        self.catalogue = catalogue;
        self.date_socle = Some(instant);
        self.vif = Vec::new();
    }

    /// Faut-il rechoisir le vif ?
    pub open spec fn vif_a_choisir(&self) -> bool {
        reselection_due(self.spot, bande_de(strikes_de(self.vif@)), marge_bande())
    }

    /// Rechoisit le vif si le spot approche du bord de ce qu'il surveille, et dit si
    /// c'est fait.
    pub fn choisir_vif(&mut self, budget: usize) -> (r: bool)
        requires
            old(self).valide(),
            old(self).socle is Some,
        ensures
            final(self).valide(),
            r == old(self).vif_a_choisir(),
            r ==> final(self).vif@ == vif_choisi(
                old(self).socle->0.vue(),
                old(self).catalogue@,
                budget as nat,
            ),
            !r ==> *final(self) == *old(self),
            *final(self) == (Etat { vif: final(self).vif, ..*old(self) }),
    {
        let bande: Option<(Flottant, Flottant)> = bande_couverte(
            strikes(self.vif.as_slice()).as_slice(),
        );
        if !faut_il_reselectionner(self.spot, bande, marge_bande()) {
            return false;
        }
        let cles: Vec<CleContrat> = match &self.socle {
            Some(c) => selection_vif(c, budget),
            None => Vec::new(),
        };
        let choisis: Vec<ContratOption> = avec_conid(cles.as_slice(), self.catalogue.as_slice());
        let mut vif: Vec<ContratOption> = Vec::new();
        let mut i: usize = 0;
        while i < choisis.len()
            invariant
                i <= choisis@.len(),
                assemblage::echeances_usuelles(self.catalogue@),
                vif@ == rattaches(choisis@.take(i as int), self.catalogue@),
                assemblage::echeances_usuelles(vif@),
            decreases choisis@.len() - i,
        {
            proof {
                assert(choisis@.take(i + 1).drop_last() =~= choisis@.take(i as int));
                assert(choisis@.take(i + 1).last() == choisis@[i as int]);
            }
            if let Some(c) = trouver_id(self.catalogue.as_slice(), choisis[i].con_id) {
                proof {
                    let k = choose|k: int| 0 <= k < self.catalogue@.len() && self.catalogue@[k]
                        == c;
                    assert(usuel(self.catalogue@[k].cle.echeance.0.micros as int));
                }
                vif.push(c);
            }
            i += 1;
        }
        assert(choisis@.take(i as int) =~= choisis@);
        self.vif = vif;
        true
    }

    /// La bande que le vif surveille.
    pub fn bande(&self) -> (r: Option<(Flottant, Flottant)>)
        ensures
            r == bande_de(strikes_de(self.vif@)),
    {
        bande_couverte(strikes(self.vif.as_slice()).as_slice())
    }

    /// Fusionne ce que le vif a reçu dans le socle.
    ///
    /// Le vif peut être vide ou muet : le socle porte de la donnée, et le relevé reprend
    /// alors le socle seul plutôt que de ne rien écrire. L'absence ne se dit qu'une fois.
    pub fn fondre<L: Fn(Flottant) -> Flottant, E: Fn(Flottant) -> Flottant>(
        &mut self,
        valeurs: &HashMap<i32, Valeurs>,
        releve: InstantReleve,
        ln: &L,
        exp: &E,
    ) -> (r: Result<Fonte, ChaineInvalide>)
        requires
            old(self).valide(),
            old(self).socle is Some,
            est_fonction(*ln),
            est_fonction(*exp),
        ensures
            final(self).valide(),
            final(self).spot == spot_recent(old(self).spot, valeurs@),
            exists|vif: Result<Chaine, ChaineInvalide>| #[trigger]
                assemblage::est_assemblee(
                    vif,
                    courbe(*ln),
                    courbe(*exp),
                    old(self).vif@,
                    valeurs@,
                    releve,
                    Some(old(self).spot),
                ) && fonte_de(
                    r,
                    vif,
                    old(self).socle->0,
                    final(self).spot,
                    old(self).vif_absent_signale,
                ) && final(self).vif_absent_signale == vif is Err,
            *final(self) == (Etat {
                spot: final(self).spot,
                vif_absent_signale: final(self).vif_absent_signale,
                ..*old(self)
            }),
            r matches Ok(f) ==> f.chaine.valide() && analyse::echeances_usuelles(f.chaine.vue()),
    {
        let chaine_vif: Result<Chaine, ChaineInvalide> = build_chain(
            self.vif.as_slice(),
            valeurs,
            releve,
            Some(self.spot),
            ln,
            exp,
        );
        let sans_vif: bool = chaine_vif.is_err();
        let vif_absent: bool = sans_vif && !self.vif_absent_signale;
        self.vif_absent_signale = sans_vif;
        let vus: Vec<Flottant> = assemblage::relever_prix(valeurs);
        if vus.len() > 0 {
            self.spot = prendre_milieu(vus.as_slice());
        }
        match &self.socle {
            None => Err(ChaineInvalide::Vide),
            Some(socle) => {
                let frais: &Chaine = match &chaine_vif {
                    Ok(c) => c,
                    Err(_) => socle,
                };
                match fusionner(socle, frais, self.spot) {
                    Ok(chaine) => Ok(Fonte { chaine, vif_absent }),
                    Err(e) => Err(e),
                }
            },
        }
    }

    /// Dit un refus de la passerelle une seule fois : rend s'il faut le dire.
    pub fn signaler_refus(&mut self, refuse: bool) -> (dire: bool)
        ensures
            dire == (refuse && !old(self).refus_signale),
            final(self).refus_signale == (old(self).refus_signale || refuse),
            *final(self) == (Etat { refus_signale: final(self).refus_signale, ..*old(self) }),
    {
        let dire: bool = refuse && !self.refus_signale;
        if refuse {
            self.refus_signale = true;
        }
        dire
    }

    /// Dit une fois qu'un marché ne cote pas, et l'oublie dès qu'il cote : rend s'il faut
    /// le dire.
    pub fn signaler_cotation(&mut self, cote: bool) -> (dire: bool)
        ensures
            dire == (!cote && !old(self).rien_ne_cote_signale),
            final(self).rien_ne_cote_signale == !cote,
            *final(self) == (Etat {
                rien_ne_cote_signale: final(self).rien_ne_cote_signale,
                ..*old(self)
            }),
    {
        let dire: bool = !cote && !self.rien_ne_cote_signale;
        self.rien_ne_cote_signale = !cote;
        dire
    }

    /// Une minute nouvelle demande-t-elle un point ?
    pub fn point_a_ecrire(&self, retention: i64, instant: Instant) -> (b: bool)
        ensures
            b == (retention > 0 && match self.derniere_minute {
                None => true,
                Some(avant) => minute_de(avant) != minute_de(instant),
            }),
    {
        retention > 0 && faut_il_ecrire_un_point(self.derniere_minute, instant)
    }

    /// Reprend les séries relues du disque.
    pub fn reprendre(&mut self, barres: Vec<Barre>, niveaux: Vec<PointNiveaux>)
        ensures
            final(self).barres == barres,
            final(self).niveaux == niveaux,
            *final(self) == (Etat { barres, niveaux, ..*old(self) }),
    {
        self.barres = barres;
        self.niveaux = niveaux;
    }

    /// Recolle les barres fraîches, ou constate leur silence.
    pub fn accueillir_barres(&mut self, fraiches: Option<&[Barre]>) -> (a: AnnonceBarres)
        ensures
            match fraiches {
                Some(n) => {
                    &&& final(self).barres@ == triee(
                        avec_barres(old(self).barres@, n@),
                        |a: Barre, b: Barre| barre_avant(a, b),
                    )
                    &&& !final(self).barres_muettes_signale
                    &&& a == if old(self).barres_muettes_signale {
                        AnnonceBarres::Repartent
                    } else {
                        AnnonceBarres::Rien
                    }
                },
                None => {
                    &&& final(self).barres == old(self).barres
                    &&& final(self).barres_muettes_signale
                    &&& a == if old(self).barres_muettes_signale {
                        AnnonceBarres::Rien
                    } else {
                        AnnonceBarres::Bloquees
                    }
                },
            },
            *final(self) == (Etat {
                barres: final(self).barres,
                barres_muettes_signale: final(self).barres_muettes_signale,
                ..*old(self)
            }),
    {
        match fraiches {
            Some(n) => {
                self.barres = recoller(self.barres.as_slice(), n);
                let muettes: bool = self.barres_muettes_signale;
                self.barres_muettes_signale = false;
                if muettes {
                    AnnonceBarres::Repartent
                } else {
                    AnnonceBarres::Rien
                }
            },
            None => {
                let muettes: bool = self.barres_muettes_signale;
                self.barres_muettes_signale = true;
                if muettes {
                    AnnonceBarres::Rien
                } else {
                    AnnonceBarres::Bloquees
                }
            },
        }
    }

    /// Ajoute les points d'une minute, élague ce qui sort de la fenêtre, et retient la
    /// minute.
    pub fn noter(&mut self, points: &Vec<PointNiveaux>, instant: Instant, retention: i64)
        requires
            instant.micros - jours_gardes(retention) * JOURNEE >= CALENDRIER_DEBUT,
        ensures
            ({
                let borne = borne_de(instant, retention);
                &&& final(self).niveaux@ == points_apres(old(self).niveaux@ + points@, borne)
                &&& final(self).barres@ == barres_apres(old(self).barres@, borne)
                &&& final(self).derniere_minute is Some
                &&& final(self).derniere_minute->0.micros == minute_de(instant) * MINUTE
            }),
            *final(self) == (Etat {
                niveaux: final(self).niveaux,
                barres: final(self).barres,
                derniere_minute: final(self).derniere_minute,
                ..*old(self)
            }),
    {
        let borne: Instant = borne_de_retention(instant, retention);
        let ghost avant = self.niveaux@;
        let mut i: usize = 0;
        while i < points.len()
            invariant
                i <= points@.len(),
                self.niveaux@ =~= avant + points@.take(i as int),
                *self == (Etat { niveaux: self.niveaux, ..*old(self) }),
            decreases points@.len() - i,
        {
            self.niveaux.push(points[i]);
            i += 1;
        }
        assert(points@.take(i as int) =~= points@);
        self.barres = elaguer_barres(self.barres.as_slice(), borne);
        self.niveaux = elaguer_niveaux(self.niveaux.as_slice(), borne);
        self.derniere_minute = Some(a_la_minute(instant));
    }
}

/// Quelque chose cote : un strike au moins porte un open interest.
pub open spec fn cote_quelque_part(v: Seq<Ligne>) -> bool {
    exists|i: int|
        0 <= i < v.len() && (#[trigger] v[i]).call.open_interest.plus(
            v[i].put.open_interest,
        ).positif()
}

/// Un relevé sans le moindre open interest n'a pas de GEX : il en a l'absence.
pub fn quelque_chose_cote(lignes: &[Ligne]) -> (b: bool)
    ensures
        b == cote_quelque_part(lignes@),
{
    let mut i: usize = 0;
    while i < lignes.len()
        invariant
            i <= lignes@.len(),
            forall|k: int|
                0 <= k < i ==> !(#[trigger] lignes@[k]).call.open_interest.plus(
                    lignes@[k].put.open_interest,
                ).positif(),
        decreases lignes@.len() - i,
    {
        if lignes[i].call.open_interest.plus(lignes[i].put.open_interest).est_positif() {
            return true;
        }
        i += 1;
    }
    false
}

/// Les réglages de l'analyse d'un horizon.
pub open spec fn reglages_de(taille: Flottant, horizon: i64, dte_min: i64) -> Parametres {
    Parametres {
        taille_contrat: taille,
        dte_max: Some(horizon),
        dte_min,
        plage: Flottant::fraction(2, 10),
        plage_murs: Flottant::fraction(15, 100),
        plage_murs_oi: Flottant::fraction(30, 100),
        source_gamma: SourceGamma::Iv,
        convention: Convention::Heures,
        regime_vol: RegimeVol::StickyStrike,
        niveaux: 60,
    }
}

/// Le point de niveaux que l'analyse d'un horizon donne.
pub open spec fn point_voulu(
    ln: spec_fn(Flottant) -> Flottant,
    exp: spec_fn(Flottant) -> Flottant,
    chaine: Chaine,
    params: Parametres,
    minute: Instant,
    horizon: i64,
) -> PointNiveaux {
    let lignes = lignes_analysees(ln, exp, chaine, params);
    let agrege = agregats(triee(lignes, |a: LigneExposee, b: LigneExposee| strike_avant(a, b)));
    PointNiveaux {
        instant: minute,
        spot: chaine.spot,
        zero_gamma: plus_proche(croisements_analyses(ln, exp, chaine, params), chaine.spot),
        gex: total(mesures(lignes, le_gex())),
        charm: total(mesures(lignes, le_charm())),
        vanna: total(mesures(lignes, |l: LigneExposee| l.vanna)),
        call_wall: Mur::Call.strike(agrege, chaine.spot, params.plage_murs),
        put_wall: Mur::Put.strike(agrege, chaine.spot, params.plage_murs),
        call_wall_oi: Mur::CallOi.strike(agrege, chaine.spot, params.plage_murs_oi),
        put_wall_oi: Mur::PutOi.strike(agrege, chaine.spot, params.plage_murs_oi),
        iv_atm: iv_atm_de(lignes, chaine.spot),
        skew: skew_proche(ln, lignes, chaine.spot),
        max_pain: max_pain_de(lignes),
        delta: Some(total(mesures(lignes, |l: LigneExposee| l.delta))),
        vega: Some(total(mesures(lignes, |l: LigneExposee| l.vega))),
        theta: Some(total(mesures(lignes, |l: LigneExposee| l.theta))),
        dte_max: Some(Flottant::entier(horizon)),
        call_wall_vol: Mur::CallVol.strike(agrege, chaine.spot, params.plage_murs_oi),
        put_wall_vol: Mur::PutVol.strike(agrege, chaine.spot, params.plage_murs_oi),
        long_gamma: strike_majeur(agrege, true),
        short_gamma: strike_majeur(agrege, false),
    }
}

/// L'horizon contient-il une échéance ?
pub open spec fn horizon_vivant(chaine: Chaine, horizon: i64, dte_min: i64) -> bool {
    lignes_vives(chaine.vue(), chaine.releve, Some(horizon), dte_min).len() > 0
}

/// L'analyse de cet horizon est définie : ses croisements se comparent au spot.
pub open spec fn horizon_defini(
    ln: spec_fn(Flottant) -> Flottant,
    exp: spec_fn(Flottant) -> Flottant,
    chaine: Chaine,
    params: Parametres,
) -> bool {
    distances_definies(croisements_analyses(ln, exp, chaine, params), chaine.spot)
}

/// Un point par horizon qui contient une échéance. Rien si l'un d'eux n'est pas défini.
pub open spec fn points_des_horizons(
    ln: spec_fn(Flottant) -> Flottant,
    exp: spec_fn(Flottant) -> Flottant,
    chaine: Chaine,
    taille: Flottant,
    dte_min: i64,
    horizons: Seq<i64>,
    minute: Instant,
) -> Option<Seq<PointNiveaux>>
    decreases horizons.len(),
{
    if horizons.len() == 0 {
        Some(Seq::empty())
    } else {
        let h = horizons.last();
        let params = reglages_de(taille, h, dte_min);
        match points_des_horizons(ln, exp, chaine, taille, dte_min, horizons.drop_last(), minute) {
            None => None,
            Some(debut) => if !horizon_vivant(chaine, h, dte_min) {
                Some(debut)
            } else if !horizon_defini(ln, exp, chaine, params) {
                None
            } else {
                Some(debut.push(point_voulu(ln, exp, chaine, params, minute, h)))
            },
        }
    }
}

/// Les points d'une minute : aucun quand rien ne cote, un par horizon vivant sinon.
///
/// Une ligne plate se lirait comme « le gamma est nul » là où la donnée dit « je ne cote
/// pas ».
pub open spec fn points_voulus(
    ln: spec_fn(Flottant) -> Flottant,
    exp: spec_fn(Flottant) -> Flottant,
    chaine: Chaine,
    taille: Flottant,
    dte_min: i64,
    horizons: Seq<i64>,
    minute: Instant,
) -> Option<Seq<PointNiveaux>> {
    if cote_quelque_part(chaine.vue()) {
        points_des_horizons(ln, exp, chaine, taille, dte_min, horizons, minute)
    } else {
        Some(Seq::empty())
    }
}

/// Le début de la minute d'un instant.
pub open spec fn debut_de_minute(instant: Instant) -> Instant {
    Instant { micros: (minute_de(instant) * MINUTE) as i64 }
}

/// La borne d'une fenêtre de rétention.
pub open spec fn borne_de(instant: Instant, retention: i64) -> Instant {
    Instant { micros: (instant.micros - jours_gardes(retention) * JOURNEE) as i64 }
}

/// Les barres, recollées à celles qui ont été servies.
pub open spec fn barres_recollees(avant: Seq<Barre>, fraiches: Option<&[Barre]>) -> Seq<Barre> {
    match fraiches {
        Some(n) => triee(avec_barres(avant, n@), |a: Barre, b: Barre| barre_avant(a, b)),
        None => avant,
    }
}

fn en_point(a: &Analyse, minute: Instant, horizon: i64) -> (p: PointNiveaux)
    ensures
        p == (PointNiveaux {
            instant: minute,
            spot: a.spot,
            zero_gamma: a.zero_gamma,
            gex: a.gex,
            charm: a.charm,
            vanna: a.vanna,
            call_wall: a.murs.call,
            put_wall: a.murs.put,
            call_wall_oi: a.murs.call_oi,
            put_wall_oi: a.murs.put_oi,
            iv_atm: a.iv_atm,
            skew: a.skew,
            max_pain: a.max_pain,
            delta: Some(a.delta),
            vega: Some(a.vega),
            theta: Some(a.theta),
            dte_max: Some(Flottant::entier(horizon)),
            call_wall_vol: a.murs.call_vol,
            put_wall_vol: a.murs.put_vol,
            long_gamma: a.gamma_majeur.long,
            short_gamma: a.gamma_majeur.court,
        }),
{
    PointNiveaux {
        instant: minute,
        spot: a.spot,
        zero_gamma: a.zero_gamma,
        gex: a.gex,
        charm: a.charm,
        vanna: a.vanna,
        call_wall: a.murs.call,
        put_wall: a.murs.put,
        call_wall_oi: a.murs.call_oi,
        put_wall_oi: a.murs.put_oi,
        iv_atm: a.iv_atm,
        skew: a.skew,
        max_pain: a.max_pain,
        delta: Some(a.delta),
        vega: Some(a.vega),
        theta: Some(a.theta),
        dte_max: Some(Flottant::entier(horizon)),
        call_wall_vol: a.murs.call_vol,
        put_wall_vol: a.murs.put_vol,
        long_gamma: a.gamma_majeur.long,
        short_gamma: a.gamma_majeur.court,
    }
}

/// Un point par horizon : la chaîne n'est sous la main qu'à cet instant, et deux horizons
/// ne sont pas comparables. Un horizon sans échéance est passé, et une chaîne que rien ne
/// cote n'a aucun point. Rien n'est rendu quand les croisements d'un horizon ne se comparent
/// pas au spot.
pub fn points_de_niveaux<L: Fn(Flottant) -> Flottant, E: Fn(Flottant) -> Flottant>(
    chaine: &Chaine,
    taille: Flottant,
    dte_min: i64,
    horizons: &[i64],
    instant: Instant,
    ln: &L,
    exp: &E,
) -> (r: Option<Vec<PointNiveaux>>)
    requires
        chaine.valide(),
        analyse::echeances_usuelles(chaine.vue()),
        instant.micros >= CALENDRIER_DEBUT,
        est_fonction(*ln),
        est_fonction(*exp),
    ensures
        ({
            let voulus = points_voulus(
                courbe(*ln),
                courbe(*exp),
                *chaine,
                taille,
                dte_min,
                horizons@,
                debut_de_minute(instant),
            );
            match r {
                Some(v) => voulus == Some(v@),
                None => voulus is None,
            }
        }),
        !cote_quelque_part(chaine.vue()) ==> (r matches Some(v) && v@.len() == 0),
{
    let minute: Instant = a_la_minute(instant);
    assert(minute == debut_de_minute(instant));
    let mut v: Vec<PointNiveaux> = Vec::new();
    if !quelque_chose_cote(chaine.lignes()) {
        return Some(v);
    }
    let mut i: usize = 0;
    while i < horizons.len()
        invariant
            i <= horizons@.len(),
            chaine.valide(),
            analyse::echeances_usuelles(chaine.vue()),
            est_fonction(*ln),
            est_fonction(*exp),
            minute == debut_de_minute(instant),
            cote_quelque_part(chaine.vue()),
            points_des_horizons(
                courbe(*ln),
                courbe(*exp),
                *chaine,
                taille,
                dte_min,
                horizons@.take(i as int),
                minute,
            ) == Some(v@),
        decreases horizons@.len() - i,
    {
        let h: i64 = horizons[i];
        proof {
            assert(horizons@.take(i + 1).drop_last() =~= horizons@.take(i as int));
            assert(horizons@.take(i + 1).last() == h);
        }
        let mut params: Parametres = Parametres::default();
        params.taille_contrat = taille;
        params.dte_max = Some(h);
        params.dte_min = dte_min;
        assert(params == reglages_de(taille, h, dte_min));
        match analyser_si_defini(chaine, &params, ln, exp) {
            None => {
                proof {
                    lemme_point_indefini(
                        courbe(*ln),
                        courbe(*exp),
                        *chaine,
                        taille,
                        dte_min,
                        horizons@,
                        minute,
                        i + 1,
                    );
                }
                return None;
            },
            Some(Err(_)) => {},
            Some(Ok(a)) => {
                let p: PointNiveaux = en_point(&a, minute, h);
                assert(p == point_voulu(courbe(*ln), courbe(*exp), *chaine, params, minute, h));
                v.push(p);
            },
        }
        i += 1;
    }
    assert(horizons@.take(i as int) =~= horizons@);
    Some(v)
}

impl Etat {
    /// Écrit la minute : recolle les barres servies, calcule les points de la chaîne, les
    /// ajoute, et élague ce qui sort de la fenêtre.
    ///
    /// Quand rien ne cote, la série des niveaux ne reçoit rien, et celle des barres continue.
    /// Rien n'est rendu, et rien ne change, quand les croisements d'un horizon ne se comparent
    /// pas au spot.
    pub fn ecrire_la_minute<L: Fn(Flottant) -> Flottant, E: Fn(Flottant) -> Flottant>(
        &mut self,
        fraiches: Option<&[Barre]>,
        chaine: &Chaine,
        taille: Flottant,
        dte_min: i64,
        horizons: &[i64],
        instant: Instant,
        retention: i64,
        ln: &L,
        exp: &E,
    ) -> (r: Option<AnnonceBarres>)
        requires
            chaine.valide(),
            analyse::echeances_usuelles(chaine.vue()),
            instant.micros - jours_gardes(retention) * JOURNEE >= CALENDRIER_DEBUT,
            est_fonction(*ln),
            est_fonction(*exp),
        ensures
            ({
                let borne = borne_de(instant, retention);
                match points_voulus(
                    courbe(*ln),
                    courbe(*exp),
                    *chaine,
                    taille,
                    dte_min,
                    horizons@,
                    debut_de_minute(instant),
                ) {
                    None => r is None && *final(self) == *old(self),
                    Some(points) => {
                        &&& r == Some(
                            if old(self).barres_muettes_signale == (fraiches is None) {
                                AnnonceBarres::Rien
                            } else if fraiches is None {
                                AnnonceBarres::Bloquees
                            } else {
                                AnnonceBarres::Repartent
                            },
                        )
                        &&& final(self).niveaux@ == points_apres(old(self).niveaux@ + points, borne)
                        &&& final(self).barres@ == barres_apres(
                            barres_recollees(old(self).barres@, fraiches),
                            borne,
                        )
                        &&& final(self).derniere_minute == Some(debut_de_minute(instant))
                        &&& final(self).barres_muettes_signale == (fraiches is None)
                    },
                }
            }),
            !cote_quelque_part(chaine.vue()) ==> r is Some && final(self).niveaux@ == points_apres(
                old(self).niveaux@,
                borne_de(instant, retention),
            ),
            *final(self) == (Etat {
                niveaux: final(self).niveaux,
                barres: final(self).barres,
                derniere_minute: final(self).derniere_minute,
                barres_muettes_signale: final(self).barres_muettes_signale,
                ..*old(self)
            }),
    {
        let points: Vec<PointNiveaux> = match points_de_niveaux(
            chaine,
            taille,
            dte_min,
            horizons,
            instant,
            ln,
            exp,
        ) {
            None => {
                return None;
            },
            Some(v) => v,
        };
        let annonce: AnnonceBarres = self.accueillir_barres(fraiches);
        self.noter(&points, instant, retention);
        assert(old(self).niveaux@ + Seq::<PointNiveaux>::empty() =~= old(self).niveaux@);
        Some(annonce)
    }
}

/// Quand rien ne cote, la minute n'ajoute aucun point, et ne retire que ceux qui précèdent la
/// borne.
pub proof fn rien_ne_cote_rien_ne_s_ajoute(
    ln: spec_fn(Flottant) -> Flottant,
    exp: spec_fn(Flottant) -> Flottant,
    chaine: Chaine,
    taille: Flottant,
    dte_min: i64,
    horizons: Seq<i64>,
    avant: Seq<PointNiveaux>,
    instant: Instant,
    borne: Instant,
)
    requires
        !cote_quelque_part(chaine.vue()),
    ensures
        ({
            let voulus = points_voulus(
                ln,
                exp,
                chaine,
                taille,
                dte_min,
                horizons,
                debut_de_minute(instant),
            );
            voulus is Some && forall|p: PointNiveaux|
                #[trigger] points_apres(avant + voulus->Some_0, borne).contains(p)
                    <==> avant.contains(p) && p.instant.micros >= borne.micros
        }),
{
    assert(avant + Seq::<PointNiveaux>::empty() =~= avant);
    l_elagage_garde_les_points_qui_suivent_la_borne(avant, borne);
}

/// Un horizon indéfini l'emporte sur ceux qui le suivent.
proof fn lemme_point_indefini(
    ln: spec_fn(Flottant) -> Flottant,
    exp: spec_fn(Flottant) -> Flottant,
    chaine: Chaine,
    taille: Flottant,
    dte_min: i64,
    horizons: Seq<i64>,
    minute: Instant,
    k: int,
)
    requires
        0 <= k <= horizons.len(),
        points_des_horizons(ln, exp, chaine, taille, dte_min, horizons.take(k), minute) is None,
    ensures
        points_des_horizons(ln, exp, chaine, taille, dte_min, horizons, minute) is None,
    decreases horizons.len(),
{
    if k == horizons.len() {
        assert(horizons.take(k) =~= horizons);
    } else {
        assert(horizons.drop_last().take(k) =~= horizons.take(k));
        lemme_point_indefini(
            ln,
            exp,
            chaine,
            taille,
            dte_min,
            horizons.drop_last(),
            minute,
            k,
        );
    }
}

/// Le multiplicateur qu'IB annonce, s'il se lit et contredit celui du catalogue. Les deux
/// sources doivent s'accorder, et un désaccord se dit plutôt que de se choisir en silence.
pub fn multiplicateur_discordant(annonce: &str, taille: Flottant) -> (r: Option<Flottant>)
    ensures
        r == match flottant_lu(rogne(annonce@)) {
            Some(a) => if Flottant::fraction(1, 1_000_000_000).inferieur(a.moins(taille).abs()) {
                Some(a)
            } else {
                None
            },
            None => None,
        },
        // Deux sources qui s'accordent n'ont rien à dire.
        taille.fini() && flottant_lu(rogne(annonce@)) == Some(taille) ==> r is None,
        r matches Some(a) ==> flottant_lu(rogne(annonce@)) == Some(a),
{
    proof {
        if taille.fini() {
            lemme_difference_ordonnee(taille, taille);
            lemme_oppose(taille.moins(taille));
            lemme_un_milliardieme();
        }
    }
    match lire_flottant(rogner(caracteres(annonce).as_slice()).as_slice()) {
        Some(a) => if Flottant::fraction(1, 1_000_000_000).inf(a.moins(taille).abs()) {
            Some(a)
        } else {
            None
        },
        None => None,
    }
}

/// Les minutes qu'un balayage prendra : l'attente de chaque lot, et 2,6 secondes de plus.
pub fn minutes_de_balayage(lots: usize, attente: u64) -> (f: Flottant)
    ensures
        f == rapport(lots as int, 1).fois(
            rapport(attente as int, 1).plus(Flottant::fraction(26, 10)),
        ).par(Flottant::entier(60)),
{
    Flottant::naturel(lots as u64).fois(
        Flottant::naturel(attente).plus(Flottant::fraction(26, 10)),
    ).par(Flottant::entier(60))
}

/// Est-il temps d'archiver ? `pas` est en secondes, et zéro veut dire jamais ; `ecoule` en
/// millisecondes depuis la dernière archive, s'il y en a eu une.
pub fn temps_d_archiver(pas: u64, ecoule: Option<u64>) -> (b: bool)
    ensures
        b == (pas > 0 && match ecoule {
            None => true,
            Some(e) => e >= pas * 1000,
        }),
        // Le pas se compte en secondes entières écoulées.
        ecoule matches Some(e) ==> (b <==> 0 < pas <= e as int / 1000),
        ecoule is None ==> (b <==> pas > 0),
{
    pas > 0 && match ecoule {
        None => true,
        Some(e) => e as u128 >= pas as u128 * 1000,
    }
}

/// La fenêtre des archives suit celle des séries tant qu'on ne la pose pas.
pub fn retention_des_archives(retention: i64, archives: Option<i64>) -> (jours: i64)
    ensures
        jours == match archives {
            Some(j) => j,
            None => retention,
        },
{
    match archives {
        Some(j) => j,
        None => retention,
    }
}

/// Ce que les archives pèseront sur la fenêtre, en gigaoctets, mesuré sur l'une d'elles.
pub fn cout_des_archives(octets: u64, pas: u64, jours: i64) -> (f: Flottant)
    ensures
        f == rapport(octets as int, 1).fois(Flottant::entier(86_400)).par(
            rapport(
                if pas < 1 {
                    1
                } else {
                    pas as int
                },
                1,
            ),
        ).fois(Flottant::entier(jours)).par(Flottant::entier(1_000_000_000)),
        // À une archive par jour, il s'en garde une par jour de la fenêtre.
        pas == 86_400 && 0 < octets && petit(octets * 86_400) && 0 < jours && petit(octets * jours)
            ==> f == rapport(octets * jours, 1).par(Flottant::entier(1_000_000_000)),
{
    proof {
        if pas == 86_400 && 0 < octets && petit(octets * 86_400) && 0 < jours && petit(
            octets * jours,
        ) {
            assert(octets as int <= octets * 86_400 && octets as int * jours as int >= jours as int
                && octets as int * jours as int == octets * jours) by (nonlinear_arith)
                requires
                    octets > 0,
                    jours > 0,
            ;
            le_produit_de_petits_entiers_est_exact(octets as int, 86_400);
            le_quotient_d_un_multiple_est_exact(octets as int, 86_400);
            le_produit_de_petits_entiers_est_exact(octets as int, jours as int);
        }
    }
    let cadence: u64 = if pas < 1 {
        1
    } else {
        pas
    };
    Flottant::naturel(octets).fois(Flottant::entier(86_400)).par(Flottant::naturel(cadence)).fois(
        Flottant::entier(jours),
    ).par(Flottant::entier(1_000_000_000))
}

/// Ce qui suit une coupure : combien attendre, en secondes, et le rang de la tentative
/// suivante.
#[derive(Clone, Copy, Debug, PartialEq, Eq, Structural)]
pub struct Reprise {
    pub pause: u64,
    pub tentative: u32,
}

/// La tentative dont une coupure part : une session qui a tenu remet le compte à zéro.
pub open spec fn tentative_depuis(tentative: u32, tenue: u64) -> u32 {
    if tenue >= SESSION_SAINE {
        0
    } else {
        tentative
    }
}

/// Ce qui suit une coupure, ou rien si l'arrêt a été demandé. Une coupure n'est pas une
/// panne : la passerelle se redémarre de force une fois par jour.
pub fn apres_coupure(arret: bool, tenue: u64, tentative: u32) -> (r: Option<Reprise>)
    requires
        tentative_depuis(tentative, tenue) < u32::MAX,
    ensures
        r == (if arret {
            None
        } else {
            Some(
                Reprise {
                    pause: attente_de(tentative_depuis(tentative, tenue) as nat) as u64,
                    tentative: (tentative_depuis(tentative, tenue) + 1) as u32,
                },
            )
        }),
{
    if arret {
        return None;
    }
    let depart: u32 = if tenue >= SESSION_SAINE {
        0
    } else {
        tentative
    };
    Some(Reprise { pause: attente_avant_reprise(depart), tentative: depart + 1 })
}

} // verus!
