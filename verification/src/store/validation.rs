//! Le modèle tient-il ? Mesure sur l'historique accumulé.
//!
//! Trois affirmations portent sur une amplitude : les mouvements sont plus amples en
//! gamma négatif, la position vis-à-vis du zero gamma décide du régime, le prix bute sur
//! les murs. Deux portent sur un sens, celui qu'imposent le charm et la vanna. Une porte
//! sur une attraction, celle du max pain. La mesure se fait périmètre par périmètre.

use super::historique::COLONNES;
#[allow(unused_imports)]
use super::historique::{
    ajout_de, cases_de, champ_de, horizon_ecrit, l_en_tete_nomme_le_schema, lemme_rang_du_nom,
    lemme_sans_max_pain, noms, pleine, schema, textes_propres, une_ligne_a_les_colonnes_du_schema,
    valeur_nommee, LigneHistorique,
};
use crate::calendrier::{lire_instant, Instant};
#[allow(unused_imports)]
use crate::calendrier::{instant_lu, tronque};
use crate::decimal::lire_flottant;
#[allow(unused_imports)]
use crate::court::{
    court_de, l_ecriture_courte_se_relit, que_des_signes, signe_de_nombre,
    un_entier_ecrit_est_propre, une_ecriture_courte_est_propre,
};
#[allow(unused_imports)]
use crate::decimal::{flottant_lu, nombre_ecrit};
#[allow(unused_imports)]
use crate::fixe::ecrit_relatif;
use crate::flottant::Flottant;
#[allow(unused_imports)]
use crate::entiers::lemme_part_extreme;
#[allow(unused_imports)]
use crate::flottant::{lemme_quotient_par_soi, non_nombre, rapport, un_entier_est_exact};
#[allow(unused_imports)]
use crate::ordre::{lemme_difference_ordonnee, lemme_difference_stricte, lemme_quotient_croit};
use crate::texte::{
    ajouter, ajouter_texte, caracteres, chercher, couper, en_lignes, en_texte, joindre,
    liste_vient_avant, memes_caracteres, meme_texte, rogner,
};
#[allow(unused_imports)]
use crate::texte::{
    blanc, joints, l_ordre_des_listes_est_total, lemme_deja_rogne, lemme_entre_deux, lemme_rang,
    lemme_une_ligne_au_moins, lignes_de, listes_lexicographiques, morceaux, rang_de, rogne,
    une_ligne_s_ajoute, vues,
};
use crate::tri::trier;
#[allow(unused_imports)]
use crate::tri::{le_tri_garde_les_elements, le_tri_range_sans_rien_perdre, ordre_faible, triee};
use vstd::prelude::*;

verus! {

/// Relevés en deçà desquels aucune conclusion n'est tirée.
pub const N_MINIMAL: usize = 20;

/// Écart minimal entre deux relevés, en jours : une demi-journée.
#[verifier::allow_in_spec]
pub fn intervalle_minimal() -> (f: Flottant)
    returns
        Flottant::fraction(1, 2),
{
    Flottant::fraction(1, 2)
}

/// Un relevé lu depuis l'historique.
#[derive(Clone, Debug, PartialEq, Eq)]
pub struct Releve {
    /// L'instant, tel qu'écrit : trié par ordre alphabétique, donc chronologique.
    pub instant: String,
    /// Le produit.
    pub ticker: String,
    /// L'horizon, « all » compris.
    pub dte_max: String,
    /// D'où venait le gamma.
    pub source_gamma: String,
    /// Comment le temps était mesuré.
    pub convention: String,
    /// Prix du sous-jacent.
    pub spot: Flottant,
    /// GEX total.
    pub gex: Flottant,
    /// Zero gamma retenu, s'il existait.
    pub zero_gamma: Option<Flottant>,
    /// Mur call en gamma.
    pub call_wall: Option<Flottant>,
    /// Mur put en gamma.
    pub put_wall: Option<Flottant>,
    /// Charm total. L'absence de colonne n'est pas un zéro.
    pub charm: Option<Flottant>,
    /// Vanna totale.
    pub vanna: Option<Flottant>,
    /// Volatilité implicite à la monnaie.
    pub iv_atm: Option<Flottant>,
    /// Le max pain de l'échéance la plus proche.
    pub max_pain: Option<Flottant>,
}

/// Ce qui empêche de valider.
#[derive(Clone, Debug, PartialEq, Eq)]
pub enum ErreurValidation {
    /// L'historique est absent ou illisible.
    Fichier(String),
    /// L'en-tête ne correspond pas au schéma attendu.
    Schema(String),
}

impl ErreurValidation {
    pub open spec fn texte(self) -> Seq<char> {
        match self {
            ErreurValidation::Fichier(e) => "Aucun historique lisible : "@ + e@
                + ". Lance `gex NQ` au moins une fois — l'enregistrement est automatique, sauf --no-history."@,
            ErreurValidation::Schema(m) => "Historique inexploitable : "@ + m@,
        }
    }

    /// Ce qu'il y a à en dire.
    pub fn message(&self) -> (s: String)
        ensures
            s@ == self.texte(),
    {
        match self {
            ErreurValidation::Fichier(e) => {
                let mut v: Vec<char> = caracteres("Aucun historique lisible : ");
                ajouter_texte(&mut v, e.as_str());
                ajouter_texte(
                    &mut v,
                    ". Lance `gex NQ` au moins une fois — l'enregistrement est automatique, sauf --no-history.",
                );
                en_texte(v.as_slice())
            },
            ErreurValidation::Schema(m) => {
                let mut v: Vec<char> = caracteres("Historique inexploitable : ");
                ajouter_texte(&mut v, m.as_str());
                en_texte(v.as_slice())
            },
        }
    }
}

/// Un champ facultatif, lu comme un nombre.
pub open spec fn nombre_nomme(
    entete: Seq<Seq<char>>,
    champs: Seq<Seq<char>>,
    nom: Seq<char>,
) -> Option<Flottant> {
    match rang_de(entete, nom) {
        Some(k) => if k < champs.len() {
            flottant_lu(rogne(champs[k]))
        } else {
            None
        },
        None => None,
    }
}

/// Un champ facultatif, comme texte sans blancs de bord.
pub open spec fn texte_nomme(
    entete: Seq<Seq<char>>,
    champs: Seq<Seq<char>>,
    nom: Seq<char>,
) -> Seq<char> {
    rogne(valeur_nommee(entete, champs, nom))
}

/// Le relevé est celui que la ligne porte.
pub open spec fn releve_juste(r: Releve, entete: Seq<Seq<char>>, champs: Seq<Seq<char>>) -> bool {
    &&& r.instant@ == texte_nomme(entete, champs, "timestamp"@)
    &&& r.ticker@ == texte_nomme(entete, champs, "ticker"@)
    &&& r.dte_max@ == texte_nomme(entete, champs, "dte_max"@)
    &&& r.source_gamma@ == texte_nomme(entete, champs, "source_gamma"@)
    &&& r.convention@ == texte_nomme(entete, champs, "time_convention"@)
    &&& Some(r.spot) == nombre_nomme(entete, champs, "spot"@)
    &&& Some(r.gex) == nombre_nomme(entete, champs, "total_gex"@)
    &&& r.zero_gamma == nombre_nomme(entete, champs, "zero_gamma"@)
    &&& r.call_wall == nombre_nomme(entete, champs, "call_wall"@)
    &&& r.put_wall == nombre_nomme(entete, champs, "put_wall"@)
    &&& r.charm == nombre_nomme(entete, champs, "charm"@)
    &&& r.vanna == nombre_nomme(entete, champs, "vanna"@)
    &&& r.iv_atm == nombre_nomme(entete, champs, "iv_atm"@)
    &&& r.max_pain == nombre_nomme(entete, champs, "max_pain"@)
}

/// Une ligne exploitable : ni vide, ni sans prix, ni sans GEX.
pub open spec fn exploitable(entete: Seq<Seq<char>>, ligne: Seq<char>) -> bool {
    let champs = morceaux(ligne, ',');
    &&& pleine(ligne)
    &&& nombre_nomme(entete, champs, "spot"@) is Some
    &&& nombre_nomme(entete, champs, "total_gex"@) is Some
}

/// Les champs des lignes exploitables.
pub open spec fn exploitables(entete: Seq<Seq<char>>, lignes: Seq<Seq<char>>) -> Seq<
    Seq<Seq<char>>,
>
    decreases lignes.len(),
{
    if lignes.len() == 0 {
        Seq::empty()
    } else {
        let avant = exploitables(entete, lignes.drop_last());
        if exploitable(entete, lignes.last()) {
            avant.push(morceaux(lignes.last(), ','))
        } else {
            avant
        }
    }
}

/// L'en-tête a les quatre colonnes indispensables.
pub open spec fn entete_suffisant(entete: Seq<Seq<char>>) -> bool {
    &&& rang_de(entete, "timestamp"@) is Some
    &&& rang_de(entete, "ticker"@) is Some
    &&& rang_de(entete, "spot"@) is Some
    &&& rang_de(entete, "total_gex"@) is Some
}

fn place(entete: &Vec<Vec<char>>, nom: &str) -> (r: Option<usize>)
    ensures
        match r {
            Some(i) => rang_de(vues(entete@), nom@) == Some(i as int) && i < entete@.len(),
            None => rang_de(vues(entete@), nom@) is None,
        },
{
    let n: Vec<char> = caracteres(nom);
    chercher(entete, n.as_slice())
}

fn lire_nombre(entete: &Vec<Vec<char>>, champs: &Vec<Vec<char>>, nom: &str) -> (r: Option<Flottant>)
    ensures
        r == nombre_nomme(vues(entete@), vues(champs@), nom@),
{
    match place(entete, nom) {
        Some(k) => {
            if k < champs.len() {
                assert(vues(champs@)[k as int] == champs@[k as int]@);
                lire_flottant(rogner(champs[k].as_slice()).as_slice())
            } else {
                None
            }
        },
        None => None,
    }
}

fn lire_texte(entete: &Vec<Vec<char>>, champs: &Vec<Vec<char>>, nom: &str) -> (s: String)
    ensures
        s@ == texte_nomme(vues(entete@), vues(champs@), nom@),
{
    match place(entete, nom) {
        Some(k) => {
            if k < champs.len() {
                assert(vues(champs@)[k as int] == champs@[k as int]@);
                return en_texte(rogner(champs[k].as_slice()).as_slice());
            }
        },
        None => {},
    }
    let vide: Vec<char> = Vec::new();
    assert(vide@ =~= Seq::<char>::empty());
    en_texte(rogner(vide.as_slice()).as_slice())
}

fn schema_attendu() -> (s: String)
    ensures
        s@ == "colonnes attendues absentes ; le schéma est "@ + schema(),
{
    let mut v: Vec<Vec<char>> = Vec::new();
    let mut i: usize = 0;
    while i < 26
        invariant
            i <= 26,
            v@.len() == i,
            forall|k: int| 0 <= k < i ==> (#[trigger] v@[k])@ == COLONNES@[k]@,
        decreases 26 - i,
    {
        v.push(caracteres(COLONNES[i]));
        i += 1;
    }
    assert(vues(v@) =~= noms());
    let mut t: Vec<char> = caracteres("colonnes attendues absentes ; le schéma est ");
    ajouter(&mut t, joindre(&v, ",").as_slice());
    en_texte(t.as_slice())
}

/// Lit l'historique.
///
/// Quatre colonnes sont indispensables. Les autres peuvent manquer : un historique écrit
/// sous un schéma plus ancien doit rester lisible.
pub fn lire_historique(contenu: &str) -> (r: Result<Vec<Releve>, ErreurValidation>)
    ensures
        ({
            let lignes = lignes_de(contenu@);
            if lignes.len() == 0 {
                r matches Err(ErreurValidation::Schema(m)) && m@ == "fichier vide"@
            } else {
                let entete = morceaux(lignes[0], ',');
                if !entete_suffisant(entete) {
                    r matches Err(ErreurValidation::Schema(m)) && m@
                        == "colonnes attendues absentes ; le schéma est "@ + schema()
                } else {
                    let retenues = exploitables(entete, lignes.skip(1));
                    r matches Ok(v) && v@.len() == retenues.len() && forall|i: int|
                        0 <= i < v@.len() ==> releve_juste(#[trigger] v@[i], entete, retenues[i])
                }
            }
        }),
{
    let brut: Vec<char> = caracteres(contenu);
    let lignes: Vec<Vec<char>> = en_lignes(brut.as_slice());
    let ghost ll = lignes_de(contenu@);
    assert(lignes@.len() == ll.len());
    if lignes.len() == 0 {
        return Err(ErreurValidation::Schema("fichier vide".to_owned()));
    }
    assert(ll[0] == lignes@[0]@);
    let entete: Vec<Vec<char>> = couper(lignes[0].as_slice(), ',');
    let ghost ee = vues(entete@);
    if place(&entete, "timestamp").is_none() || place(&entete, "ticker").is_none() || place(
        &entete,
        "spot",
    ).is_none() || place(&entete, "total_gex").is_none() {
        return Err(ErreurValidation::Schema(schema_attendu()));
    }
    let mut r: Vec<Releve> = Vec::new();
    let ghost reste = ll.skip(1);
    let mut i: usize = 1;
    assert(reste.take(0) =~= Seq::<Seq<char>>::empty());
    while i < lignes.len()
        invariant
            1 <= i <= lignes@.len(),
            vues(lignes@) == ll,
            reste == ll.skip(1),
            ee == vues(entete@),
            r@.len() == exploitables(ee, reste.take(i - 1)).len(),
            forall|k: int|
                0 <= k < r@.len() ==> releve_juste(
                    #[trigger] r@[k],
                    ee,
                    exploitables(ee, reste.take(i - 1))[k],
                ),
        decreases lignes@.len() - i,
    {
        let ghost l = lignes@[i as int]@;
        proof {
            assert(reste.take(i as int).drop_last() =~= reste.take(i - 1));
            assert(reste.take(i as int).last() == l);
        }
        if rogner(lignes[i].as_slice()).len() > 0 {
            let champs: Vec<Vec<char>> = couper(lignes[i].as_slice(), ',');
            let spot: Option<Flottant> = lire_nombre(&entete, &champs, "spot");
            let gex: Option<Flottant> = lire_nombre(&entete, &champs, "total_gex");
            if let (Some(spot), Some(gex)) = (spot, gex) {
                let releve: Releve = Releve {
                    instant: lire_texte(&entete, &champs, "timestamp"),
                    ticker: lire_texte(&entete, &champs, "ticker"),
                    dte_max: lire_texte(&entete, &champs, "dte_max"),
                    source_gamma: lire_texte(&entete, &champs, "source_gamma"),
                    convention: lire_texte(&entete, &champs, "time_convention"),
                    spot,
                    gex,
                    zero_gamma: lire_nombre(&entete, &champs, "zero_gamma"),
                    call_wall: lire_nombre(&entete, &champs, "call_wall"),
                    put_wall: lire_nombre(&entete, &champs, "put_wall"),
                    charm: lire_nombre(&entete, &champs, "charm"),
                    vanna: lire_nombre(&entete, &champs, "vanna"),
                    iv_atm: lire_nombre(&entete, &champs, "iv_atm"),
                    max_pain: lire_nombre(&entete, &champs, "max_pain"),
                };
                assert(releve_juste(releve, ee, morceaux(l, ',')));
                r.push(releve);
            }
        }
        i += 1;
    }
    assert(reste.take(reste.len() as int) =~= reste);
    Ok(r)
}

impl Releve {
    /// Ce qui rend deux relevés comparables.
    pub open spec fn perimetre(&self) -> Seq<Seq<char>> {
        seq![self.ticker@, self.dte_max@, self.source_gamma@, self.convention@]
    }

    /// Le jour civil du relevé : ce qui précède la première espace.
    pub open spec fn jour(&self) -> Seq<char> {
        morceaux(self.instant@, ' ')[0]
    }

    /// Ce qui range un relevé : son périmètre, son jour, son instant.
    pub open spec fn clef(&self) -> Seq<Seq<char>> {
        self.perimetre() + seq![self.jour(), self.instant@]
    }

    fn en_clef(&self) -> (v: Vec<Vec<char>>)
        ensures
            vues(v@) == self.clef(),
    {
        let mut v: Vec<Vec<char>> = Vec::new();
        v.push(caracteres(self.ticker.as_str()));
        v.push(caracteres(self.dte_max.as_str()));
        v.push(caracteres(self.source_gamma.as_str()));
        v.push(caracteres(self.convention.as_str()));
        let instant: Vec<char> = caracteres(self.instant.as_str());
        let m: Vec<Vec<char>> = couper(instant.as_slice(), ' ');
        assert(vues(m@)[0] == m@[0]@);
        v.push(crate::texte::copie(m[0].as_slice()));
        v.push(instant);
        assert(vues(v@) =~= self.clef());
        v
    }
}

/// Une observation : un relevé, et ce qui s'est passé ensuite.
#[derive(Clone, Copy, Debug, PartialEq, Eq, Structural)]
pub struct Observation {
    /// GEX au moment du relevé.
    pub gex: Flottant,
    /// Le spot était-il sous le zero gamma ?
    pub sous_zero_gamma: Option<bool>,
    /// Mouvement absolu, ramené à la journée.
    pub mouvement_par_jour: Flottant,
    /// Le prix a-t-il clôturé au-delà du call wall ?
    pub call_wall_franchi: Option<bool>,
    /// Le prix a-t-il clôturé sous le put wall ?
    pub put_wall_franchi: Option<bool>,
    /// Mouvement signé, ramené à la journée.
    pub mouvement_signe: Flottant,
    /// Le prix est-il allé dans le sens qu'impose le charm, l'opposé de son signe ?
    pub sens_du_charm: Option<bool>,
    /// Valeur absolue du charm au moment du relevé.
    pub charm: Option<Flottant>,
    /// Le flux que la vanna impose : la vanna fois la variation de volatilité.
    pub flux_vanna: Option<Flottant>,
    /// Le prix est-il allé dans le sens qu'impose ce flux ?
    pub sens_de_la_vanna: Option<bool>,
    /// Le prix s'est-il rapproché du max pain de départ ?
    pub vers_le_max_pain: Option<bool>,
    /// Distance de départ au max pain, en fraction du spot.
    pub distance_max_pain: Option<Flottant>,
}

/// Deux nombres de signes opposés.
pub open spec fn signes_opposes(a: Flottant, b: Flottant) -> bool {
    !a.nan() && !b.nan() && a.negatif() != b.negatif()
}

/// Le sens qu'impose un flux est l'opposé de son signe. Un flux ou un rendement nul ne
/// va dans aucun sens.
pub open spec fn sens_impose(flux: Option<Flottant>, rendement: Flottant) -> Option<bool> {
    match flux {
        None => None,
        Some(f) => if f.de_meme_valeur(Flottant::nul()) || rendement.de_meme_valeur(
            Flottant::nul(),
        ) {
            None
        } else {
            Some(signes_opposes(rendement, f))
        },
    }
}

fn sens(flux: Option<Flottant>, rendement: Flottant) -> (r: Option<bool>)
    ensures
        r == sens_impose(flux, rendement),
{
    match flux {
        None => None,
        Some(f) => if f.egal(Flottant::nul()) || rendement.egal(Flottant::nul()) {
            None
        } else {
            Some(
                !rendement.est_nan() && !f.est_nan() && rendement.est_negatif()
                    != f.est_negatif(),
            )
        },
    }
}

/// Le flux de vanna demande les deux bouts de la volatilité.
pub open spec fn flux_de(vanna: Option<Flottant>, iv0: Option<Flottant>, iv1: Option<Flottant>) -> Option<
    Flottant,
> {
    match (vanna, iv0, iv1) {
        (Some(v), Some(a), Some(b)) => Some(v.fois(b.moins(a))),
        _ => None,
    }
}

/// Ce qui s'est passé d'un relevé au suivant, `ecart` jours plus tard. Rien si l'écart
/// est trop court, ou le prix de départ absurde.
pub open spec fn observation_entre(
    avant: Releve,
    apres: Releve,
    ecart: Flottant,
    minimum: Flottant,
) -> Option<Observation> {
    if ecart.inferieur(minimum) || avant.spot.inferieur_ou_egal(Flottant::nul()) {
        None
    } else {
        let rendement = apres.spot.moins(avant.spot).par(avant.spot);
        let flux = flux_de(avant.vanna, avant.iv_atm, apres.iv_atm);
        Some(
            Observation {
                gex: avant.gex,
                sous_zero_gamma: match avant.zero_gamma {
                    Some(z) => Some(avant.spot.inferieur(z)),
                    None => None,
                },
                mouvement_par_jour: rendement.abs().par(ecart.racine()),
                mouvement_signe: rendement.par(ecart.racine()),
                call_wall_franchi: match avant.call_wall {
                    Some(m) => Some(m.inferieur(apres.spot)),
                    None => None,
                },
                put_wall_franchi: match avant.put_wall {
                    Some(m) => Some(apres.spot.inferieur(m)),
                    None => None,
                },
                sens_du_charm: sens_impose(avant.charm, rendement),
                charm: match avant.charm {
                    Some(c) => Some(c.abs()),
                    None => None,
                },
                flux_vanna: flux,
                sens_de_la_vanna: sens_impose(flux, rendement),
                vers_le_max_pain: match avant.max_pain {
                    Some(m) => Some(
                        apres.spot.moins(m).abs().inferieur(avant.spot.moins(m).abs()),
                    ),
                    None => None,
                },
                distance_max_pain: match avant.max_pain {
                    Some(m) => Some(avant.spot.moins(m).abs().par(avant.spot)),
                    None => None,
                },
            },
        )
    }
}

/// Ce qui s'est passé d'un relevé au suivant.
pub fn observation(avant: &Releve, apres: &Releve, ecart: Flottant, minimum: Flottant) -> (r: Option<
    Observation,
>)
    ensures
        r == observation_entre(*avant, *apres, ecart, minimum),
{
    if ecart.inf(minimum) || avant.spot.infeg(Flottant::nul()) {
        return None;
    }
    let rendement: Flottant = apres.spot.moins(avant.spot).par(avant.spot);
    let flux: Option<Flottant> = match (avant.vanna, avant.iv_atm, apres.iv_atm) {
        (Some(v), Some(a), Some(b)) => Some(v.fois(b.moins(a))),
        _ => None,
    };
    Some(
        Observation {
            gex: avant.gex,
            sous_zero_gamma: match avant.zero_gamma {
                Some(z) => Some(avant.spot.inf(z)),
                None => None,
            },
            mouvement_par_jour: rendement.abs().par(ecart.racine()),
            mouvement_signe: rendement.par(ecart.racine()),
            call_wall_franchi: match avant.call_wall {
                Some(m) => Some(m.inf(apres.spot)),
                None => None,
            },
            put_wall_franchi: match avant.put_wall {
                Some(m) => Some(apres.spot.inf(m)),
                None => None,
            },
            sens_du_charm: sens(avant.charm, rendement),
            charm: match avant.charm {
                Some(c) => Some(c.abs()),
                None => None,
            },
            flux_vanna: flux,
            sens_de_la_vanna: sens(flux, rendement),
            vers_le_max_pain: match avant.max_pain {
                Some(m) => Some(apres.spot.moins(m).abs().inf(avant.spot.moins(m).abs())),
                None => None,
            },
            distance_max_pain: match avant.max_pain {
                Some(m) => Some(avant.spot.moins(m).abs().par(avant.spot)),
                None => None,
            },
        },
    )
}

/// Les jours d'un instant à l'autre, ou zéro si l'un manque.
pub open spec fn jours_de(avant: Option<int>, apres: Option<int>) -> Flottant {
    match (avant, apres) {
        (Some(a), Some(b)) => rapport(tronque(b - a, 1_000_000), 1).par(Flottant::entier(86_400)),
        _ => Flottant::nul(),
    }
}

/// Les microsecondes d'un instant qui peut manquer.
pub open spec fn micros_de(i: Option<Instant>) -> Option<int> {
    match i {
        Some(x) => Some(x.micros as int),
        None => None,
    }
}

/// Jours d'un instant à l'autre, ou zéro si l'un manque.
pub fn jours_d_ecart(avant: Option<Instant>, apres: Option<Instant>) -> (f: Flottant)
    ensures
        f == jours_de(micros_de(avant), micros_de(apres)),
{
    match (avant, apres) {
        (Some(a), Some(b)) => {
            let s: i128 = b.ecart_tronque(a, 1_000_000);
            Flottant::entier(s as i64).par(Flottant::entier(86_400))
        },
        _ => Flottant::nul(),
    }
}

/// Les jours entre deux horodatages écrits.
pub open spec fn ecart_ecrit(avant: Seq<char>, apres: Seq<char>) -> Flottant {
    jours_de(
        instant_lu(avant, "%Y-%m-%d %H:%M"@),
        instant_lu(apres, "%Y-%m-%d %H:%M"@),
    )
}

/// Jours entre deux horodatages `AAAA-MM-JJ HH:MM`.
pub fn jours_entre(avant: &str, apres: &str) -> (f: Flottant)
    ensures
        f == ecart_ecrit(avant@, apres@),
{
    jours_d_ecart(lire_instant(avant, "%Y-%m-%d %H:%M"), lire_instant(apres, "%Y-%m-%d %H:%M"))
}

/// L'ordre des relevés, désignés par leur rang ; ce qui n'en désigne aucun vient après.
pub open spec fn rang_avant(r: Seq<Releve>, a: usize, b: usize) -> bool {
    a < r.len() && (b >= r.len() || listes_lexicographiques(
        r[a as int].clef(),
        r[b as int].clef(),
    ))
}

/// Les rangs de `n` relevés.
pub open spec fn rangs(n: nat) -> Seq<usize> {
    Seq::new(n, |i: int| i as usize)
}

/// Deux relevés du même périmètre et du même jour.
#[verifier::opaque]
pub open spec fn meme_seance(a: Releve, b: Releve) -> bool {
    a.perimetre() == b.perimetre() && a.jour() == b.jour()
}

/// Le dernier relevé de chaque journée, parmi des relevés rangés : celui dont le
/// contexte est le plus complet.
pub open spec fn derniers_du_jour(r: Seq<Releve>, s: Seq<usize>) -> Seq<usize>
    decreases s.len(),
{
    if s.len() == 0 {
        s
    } else {
        let avant = derniers_du_jour(r, s.drop_last());
        if avant.len() > 0 && meme_seance(r[avant.last() as int], r[s.last() as int]) {
            avant.drop_last().push(s.last())
        } else {
            avant.push(s.last())
        }
    }
}

/// Les observations d'une suite de séances : chaque relevé avec le suivant du même
/// périmètre, les écarts étant donnés par `ecart`.
pub open spec fn paires(
    r: Seq<Releve>,
    d: Seq<usize>,
    ecart: spec_fn(Seq<char>, Seq<char>) -> Flottant,
    minimum: Flottant,
) -> Seq<Observation>
    decreases d.len(),
{
    if d.len() <= 1 {
        Seq::empty()
    } else {
        let debut = paires(r, d.drop_last(), ecart, minimum);
        let a = r[d[d.len() - 2] as int];
        let b = r[d.last() as int];
        if a.perimetre() != b.perimetre() {
            debut
        } else {
            match observation_entre(a, b, ecart(a.instant@, b.instant@), minimum) {
                None => debut,
                Some(o) => debut.push(o),
            }
        }
    }
}

/// Les séances retenues, dans l'ordre des périmètres puis des jours.
pub open spec fn seances(r: Seq<Releve>) -> Seq<usize> {
    derniers_du_jour(r, triee(rangs(r.len()), |a: usize, b: usize| rang_avant(r, a, b)))
}

/// L'écart entre deux horodatages écrits, comme fonction.
pub open spec fn ecarts_ecrits() -> spec_fn(Seq<char>, Seq<char>) -> Flottant {
    |a: Seq<char>, b: Seq<char>| ecart_ecrit(a, b)
}

/// Apparie chaque relevé au suivant du même périmètre.
///
/// Une seule séance compte une fois : deux exécutions du même jour ne sont pas deux
/// observations.
pub fn observer(releves: &[Releve], intervalle_minimal: Flottant) -> (v: Vec<Observation>)
    ensures
        v@ == paires(releves@, seances(releves@), ecarts_ecrits(), intervalle_minimal),
{
    let d: Vec<usize> = retenir(releves);
    let ghost ecart = ecarts_ecrits();
    let mut v: Vec<Observation> = Vec::new();
    let mut i: usize = 1;
    proof {
        if d@.len() > 0 {
            assert(d@.take(1).len() == 1);
        }
        assert(v@ =~= paires(releves@, d@.take(if d@.len() > 0 { 1 } else { 0 }), ecart, intervalle_minimal));
    }
    while i < d.len()
        invariant
            1 <= i,
            d@.len() > 0 ==> i <= d@.len(),
            forall|k: int| 0 <= k < d@.len() ==> #[trigger] d@[k] < releves@.len(),
            ecart == ecarts_ecrits(),
            d@.len() > 0 ==> v@ == paires(
                releves@,
                d@.take(i as int),
                ecart,
                intervalle_minimal,
            ),
            d@.len() == 0 ==> v@.len() == 0,
        decreases d@.len() - i,
    {
        proof {
            assert(d@.take(i + 1).drop_last() =~= d@.take(i as int));
            assert(d@.take(i + 1).last() == d@[i as int]);
            assert(d@.take(i + 1)[i - 1] == d@[i - 1]);
        }
        let a: &Releve = &releves[d[i - 1]];
        let b: &Releve = &releves[d[i]];
        if meme_perimetre(a, b) {
            let e: Flottant = jours_entre(a.instant.as_str(), b.instant.as_str());
            if let Some(o) = observation(a, b, e, intervalle_minimal) {
                v.push(o);
            }
        }
        i += 1;
    }
    proof {
        assert(d@.take(d@.len() as int) =~= d@);
    }
    v
}

/// Une suite de relevés rangés, désignés par leur rang.
#[verifier::opaque]
spec fn ranges(r: Seq<Releve>, s: Seq<usize>) -> bool {
    &&& forall|i: int| 0 <= i < s.len() ==> #[trigger] s[i] < r.len()
    &&& forall|i: int, j: int|
        0 <= i < j < s.len() ==> !rang_avant(r, #[trigger] s[j], #[trigger] s[i])
}

/// Aucune séance n'est retenue deux fois.
spec fn sans_doublon(r: Seq<Releve>, d: Seq<usize>) -> bool {
    forall|i: int, j: int|
        0 <= i < j < d.len() ==> !meme_seance(r[#[trigger] d[i] as int], r[#[trigger] d[j] as int])
}

/// La séance de `x` a un représentant que `x` ne suit pas.
#[verifier::opaque]
spec fn representee(r: Seq<Releve>, d: Seq<usize>, x: usize) -> bool {
    exists|i: int|
        0 <= i < d.len() && meme_seance(r[#[trigger] d[i] as int], r[x as int]) && !rang_avant(
            r,
            d[i],
            x,
        )
}

proof fn lemme_meme_seance(a: Releve, b: Releve, c: Releve)
    ensures
        meme_seance(a, a),
        meme_seance(a, b) ==> meme_seance(b, a),
        meme_seance(a, b) && meme_seance(b, c) ==> meme_seance(a, c),
{
    reveal(meme_seance);
}

/// Ce qui est rangé entre deux relevés d'une séance est de cette séance.
proof fn lemme_meme_suite(r: Seq<Releve>, s: Seq<usize>, i: int, j: int, k: int)
    requires
        ranges(r, s),
        0 <= i <= j <= k < s.len(),
        meme_seance(r[s[i] as int], r[s[k] as int]),
    ensures
        meme_seance(r[s[i] as int], r[s[j] as int]),
{
    reveal(ranges);
    let (a, b, c) = (r[s[i] as int], r[s[j] as int], r[s[k] as int]);
    l_ordre_des_listes_est_total(a.clef(), b.clef(), a.clef());
    l_ordre_des_listes_est_total(c.clef(), c.clef(), c.clef());
    lemme_prefixe(a, c);
    lemme_prefixe(a, b);
    assert(i < j ==> !rang_avant(r, s[j], s[i]));
    assert(j < k ==> !rang_avant(r, s[k], s[j]));
    lemme_entre_deux(a.clef(), b.clef(), c.clef(), 5);
}

proof fn lemme_derniers(r: Seq<Releve>, s: Seq<usize>)
    requires
        ranges(r, s),
    ensures
        s.len() > 0 ==> derniers_du_jour(r, s).len() > 0 && derniers_du_jour(r, s).last()
            == s.last(),
        forall|i: int|
            0 <= i < derniers_du_jour(r, s).len() ==> s.contains(
                #[trigger] derniers_du_jour(r, s)[i],
            ),
        sans_doublon(r, derniers_du_jour(r, s)),
        forall|k: int|
            0 <= k < s.len() ==> representee(r, derniers_du_jour(r, s), #[trigger] s[k]),
    decreases s.len(),
{
    if s.len() > 0 {
        let t = s.drop_last();
        let x = s.last();
        assert(ranges(r, t)) by {
            reveal(ranges);
            assert forall|i: int, j: int| 0 <= i < j < t.len() implies !rang_avant(
                r,
                #[trigger] t[j],
                #[trigger] t[i],
            ) by {
                assert(!rang_avant(r, s[j], s[i]));
            }
            assert forall|i: int| 0 <= i < t.len() implies #[trigger] t[i] < r.len() by {
                assert(t[i] == s[i]);
            }
        }
        lemme_derniers(r, t);
        let d0 = derniers_du_jour(r, t);
        let d = derniers_du_jour(r, s);
        assert(d.last() == x);
        assert forall|i: int| 0 <= i < d.len() implies s.contains(#[trigger] d[i]) by {
            if i < d.len() - 1 {
                assert(d[i] == d0[i]);
                assert(t.contains(d0[i]));
                let k = choose|k: int| 0 <= k < t.len() && t[k] == d0[i];
                assert(s[k] == d0[i]);
            } else {
                assert(s[s.len() - 1] == x);
            }
        }
        // Ce qui précède le dernier retenu n'est pas de la séance de `x` : sans quoi le
        // dernier retenu, rangé entre les deux, en serait aussi.
        assert forall|i: int| 0 <= i < d0.len() - 1 implies !meme_seance(
            r[#[trigger] d0[i] as int],
            r[x as int],
        ) by {
            if meme_seance(r[d0[i] as int], r[x as int]) {
                assert(t.contains(d0[i]));
                let k = choose|k: int| 0 <= k < t.len() && t[k] == d0[i];
                assert(s[k] == d0[i] && s[t.len() - 1] == t.last());
                lemme_meme_suite(r, s, k, t.len() - 1, s.len() - 1);
                assert(d0[d0.len() - 1] == t.last());
                assert(!meme_seance(r[d0[i] as int], r[d0[d0.len() - 1] as int]));
            }
        }
        assert(sans_doublon(r, d)) by {
            assert forall|i: int, j: int| 0 <= i < j < d.len() implies !meme_seance(
                r[#[trigger] d[i] as int],
                r[#[trigger] d[j] as int],
            ) by {
                assert(d[i] == d0[i]);
                if j < d.len() - 1 {
                    assert(d[j] == d0[j]);
                } else if i == d0.len() - 1 {
                    assert(d.len() == d0.len() + 1);
                    assert(d0.last() == d0[i]);
                }
            }
        }
        assert forall|k: int| 0 <= k < s.len() implies representee(r, d, #[trigger] s[k]) by {
            if k < t.len() {
                assert(representee(r, d0, t[k]));
                assert(t[k] == s[k]);
            }
            lemme_representee(r, s, k);
        }
    }
}

proof fn lemme_representee(r: Seq<Releve>, s: Seq<usize>, k: int)
    requires
        ranges(r, s),
        0 <= k < s.len(),
        k < s.len() - 1 ==> representee(r, derniers_du_jour(r, s.drop_last()), s[k]),
    ensures
        representee(r, derniers_du_jour(r, s), s[k]),
{
    reveal(ranges);
    reveal(representee);
    let d0 = derniers_du_jour(r, s.drop_last());
    let d = derniers_du_jour(r, s);
    let x = s.last();
    let c = r[s[k] as int];
    l_ordre_des_listes_est_total(c.clef(), c.clef(), c.clef());
    assert(d[d.len() - 1] == x);
    if k == s.len() - 1 {
        lemme_meme_seance(c, c, c);
        assert(meme_seance(r[d[d.len() - 1] as int], c));
    } else {
        let i = choose|i: int|
            0 <= i < d0.len() && meme_seance(r[#[trigger] d0[i] as int], c) && !rang_avant(
                r,
                d0[i],
                s[k],
            );
        if i < d.len() - 1 {
            assert(d[i] == d0[i]);
        } else {
            assert(d0[i] == d0.last());
            lemme_meme_seance(r[d0.last() as int], r[x as int], c);
            lemme_meme_seance(r[x as int], r[d0.last() as int], c);
            assert(!rang_avant(r, s[s.len() - 1], s[k]));
            assert(meme_seance(r[d[d.len() - 1] as int], c));
        }
    }
}

proof fn lemme_prefixe(a: Releve, b: Releve)
    ensures
        a.clef().len() == 6,
        b.clef().len() == 6,
        (a.clef().take(5) == b.clef().take(5)) <==> meme_seance(a, b),
{
    reveal(meme_seance);
    assert(a.clef().take(5) =~= a.perimetre().push(a.jour()));
    assert(b.clef().take(5) =~= b.perimetre().push(b.jour()));
    if a.clef().take(5) == b.clef().take(5) {
        assert(a.perimetre().push(a.jour()).drop_last() =~= a.perimetre());
        assert(b.perimetre().push(b.jour()).drop_last() =~= b.perimetre());
        assert(a.perimetre().push(a.jour()).last() == b.perimetre().push(b.jour()).last());
    }
}

/// Une séance ne compte qu'une fois, et aucune ne se perd : pour chaque relevé, un seul
/// relevé retenu est du même périmètre et du même jour, et rien ne vient après lui.
pub proof fn une_seance_compte_une_fois(r: Seq<Releve>)
    requires
        r.len() <= usize::MAX,
    ensures
        forall|i: int, j: int|
            0 <= i < j < seances(r).len() ==> !meme_seance(
                r[#[trigger] seances(r)[i] as int],
                r[#[trigger] seances(r)[j] as int],
            ),
        forall|k: int|
            0 <= k < r.len() ==> exists|i: int|
                0 <= i < seances(r).len() && meme_seance(
                    r[#[trigger] seances(r)[i] as int],
                    #[trigger] r[k],
                ) && !listes_lexicographiques(r[seances(r)[i] as int].clef(), r[k].clef()),
{
    let avant = |a: usize, b: usize| rang_avant(r, a, b);
    let s = triee(rangs(r.len()), avant);
    assert(ordre_faible(avant)) by {
        assert forall|a: usize| !#[trigger] avant(a, a) by {
            l_ordre_des_listes_est_total(
                r[a as int].clef(),
                r[a as int].clef(),
                r[a as int].clef(),
            );
        }
        assert forall|a: usize, b: usize, c: usize| #[trigger]
            avant(a, b) && #[trigger] avant(b, c) implies avant(a, c) by {
            l_ordre_des_listes_est_total(
                r[a as int].clef(),
                r[b as int].clef(),
                r[c as int].clef(),
            );
        }
        assert forall|a: usize, b: usize, c: usize|
            #![trigger avant(a, c), avant(a, b)]
            avant(a, c) implies avant(a, b) || avant(b, c) by {
            l_ordre_des_listes_est_total(
                r[a as int].clef(),
                r[b as int].clef(),
                r[c as int].clef(),
            );
            l_ordre_des_listes_est_total(
                r[b as int].clef(),
                r[a as int].clef(),
                r[c as int].clef(),
            );
        }
    }
    le_tri_range_sans_rien_perdre(rangs(r.len()), avant);
    le_tri_garde_les_elements(rangs(r.len()), avant);
    assert forall|i: int| 0 <= i < s.len() implies #[trigger] s[i] < r.len() by {
        assert(s.contains(s[i]));
        assert(rangs(r.len()).contains(s[i]));
    }
    assert(ranges(r, s)) by {
        reveal(ranges);
        assert forall|i: int, j: int| 0 <= i < j < s.len() implies !rang_avant(
            r,
            #[trigger] s[j],
            #[trigger] s[i],
        ) by {
            assert(!avant(s[j], s[i]));
        }
    }
    lemme_derniers(r, s);
    let d = seances(r);
    assert forall|k: int| 0 <= k < r.len() implies exists|i: int|
        0 <= i < d.len() && meme_seance(
            r[#[trigger] d[i] as int],
            #[trigger] r[k],
        ) && !listes_lexicographiques(r[d[i] as int].clef(), r[k].clef()) by {
        assert(rangs(r.len())[k] == k as usize);
        assert(s.contains(k as usize));
        let p = choose|p: int| 0 <= p < s.len() && s[p] == k as usize;
        assert(representee(r, d, s[p]));
        reveal(representee);
        let i = choose|i: int|
            0 <= i < d.len() && meme_seance(
                r[#[trigger] d[i] as int],
                r[s[p] as int],
            ) && !rang_avant(r, d[i], s[p]);
        assert(s.contains(d[i]));
        assert(meme_seance(r[d[i] as int], r[k]));
    }
}

fn meme_perimetre(a: &Releve, b: &Releve) -> (r: bool)
    ensures
        r == (a.perimetre() == b.perimetre()),
{
    let r: bool = meme_texte(a.ticker.as_str(), b.ticker.as_str()) && meme_texte(
        a.dte_max.as_str(),
        b.dte_max.as_str(),
    ) && meme_texte(a.source_gamma.as_str(), b.source_gamma.as_str()) && meme_texte(
        a.convention.as_str(),
        b.convention.as_str(),
    );
    proof {
        if r {
            assert(a.perimetre() =~= b.perimetre());
        } else if a.perimetre() == b.perimetre() {
            assert(a.perimetre()[0] == b.perimetre()[0]);
            assert(a.perimetre()[1] == b.perimetre()[1]);
            assert(a.perimetre()[2] == b.perimetre()[2]);
            assert(a.perimetre()[3] == b.perimetre()[3]);
        }
    }
    r
}

fn retenir(releves: &[Releve]) -> (d: Vec<usize>)
    ensures
        d@ == seances(releves@),
        forall|k: int| 0 <= k < d@.len() ==> #[trigger] d@[k] < releves@.len(),
{
    let n: usize = releves.len();
    let mut clefs: Vec<Vec<Vec<char>>> = Vec::new();
    let mut indices: Vec<usize> = Vec::new();
    let mut i: usize = 0;
    while i < n
        invariant
            i <= n == releves@.len(),
            clefs@.len() == i,
            forall|k: int| 0 <= k < i ==> vues((#[trigger] clefs@[k])@) == releves@[k].clef(),
            indices@ =~= rangs(i as nat),
        decreases n - i,
    {
        clefs.push(releves[i].en_clef());
        indices.push(i);
        i += 1;
    }
    let ghost avant = |a: usize, b: usize| rang_avant(releves@, a, b);
    let precede = |a: usize, b: usize| -> (x: bool)
        ensures
            x == rang_avant(releves@, a, b),
        {
            a < clefs.len() && (b >= clefs.len() || liste_vient_avant(&clefs[a], &clefs[b]))
        };
    let ranges: Vec<usize> = trier(indices.as_slice(), precede, Ghost(avant));
    proof {
        le_tri_garde_les_elements(rangs(n as nat), avant);
        assert forall|k: int| 0 <= k < ranges@.len() implies #[trigger] ranges@[k] < n by {
            assert(triee(rangs(n as nat), avant).contains(ranges@[k]));
            assert(rangs(n as nat).contains(ranges@[k]));
        }
    }
    let mut d: Vec<usize> = Vec::new();
    let mut j: usize = 0;
    while j < ranges.len()
        invariant
            j <= ranges@.len(),
            forall|k: int| 0 <= k < ranges@.len() ==> #[trigger] ranges@[k] < releves@.len(),
            clefs@.len() == releves@.len(),
            forall|k: int|
                0 <= k < clefs@.len() ==> vues((#[trigger] clefs@[k])@) == releves@[k].clef(),
            d@ == derniers_du_jour(releves@, ranges@.take(j as int)),
            forall|k: int| 0 <= k < d@.len() ==> #[trigger] d@[k] < releves@.len(),
        decreases ranges@.len() - j,
    {
        let x: usize = ranges[j];
        proof {
            assert(ranges@.take(j + 1).drop_last() =~= ranges@.take(j as int));
            assert(ranges@.take(j + 1).last() == x);
        }
        let m: usize = d.len();
        if m > 0 && de_meme_seance(
            &releves[d[m - 1]],
            &releves[x],
            &clefs[d[m - 1]],
            &clefs[x],
        ) {
            d.pop();
        }
        d.push(x);
        j += 1;
    }
    assert(ranges@.take(ranges@.len() as int) =~= ranges@);
    d
}

fn de_meme_seance(a: &Releve, b: &Releve, ca: &Vec<Vec<char>>, cb: &Vec<Vec<char>>) -> (r: bool)
    requires
        vues(ca@) == a.clef(),
        vues(cb@) == b.clef(),
    ensures
        r == meme_seance(*a, *b),
{
    reveal(meme_seance);
    assert(vues(ca@).len() == 6 && vues(cb@).len() == 6);
    assert(vues(ca@)[4] == ca@[4]@ && vues(cb@)[4] == cb@[4]@);
    assert(a.clef()[4] == a.jour() && b.clef()[4] == b.jour());
    meme_perimetre(a, b) && memes_caracteres(ca[4].as_slice(), cb[4].as_slice())
}

/// L'ordre des nombres par leur clef : hors des non-nombres, c'est `<`.
pub open spec fn valeur_avant(a: Flottant, b: Flottant) -> bool {
    a.clef() < b.clef()
}

pub(crate) fn valeur_precede(a: Flottant, b: Flottant) -> (r: bool)
    ensures
        r == valeur_avant(a, b),
{
    a.clef_exec() < b.clef_exec()
}

/// Un échantillon se range s'il n'a qu'un élément, ou ne porte aucun non-nombre.
pub open spec fn rangeable(v: Seq<Flottant>) -> bool {
    v.len() < 2 || forall|i: int| 0 <= i < v.len() ==> !(#[trigger] v[i]).nan()
}

/// La médiane : l'élément du milieu, ou la moyenne des deux du milieu. Zéro sur rien.
pub open spec fn mediane_de(v: Seq<Flottant>) -> Flottant {
    let t = triee(v, |a: Flottant, b: Flottant| valeur_avant(a, b));
    let milieu = v.len() as int / 2;
    if v.len() == 0 {
        Flottant::nul()
    } else if v.len() % 2 == 0 {
        t[milieu - 1].plus(t[milieu]).par(Flottant::entier(2))
    } else {
        t[milieu]
    }
}

/// La médiane d'un échantillon, ou zéro s'il est vide.
pub fn mediane(valeurs: &[Flottant]) -> (m: Flottant)
    requires
        rangeable(valeurs@),
    ensures
        m == mediane_de(valeurs@),
{
    let n: usize = valeurs.len();
    if n == 0 {
        return Flottant::nul();
    }
    let ghost avant = |a: Flottant, b: Flottant| valeur_avant(a, b);
    let t: Vec<Flottant> = trier(valeurs, valeur_precede, Ghost(avant));
    proof {
        le_tri_garde_les_elements(valeurs@, avant);
    }
    let milieu: usize = n / 2;
    if n % 2 == 0 {
        t[milieu - 1].plus(t[milieu]).par(Flottant::entier(2))
    } else {
        t[milieu]
    }
}

/// La médiane d'un échantillon impair en est un élément, qu'au plus la moitié des
/// éléments dépasse d'un côté comme de l'autre.
pub proof fn la_mediane_coupe_en_deux(v: Seq<Flottant>)
    requires
        v.len() % 2 == 1,
        forall|i: int| 0 <= i < v.len() ==> !(#[trigger] v[i]).nan(),
    ensures
        v.contains(mediane_de(v)),
        exists|t: Seq<Flottant>| #[trigger] t.to_multiset() == v.to_multiset() && t.len() == v.len()
            && t[v.len() as int / 2] == mediane_de(v) && (forall|i: int|
            0 <= i < v.len() / 2 ==> !mediane_de(v).inferieur(#[trigger] t[i])) && (forall|i: int|
            v.len() / 2 < i < v.len() ==> !(#[trigger] t[i]).inferieur(mediane_de(v))),
{
    let avant = |a: Flottant, b: Flottant| valeur_avant(a, b);
    let t = triee(v, avant);
    le_tri_garde_les_elements(v, avant);
    assert(ordre_faible(avant));
    le_tri_range_sans_rien_perdre(v, avant);
    let m = v.len() as int / 2;
    assert(t.contains(t[m]));
    assert(t[m] == mediane_de(v));
    assert forall|i: int| 0 <= i < m implies !mediane_de(v).inferieur(#[trigger] t[i]) by {
        assert(!avant(t[m], t[i]));
    }
    assert forall|i: int| m < i < v.len() implies !(#[trigger] t[i]).inferieur(mediane_de(v)) by {
        assert(!avant(t[i], t[m]));
    }
    assert(t.to_multiset() == v.to_multiset());
}

/// Le résultat d'une comparaison entre deux groupes.
#[derive(Clone, Copy, Debug, PartialEq, Eq, Structural)]
pub struct Comparaison {
    /// Relevés dans le premier groupe.
    pub n_a: usize,
    /// Relevés dans le second.
    pub n_b: usize,
    /// Médiane du premier.
    pub mediane_a: Flottant,
    /// Médiane du second.
    pub mediane_b: Flottant,
    /// Écart relatif, ou rien s'il n'est pas calculable.
    pub ecart: Option<Flottant>,
    /// L'échantillon suffit-il pour conclure ?
    pub concluant: bool,
}

fn suffisant(a: usize, b: usize) -> (r: bool)
    ensures
        r == (a + b >= N_MINIMAL),
{
    a >= N_MINIMAL || b >= N_MINIMAL - a
}

/// Compare l'amplitude des mouvements entre deux groupes : le rapport de leurs médianes,
/// moins un, quand chacun compte trois observations et que le second n'est pas figé.
pub fn comparer(a: &[Flottant], b: &[Flottant]) -> (c: Comparaison)
    requires
        rangeable(a@),
        rangeable(b@),
    ensures
        c.n_a == a@.len(),
        c.n_b == b@.len(),
        c.mediane_a == mediane_de(a@),
        c.mediane_b == mediane_de(b@),
        c.ecart == (if a@.len() >= 3 && b@.len() >= 3 && !mediane_de(b@).de_meme_valeur(
            Flottant::nul(),
        ) {
            Some(mediane_de(a@).par(mediane_de(b@)).moins(Flottant::entier(1)))
        } else {
            None
        }),
        c.concluant == (a@.len() + b@.len() >= N_MINIMAL),
        c.ecart matches Some(e) ==> c.mediane_a.fini() && c.mediane_b.fini()
            && c.mediane_b.positif() && c.mediane_a.par(c.mediane_b).fini() ==> {
            &&& c.mediane_b.inferieur_ou_egal(c.mediane_a) ==> e.clef() >= 0
            &&& c.mediane_a.inferieur_ou_egal(c.mediane_b) ==> e.clef() <= 0
        },
{
    proof {
        lemme_ecart_relatif(mediane_de(a@), mediane_de(b@));
    }
    let ma: Flottant = mediane(a);
    let mb: Flottant = mediane(b);
    let ecart: Option<Flottant> = if a.len() >= 3 && b.len() >= 3 && !mb.egal(Flottant::nul()) {
        Some(ma.par(mb).moins(Flottant::entier(1)))
    } else {
        None
    };
    Comparaison {
        n_a: a.len(),
        n_b: b.len(),
        mediane_a: ma,
        mediane_b: mb,
        ecart,
        concluant: suffisant(a.len(), b.len()),
    }
}

/// Ce que deux groupes donnent en dérive signée. L'écart se dit par soustraction : un
/// rapport n'aurait aucun sens sur des valeurs signées.
#[derive(Clone, Copy, Debug, PartialEq, Eq, Structural)]
pub struct Derive {
    /// Effectif du premier groupe.
    pub n_a: usize,
    /// Effectif du second.
    pub n_b: usize,
    /// Dérive médiane du premier groupe.
    pub mediane_a: Flottant,
    /// Dérive médiane du second.
    pub mediane_b: Flottant,
    /// La différence des deux. Rien sous trois observations d'un côté.
    pub ecart: Option<Flottant>,
    /// L'échantillon total suffit-il à conclure ?
    pub concluant: bool,
}

/// Compare la dérive signée de deux groupes.
pub fn comparer_derive(a: &[Flottant], b: &[Flottant]) -> (d: Derive)
    requires
        rangeable(a@),
        rangeable(b@),
    ensures
        d.n_a == a@.len(),
        d.n_b == b@.len(),
        d.mediane_a == mediane_de(a@),
        d.mediane_b == mediane_de(b@),
        d.ecart == (if a@.len() >= 3 && b@.len() >= 3 {
            Some(mediane_de(a@).moins(mediane_de(b@)))
        } else {
            None
        }),
        d.concluant == (a@.len() + b@.len() >= N_MINIMAL),
        d.ecart matches Some(e) ==> d.mediane_a.fini() && d.mediane_b.fini() ==> {
            &&& d.mediane_b.inferieur(d.mediane_a) ==> e.positif()
            &&& d.mediane_a.inferieur(d.mediane_b) ==> e.inferieur(Flottant::nul())
        },
{
    proof {
        let (x, y) = (mediane_de(a@), mediane_de(b@));
        if x.fini() && y.fini() && x.inferieur(y) {
            lemme_difference_stricte(x, y);
        }
        if x.fini() && y.fini() && y.inferieur(x) {
            lemme_difference_stricte(y, x);
        }
    }
    let ma: Flottant = mediane(a);
    let mb: Flottant = mediane(b);
    Derive {
        n_a: a.len(),
        n_b: b.len(),
        mediane_a: ma,
        mediane_b: mb,
        ecart: if a.len() >= 3 && b.len() >= 3 {
            Some(ma.moins(mb))
        } else {
            None
        },
        concluant: suffisant(a.len(), b.len()),
    }
}

/// Combien de fois `true`.
pub open spec fn vrais(cas: Seq<bool>) -> nat
    decreases cas.len(),
{
    if cas.len() == 0 {
        0
    } else {
        vrais(cas.drop_last()) + if cas.last() {
            1nat
        } else {
            0nat
        }
    }
}

/// Compter les vrais, c'est compter ce qu'il en reste une fois les faux retirés ; tous, ou aucun,
/// quand tous le sont, ou aucun.
pub proof fn compter_les_vrais(cas: Seq<bool>)
    ensures
        vrais(cas) == cas.filter(|b: bool| b).len(),
        (forall|i: int| 0 <= i < cas.len() ==> #[trigger] cas[i]) ==> vrais(cas) == cas.len(),
        (forall|i: int| 0 <= i < cas.len() ==> !#[trigger] cas[i]) ==> vrais(cas) == 0,
    decreases cas.len(),
{
    reveal(Seq::filter);
    if cas.len() > 0 {
        let t = cas.drop_last();
        compter_les_vrais(t);
        assert(cas[cas.len() - 1] == cas.last());
        assert forall|i: int| 0 <= i < t.len() implies #[trigger] cas[i] == t[i] by {}
    }
}

proof fn lemme_ecart_relatif(a: Flottant, b: Flottant)
    ensures
        a.fini() && b.fini() && b.positif() && a.par(b).fini() ==> {
            let e = a.par(b).moins(Flottant::entier(1));
            &&& b.inferieur_ou_egal(a) ==> e.clef() >= 0
            &&& a.inferieur_ou_egal(b) ==> e.clef() <= 0
        },
{
    if a.fini() && b.fini() && b.positif() && a.par(b).fini() {
        let un = rapport(1, 1);
        un_entier_est_exact(1);
        lemme_quotient_par_soi(b);
        if b.inferieur_ou_egal(a) {
            lemme_quotient_croit(b, a, b);
            lemme_difference_ordonnee(un, a.par(b));
        }
        if a.inferieur_ou_egal(b) {
            lemme_quotient_croit(a, b, b);
            lemme_difference_ordonnee(a.par(b), un);
        }
    }
}

/// La médiane d'un nombre pair de valeurs est la demi-somme des deux du milieu, une fois rangées.
pub proof fn la_mediane_de_deux_milieux_est_leur_demi_somme(v: Seq<Flottant>)
    requires
        v.len() > 0,
        v.len() % 2 == 0,
        forall|i: int| 0 <= i < v.len() ==> !(#[trigger] v[i]).nan(),
    ensures
        exists|t: Seq<Flottant>|
            {
                let m = v.len() as int / 2;
                &&& #[trigger] t.to_multiset() == v.to_multiset()
                &&& t.len() == v.len()
                &&& forall|i: int, j: int|
                    0 <= i < j < t.len() ==> (#[trigger] t[i]).inferieur_ou_egal(#[trigger] t[j])
                &&& mediane_de(v) == t[m - 1].plus(t[m]).par(Flottant::entier(2))
            },
{
    let avant = |a: Flottant, b: Flottant| valeur_avant(a, b);
    let t = triee(v, avant);
    le_tri_garde_les_elements(v, avant);
    assert(ordre_faible(avant));
    le_tri_range_sans_rien_perdre(v, avant);
    assert forall|i: int| 0 <= i < t.len() implies !(#[trigger] t[i]).nan() by {
        assert(t.contains(t[i]));
        let k = choose|k: int| 0 <= k < v.len() && v[k] == t[i];
        assert(!v[k].nan());
    }
    assert forall|i: int, j: int| 0 <= i < j < t.len() implies (
    #[trigger] t[i]).inferieur_ou_egal(#[trigger] t[j]) by {
        assert(!avant(t[j], t[i]));
    }
    assert(t.to_multiset() == v.to_multiset());
}

/// Part des cas où le mur a été franchi. Rien sur aucun cas.
pub fn taux_de_franchissement(cas: &[bool]) -> (r: Option<Flottant>)
    ensures
        r == (if cas@.len() == 0 {
            None
        } else {
            Some(rapport(vrais(cas@) as int, 1).par(rapport(cas@.len() as int, 1)))
        }),
        0 < cas@.len() < 0x20_0000_0000_0000 ==> {
            &&& (forall|i: int| 0 <= i < cas@.len() ==> #[trigger] cas@[i]) ==> r == Some(
                rapport(1, 1),
            )
            &&& (forall|i: int| 0 <= i < cas@.len() ==> !#[trigger] cas@[i])
                ==> r->Some_0.rang() == 0
        },
{
    proof {
        compter_les_vrais(cas@);
        if 0 < cas@.len() < 0x20_0000_0000_0000 {
            lemme_part_extreme(cas@.len() as int);
        }
    }
    let n: usize = cas.len();
    if n == 0 {
        return None;
    }
    let mut compte: usize = 0;
    let mut i: usize = 0;
    while i < n
        invariant
            i <= n == cas@.len(),
            compte == vrais(cas@.take(i as int)),
            compte <= i,
        decreases n - i,
    {
        proof {
            assert(cas@.take(i + 1).drop_last() =~= cas@.take(i as int));
        }
        if cas[i] {
            compte += 1;
        }
        i += 1;
    }
    assert(cas@.take(n as int) =~= cas@);
    Some(Flottant::naturel(compte as u64).par(Flottant::naturel(n as u64)))
}

/// Un nombre tel qu'il revient d'un texte : tout non-nombre revient comme le même.
pub open spec fn relu(f: Flottant) -> Flottant {
    if f.nan() {
        non_nombre()
    } else {
        f
    }
}

pub open spec fn relu_si(f: Option<Flottant>) -> Option<Flottant> {
    match f {
        Some(x) => Some(relu(x)),
        None => None,
    }
}

/// Le relevé porte les valeurs de la ligne d'historique. Le schéma n'ayant pas de
/// colonne pour lui, le max pain manque.
pub open spec fn porte(r: Releve, l: LigneHistorique, quand: Seq<char>) -> bool {
    &&& r.instant@ == rogne(quand)
    &&& r.ticker@ == rogne(l.ticker@)
    &&& r.dte_max@ == horizon_ecrit(l.dte_max)
    &&& r.source_gamma@ == rogne(l.source_gamma@)
    &&& r.convention@ == rogne(l.convention@)
    &&& r.spot == relu(l.spot)
    &&& r.gex == relu(l.gex)
    &&& r.zero_gamma == relu_si(l.zero_gamma)
    &&& r.call_wall == relu_si(l.call_wall)
    &&& r.put_wall == relu_si(l.put_wall)
    &&& r.charm == Some(relu(l.charm))
    &&& r.vanna == Some(relu(l.vanna))
    &&& r.iv_atm == relu_si(l.iv_atm)
    &&& r.max_pain is None
}

proof fn lemme_signes_rognes(s: Seq<char>)
    requires
        que_des_signes(s),
    ensures
        rogne(s) == s,
{
    if s.len() > 0 {
        assert(signe_de_nombre(s[0]));
        assert(signe_de_nombre(s[s.len() - 1]));
    }
    lemme_deja_rogne(s);
}

/// Un nombre écrit dans sa case se relit.
proof fn lemme_case_lue(x: Option<Flottant>)
    ensures
        flottant_lu(rogne(champ_de(x))) == relu_si(x),
{
    match x {
        Some(f) => {
            une_ecriture_courte_est_propre(f);
            lemme_signes_rognes(court_de(f));
            l_ecriture_courte_se_relit(f);
        },
        None => {
            let s = Seq::<char>::empty();
            lemme_deja_rogne(s);
            reveal(nombre_ecrit);
            reveal_strlit("inf");
            reveal_strlit("infinity");
            reveal_strlit("nan");
        },
    }
}

proof fn lemme_horizon_rogne(d: Option<i64>)
    ensures
        rogne(horizon_ecrit(d)) == horizon_ecrit(d),
{
    match d {
        Some(n) => {
            un_entier_ecrit_est_propre(n as int);
            lemme_signes_rognes(ecrit_relatif(n as int));
        },
        None => {
            reveal_strlit("all");
            lemme_deja_rogne("all"@);
        },
    }
}

/// Un nom qui n'est pas au schéma n'y a pas de rang.
proof fn lemme_max_pain_absent()
    ensures
        rang_de(noms(), "max_pain"@) is None,
{
    lemme_sans_max_pain();
    lemme_rang(noms(), "max_pain"@);
}

/// Ce que la ligne porte sous un nom du schéma est sa case du même rang.
proof fn lemme_relu_sous_son_nom(l: LigneHistorique, quand: Seq<char>, r: Releve)
    requires
        releve_juste(r, noms(), cases_de(l, quand)),
    ensures
        porte(r, l, quand),
{
    lemme_rang_du_nom(0);
    lemme_rang_du_nom(1);
    lemme_rang_du_nom(2);
    lemme_rang_du_nom(3);
    lemme_rang_du_nom(4);
    lemme_rang_du_nom(5);
    lemme_rang_du_nom(6);
    lemme_rang_du_nom(7);
    lemme_rang_du_nom(8);
    lemme_rang_du_nom(9);
    lemme_rang_du_nom(12);
    lemme_rang_du_nom(13);
    lemme_rang_du_nom(16);
    lemme_max_pain_absent();
    lemme_horizon_rogne(l.dte_max);
    lemme_case_lue(Some(l.spot));
    lemme_case_lue(Some(l.gex));
    lemme_case_lue(l.zero_gamma);
    lemme_case_lue(l.call_wall);
    lemme_case_lue(l.put_wall);
    lemme_case_lue(Some(l.charm));
    lemme_case_lue(Some(l.vanna));
    lemme_case_lue(l.iv_atm);
}

/// Ce qui est enregistré se relit : ajoutée à un historique vide, ou terminé et au schéma
/// courant, une ligne dont les textes ne portent pas de séparateur ajoute un relevé, le
/// dernier, qui en porte les valeurs ; les autres relevés ne changent pas.
pub proof fn un_releve_enregistre_se_relit(
    avant: Seq<char>,
    cree: bool,
    l: LigneHistorique,
    quand: Seq<char>,
)
    requires
        if cree {
            avant.len() == 0
        } else {
            avant.len() > 0 && avant.last() == '\n' && lignes_de(avant)[0] == schema()
        },
        textes_propres(l, quand),
    ensures
        ({
            let apres = avant + ajout_de(cree, joints(cases_de(l, quand), ","@));
            let anciens = if cree {
                Seq::empty()
            } else {
                exploitables(noms(), lignes_de(avant).skip(1))
            };
            &&& lignes_de(apres).len() > 0
            &&& lignes_de(apres)[0] == schema()
            &&& morceaux(schema(), ',') == noms()
            &&& entete_suffisant(noms())
            &&& exploitables(noms(), lignes_de(apres).skip(1)) == anciens.push(cases_de(l, quand))
            &&& forall|r: Releve| #[trigger]
                releve_juste(r, noms(), cases_de(l, quand)) ==> porte(r, l, quand)
        }),
{
    reveal_strlit("\n");
    assert("\n"@ =~= seq!['\n']);
    let ligne = joints(cases_de(l, quand), ","@);
    let base = if cree {
        schema() + "\n"@
    } else {
        avant
    };
    let apres = avant + ajout_de(cree, ligne);
    assert(apres =~= base + ligne + seq!['\n']);
    l_en_tete_nomme_le_schema();
    assert(base.last() == '\n');
    une_ligne_a_les_colonnes_du_schema(l, quand);
    une_ligne_s_ajoute(base, ligne);
    let lignes = lignes_de(base);
    if !cree {
        lemme_une_ligne_au_moins(avant);
    }
    assert(lignes.len() > 0);
    assert(lignes_de(apres) == lignes.push(ligne));
    let reste = lignes_de(apres).skip(1);
    assert(reste =~= lignes.skip(1).push(ligne));
    assert(reste.drop_last() =~= lignes.skip(1));
    if cree {
        assert(lignes.skip(1) =~= Seq::empty());
    }
    lemme_rang_du_nom(0);
    lemme_rang_du_nom(1);
    lemme_rang_du_nom(5);
    lemme_rang_du_nom(6);
    lemme_case_lue(Some(l.spot));
    lemme_case_lue(Some(l.gex));
    lemme_pleine(ligne);
    assert(exploitable(noms(), ligne));
    assert(reste.last() == ligne);
    assert(exploitables(noms(), reste) == exploitables(noms(), reste.drop_last()).push(
        cases_de(l, quand),
    ));
    assert(lignes_de(apres)[0] == schema());
    assert(entete_suffisant(noms()));
    assert forall|r: Releve| #[trigger] releve_juste(r, noms(), cases_de(l, quand)) implies porte(
        r,
        l,
        quand,
    ) by {
        lemme_relu_sous_son_nom(l, quand, r);
    }
}

/// Une ligne qui finit par une virgule n'est pas vide.
proof fn lemme_pleine(ligne: Seq<char>)
    requires
        ligne.len() > 0,
        ligne.last() == ',',
    ensures
        pleine(ligne),
    decreases ligne.len(),
{
    if blanc(ligne[0]) {
        assert(ligne.skip(1).last() == ',');
        lemme_pleine(ligne.skip(1));
    }
}

} // verus!
