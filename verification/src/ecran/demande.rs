//! Ce que l'écran demande, et ce qu'on lui accorde.

#[allow(unused_imports)]
use crate::court::l_ecriture_d_un_entier_se_relit;
use crate::fixe::ecrire_signe;
#[allow(unused_imports)]
use crate::fixe::{ecrit, ecrit_relatif};
use crate::store::series::Pas;
#[allow(unused_imports)]
use crate::store::series::{heures_tenables, pas_lu};
use crate::texte::{ajouter_texte, caracteres, en_texte};
#[allow(unused_imports)]
use crate::texte::{majuscule, majuscules_de, rogne};
use vstd::prelude::*;

verus! {

/// Ce que l'écran demande : un horizon d'échéance, un pas de chandelier.
#[derive(Clone, Debug, PartialEq, Eq)]
pub struct Demande {
    /// Jours d'échéance au maximum. Absent : celui de la ligne de commande. Négatif :
    /// toutes les échéances.
    pub dte_max: Option<i64>,
    /// Le pas des chandeliers : `1m`, `15m`, `4h`, `1J`.
    pub pas: Option<String>,
}

impl Demande {
    /// Le pas accordé : celui qui est demandé s'il se lit, la minute sinon.
    pub open spec fn pas_accorde(&self) -> Pas {
        match self.pas {
            Some(t) => match pas_lu(rogne(t@)) {
                Some(p) => p,
                None => Pas::Minutes(1),
            },
            None => Pas::Minutes(1),
        }
    }

    /// Le pas retenu. Un texte illisible retombe sur la minute plutôt que de refuser la
    /// requête.
    pub fn pas(&self) -> (p: Pas)
        requires
            self.pas matches Some(t) ==> heures_tenables(rogne(t@)),
        ensures
            p == self.pas_accorde(),
    {
        match &self.pas {
            Some(t) => match Pas::depuis(t.as_str()) {
                Some(p) => p,
                None => Pas::Minutes(1),
            },
            None => Pas::Minutes(1),
        }
    }
}

/// Le pas écrit comme l'écran l'envoie.
pub open spec fn pas_ecrit(pas: Pas) -> Seq<char> {
    match pas {
        Pas::Seance => "1J"@,
        Pas::Minutes(n) => if n % 60 == 0 && n >= 60 {
            ecrit_relatif(n as int / 60) + "h"@
        } else {
            ecrit_relatif(n as int) + "m"@
        },
    }
}

/// Le pas écrit comme l'écran l'envoie.
pub fn nom_pas(pas: Pas) -> (s: String)
    ensures
        s@ == pas_ecrit(pas),
{
    match pas {
        Pas::Seance => en_texte(caracteres("1J").as_slice()),
        Pas::Minutes(n) => {
            let heures: bool = n >= 60 && n % 60 == 0;
            let mut v: Vec<char> = if heures {
                ecrire_signe(n / 60)
            } else {
                ecrire_signe(n)
            };
            ajouter_texte(
                &mut v,
                if heures {
                    "h"
                } else {
                    "m"
                },
            );
            en_texte(v.as_slice())
        },
    }
}

/// Le pas que l'écran reçoit est celui qu'il renverrait : écrit puis relu, un pas d'au
/// moins une minute reste le même.
pub proof fn le_pas_ecrit_se_relit(pas: Pas)
    requires
        pas matches Pas::Minutes(n) ==> n > 0,
    ensures
        heures_tenables(pas_ecrit(pas)),
        pas_lu(pas_ecrit(pas)) == Some(pas),
{
    reveal_strlit("1J");
    reveal_strlit("1D");
    reveal_strlit("h");
    reveal_strlit("m");
    match pas {
        Pas::Seance => {
            assert(majuscules_de("1J"@) =~= "1J"@);
        },
        Pas::Minutes(n) => {
            let heures = n % 60 == 0 && n >= 60;
            let k = if heures {
                n as int / 60
            } else {
                n as int
            };
            let t = pas_ecrit(pas);
            let fin = if heures {
                'h'
            } else {
                'm'
            };
            assert(t =~= ecrit(k as nat).push(fin));
            assert(t.drop_last() =~= ecrit(k as nat));
            l_ecriture_d_un_entier_se_relit(k as nat);
            assert(majuscules_de(t).last() == majuscule(fin));
            assert("1J"@.last() == 'J' && "1D"@.last() == 'D');
            assert(majuscules_de(t) != "1J"@ && majuscules_de(t) != "1D"@);
        },
    }
}

/// Lequel des horizons présents servir.
pub open spec fn horizon_accorde(horizons: Seq<i64>, demande: Option<i64>) -> Option<i64> {
    if horizons.len() == 0 {
        None
    } else {
        match demande {
            Some(h) => if horizons.contains(h) {
                Some(h)
            } else {
                Some(horizons.last())
            },
            None => Some(horizons.last()),
        }
    }
}

/// Lequel des horizons présents servir. Le plus long par défaut ; un horizon absent du
/// fichier est ignoré plutôt qu'obéi, car un tableau vide se lirait comme « rien ne
/// cotait ».
pub fn horizon_servi(horizons: &[i64], demande: Option<i64>) -> (r: Option<i64>)
    ensures
        r == horizon_accorde(horizons@, demande),
{
    let n: usize = horizons.len();
    if n == 0 {
        return None;
    }
    if let Some(h) = demande {
        let mut i: usize = 0;
        while i < n
            invariant
                i <= n == horizons@.len(),
                n > 0,
                demande == Some(h),
                forall|k: int| 0 <= k < i ==> #[trigger] horizons@[k] != h,
            decreases n - i,
        {
            if horizons[i] == h {
                return Some(h);
            }
            i += 1;
        }
    }
    Some(horizons[n - 1])
}

/// L'horizon en toutes lettres.
pub open spec fn horizon_dit(jours: Option<i64>) -> Seq<char> {
    match jours {
        None => "toutes échéances"@,
        Some(n) => if n == 0 {
            "0 jour (0DTE)"@
        } else if n == 1 {
            "1 jour"@
        } else {
            ecrit_relatif(n as int) + " jours"@
        },
    }
}

/// L'horizon dit en toutes lettres, pour les messages.
pub fn nom_horizon(jours: Option<i64>) -> (s: String)
    ensures
        s@ == horizon_dit(jours),
{
    match jours {
        None => en_texte(caracteres("toutes échéances").as_slice()),
        Some(n) => if n == 0 {
            en_texte(caracteres("0 jour (0DTE)").as_slice())
        } else if n == 1 {
            en_texte(caracteres("1 jour").as_slice())
        } else {
            let mut v: Vec<char> = ecrire_signe(n);
            ajouter_texte(&mut v, " jours");
            en_texte(v.as_slice())
        },
    }
}

/// L'horizon du profil : celui de la ligne de commande si rien n'est demandé, toutes les
/// échéances si c'est négatif, et dix ans au plus.
pub fn horizon_retenu(demande: Option<i64>, defaut: i64) -> (r: Option<i64>)
    ensures
        r == match demande {
            None => Some(defaut),
            Some(n) => if n < 0 {
                None
            } else if n > 3650 {
                Some(3650i64)
            } else {
                Some(n)
            },
        },
{
    match demande {
        None => Some(defaut),
        Some(n) => if n < 0 {
            None
        } else if n > 3650 {
            Some(3650)
        } else {
            Some(n)
        },
    }
}

} // verus!
