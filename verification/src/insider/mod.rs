//! Le vocabulaire commun des déclarations d'initiés.
//!
//! Trois sources, trois formats, un seul jeu de types : les formulaires 4 de la SEC pour
//! les dirigeants d'entreprise, les PDF du greffe de la Chambre et le HTML du Sénat pour
//! les élus. Ce qu'elles décrivent est la même chose : qui a échangé quoi, quand, et pour
//! combien.

pub mod fourchettes;
pub mod montant;
pub mod transaction;

pub use montant::Montant;
pub use transaction::{Detenteur, Nature, Operation, Sens, Source};
