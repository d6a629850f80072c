//! Le lecteur : ouvre un relevé et en tire les chiffres de la séance.
//!
//! Il ne va jamais chercher de données. Le collecteur écrit un fichier, le lecteur le lit :
//! une séance passée se rejoue avec exactement le même code qu'une séance vivante.

pub mod mesures;
pub mod nombres;
pub mod rapport;
pub mod suivi;
