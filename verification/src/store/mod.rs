//! La persistance : le format des relevés, les séries, l'historique et ses mesures.

pub mod archives;
pub mod cftc;
pub mod colonnes;
pub mod chandeliers;
pub mod chemins;
pub mod historique;
pub mod lot;
pub mod observations;
pub mod releve;
pub mod semaines;
pub mod series;
pub mod validation;
