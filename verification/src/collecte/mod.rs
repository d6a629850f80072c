//! Le collecteur : ce qu'il décide, et ce qu'il juge bon d'annoncer.

pub mod alertes;
pub mod cadence;
pub mod decisions;
pub mod franchissements;
pub mod minutes;
pub mod session;
