pub mod calendrier;
pub mod coeur;
pub mod collecte;
pub mod court;
pub mod decimal;
pub mod ecran;
pub mod entiers;
pub mod erreur;
pub mod fixe;
pub mod flottant;
pub mod grand;
pub mod ib;
pub mod insider;
pub mod json;
pub mod lecteur;
pub mod ordre;
pub mod store;
pub mod texte;
pub mod tri;
