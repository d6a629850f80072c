//! La source : Interactive Brokers, options sur futures CME.
//!
//! IB ne sert pas une chaîne : il sert des contrats un par un, avec un plafond de cent
//! lignes de données simultanées. Tout ce module découle de cette contrainte, et rien ici
//! ne passe d'ordre.

pub mod assemblage;
pub mod barres;
pub mod catalogues;
pub mod client;
pub mod decisions;
pub mod lignes;
pub mod selections;
