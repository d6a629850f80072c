//! L'écran de séance : ce que la page montre de ce que le collecteur a écrit.
//!
//! Il lit les trois fichiers du collecteur et les traduit. La page affiche ce qui a été
//! fait, jamais ce qu'elle a demandé : le pas et l'horizon retenus repartent avec la
//! réponse.

pub mod demande;
pub mod lecture;
pub mod profil;
pub mod series;
