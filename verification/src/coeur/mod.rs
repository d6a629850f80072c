//! Le calcul pur : la chaîne d'options, le temps restant, les expositions et leurs lectures.

pub mod temps;
pub mod chaine;
pub mod contrat;
pub mod fonctions;
pub mod loi_normale;
pub mod black76;
pub mod greeks;
pub mod intervalle;
pub mod analyse;
pub mod positions;
pub mod strikes;
pub mod echeances;
pub mod profils;
pub mod smile;
pub mod seance;
pub mod sensibilites;
pub mod primes;
pub mod durees;
pub mod chaines;
