//! Densité et fonction de répartition de la loi normale centrée réduite.

use super::fonctions::appliquer;
#[allow(unused_imports)]
use super::fonctions::{courbe, est_fonction};
use crate::flottant::Flottant;
use vstd::prelude::*;

verus! {

/// Le code de `1 / sqrt(2 * pi)`.
pub const INV_RACINE_2PI: u64 = 0x3fd9_8845_33d4_3651;

/// Le code de `1 / sqrt(2)`.
pub const INV_RACINE_2: u64 = 0x3fe6_a09e_667f_3bcd;

/// La densité en `x`, `exp` étant l'exponentielle.
pub open spec fn densite_en(exp: spec_fn(Flottant) -> Flottant, x: Flottant) -> Flottant {
    (Flottant { bits: INV_RACINE_2PI }).fois(
        exp(Flottant::fraction(1, 2).neg().fois(x).fois(x)),
    )
}

/// Densité de probabilité en `x`.
pub fn densite<E: Fn(Flottant) -> Flottant>(x: Flottant, exp: &E) -> (r: Flottant)
    requires
        est_fonction(*exp),
    ensures
        r == densite_en(courbe(*exp), x),
{
    let y: Flottant = appliquer(exp, Flottant::fraction(1, 2).neg().fois(x).fois(x));
    Flottant::depuis_bits(INV_RACINE_2PI).fois(y)
}

/// La répartition en `x`, `erfc` étant la fonction d'erreur complémentaire.
pub open spec fn repartition_en(erfc: spec_fn(Flottant) -> Flottant, x: Flottant) -> Flottant {
    Flottant::fraction(1, 2).fois(erfc(x.neg().fois(Flottant { bits: INV_RACINE_2 })))
}

/// Fonction de répartition en `x`.
///
/// Passe par la fonction d'erreur complémentaire : dans la queue gauche, elle garde
/// les chiffres que la différence de deux nombres proches perdrait.
pub fn repartition<C: Fn(Flottant) -> Flottant>(x: Flottant, erfc: &C) -> (r: Flottant)
    requires
        est_fonction(*erfc),
    ensures
        r == repartition_en(courbe(*erfc), x),
{
    let y: Flottant = appliquer(erfc, x.neg().fois(Flottant::depuis_bits(INV_RACINE_2)));
    Flottant::fraction(1, 2).fois(y)
}

} // verus!
