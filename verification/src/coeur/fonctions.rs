//! Les fonctions que l'arithmétique ne donne pas.
//!
//! Le logarithme, l'exponentielle et la fonction d'erreur n'ont pas d'arrondi
//! prescrit. Le calcul les reçoit de l'appelant, et ses contrats s'énoncent sur
//! ce qu'elles rendent.

use crate::flottant::Flottant;
use vstd::prelude::*;

verus! {

/// Une fonction de l'appelant : appelable partout, et toujours de même résultat
/// sur le même argument.
pub open spec fn est_fonction<F: Fn(Flottant) -> Flottant>(f: F) -> bool {
    &&& forall|x: Flottant| #[trigger] call_requires(f, (x,))
    &&& forall|x: Flottant, y: Flottant, z: Flottant| #[trigger]
        call_ensures(f, (x,), y) && #[trigger] call_ensures(f, (x,), z) ==> y == z
}

/// Ce que la fonction de l'appelant rend d'un argument.
pub open spec fn image<F: Fn(Flottant) -> Flottant>(f: F, x: Flottant) -> Flottant {
    choose|y: Flottant| call_ensures(f, (x,), y)
}

/// La fonction de l'appelant, comme fonction mathématique.
pub open spec fn courbe<F: Fn(Flottant) -> Flottant>(f: F) -> spec_fn(Flottant) -> Flottant {
    |x: Flottant| image(f, x)
}

/// Applique la fonction de l'appelant.
pub(crate) fn appliquer<F: Fn(Flottant) -> Flottant>(f: &F, x: Flottant) -> (y: Flottant)
    requires
        est_fonction(*f),
    ensures
        y == courbe(*f)(x),
{
    let y: Flottant = f(x);
    assert(call_ensures(*f, (x,), y));
    y
}

} // verus!
