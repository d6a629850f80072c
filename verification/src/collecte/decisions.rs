//! Les décisions de la boucle de collecte.

use crate::calendrier::{Instant, Jour, CALENDRIER_DEBUT, CALENDRIER_FIN, HEURE};
#[allow(unused_imports)]
use crate::calendrier::JOURNEE;
use crate::flottant::Flottant;
use vstd::prelude::*;

verus! {

/// Heure UTC à laquelle bascule la journée de compensation : le CME publie l'open
/// interest préliminaire à 18 h heure de Chicago.
pub const HEURE_OI_UTC: i64 = 23;

/// Part de la bande au-delà de laquelle le vif se resélectionne : quinze pour cent.
#[verifier::allow_in_spec]
pub fn marge_bande() -> (f: Flottant)
    returns
        Flottant::fraction(15, 100),
{
    Flottant::fraction(15, 100)
}

/// Un instant du calendrier, dont l'heure suivante y est aussi.
pub open spec fn datable(i: Instant) -> bool {
    CALENDRIER_DEBUT <= i.micros <= CALENDRIER_FIN - HEURE
}

/// La journée d'open interest d'un instant : la bascule compte déjà pour le lendemain.
pub open spec fn journee_de(i: Instant) -> int {
    (i.micros + (24 - HEURE_OI_UTC) * HEURE) / JOURNEE as int
}

/// La journée d'open interest à laquelle un instant appartient.
pub fn journee_compensation(instant: Instant) -> (j: Jour)
    requires
        datable(instant),
    ensures
        j.numero == journee_de(instant),
{
    Instant { micros: instant.micros + (24 - HEURE_OI_UTC) * HEURE }.jour()
}

/// Le socle est périmé quand il n'y en a pas, ou qu'une journée de compensation a
/// commencé depuis.
pub open spec fn rebalayage_du(dernier_socle: Option<Instant>, maintenant: Instant) -> bool {
    match dernier_socle {
        None => true,
        Some(avant) => journee_de(maintenant) > journee_de(avant),
    }
}

/// Le socle est-il périmé ?
///
/// L'open interest est publié une fois par jour : rebalayer en cours de journée relirait
/// le même chiffre.
pub fn faut_il_rebalayer(dernier_socle: Option<Instant>, maintenant: Instant) -> (b: bool)
    requires
        datable(maintenant),
        dernier_socle matches Some(i) ==> datable(i),
    ensures
        b == rebalayage_du(dernier_socle, maintenant),
{
    match dernier_socle {
        None => true,
        Some(avant) => journee_compensation(maintenant).numero > journee_compensation(avant).numero,
    }
}

/// Les strikes finis.
pub open spec fn finis(v: Seq<Flottant>) -> Seq<Flottant>
    decreases v.len(),
{
    if v.len() == 0 {
        v
    } else if v.last().fini() {
        finis(v.drop_last()).push(v.last())
    } else {
        finis(v.drop_last())
    }
}

/// Plus l'infini, en double précision.
pub const PLUS_L_INFINI: u64 = 0x7FF0_0000_0000_0000;

/// Moins l'infini, en double précision.
pub const MOINS_L_INFINI: u64 = 0xFFF0_0000_0000_0000;

/// Le plus petit, plus l'infini sur rien.
pub open spec fn plus_bas(v: Seq<Flottant>) -> Flottant
    decreases v.len(),
{
    if v.len() == 0 {
        Flottant { bits: PLUS_L_INFINI }
    } else {
        plus_bas(v.drop_last()).min(v.last())
    }
}

/// Le plus grand, moins l'infini sur rien.
pub open spec fn plus_haut(v: Seq<Flottant>) -> Flottant
    decreases v.len(),
{
    if v.len() == 0 {
        Flottant { bits: MOINS_L_INFINI }
    } else {
        plus_haut(v.drop_last()).max(v.last())
    }
}

/// La bande que des strikes couvrent.
pub open spec fn bande_de(v: Seq<Flottant>) -> Option<(Flottant, Flottant)> {
    if finis(v).len() == 0 {
        None
    } else {
        Some((plus_bas(finis(v)), plus_haut(finis(v))))
    }
}

/// Les strikes extrêmes que le vif surveille.
pub fn bande_couverte(vif: &[Flottant]) -> (r: Option<(Flottant, Flottant)>)
    ensures
        r == bande_de(vif@),
{
    let mut bas: Flottant = Flottant { bits: PLUS_L_INFINI };
    let mut haut: Flottant = Flottant { bits: MOINS_L_INFINI };
    let mut vide: bool = true;
    let mut i: usize = 0;
    while i < vif.len()
        invariant
            i <= vif@.len(),
            bas == plus_bas(finis(vif@.take(i as int))),
            haut == plus_haut(finis(vif@.take(i as int))),
            vide == (finis(vif@.take(i as int)).len() == 0),
        decreases vif@.len() - i,
    {
        let x: Flottant = vif[i];
        let ghost avant = finis(vif@.take(i as int));
        proof {
            assert(vif@.take(i + 1).drop_last() =~= vif@.take(i as int));
            assert(vif@.take(i + 1).last() == x);
            assert(avant.push(x).drop_last() =~= avant);
        }
        if x.est_fini() {
            bas = bas.min(x);
            haut = haut.max(x);
            vide = false;
        }
        i += 1;
    }
    assert(vif@.take(i as int) =~= vif@);
    if vide {
        None
    } else {
        Some((bas, haut))
    }
}

/// La bande encadre tout ce qui est fini, et rien d'autre : ses deux bouts sont des
/// strikes surveillés, et aucun n'en sort.
pub proof fn la_bande_encadre_le_vif(v: Seq<Flottant>)
    requires
        bande_de(v) is Some,
    ensures
        v.contains((bande_de(v)->0).0),
        v.contains((bande_de(v)->0).1),
        forall|i: int|
            0 <= i < v.len() && (#[trigger] v[i]).fini() ==> (bande_de(v)->0).0.inferieur_ou_egal(
                v[i],
            ) && v[i].inferieur_ou_egal((bande_de(v)->0).1),
{
    lemme_finis(v);
    lemme_extremes(finis(v));
    let (bas, haut) = bande_de(v)->0;
    assert(finis(v).contains(bas) && finis(v).contains(haut));
    assert(v.contains(bas) && v.contains(haut));
    assert forall|i: int| 0 <= i < v.len() && (#[trigger] v[i]).fini() implies bas.inferieur_ou_egal(
        v[i],
    ) && v[i].inferieur_ou_egal(haut) by {
        assert(finis(v).contains(v[i]));
        let k = choose|k: int| 0 <= k < finis(v).len() && finis(v)[k] == v[i];
        assert(bas.inferieur_ou_egal(finis(v)[k]));
    }
}

proof fn lemme_finis(v: Seq<Flottant>)
    ensures
        forall|x: Flottant| #[trigger] finis(v).contains(x) <==> v.contains(x) && x.fini(),
    decreases v.len(),
{
    if v.len() > 0 {
        let t = v.drop_last();
        lemme_finis(t);
        assert(v =~= t.push(v.last()));
        assert forall|x: Flottant| #[trigger] finis(v).contains(x) <==> v.contains(x)
            && x.fini() by {
            crate::tri::lemme_push_contient(t, v.last(), x);
            crate::tri::lemme_push_contient(finis(t), v.last(), x);
            assert(finis(t).contains(x) <==> t.contains(x) && x.fini());
        }
    }
}

proof fn lemme_extremes(v: Seq<Flottant>)
    requires
        forall|x: Flottant| #[trigger] v.contains(x) ==> x.fini(),
    ensures
        v.len() > 0 ==> v.contains(plus_bas(v)) && v.contains(plus_haut(v)),
        forall|i: int|
            0 <= i < v.len() ==> plus_bas(v).inferieur_ou_egal(#[trigger] v[i])
                && v[i].inferieur_ou_egal(plus_haut(v)),
        !plus_bas(v).nan() && !plus_haut(v).nan(),
        plus_bas(v).bits == PLUS_L_INFINI || v.len() > 0,
        plus_haut(v).bits == MOINS_L_INFINI || v.len() > 0,
    decreases v.len(),
{
    if v.len() > 0 {
        let t = v.drop_last();
        let x = v.last();
        assert(v[v.len() - 1] == x);
        assert(v.contains(x));
        assert forall|y: Flottant| #[trigger] t.contains(y) implies y.fini() by {
            let k = choose|k: int| 0 <= k < t.len() && t[k] == y;
            assert(v[k] == y);
            assert(v.contains(y));
        }
        lemme_extremes(t);
        if t.len() > 0 {
            let i = choose|i: int| 0 <= i < t.len() && t[i] == plus_bas(t);
            let j = choose|j: int| 0 <= j < t.len() && t[j] == plus_haut(t);
            assert(v[i] == plus_bas(t) && v[j] == plus_haut(t));
        }
        assert forall|i: int| 0 <= i < v.len() implies plus_bas(v).inferieur_ou_egal(
            #[trigger] v[i],
        ) && v[i].inferieur_ou_egal(plus_haut(v)) by {
            if i < t.len() {
                assert(t[i] == v[i]);
                assert(v.contains(v[i]));
            }
        }
    }
}

/// Le spot est-il à moins de `marge` de la largeur du bord de la bande ?
pub open spec fn reselection_due(
    spot: Flottant,
    bande: Option<(Flottant, Flottant)>,
    marge: Flottant,
) -> bool {
    match bande {
        None => true,
        Some((bas, haut)) => {
            let largeur = haut.moins(bas);
            let garde = largeur.fois(marge);
            largeur.inferieur_ou_egal(Flottant::nul()) || !(bas.plus(garde).inferieur_ou_egal(spot)
                && spot.inferieur_ou_egal(haut.moins(garde)))
        },
    }
}

/// Le spot approche-t-il du bord de ce que le vif surveille ?
///
/// On recycle quand le spot approche du bord, pas quand il en sort : attendre la sortie
/// franche reviendrait à attendre d'être aveugle.
pub fn faut_il_reselectionner(
    spot: Flottant,
    bande: Option<(Flottant, Flottant)>,
    marge: Flottant,
) -> (b: bool)
    ensures
        b == reselection_due(spot, bande, marge),
{
    match bande {
        None => true,
        Some((bas, haut)) => {
            let largeur: Flottant = haut.moins(bas);
            if largeur.infeg(Flottant::nul()) {
                return true;
            }
            let garde: Flottant = largeur.fois(marge);
            !(bas.plus(garde).infeg(spot) && spot.infeg(haut.moins(garde)))
        },
    }
}

/// L'attente, en secondes : cinq, doublée à chaque tentative, trois cents au plus.
pub open spec fn attente_de(tentative: nat) -> nat
    decreases tentative,
{
    if tentative == 0 {
        5
    } else if 2 * attente_de((tentative - 1) as nat) >= 300 {
        300
    } else {
        2 * attente_de((tentative - 1) as nat)
    }
}

/// L'attente ne raccourcit jamais d'une tentative à l'autre, et ne passe jamais cinq
/// minutes.
pub proof fn l_attente_croit_et_plafonne(a: nat, b: nat)
    requires
        a <= b,
    ensures
        5 <= attente_de(a) <= attente_de(b) <= 300,
    decreases b,
{
    if b > 0 {
        if a == b {
            l_attente_croit_et_plafonne((a - 1) as nat, (b - 1) as nat);
        } else {
            l_attente_croit_et_plafonne(a, (b - 1) as nat);
        }
    }
}

/// Combien attendre avant de retenter une connexion, à la n-ième tentative, en secondes.
///
/// Le redémarrage quotidien dure une poignée de secondes, la coupure hebdomadaire attend
/// un humain : on retente vite d'abord, puis on patiente.
pub fn attente_avant_reprise(tentative: u32) -> (secondes: u64)
    ensures
        secondes == attente_de(tentative as nat),
{
    let mut secondes: u64 = 5;
    let mut i: u32 = 0;
    while i < tentative && secondes < 300
        invariant
            i <= tentative,
            5 <= secondes <= 300,
            secondes == attente_de(i as nat),
        decreases tentative - i,
    {
        i += 1;
        secondes = if 2 * secondes >= 300 {
            300
        } else {
            2 * secondes
        };
    }
    proof {
        l_attente_croit_et_plafonne(i as nat, tentative as nat);
    }
    secondes
}

/// Le socle survit-il à une reconnexion ? L'open interest qu'il porte ne bougera pas avant
/// la publication du soir.
pub fn socle_reutilisable(date_socle: Option<Instant>, maintenant: Instant) -> (b: bool)
    requires
        datable(maintenant),
        date_socle matches Some(i) ==> datable(i),
    ensures
        b == !rebalayage_du(date_socle, maintenant),
{
    !faut_il_rebalayer(date_socle, maintenant)
}

/// Un socle se rebalaie au plus une fois par journée de compensation : une fois pris, il
/// ne se rebalaie pas avant que la journée change.
pub proof fn un_socle_vaut_pour_sa_journee(socle: Instant, maintenant: Instant)
    ensures
        rebalayage_du(Some(socle), maintenant) <==> journee_de(socle) < journee_de(maintenant),
        !rebalayage_du(Some(socle), socle),
{
}

/// Les horizons courts dont la trace est gardée en plus de celui de la collecte.
pub const HORIZONS_COURTS: [i64; 3] = [0, 1, 7];

/// Les `n` premiers horizons courts plus brefs que celui de la collecte.
pub open spec fn courts_sous(dte_max: int, n: nat) -> Seq<i64>
    decreases n,
{
    if n == 0 {
        Seq::empty()
    } else if HORIZONS_COURTS[n - 1] < dte_max {
        courts_sous(dte_max, (n - 1) as nat).push(HORIZONS_COURTS[n - 1])
    } else {
        courts_sous(dte_max, (n - 1) as nat)
    }
}

/// Les horizons suivis : les courts, puis celui de la collecte.
///
/// Le plus long vient en dernier, et aucun ne s'y trouve deux fois.
pub fn horizons_suivis(dte_max: i64) -> (v: Vec<i64>)
    ensures
        v@ == courts_sous(dte_max as int, 3).push(dte_max),
        forall|i: int, j: int| 0 <= i < j < v@.len() ==> v@[i] < v@[j],
{
    let mut v: Vec<i64> = Vec::new();
    let mut i: usize = 0;
    while i < 3
        invariant
            i <= 3,
            v@ == courts_sous(dte_max as int, i as nat),
            forall|k: int| 0 <= k < v@.len() ==> #[trigger] v@[k] < dte_max,
            forall|k: int|
                0 <= k < v@.len() ==> i > 0 && #[trigger] v@[k] <= HORIZONS_COURTS[i - 1],
            forall|k: int, l: int| 0 <= k < l < v@.len() ==> v@[k] < v@[l],
        decreases 3 - i,
    {
        let h: i64 = HORIZONS_COURTS[i];
        if h < dte_max {
            v.push(h);
        }
        i += 1;
    }
    v.push(dte_max);
    v
}

} // verus!
