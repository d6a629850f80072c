//! Ce qui ne se lit que sur la plus proche échéance : le max pain, la monnaie, le skew.

#[allow(unused_imports)]
use super::analyse::{
    attendu_de, de_l_echeance, echeance_cible, iv_atm_de, ligne_a_la_monnaie, lignes_vives,
    max_pain_de, mesures, moindre_valeur, monnaie_proche, part_de, points_skew, proches,
    skew_proche, skew_de, total, troisieme_vendredi, valeur_au_reglement, vol_moyenne, vols_publiees,
    LigneExposee,
};
#[allow(unused_imports)]
use super::black76::Sens;
use super::chaine::Ligne;
use super::temps::{EcheanceNy, InstantReleve};
#[allow(unused_imports)]
use super::temps::utc_ny;
use crate::flottant::Flottant;
#[allow(unused_imports)]
use crate::flottant::{lemme_quotient_par_soi, rapport, un_entier_est_exact};
#[allow(unused_imports)]
use crate::ordre::{lemme_oppose, lemme_racine_exacte, lemme_somme_zero};
use vstd::prelude::*;

verus! {

/// Aucune ligne n'a d'échéance plus proche que celle-ci, et une ligne au moins l'a.
pub open spec fn est_la_plus_proche(s: Seq<LigneExposee>, e: EcheanceNy) -> bool {
    &&& exists|i: int| 0 <= i < s.len() && (#[trigger] s[i]).ligne.echeance == e
    &&& forall|i: int|
        0 <= i < s.len() ==> e.0.micros <= (#[trigger] s[i]).ligne.echeance.0.micros
}

/// Les lignes d'une échéance.
pub open spec fn a_l_echeance(e: EcheanceNy) -> spec_fn(LigneExposee) -> bool {
    |l: LigneExposee| l.ligne.echeance == e
}

/// L'échéance visée est la plus proche de toutes, ou la plus proche des troisièmes vendredis ;
/// il n'y en a pas seulement quand aucune ligne n'en a.
pub proof fn l_echeance_visee_est_la_plus_proche(s: Seq<LigneExposee>, mensuelle: bool)
    ensures
        echeance_cible(s, mensuelle) matches Some(e) ==> {
            &&& exists|i: int| 0 <= i < s.len() && (#[trigger] s[i]).ligne.echeance == e
            &&& mensuelle ==> troisieme_vendredi(e)
            &&& forall|i: int|
                0 <= i < s.len() && (!mensuelle || troisieme_vendredi(
                    (#[trigger] s[i]).ligne.echeance,
                )) ==> e.0.micros <= s[i].ligne.echeance.0.micros
        },
        echeance_cible(s, mensuelle) is None ==> forall|i: int|
            0 <= i < s.len() ==> mensuelle && !troisieme_vendredi(
                (#[trigger] s[i]).ligne.echeance,
            ),
    decreases s.len(),
{
    if s.len() > 0 {
        let t = s.drop_last();
        l_echeance_visee_est_la_plus_proche(t, mensuelle);
        let n = s.len() - 1;
        assert(s[n] == s.last());
        assert forall|i: int| 0 <= i < n implies #[trigger] s[i] == t[i] by {}
        match echeance_cible(t, mensuelle) {
            Some(m) => {
                let k = choose|k: int|
                    0 <= k < t.len() && (#[trigger] t[k]).ligne.echeance == m;
                assert(s[k].ligne.echeance == m);
            },
            None => {},
        }
        if let Some(e) = echeance_cible(s, mensuelle) {
            if e == s.last().ligne.echeance {
                assert(s[n].ligne.echeance == e);
            }
        }
    }
}

pub(crate) proof fn lemme_cible(s: Seq<LigneExposee>, e: EcheanceNy)
    requires
        est_la_plus_proche(s, e),
    ensures
        echeance_cible(s, false) == Some(e),
{
    l_echeance_visee_est_la_plus_proche(s, false);
    let i = choose|i: int| 0 <= i < s.len() && (#[trigger] s[i]).ligne.echeance == e;
    let f = echeance_cible(s, false)->Some_0;
    assert(f.0.micros <= s[i].ligne.echeance.0.micros);
    let k = choose|k: int| 0 <= k < s.len() && (#[trigger] s[k]).ligne.echeance == f;
    assert(e.0.micros <= s[k].ligne.echeance.0.micros);
    assert(e.0 == f.0);
}

/// Extraire une échéance garde ses lignes dans leur ordre, et elles seules ; extraire les autres
/// garde toutes les autres.
pub proof fn extraire_partage_les_lignes(s: Seq<LigneExposee>, e: EcheanceNy)
    ensures
        de_l_echeance(s, e, true) == s.filter(a_l_echeance(e)),
        de_l_echeance(s, e, false) == s.filter(|l: LigneExposee| l.ligne.echeance != e),
    decreases s.len(),
{
    reveal(Seq::filter);
    if s.len() > 0 {
        extraire_partage_les_lignes(s.drop_last(), e);
    }
}

/// Ce que les contrats d'une ligne vaudraient si le sous-jacent réglait à `k` : chaque call ce
/// dont `k` passe le strike, chaque put ce dont le strike passe `k`.
pub open spec fn du_au_reglement(l: Ligne, k: Flottant) -> Flottant {
    let z = Flottant::nul();
    k.moins(l.strike).max(z).fois(l.call.open_interest).plus(
        l.strike.moins(k).max(z).fois(l.put.open_interest),
    )
}

/// Ce que tous les contrats de ces lignes vaudraient.
pub open spec fn tout_du_au_reglement(s: Seq<LigneExposee>, k: Flottant) -> Flottant
    decreases s.len(),
{
    if s.len() == 0 {
        Flottant::nul().neg()
    } else {
        tout_du_au_reglement(s.drop_last(), k).plus(du_au_reglement(s.last().ligne, k))
    }
}

proof fn lemme_valeur(s: Seq<LigneExposee>, k: Flottant)
    ensures
        valeur_au_reglement(s, k) == tout_du_au_reglement(s, k),
    decreases s.len(),
{
    let m = |l: LigneExposee|
        Sens::Call.valeur_intrinseque(k, l.ligne.strike).fois(l.ligne.call.open_interest).plus(
            Sens::Put.valeur_intrinseque(k, l.ligne.strike).fois(l.ligne.put.open_interest),
        );
    assert(valeur_au_reglement(s, k) == total(mesures(s, m)));
    if s.len() > 0 {
        let t = s.drop_last();
        lemme_valeur(t, k);
        assert(mesures(s, m).drop_last() =~= mesures(t, m));
        assert(mesures(s, m).last() == m(s.last()));
    }
}

proof fn lemme_moindre(s: Seq<LigneExposee>, n: nat)
    requires
        n <= s.len(),
        forall|i: int|
            0 <= i < s.len() ==> !valeur_au_reglement(s, (#[trigger] s[i]).ligne.strike).nan(),
    ensures
        moindre_valeur(s, n) is None <==> n == 0,
        moindre_valeur(s, n) matches Some(k) ==> exists|i: int|
            {
                &&& 0 <= i < n
                &&& (#[trigger] s[i]).ligne.strike == k
                &&& forall|j: int|
                    0 <= j < n ==> valeur_au_reglement(s, k).inferieur_ou_egal(
                        valeur_au_reglement(s, (#[trigger] s[j]).ligne.strike),
                    )
                &&& forall|j: int|
                    0 <= j < i ==> valeur_au_reglement(s, k).inferieur(
                        valeur_au_reglement(s, (#[trigger] s[j]).ligne.strike),
                    )
            },
    decreases n,
{
    if n > 0 {
        lemme_moindre(s, (n - 1) as nat);
        let k = s[n - 1].ligne.strike;
        assert(!valeur_au_reglement(s, s[n - 1].ligne.strike).nan());
        if let Some(m) = moindre_valeur(s, (n - 1) as nat) {
            let i = choose|i: int|
                {
                    &&& 0 <= i < n - 1
                    &&& (#[trigger] s[i]).ligne.strike == m
                    &&& forall|j: int|
                        0 <= j < n - 1 ==> valeur_au_reglement(s, m).inferieur_ou_egal(
                            valeur_au_reglement(s, (#[trigger] s[j]).ligne.strike),
                        )
                    &&& forall|j: int|
                        0 <= j < i ==> valeur_au_reglement(s, m).inferieur(
                            valeur_au_reglement(s, (#[trigger] s[j]).ligne.strike),
                        )
                };
            assert(!valeur_au_reglement(s, s[i].ligne.strike).nan());
            if valeur_au_reglement(s, k).inferieur(valeur_au_reglement(s, m)) {
                assert(s[n - 1].ligne.strike == k);
            } else {
                assert(s[i].ligne.strike == m);
            }
        } else {
            assert(s[n - 1].ligne.strike == k);
        }
    }
}

/// Le max pain est un strike de la plus proche échéance, où l'ensemble de ses contrats vaudrait
/// le moins au règlement, le premier à égalité.
pub proof fn le_max_pain_est_le_strike_de_moindre_valeur(s: Seq<LigneExposee>, e: EcheanceNy)
    requires
        est_la_plus_proche(s, e),
        ({
            let t = s.filter(a_l_echeance(e));
            forall|i: int|
                0 <= i < t.len() ==> !tout_du_au_reglement(
                    t,
                    (#[trigger] t[i]).ligne.strike,
                ).nan()
        }),
    ensures
        ({
            let t = s.filter(a_l_echeance(e));
            &&& max_pain_de(s) is Some
            &&& exists|i: int|
                {
                    let k = max_pain_de(s)->Some_0;
                    &&& 0 <= i < t.len()
                    &&& (#[trigger] t[i]).ligne.strike == k
                    &&& forall|j: int|
                        0 <= j < t.len() ==> tout_du_au_reglement(t, k).inferieur_ou_egal(
                            tout_du_au_reglement(t, (#[trigger] t[j]).ligne.strike),
                        )
                    &&& forall|j: int|
                        0 <= j < i ==> tout_du_au_reglement(t, k).inferieur(
                            tout_du_au_reglement(t, (#[trigger] t[j]).ligne.strike),
                        )
                }
        }),
{
    let t = s.filter(a_l_echeance(e));
    lemme_cible(s, e);
    extraire_partage_les_lignes(s, e);
    let i = choose|i: int| 0 <= i < s.len() && (#[trigger] s[i]).ligne.echeance == e;
    lemme_filtre_contient(s, a_l_echeance(e), i);
    assert forall|i: int| 0 <= i < t.len() implies !valeur_au_reglement(
        t,
        (#[trigger] t[i]).ligne.strike,
    ).nan() by {
        lemme_valeur(t, t[i].ligne.strike);
    }
    lemme_moindre(t, t.len());
    let k = max_pain_de(s)->Some_0;
    lemme_valeur(t, k);
    let i = choose|i: int|
        {
            &&& 0 <= i < t.len()
            &&& (#[trigger] t[i]).ligne.strike == k
            &&& forall|j: int|
                0 <= j < t.len() ==> valeur_au_reglement(t, k).inferieur_ou_egal(
                    valeur_au_reglement(t, (#[trigger] t[j]).ligne.strike),
                )
            &&& forall|j: int|
                0 <= j < i ==> valeur_au_reglement(t, k).inferieur(
                    valeur_au_reglement(t, (#[trigger] t[j]).ligne.strike),
                )
        };
    assert forall|j: int| 0 <= j < t.len() implies tout_du_au_reglement(t, k).inferieur_ou_egal(
        tout_du_au_reglement(t, (#[trigger] t[j]).ligne.strike),
    ) by {
        lemme_valeur(t, t[j].ligne.strike);
    }
    assert forall|j: int| 0 <= j < i implies tout_du_au_reglement(t, k).inferieur(
        tout_du_au_reglement(t, (#[trigger] t[j]).ligne.strike),
    ) by {
        lemme_valeur(t, t[j].ligne.strike);
    }
    assert(t[i].ligne.strike == k);
}

proof fn lemme_filtre_contient(s: Seq<LigneExposee>, p: spec_fn(LigneExposee) -> bool, i: int)
    requires
        0 <= i < s.len(),
        p(s[i]),
    ensures
        s.filter(p).len() > 0,
        s.filter(p).contains(s[i]),
    decreases s.len(),
{
    reveal(Seq::filter);
    let t = s.drop_last();
    if i < t.len() {
        lemme_filtre_contient(t, p, i);
        let f = t.filter(p);
        let k = choose|k: int| 0 <= k < f.len() && f[k] == t[i];
        assert(s.filter(p)[k] == s[i]);
    } else {
        assert(s.filter(p).last() == s[i]);
    }
}

/// Le max pain, la volatilité à la monnaie, le mouvement attendu et le skew ne dépendent que des
/// lignes de la plus proche échéance : ajouter, retirer ou changer des lignes d'une autre ne les
/// déplace pas.
pub proof fn seule_la_plus_proche_echeance_compte(
    ln: spec_fn(Flottant) -> Flottant,
    s: Seq<LigneExposee>,
    r: Seq<LigneExposee>,
    e: EcheanceNy,
    spot: Flottant,
)
    requires
        est_la_plus_proche(s, e),
        est_la_plus_proche(r, e),
        s.filter(a_l_echeance(e)) == r.filter(a_l_echeance(e)),
    ensures
        max_pain_de(s) == max_pain_de(r),
        iv_atm_de(s, spot) == iv_atm_de(r, spot),
        attendu_de(s, spot) == attendu_de(r, spot),
        skew_proche(ln, s, spot) == skew_proche(ln, r, spot),
{
    lemme_cible(s, e);
    lemme_cible(r, e);
    extraire_partage_les_lignes(s, e);
    extraire_partage_les_lignes(r, e);
    lemme_points(ln, s, e, spot);
    lemme_points(ln, r, e, spot);
}

proof fn lemme_points(
    ln: spec_fn(Flottant) -> Flottant,
    s: Seq<LigneExposee>,
    e: EcheanceNy,
    spot: Flottant,
)
    ensures
        points_skew(ln, s, e, spot) == points_skew(ln, s.filter(a_l_echeance(e)), e, spot),
    decreases s.len(),
{
    reveal(Seq::filter);
    if s.len() > 0 {
        let t = s.drop_last();
        lemme_points(ln, t, e, spot);
        if s.last().ligne.echeance == e {
            let f = t.filter(a_l_echeance(e));
            assert(f.push(s.last()).drop_last() =~= f);
            assert(f.push(s.last()).last() == s.last());
        }
    }
}

/// Le skew d'une échéance ne dépend que de ses lignes.
pub proof fn le_skew_ne_regarde_que_son_echeance(
    ln: spec_fn(Flottant) -> Flottant,
    s: Seq<LigneExposee>,
    r: Seq<LigneExposee>,
    e: EcheanceNy,
    spot: Flottant,
)
    requires
        s.filter(a_l_echeance(e)) == r.filter(a_l_echeance(e)),
    ensures
        skew_de(ln, s, e, spot) == skew_de(ln, r, e, spot),
{
    lemme_points(ln, s, e, spot);
    lemme_points(ln, r, e, spot);
}

/// Une ligne publie une volatilité quand son call ou son put en a une strictement positive ;
/// celle de la ligne est la seule publiée, ou la demi-somme des deux.
pub proof fn la_volatilite_d_une_ligne_est_celle_qu_elle_publie(l: Ligne)
    ensures
        vol_moyenne(l) is None <==> !l.call.iv.positif() && !l.put.iv.positif(),
        l.call.iv.positif() && l.call.iv.fini() && !l.put.iv.positif() ==> vol_moyenne(l) == Some(
            l.call.iv,
        ),
        l.put.iv.positif() && l.put.iv.fini() && !l.call.iv.positif() ==> vol_moyenne(l) == Some(
            l.put.iv,
        ),
        l.call.iv.positif() && l.put.iv.positif() && l.call.iv.fini() && l.put.iv.fini()
            ==> vol_moyenne(l) == Some(l.call.iv.plus(l.put.iv).par(Flottant::entier(2))),
{
    let v = vols_publiees(l);
    let z = Flottant::nul().neg();
    if v.len() > 0 {
        let x = v[0];
        assert(x.positif());
        assert(v.take(1) =~= seq![x]);
        assert(total(seq![x]) == total(seq![x].drop_last()).plus(x));
        assert(seq![x].drop_last() =~= Seq::<Flottant>::empty());
        if x.fini() {
            lemme_somme_zero(x, z);
            assert(z.plus(x) == x);
            if v.len() == 1 {
                assert(v =~= seq![x]);
                lemme_par_un(x);
            } else {
                assert(v.drop_last() =~= seq![x]);
                assert(v.last() == v[1]);
            }
        }
    }
}

proof fn lemme_par_un(x: Flottant)
    requires
        x.fini(),
        x.positif(),
    ensures
        x.par(rapport(1, 1)) == x,
{
    un_entier_est_exact(1);
    reveal(Flottant::quotient);
    let u = vstd::arithmetic::power2::pow2(1074);
    vstd::arithmetic::power2::lemma_pow2_pos(1074);
    assert(1 * u == u);
    crate::flottant::lemme_magnitude_nulle(rapport(1, 1));
    crate::court::un_nombre_fini_est_son_arrondi(x, u);
}

/// La ligne à la monnaie est de la plus proche échéance, publie une volatilité, et aucune autre
/// qui en publie une n'est strictement plus près du spot ; il n'y en a pas seulement quand
/// aucune n'en publie.
pub proof fn la_ligne_a_la_monnaie_est_la_plus_pres_du_spot(
    s: Seq<LigneExposee>,
    e: EcheanceNy,
    spot: Flottant,
)
    requires
        est_la_plus_proche(s, e),
        forall|i: int|
            0 <= i < s.len() ==> !(#[trigger] s[i]).ligne.strike.moins(spot).nan(),
    ensures
        ({
            let t = s.filter(a_l_echeance(e));
            match monnaie_proche(s, spot) {
                Some(l) => {
                    &&& t.contains(l)
                    &&& l.ligne.call.iv.positif() || l.ligne.put.iv.positif()
                    &&& forall|i: int|
                        #![trigger t[i]]
                        0 <= i < t.len() && (t[i].ligne.call.iv.positif()
                            || t[i].ligne.put.iv.positif()) ==> l.ligne.strike.moins(
                            spot,
                        ).abs().inferieur_ou_egal(t[i].ligne.strike.moins(spot).abs())
                },
                None => forall|i: int|
                    #![trigger t[i]]
                    0 <= i < t.len() ==> !t[i].ligne.call.iv.positif()
                        && !t[i].ligne.put.iv.positif(),
            }
        }),
{
    lemme_cible(s, e);
    extraire_partage_les_lignes(s, e);
    let t = s.filter(a_l_echeance(e));
    assert forall|i: int| 0 <= i < t.len() implies !(#[trigger] t[i]).ligne.strike.moins(
        spot,
    ).nan() by {
        assert(t.contains(t[i]));
        s.lemma_filter_contains_rev(a_l_echeance(e), t[i]);
        let k = choose|k: int| 0 <= k < s.len() && s[k] == t[i];
        assert(!s[k].ligne.strike.moins(spot).nan());
    }
    lemme_monnaie(t, spot);
}

proof fn lemme_monnaie(t: Seq<LigneExposee>, spot: Flottant)
    requires
        forall|i: int|
            0 <= i < t.len() ==> !(#[trigger] t[i]).ligne.strike.moins(spot).nan(),
    ensures
        match ligne_a_la_monnaie(t, spot) {
            Some(l) => {
                &&& t.contains(l)
                &&& !l.ligne.strike.moins(spot).nan()
                &&& l.ligne.call.iv.positif() || l.ligne.put.iv.positif()
                &&& forall|i: int|
                    #![trigger t[i]]
                    0 <= i < t.len() && (t[i].ligne.call.iv.positif()
                        || t[i].ligne.put.iv.positif()) ==> l.ligne.strike.moins(
                        spot,
                    ).abs().inferieur_ou_egal(t[i].ligne.strike.moins(spot).abs())
            },
            None => forall|i: int|
                #![trigger t[i]]
                0 <= i < t.len() ==> !t[i].ligne.call.iv.positif()
                    && !t[i].ligne.put.iv.positif(),
        },
    decreases t.len(),
{
    if t.len() > 0 {
        let u = t.drop_last();
        let n = t.len() - 1;
        assert forall|i: int| 0 <= i < u.len() implies !(#[trigger] u[i]).ligne.strike.moins(
            spot,
        ).nan() by {
            assert(t[i] == u[i]);
        }
        lemme_monnaie(u, spot);
        let l = t.last();
        assert(t[n] == l);
        assert(!t[n].ligne.strike.moins(spot).nan());
        lemme_oppose(l.ligne.strike.moins(spot));
        la_volatilite_d_une_ligne_est_celle_qu_elle_publie(l.ligne);
        assert forall|i: int| 0 <= i < n implies #[trigger] t[i] == u[i] by {}
        match ligne_a_la_monnaie(u, spot) {
            Some(m) => {
                let k = choose|k: int| 0 <= k < u.len() && u[k] == m;
                assert(t[k] == m);
                lemme_oppose(m.ligne.strike.moins(spot));
            },
            None => {},
        }
    }
}

/// La volatilité à la monnaie est celle de la ligne à la monnaie, et le mouvement attendu est le
/// prix par cette volatilité par la racine du temps : sur `k` fois `k` années, `k` fois celui
/// d'une année.
pub proof fn le_mouvement_attendu_croit_comme_la_racine_du_temps(
    s: Seq<LigneExposee>,
    spot: Flottant,
    k: nat,
)
    requires
        0 < k,
        k * k < 0x20_0000_0000_0000,
        monnaie_proche(s, spot) matches Some(l) && l.t == rapport((k * k) as int, 1)
            && vol_moyenne(l.ligne) is Some,
    ensures
        ({
            let v = vol_moyenne(monnaie_proche(s, spot)->Some_0.ligne)->Some_0;
            &&& iv_atm_de(s, spot) == Some(v)
            &&& attendu_de(s, spot) == Some(spot.fois(v).fois(rapport(k as int, 1)))
        }),
{
    lemme_racine_exacte(k);
}

/// Il n'y a de mouvement attendu que s'il y a une volatilité à la monnaie.
pub proof fn sans_volatilite_rien_n_est_attendu(s: Seq<LigneExposee>, spot: Flottant)
    ensures
        attendu_de(s, spot) is Some <==> iv_atm_de(s, spot) is Some,
{
}

/// Les échéances proches sont celles à `seuil` jours ou moins, et elles seules.
pub proof fn les_proches_sont_sous_le_seuil(s: Seq<LigneExposee>, seuil: int)
    ensures
        proches(s, seuil) == s.filter(|l: LigneExposee| l.dte <= seuil),
    decreases s.len(),
{
    reveal(Seq::filter);
    if s.len() > 0 {
        les_proches_sont_sous_le_seuil(s.drop_last(), seuil);
    }
}

/// Le tout fait une part de un, son opposé aussi, et rien une part de zéro ; un total nul n'a
/// pas de parts.
pub proof fn le_tout_fait_une_part_de_un(x: Flottant, z: Flottant)
    requires
        x.fini(),
        x.rang() != 0,
        z.rang() == 0,
    ensures
        part_de(x, x) == Some(rapport(1, 1)),
        part_de(x.neg(), x) == Some(rapport(1, 1)),
        part_de(z, x) matches Some(p) && p.rang() == 0,
        part_de(x, z) is None,
{
    lemme_oppose(x);
    lemme_oppose(x.neg());
    lemme_oppose(z);
    assert(x.neg().abs() == x.abs());
    assert(x.abs().positif());
    lemme_quotient_par_soi(x.abs());
    assert(!z.abs().par(x.abs()).nan()) by {
        reveal(Flottant::quotient);
        crate::flottant::lemme_magnitude_nulle(x.abs());
        crate::erreur::lemme_arrondi_encadre(
            z.abs().negatif() != x.abs().negatif(),
            z.abs().magnitude() * vstd::arithmetic::power2::pow2(1074),
            x.abs().magnitude(),
        );
    }
    crate::ordre::lemme_zero_absorbe(z.abs(), x.abs());
}

/// Les lignes vives sont celles dont le règlement est après le relevé, et dont le jour n'est ni
/// avant le plancher, ni avant le relevé, ni au-delà de l'horizon ; dans leur ordre, et sans
/// qu'il en manque.
pub proof fn une_ligne_vive_n_est_pas_reglee(
    s: Seq<Ligne>,
    releve: InstantReleve,
    dte_max: Option<i64>,
    dte_min: i64,
)
    ensures
        lignes_vives(s, releve, dte_max, dte_min) == s.filter(
            |l: Ligne|
                {
                    let jours = l.echeance.0.jour_compte() - releve.0.jour_compte();
                    &&& utc_ny(l.echeance.0.micros as int) > releve.0.micros
                    &&& jours >= 0
                    &&& jours >= dte_min
                    &&& dte_max is None || jours <= dte_max->Some_0
                },
        ),
    decreases s.len(),
{
    reveal(Seq::filter);
    if s.len() > 0 {
        une_ligne_vive_n_est_pas_reglee(s.drop_last(), releve, dte_max, dte_min);
    }
}

} // verus!
