//! Ce que la table par strike, les murs et les strikes majeurs disent des lignes.

#[allow(unused_imports)]
use super::analyse::{
    agregat_majeur, agregats, plus_fort, strike_avant, strike_majeur, strikes_definis,
    AgregatStrike, LigneExposee, Mur,
};
use crate::flottant::Flottant;
#[allow(unused_imports)]
use crate::ordre::lemme_oppose;
#[allow(unused_imports)]
use crate::tri::{
    le_tri_est_stable, le_tri_garde_les_elements, le_tri_range_sans_rien_perdre, ordre_faible,
    triee,
};
use vstd::prelude::*;

verus! {

/// Ce qu'une mesure vaut sur des lignes, cumulé de la première à la dernière.
pub open spec fn cumul(s: Seq<LigneExposee>, m: spec_fn(LigneExposee) -> Flottant) -> Flottant
    decreases s.len(),
{
    if s.len() <= 1 {
        m(s[0])
    } else {
        cumul(s.drop_last(), m).plus(m(s.last()))
    }
}

/// Les lignes d'un strike.
pub open spec fn au_strike(k: Flottant) -> spec_fn(LigneExposee) -> bool {
    |l: LigneExposee| l.ligne.strike.de_meme_valeur(k)
}

/// Chaque colonne d'un agrégat cumule la même quantité sur les mêmes lignes.
pub open spec fn cumule_les_lignes(a: AgregatStrike, s: Seq<LigneExposee>) -> bool {
    &&& s.len() > 0
    &&& a.strike == s[0].ligne.strike
    &&& a.call_gex == cumul(s, |l: LigneExposee| l.call_gex)
    &&& a.put_gex == cumul(s, |l: LigneExposee| l.put_gex)
    &&& a.gex == cumul(s, |l: LigneExposee| l.gex)
    &&& a.call_oi == cumul(s, |l: LigneExposee| l.ligne.call.open_interest)
    &&& a.put_oi == cumul(s, |l: LigneExposee| l.ligne.put.open_interest)
    &&& a.call_vol == cumul(s, |l: LigneExposee| l.ligne.call.volume)
    &&& a.put_vol == cumul(s, |l: LigneExposee| l.ligne.put.volume)
}

proof fn lemme_cumul_suivant(
    s: Seq<LigneExposee>,
    l: LigneExposee,
    m: spec_fn(LigneExposee) -> Flottant,
)
    requires
        s.len() > 0,
    ensures
        cumul(s.push(l), m) == cumul(s, m).plus(m(l)),
{
    assert(s.push(l).drop_last() =~= s);
}

proof fn lemme_filtre_suivant(
    s: Seq<LigneExposee>,
    l: LigneExposee,
    p: spec_fn(LigneExposee) -> bool,
)
    ensures
        s.push(l).filter(p) == if p(l) {
            s.filter(p).push(l)
        } else {
            s.filter(p)
        },
{
    reveal(Seq::filter);
    assert(s.push(l).drop_last() =~= s);
    assert(s.push(l).last() == l);
}

proof fn lemme_filtre_vide(s: Seq<LigneExposee>, p: spec_fn(LigneExposee) -> bool)
    requires
        forall|i: int| 0 <= i < s.len() ==> !p(#[trigger] s[i]),
    ensures
        s.filter(p) == Seq::<LigneExposee>::empty(),
    decreases s.len(),
{
    reveal(Seq::filter);
    if s.len() > 0 {
        let t = s.drop_last();
        assert forall|i: int| 0 <= i < t.len() implies !p(#[trigger] t[i]) by {
            assert(!p(s[i]));
        }
        lemme_filtre_vide(t, p);
        assert(!p(s[s.len() - 1]));
    }
}

/// La table de lignes déjà rangées par strike.
proof fn lemme_agregats(s: Seq<LigneExposee>)
    requires
        strikes_definis(s),
        forall|i: int, j: int|
            0 <= i < j < s.len() ==> (#[trigger] s[i]).ligne.strike.clef() <= (
            #[trigger] s[j]).ligne.strike.clef(),
    ensures
        ({
            let r = agregats(s);
            &&& s.len() > 0 ==> r.len() > 0 && r.last().strike.de_meme_valeur(
                s.last().ligne.strike,
            )
            &&& forall|i: int| 0 <= i < r.len() ==> !(#[trigger] r[i]).strike.nan()
            &&& forall|i: int, j: int|
                0 <= i < j < r.len() ==> (#[trigger] r[i]).strike.clef() < (
                #[trigger] r[j]).strike.clef()
            &&& forall|i: int|
                0 <= i < r.len() ==> cumule_les_lignes(
                    #[trigger] r[i],
                    s.filter(au_strike(r[i].strike)),
                )
            &&& forall|k: int|
                0 <= k < s.len() ==> exists|i: int|
                    0 <= i < r.len() && (#[trigger] r[i]).strike.de_meme_valeur(
                        (#[trigger] s[k]).ligne.strike,
                    )
        }),
    decreases s.len(),
{
    if s.len() > 0 {
        let t = s.drop_last();
        let l = s.last();
        assert(strikes_definis(t)) by {
            assert forall|i: int| 0 <= i < t.len() implies !(#[trigger] t[i]).ligne.strike.nan() by {
                assert(!s[i].ligne.strike.nan());
            }
        }
        assert forall|i: int, j: int| 0 <= i < j < t.len() implies (
        #[trigger] t[i]).ligne.strike.clef() <= (#[trigger] t[j]).ligne.strike.clef() by {
            assert(s[i].ligne.strike.clef() <= s[j].ligne.strike.clef());
        }
        assert(!s[s.len() - 1].ligne.strike.nan());
        lemme_agregats(t);
        let v = agregats(t);
        let r = agregats(s);
        assert(s =~= t.push(l));
        if t.len() > 0 {
            assert(t.last() == s[t.len() - 1]);
            assert(s[t.len() - 1].ligne.strike.clef() <= s[s.len() - 1].ligne.strike.clef());
        }
        let suite = v.len() > 0 && v.last().strike.de_meme_valeur(l.ligne.strike);
        assert forall|i: int| 0 <= i < r.len() implies cumule_les_lignes(
            #[trigger] r[i],
            s.filter(au_strike(r[i].strike)),
        ) && !r[i].strike.nan() by {
            let p = au_strike(r[i].strike);
            lemme_filtre_suivant(t, l, p);
            if i < r.len() - 1 {
                assert(r[i] == v[i]);
                assert(cumule_les_lignes(v[i], t.filter(au_strike(v[i].strike))));
                if suite {
                    assert(v[i].strike.clef() < v[v.len() - 1].strike.clef());
                } else {
                    assert(v[i].strike.clef() <= v[v.len() - 1].strike.clef());
                }
                assert(!p(l));
            } else if suite {
                let a = v.last();
                assert(r[i] == a.augmente(l));
                let q = t.filter(p);
                assert(v[v.len() - 1] == a);
                assert(cumule_les_lignes(a, q));
                lemme_cumul_suivant(q, l, |l: LigneExposee| l.call_gex);
                lemme_cumul_suivant(q, l, |l: LigneExposee| l.put_gex);
                lemme_cumul_suivant(q, l, |l: LigneExposee| l.gex);
                lemme_cumul_suivant(q, l, |l: LigneExposee| l.ligne.call.open_interest);
                lemme_cumul_suivant(q, l, |l: LigneExposee| l.ligne.put.open_interest);
                lemme_cumul_suivant(q, l, |l: LigneExposee| l.ligne.call.volume);
                lemme_cumul_suivant(q, l, |l: LigneExposee| l.ligne.put.volume);
                assert(p(l));
            } else {
                assert forall|k: int| 0 <= k < t.len() implies !p(#[trigger] t[k]) by {
                    assert(t[k] == s[k]);
                    assert(s[k].ligne.strike.clef() <= s[s.len() - 1].ligne.strike.clef());
                    if k < t.len() - 1 {
                        assert(t[k].ligne.strike.clef() <= t[t.len() - 1].ligne.strike.clef());
                    }
                }
                lemme_filtre_vide(t, p);
                assert(p(l));
                assert(s.filter(p) =~= seq![l]);
            }
        }
        assert forall|i: int, j: int| 0 <= i < j < r.len() implies (
        #[trigger] r[i]).strike.clef() < (#[trigger] r[j]).strike.clef() by {
            assert(r[i] == v[i]);
            if j < v.len() {
                assert(r[j].strike == v[j].strike);
            } else if i < v.len() - 1 {
                assert(v[i].strike.clef() < v[v.len() - 1].strike.clef());
            }
        }
        assert forall|k: int| 0 <= k < s.len() implies exists|i: int|
            0 <= i < r.len() && (#[trigger] r[i]).strike.de_meme_valeur(
                (#[trigger] s[k]).ligne.strike,
            ) by {
            if k < t.len() {
                assert(t[k] == s[k]);
                let i = choose|i: int|
                    0 <= i < v.len() && (#[trigger] v[i]).strike.de_meme_valeur(
                        t[k].ligne.strike,
                    );
                assert(r[i].strike == v[i].strike);
            } else {
                assert(r[r.len() - 1].strike.de_meme_valeur(l.ligne.strike));
            }
        }
    }
}

/// La table cumule par strike, toutes échéances confondues : un strike n'y est qu'une fois, dans
/// l'ordre ; toute ligne a le sien ; et chaque colonne est la somme, de la première ligne à la
/// dernière, de la même quantité sur toutes les lignes de ce strike.
pub proof fn la_table_cumule_toutes_les_lignes_d_un_strike(s: Seq<LigneExposee>)
    requires
        strikes_definis(s),
    ensures
        ({
            let r = agregats(triee(s, |a: LigneExposee, b: LigneExposee| strike_avant(a, b)));
            &&& forall|i: int, j: int|
                0 <= i < j < r.len() ==> (#[trigger] r[i]).strike.inferieur(
                    (#[trigger] r[j]).strike,
                )
            &&& forall|i: int|
                0 <= i < r.len() ==> cumule_les_lignes(
                    #[trigger] r[i],
                    s.filter(au_strike(r[i].strike)),
                )
            &&& forall|k: int|
                0 <= k < s.len() ==> exists|i: int|
                    0 <= i < r.len() && (#[trigger] r[i]).strike.de_meme_valeur(
                        (#[trigger] s[k]).ligne.strike,
                    )
        }),
{
    let avant = |a: LigneExposee, b: LigneExposee| strike_avant(a, b);
    let t = triee(s, avant);
    assert(ordre_faible(avant));
    le_tri_range_sans_rien_perdre(s, avant);
    le_tri_garde_les_elements(s, avant);
    assert forall|i: int| 0 <= i < t.len() implies !(#[trigger] t[i]).ligne.strike.nan() by {
        assert(t.contains(t[i]));
        let k = choose|k: int| 0 <= k < s.len() && s[k] == t[i];
        assert(!s[k].ligne.strike.nan());
    }
    assert forall|i: int, j: int| 0 <= i < j < t.len() implies (
    #[trigger] t[i]).ligne.strike.clef() <= (#[trigger] t[j]).ligne.strike.clef() by {
        assert(!avant(t[j], t[i]));
    }
    lemme_agregats(t);
    let r = agregats(t);
    assert forall|i: int| 0 <= i < r.len() implies cumule_les_lignes(
        #[trigger] r[i],
        s.filter(au_strike(r[i].strike)),
    ) by {
        let p = au_strike(r[i].strike);
        le_tri_est_stable(s, avant, p);
        assert(cumule_les_lignes(r[i], t.filter(p)));
    }
    assert forall|k: int| 0 <= k < s.len() implies exists|i: int|
        0 <= i < r.len() && (#[trigger] r[i]).strike.de_meme_valeur(
            (#[trigger] s[k]).ligne.strike,
        ) by {
        assert(s.contains(s[k]));
        assert(t.contains(s[k]));
        let q = choose|q: int| 0 <= q < t.len() && t[q] == s[k];
        assert(exists|i: int|
            0 <= i < r.len() && (#[trigger] r[i]).strike.de_meme_valeur(t[q].ligne.strike));
    }
}

/// Le strike où une mesure est la plus grande parmi les éligibles, le premier à égalité, si elle
/// y est strictement positive.
pub open spec fn est_le_plus_gros(
    s: Seq<AgregatStrike>,
    eligible: spec_fn(AgregatStrike) -> bool,
    m: spec_fn(AgregatStrike) -> Flottant,
    r: Option<Flottant>,
) -> bool {
    match r {
        Some(k) => exists|i: int|
            #![trigger s[i]]
            {
                &&& 0 <= i < s.len()
                &&& s[i].strike == k
                &&& eligible(s[i])
                &&& m(s[i]).positif()
                &&& forall|j: int|
                    #![trigger s[j]]
                    0 <= j < s.len() && eligible(s[j]) ==> m(s[j]).inferieur_ou_egal(m(s[i]))
                &&& forall|j: int|
                    #![trigger s[j]]
                    0 <= j < i && eligible(s[j]) ==> m(s[j]).inferieur(m(s[i]))
            },
        None => forall|j: int|
            #![trigger s[j]]
            0 <= j < s.len() && eligible(s[j]) ==> !m(s[j]).positif(),
    }
}

/// Au-dessus du spot, et à moins de `demi` de lui, en fraction.
pub open spec fn resistance(spot: Flottant, demi: Flottant) -> spec_fn(AgregatStrike) -> bool {
    |a: AgregatStrike|
        {
            &&& spot.inferieur_ou_egal(a.strike)
            &&& Flottant::entier(1).moins(demi).fois(spot).inferieur_ou_egal(a.strike)
            &&& a.strike.inferieur_ou_egal(Flottant::entier(1).plus(demi).fois(spot))
        }
}

/// Sous le spot, et à moins de `demi` de lui, en fraction.
pub open spec fn support(spot: Flottant, demi: Flottant) -> spec_fn(AgregatStrike) -> bool {
    |a: AgregatStrike|
        {
            &&& a.strike.inferieur_ou_egal(spot)
            &&& Flottant::entier(1).moins(demi).fois(spot).inferieur_ou_egal(a.strike)
            &&& a.strike.inferieur_ou_egal(Flottant::entier(1).plus(demi).fois(spot))
        }
}

/// Le premier des meilleurs d'un mur, parmi les éligibles.
proof fn lemme_premier_meilleur(mur: Mur, s: Seq<AgregatStrike>, spot: Flottant, demi: Flottant)
    requires
        forall|i: int| 0 <= i < s.len() ==> !mur.mesure(#[trigger] s[i]).nan(),
    ensures
        mur.meilleur(s, spot, demi) matches Some(b) ==> exists|i: int|
            {
                &&& 0 <= i < s.len()
                &&& #[trigger] s[i] == b
                &&& mur.eligible(b, spot, demi)
                &&& forall|j: int|
                    0 <= j < s.len() && mur.eligible(#[trigger] s[j], spot, demi) ==> !mur.mieux(
                        mur.mesure(s[j]),
                        mur.mesure(b),
                    )
                &&& forall|j: int|
                    0 <= j < i && mur.eligible(#[trigger] s[j], spot, demi) ==> mur.mieux(
                        mur.mesure(b),
                        mur.mesure(s[j]),
                    )
            },
        mur.meilleur(s, spot, demi) is None ==> forall|i: int|
            0 <= i < s.len() ==> !mur.eligible(#[trigger] s[i], spot, demi),
    decreases s.len(),
{
    if s.len() > 0 {
        let t = s.drop_last();
        assert forall|i: int| 0 <= i < t.len() implies !mur.mesure(#[trigger] t[i]).nan() by {
            assert(!mur.mesure(s[i]).nan());
        }
        lemme_premier_meilleur(mur, t, spot, demi);
        let n = s.len() - 1;
        assert(s[n] == s.last());
        assert(!mur.mesure(s[n]).nan());
        match mur.meilleur(t, spot, demi) {
            Some(b) => {
                let k = choose|k: int|
                    {
                        &&& 0 <= k < t.len()
                        &&& #[trigger] t[k] == b
                        &&& mur.eligible(b, spot, demi)
                        &&& forall|j: int|
                            0 <= j < t.len() && mur.eligible(#[trigger] t[j], spot, demi)
                                ==> !mur.mieux(mur.mesure(t[j]), mur.mesure(b))
                        &&& forall|j: int|
                            0 <= j < k && mur.eligible(#[trigger] t[j], spot, demi) ==> mur.mieux(
                                mur.mesure(b),
                                mur.mesure(t[j]),
                            )
                    };
                assert(s[k] == b);
                assert(!mur.mesure(s[k]).nan());
                let m = mur.meilleur(s, spot, demi)->Some_0;
                let i = if m == b && !(mur.eligible(s[n], spot, demi) && mur.mieux(
                    mur.mesure(s[n]),
                    mur.mesure(b),
                )) {
                    k
                } else {
                    n
                };
                assert(s[i] == m);
                assert forall|j: int|
                    0 <= j < s.len() && mur.eligible(#[trigger] s[j], spot, demi) implies !mur.mieux(
                    mur.mesure(s[j]),
                    mur.mesure(m),
                ) by {
                    if j < n {
                        assert(t[j] == s[j]);
                    }
                }
                assert forall|j: int|
                    0 <= j < i && mur.eligible(#[trigger] s[j], spot, demi) implies mur.mieux(
                    mur.mesure(m),
                    mur.mesure(s[j]),
                ) by {
                    assert(t[j] == s[j]);
                    assert(!mur.mesure(s[j]).nan());
                }
            },
            None => {
                assert forall|i: int| 0 <= i < t.len() implies !mur.eligible(
                    #[trigger] s[i],
                    spot,
                    demi,
                ) by {
                    assert(t[i] == s[i]);
                }
                if mur.eligible(s[n], spot, demi) {
                    assert(mur.meilleur(s, spot, demi) == Some(s[n]));
                }
            },
        }
    }
}

/// Les mesures d'une table sont des nombres.
pub open spec fn table_definie(s: Seq<AgregatStrike>) -> bool {
    forall|i: int|
        #![trigger s[i]]
        0 <= i < s.len() ==> {
            &&& !s[i].call_gex.nan()
            &&& !s[i].put_gex.nan()
            &&& !s[i].gex.nan()
            &&& !s[i].call_oi.nan()
            &&& !s[i].put_oi.nan()
            &&& !s[i].call_vol.nan()
            &&& !s[i].put_vol.nan()
        }
}

proof fn lemme_mur(
    mur: Mur,
    s: Seq<AgregatStrike>,
    spot: Flottant,
    demi: Flottant,
    eligible: spec_fn(AgregatStrike) -> bool,
    m: spec_fn(AgregatStrike) -> Flottant,
)
    requires
        forall|i: int| 0 <= i < s.len() ==> !mur.mesure(#[trigger] s[i]).nan(),
        forall|a: AgregatStrike| mur.eligible(a, spot, demi) <==> #[trigger] eligible(a),
        forall|a: AgregatStrike, b: AgregatStrike|
            !mur.mesure(a).nan() && !mur.mesure(b).nan() ==> {
                &&& !m(a).nan()
                &&& mur.mieux(mur.mesure(a), mur.mesure(b)) == (#[trigger] m(b)).inferieur(
                    #[trigger] m(a),
                )
                &&& mur.mieux(mur.mesure(a), Flottant::nul()) == m(a).positif()
            },
    ensures
        est_le_plus_gros(s, eligible, m, mur.strike(s, spot, demi)),
{
    lemme_premier_meilleur(mur, s, spot, demi);
    match mur.meilleur(s, spot, demi) {
        Some(b) => {
            let i = choose|i: int|
                {
                    &&& 0 <= i < s.len()
                    &&& #[trigger] s[i] == b
                    &&& mur.eligible(b, spot, demi)
                    &&& forall|j: int|
                        0 <= j < s.len() && mur.eligible(#[trigger] s[j], spot, demi)
                            ==> !mur.mieux(mur.mesure(s[j]), mur.mesure(b))
                    &&& forall|j: int|
                        0 <= j < i && mur.eligible(#[trigger] s[j], spot, demi) ==> mur.mieux(
                            mur.mesure(b),
                            mur.mesure(s[j]),
                        )
                };
            assert(!mur.mesure(s[i]).nan());
            assert(m(s[i]).positif() == mur.mieux(mur.mesure(b), Flottant::nul()));
            assert forall|j: int|
                #![trigger s[j]]
                0 <= j < s.len() && eligible(s[j]) implies m(s[j]).inferieur_ou_egal(m(s[i])) by {
                assert(!mur.mesure(s[j]).nan());
                assert(mur.eligible(s[j], spot, demi));
                assert(!m(s[i]).inferieur(m(s[j])));
                assert(mur.mieux(mur.mesure(s[i]), mur.mesure(s[j])) == m(s[j]).inferieur(
                    m(s[i]),
                ));
            }
            assert forall|j: int|
                #![trigger s[j]]
                0 <= j < i && eligible(s[j]) implies m(s[j]).inferieur(m(s[i])) by {
                assert(!mur.mesure(s[j]).nan());
                assert(mur.eligible(s[j], spot, demi));
            }
            assert(eligible(s[i]));
            if !m(s[i]).positif() {
                assert forall|j: int|
                    #![trigger s[j]]
                    0 <= j < s.len() && eligible(s[j]) implies !m(s[j]).positif() by {
                    assert(m(s[j]).inferieur_ou_egal(m(s[i])));
                }
            }
        },
        None => {
            assert forall|j: int|
                #![trigger s[j]]
                0 <= j < s.len() && eligible(s[j]) implies !m(s[j]).positif() by {
                assert(mur.eligible(s[j], spot, demi));
            }
        },
    }
}

/// Les murs call sont les strikes, au-dessus du spot et dans la bande, où le gamma call,
/// l'intérêt ouvert des calls ou leur volume est le plus grand ; les murs put, ceux, sous le
/// spot et dans la bande, où le gamma put est le plus négatif, ou l'intérêt ouvert des puts ou
/// leur volume le plus grand. Un extremum nul n'en est pas un.
pub proof fn les_murs_sont_les_plus_gros_de_leur_cote(
    s: Seq<AgregatStrike>,
    spot: Flottant,
    demi: Flottant,
)
    requires
        table_definie(s),
    ensures
        ({
            let (haut, bas) = (resistance(spot, demi), support(spot, demi));
            &&& est_le_plus_gros(s, haut, |a: AgregatStrike| a.call_gex, Mur::Call.strike(s, spot, demi))
            &&& est_le_plus_gros(s, bas, |a: AgregatStrike| a.put_gex.neg(), Mur::Put.strike(s, spot, demi))
            &&& est_le_plus_gros(s, haut, |a: AgregatStrike| a.call_oi, Mur::CallOi.strike(s, spot, demi))
            &&& est_le_plus_gros(s, bas, |a: AgregatStrike| a.put_oi, Mur::PutOi.strike(s, spot, demi))
            &&& est_le_plus_gros(s, haut, |a: AgregatStrike| a.call_vol, Mur::CallVol.strike(s, spot, demi))
            &&& est_le_plus_gros(s, bas, |a: AgregatStrike| a.put_vol, Mur::PutVol.strike(s, spot, demi))
        }),
{
    let (haut, bas) = (resistance(spot, demi), support(spot, demi));
    assert forall|i: int| 0 <= i < s.len() implies !Mur::Call.mesure(#[trigger] s[i]).nan()
        && !Mur::Put.mesure(s[i]).nan() && !Mur::CallOi.mesure(s[i]).nan() && !Mur::PutOi.mesure(
        s[i],
    ).nan() && !Mur::CallVol.mesure(s[i]).nan() && !Mur::PutVol.mesure(s[i]).nan() by {
        assert(!s[i].call_gex.nan());
    }
    lemme_mur(Mur::Call, s, spot, demi, haut, |a: AgregatStrike| a.call_gex);
    lemme_mur(Mur::CallOi, s, spot, demi, haut, |a: AgregatStrike| a.call_oi);
    lemme_mur(Mur::CallVol, s, spot, demi, haut, |a: AgregatStrike| a.call_vol);
    lemme_mur(Mur::PutOi, s, spot, demi, bas, |a: AgregatStrike| a.put_oi);
    lemme_mur(Mur::PutVol, s, spot, demi, bas, |a: AgregatStrike| a.put_vol);
    let m = |a: AgregatStrike| a.put_gex.neg();
    assert forall|a: AgregatStrike, b: AgregatStrike|
        !Mur::Put.mesure(a).nan() && !Mur::Put.mesure(b).nan() implies {
        &&& !m(a).nan()
        &&& Mur::Put.mieux(Mur::Put.mesure(a), Mur::Put.mesure(b)) == (#[trigger] m(b)).inferieur(
            #[trigger] m(a),
        )
        &&& Mur::Put.mieux(Mur::Put.mesure(a), Flottant::nul()) == m(a).positif()
    } by {
        lemme_oppose(a.put_gex);
        lemme_oppose(b.put_gex);
    }
    lemme_mur(Mur::Put, s, spot, demi, bas, m);
}

proof fn lemme_majeur(s: Seq<AgregatStrike>, long: bool)
    requires
        table_definie(s),
    ensures
        s.len() == 0 <==> agregat_majeur(s, long) is None,
        agregat_majeur(s, long) matches Some(b) ==> exists|i: int|
            {
                &&& 0 <= i < s.len()
                &&& #[trigger] s[i] == b
                &&& forall|j: int|
                    0 <= j < s.len() ==> !plus_fort(long, (#[trigger] s[j]).gex, b.gex)
                &&& forall|j: int| 0 <= j < i ==> plus_fort(long, b.gex, (#[trigger] s[j]).gex)
            },
    decreases s.len(),
{
    if s.len() > 0 {
        let t = s.drop_last();
        assert(table_definie(t)) by {
            assert forall|i: int| #![trigger t[i]] 0 <= i < t.len() implies {
                &&& !t[i].call_gex.nan()
                &&& !t[i].put_gex.nan()
                &&& !t[i].gex.nan()
                &&& !t[i].call_oi.nan()
                &&& !t[i].put_oi.nan()
                &&& !t[i].call_vol.nan()
                &&& !t[i].put_vol.nan()
            } by {
                assert(t[i] == s[i]);
            }
        }
        lemme_majeur(t, long);
        let n = s.len() - 1;
        assert(s[n] == s.last());
        if let Some(b) = agregat_majeur(t, long) {
            let k = choose|k: int|
                {
                    &&& 0 <= k < t.len()
                    &&& #[trigger] t[k] == b
                    &&& forall|j: int|
                        0 <= j < t.len() ==> !plus_fort(long, (#[trigger] t[j]).gex, b.gex)
                    &&& forall|j: int|
                        0 <= j < k ==> plus_fort(long, b.gex, (#[trigger] t[j]).gex)
                };
            assert(s[k] == b);
            let i = if plus_fort(long, s[n].gex, b.gex) {
                n
            } else {
                k
            };
            let m = s[i];
            assert(agregat_majeur(s, long) == Some(m));
            assert forall|j: int| 0 <= j < s.len() implies !plus_fort(
                long,
                (#[trigger] s[j]).gex,
                m.gex,
            ) by {
                if j < n {
                    assert(t[j] == s[j]);
                }
            }
            assert forall|j: int| 0 <= j < i implies plus_fort(
                long,
                m.gex,
                (#[trigger] s[j]).gex,
            ) by {
                assert(t[j] == s[j]);
                assert(!s[j].gex.nan());
            }
        } else {
            assert(agregat_majeur(s, long) == Some(s[n]));
        }
    }
}

/// Le gamma majeur long est le strike au GEX net le plus positif de la table, le court celui au
/// plus négatif, de quelque côté du spot qu'ils tombent.
pub proof fn les_majeurs_sont_les_extremes_du_gex_net(s: Seq<AgregatStrike>)
    requires
        table_definie(s),
    ensures
        est_le_plus_gros(s, |a: AgregatStrike| true, |a: AgregatStrike| a.gex, strike_majeur(s, true)),
        est_le_plus_gros(
            s,
            |a: AgregatStrike| true,
            |a: AgregatStrike| a.gex.neg(),
            strike_majeur(s, false),
        ),
{
    lemme_un_majeur(s, true, |a: AgregatStrike| a.gex);
    let m = |a: AgregatStrike| a.gex.neg();
    assert forall|a: AgregatStrike, b: AgregatStrike| !a.gex.nan() && !b.gex.nan() implies {
        &&& !m(a).nan()
        &&& plus_fort(false, a.gex, b.gex) == (#[trigger] m(b)).inferieur(#[trigger] m(a))
        &&& plus_fort(false, a.gex, Flottant::nul()) == m(a).positif()
    } by {
        lemme_oppose(a.gex);
        lemme_oppose(b.gex);
    }
    lemme_un_majeur(s, false, m);
}

proof fn lemme_un_majeur(s: Seq<AgregatStrike>, long: bool, m: spec_fn(AgregatStrike) -> Flottant)
    requires
        table_definie(s),
        forall|a: AgregatStrike, b: AgregatStrike|
            !a.gex.nan() && !b.gex.nan() ==> {
                &&& !m(a).nan()
                &&& plus_fort(long, a.gex, b.gex) == (#[trigger] m(b)).inferieur(#[trigger] m(a))
                &&& plus_fort(long, a.gex, Flottant::nul()) == m(a).positif()
            },
    ensures
        est_le_plus_gros(s, |a: AgregatStrike| true, m, strike_majeur(s, long)),
{
    lemme_majeur(s, long);
    if let Some(b) = agregat_majeur(s, long) {
        let i = choose|i: int|
            {
                &&& 0 <= i < s.len()
                &&& #[trigger] s[i] == b
                &&& forall|j: int|
                    0 <= j < s.len() ==> !plus_fort(long, (#[trigger] s[j]).gex, b.gex)
                &&& forall|j: int| 0 <= j < i ==> plus_fort(long, b.gex, (#[trigger] s[j]).gex)
            };
        assert(!s[i].gex.nan());
        assert(m(s[i]).positif() == plus_fort(long, b.gex, Flottant::nul()));
        assert forall|j: int| #![trigger s[j]] 0 <= j < s.len() implies m(s[j]).inferieur_ou_egal(
            m(s[i]),
        ) by {
            assert(!s[j].gex.nan());
            assert(plus_fort(long, s[j].gex, s[i].gex) == m(s[i]).inferieur(m(s[j])));
        }
        assert forall|j: int| #![trigger s[j]] 0 <= j < i implies m(s[j]).inferieur(m(s[i])) by {
            assert(!s[j].gex.nan());
            assert(plus_fort(long, s[i].gex, s[j].gex) == m(s[j]).inferieur(m(s[i])));
        }
    }
}

} // verus!
