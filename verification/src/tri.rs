//! Le tri stable, et ce qu'il garantit.

use vstd::prelude::*;

verus! {

/// `x` inséré dans une suite triée, après tout ce qui ne doit pas le suivre.
pub open spec fn inseree<T>(s: Seq<T>, x: T, avant: spec_fn(T, T) -> bool) -> Seq<T>
    decreases s.len(),
{
    if s.len() > 0 && avant(x, s.last()) {
        inseree(s.drop_last(), x, avant).push(s.last())
    } else {
        s.push(x)
    }
}

/// La suite triée : rien n'y vient avant ce qui doit le précéder, et ce que
/// l'ordre ne départage pas garde sa place relative.
pub open spec fn triee<T>(s: Seq<T>, avant: spec_fn(T, T) -> bool) -> Seq<T>
    decreases s.len(),
{
    if s.len() == 0 {
        s
    } else {
        inseree(triee(s.drop_last(), avant), s.last(), avant)
    }
}

/// Rien ne vient après ce qu'il devrait précéder.
pub open spec fn ordonnee<T>(s: Seq<T>, avant: spec_fn(T, T) -> bool) -> bool {
    forall|i: int, j: int| 0 <= i < j < s.len() ==> !avant(#[trigger] s[j], #[trigger] s[i])
}

/// Un ordre faible : irréflexif, transitif, et transitif dans ce qu'il ne départage pas.
pub open spec fn ordre_faible<T>(avant: spec_fn(T, T) -> bool) -> bool {
    &&& forall|a: T| !#[trigger] avant(a, a)
    &&& forall|a: T, b: T, c: T| #[trigger]
        avant(a, b) && #[trigger] avant(b, c) ==> avant(a, c)
    &&& forall|a: T, b: T, c: T|
        #![trigger avant(a, c), avant(a, b)]
        avant(a, c) ==> avant(a, b) || avant(b, c)
}

proof fn lemme_insertion<T>(s: Seq<T>, x: T, avant: spec_fn(T, T) -> bool)
    requires
        ordre_faible(avant),
        ordonnee(s, avant),
    ensures
        ordonnee(inseree(s, x, avant), avant),
        inseree(s, x, avant).to_multiset() == s.to_multiset().insert(x),
        inseree(s, x, avant).len() == s.len() + 1,
        forall|i: int|
            0 <= i < inseree(s, x, avant).len() ==> inseree(s, x, avant)[i] == x || s.contains(
                #[trigger] inseree(s, x, avant)[i],
            ),
    decreases s.len(),
{
    broadcast use vstd::seq_lib::group_to_multiset_ensures;

    if s.len() > 0 && avant(x, s.last()) {
        let t = s.drop_last();
        lemme_insertion(t, x, avant);
        let r = inseree(t, x, avant);
        assert(s == t.push(s.last()));
        assert(r.push(s.last()).to_multiset() =~= s.to_multiset().insert(x));
        assert forall|i: int| 0 <= i < r.len() implies !avant(s.last(), #[trigger] r[i]) by {
            if r[i] == x {
            } else {
                let k = choose|k: int| 0 <= k < t.len() && t[k] == r[i];
                assert(s[k] == r[i]);
            }
        }
        assert forall|i: int| 0 <= i < r.push(s.last()).len() implies r.push(s.last())[i] == x
            || s.contains(#[trigger] r.push(s.last())[i]) by {
            if i < r.len() {
                if r[i] != x {
                    let k = choose|k: int| 0 <= k < t.len() && t[k] == r[i];
                    assert(s[k] == r[i]);
                }
            } else {
                assert(s[s.len() - 1] == s.last());
            }
        }
    } else {
        assert forall|i: int, j: int| 0 <= i < j < s.push(x).len() implies !avant(
            #[trigger] s.push(x)[j],
            #[trigger] s.push(x)[i],
        ) by {
            if j == s.len() {
                if i < s.len() - 1 && avant(x, s[i]) {
                    assert(!avant(s.last(), s[i]));
                    assert(!avant(x, s.last()));
                    assert(avant(x, s.last()) || avant(s.last(), s[i]));
                }
            }
        }
    }
}

/// Trier range, et ne perd ni n'ajoute rien.
pub proof fn le_tri_range_sans_rien_perdre<T>(s: Seq<T>, avant: spec_fn(T, T) -> bool)
    requires
        ordre_faible(avant),
    ensures
        ordonnee(triee(s, avant), avant),
        triee(s, avant).to_multiset() == s.to_multiset(),
        triee(s, avant).len() == s.len(),
    decreases s.len(),
{
    broadcast use vstd::seq_lib::group_to_multiset_ensures;

    if s.len() > 0 {
        le_tri_range_sans_rien_perdre(s.drop_last(), avant);
        lemme_insertion(triee(s.drop_last(), avant), s.last(), avant);
        assert(s == s.drop_last().push(s.last()));
    }
}

/// Ce qui était déjà rangé ne bouge pas.
pub proof fn trier_ce_qui_est_range_ne_change_rien<T>(s: Seq<T>, avant: spec_fn(T, T) -> bool)
    requires
        ordonnee(s, avant),
    ensures
        triee(s, avant) == s,
    decreases s.len(),
{
    if s.len() > 0 {
        let t = s.drop_last();
        assert(ordonnee(t, avant)) by {
            assert forall|i: int, j: int| 0 <= i < j < t.len() implies !avant(
                #[trigger] t[j],
                #[trigger] t[i],
            ) by {
                assert(!avant(s[j], s[i]));
            }
        }
        trier_ce_qui_est_range_ne_change_rien(t, avant);
        if t.len() > 0 {
            assert(!avant(s[s.len() - 1], s[s.len() - 2]));
            assert(t.last() == s[s.len() - 2]);
        }
        assert(t.push(s.last()) == s);
    }
}

/// Le tri est stable : ce que l'ordre ne départage pas garde l'ordre de la suite.
pub proof fn le_tri_est_stable<T>(s: Seq<T>, avant: spec_fn(T, T) -> bool, p: spec_fn(T) -> bool)
    requires
        forall|x: T, y: T| p(x) && p(y) ==> !(#[trigger] avant(x, y)),
    ensures
        triee(s, avant).filter(p) == s.filter(p),
    decreases s.len(),
{
    reveal(Seq::filter);
    if s.len() > 0 {
        le_tri_est_stable(s.drop_last(), avant, p);
        lemme_insertion_stable(triee(s.drop_last(), avant), s.last(), avant, p);
    }
}

proof fn lemme_insertion_stable<T>(
    s: Seq<T>,
    x: T,
    avant: spec_fn(T, T) -> bool,
    p: spec_fn(T) -> bool,
)
    requires
        forall|x: T, y: T| p(x) && p(y) ==> !(#[trigger] avant(x, y)),
    ensures
        inseree(s, x, avant).filter(p) == if p(x) {
            s.filter(p).push(x)
        } else {
            s.filter(p)
        },
    decreases s.len(),
{
    reveal(Seq::filter);
    if s.len() > 0 && avant(x, s.last()) {
        let t = s.drop_last();
        lemme_insertion_stable(t, x, avant, p);
        let r = inseree(t, x, avant);
        assert(r.push(s.last()).drop_last() =~= r);
        assert(r.push(s.last()).last() == s.last());
    } else {
        assert(s.push(x).drop_last() =~= s);
        assert(s.push(x).last() == x);
    }
}

/// Ce qui était dans la suite triée était dans la suite, et réciproquement.
pub proof fn le_tri_garde_les_elements<T>(s: Seq<T>, avant: spec_fn(T, T) -> bool)
    ensures
        triee(s, avant).len() == s.len(),
        forall|x: T| #[trigger] triee(s, avant).contains(x) <==> s.contains(x),
    decreases s.len(),
{
    if s.len() > 0 {
        let t = s.drop_last();
        le_tri_garde_les_elements(t, avant);
        lemme_insertion_elements(triee(t, avant), s.last(), avant);
        assert forall|x: T| #[trigger] triee(s, avant).contains(x) <==> s.contains(x) by {
            assert(triee(s, avant).contains(x) <==> triee(t, avant).contains(x) || x == s.last());
            if s.contains(x) {
                let k = choose|k: int| 0 <= k < s.len() && s[k] == x;
                if k < t.len() {
                    assert(t[k] == x);
                }
            }
            if t.contains(x) {
                let k = choose|k: int| 0 <= k < t.len() && t[k] == x;
                assert(s[k] == x);
            }
            assert(s[s.len() - 1] == s.last());
        }
    }
}

proof fn lemme_insertion_elements<T>(s: Seq<T>, y: T, avant: spec_fn(T, T) -> bool)
    ensures
        inseree(s, y, avant).len() == s.len() + 1,
        forall|x: T| #[trigger] inseree(s, y, avant).contains(x) <==> s.contains(x) || x == y,
    decreases s.len(),
{
    if s.len() > 0 && avant(y, s.last()) {
        let t = s.drop_last();
        lemme_insertion_elements(t, y, avant);
        let r = inseree(t, y, avant);
        assert(inseree(s, y, avant) == r.push(s.last()));
        assert forall|x: T| #[trigger] inseree(s, y, avant).contains(x) <==> s.contains(x) || x
            == y by {
            lemme_push_contient(r, s.last(), x);
            lemme_push_contient(t, s.last(), x);
            assert(s == t.push(s.last()));
            assert(r.contains(x) <==> t.contains(x) || x == y);
        }
    } else {
        assert forall|x: T| #[trigger] inseree(s, y, avant).contains(x) <==> s.contains(x) || x
            == y by {
            lemme_push_contient(s, y, x);
        }
    }
}

pub proof fn lemme_push_contient<T>(s: Seq<T>, y: T, x: T)
    ensures
        s.push(y).contains(x) <==> s.contains(x) || x == y,
{
    if s.contains(x) {
        let k = choose|k: int| 0 <= k < s.len() && s[k] == x;
        assert(s.push(y)[k] == x);
    }
    assert(s.push(y)[s.len() as int] == y);
    if s.push(y).contains(x) {
        let k = choose|k: int| 0 <= k < s.push(y).len() && s.push(y)[k] == x;
        if k < s.len() {
            assert(s[k] == x);
        }
    }
}

/// Trie par insertion, de façon stable.
pub(crate) fn trier<T: Copy, F: Fn(T, T) -> bool>(
    v: &[T],
    f: F,
    Ghost(avant): Ghost<spec_fn(T, T) -> bool>,
) -> (r: Vec<T>)
    requires
        forall|a: T, b: T| #[trigger] call_requires(f, (a, b)),
        forall|a: T, b: T, x: bool| #[trigger] call_ensures(f, (a, b), x) ==> x == avant(a, b),
    ensures
        r@ == triee(v@, avant),
{
    let mut r: Vec<T> = Vec::new();
    let mut i: usize = 0;
    while i < v.len()
        invariant
            i <= v@.len(),
            r@ == triee(v@.take(i as int), avant),
            r@.len() == i,
            forall|a: T, b: T| #[trigger] call_requires(f, (a, b)),
            forall|a: T, b: T, x: bool| #[trigger]
                call_ensures(f, (a, b), x) ==> x == avant(a, b),
        decreases v@.len() - i,
    {
        let x: T = v[i];
        let ghost avant_insertion = r@;
        let mut j: usize = r.len();
        let mut cherche: bool = true;
        proof {
            assert(r@.take(j as int) == r@);
            assert(r@.skip(j as int) =~= Seq::<T>::empty());
        }
        while j > 0 && cherche
            invariant
                j <= r@.len(),
                r@ == avant_insertion,
                inseree(r@, x, avant) == inseree(r@.take(j as int), x, avant) + r@.skip(j as int),
                !cherche ==> inseree(r@.take(j as int), x, avant) == r@.take(j as int).push(x),
                forall|a: T, b: T| #[trigger] call_requires(f, (a, b)),
                forall|a: T, b: T, y: bool| #[trigger]
                    call_ensures(f, (a, b), y) ==> y == avant(a, b),
            decreases j + if cherche { 1int } else { 0 },
        {
            let ghost t = r@.take(j as int);
            assert(t.last() == r@[j - 1]);
            if f(x, r[j - 1]) {
                proof {
                    assert(t.drop_last() =~= r@.take(j - 1));
                    assert(inseree(t, x, avant) == inseree(r@.take(j - 1), x, avant).push(
                        t.last(),
                    ));
                    assert(inseree(r@.take(j - 1), x, avant).push(t.last()) + r@.skip(j as int)
                        =~= inseree(r@.take(j - 1), x, avant) + r@.skip(j - 1));
                }
                j = j - 1;
            } else {
                cherche = false;
            }
        }
        proof {
            if j == 0 {
                assert(inseree(r@.take(0), x, avant) == r@.take(0).push(x));
            }
            assert(v@.take(i + 1).drop_last() =~= v@.take(i as int));
            assert(v@.take(i + 1).last() == x);
            assert(r@.take(j as int).push(x) + r@.skip(j as int) =~= r@.insert(j as int, x));
        }
        r.insert(j, x);
        i += 1;
    }
    assert(v@.take(v@.len() as int) =~= v@);
    r
}

} // verus!
