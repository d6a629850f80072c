//! Lecture et assemblage de textes, caractère par caractère.

use crate::decimal::valeur_chiffre;
#[allow(unused_imports)]
use crate::decimal::{chiffre, naturel_de};
use vstd::prelude::*;

verus! {

/// `String::push` ajoute un caractère au bout du texte.
pub assume_specification[ String::push ](s: &mut String, c: char)
    ensures
        final(s)@ == old(s)@.push(c),
;

/// Ce que `{:?}` écrit d'un texte : le texte entre guillemets, échappé.
pub uninterp spec fn texte_echappe(s: Seq<char>) -> Seq<char>;

/// Écrit un texte par son `Debug`. Ce qui est écrit ne dépend que du texte.
#[verifier::external_body]
pub(crate) fn echapper(s: &str) -> (t: String)
    ensures
        t@ == texte_echappe(s@),
{
    format!("{s:?}")
}

/// `str::to_uppercase` d'un texte.
pub uninterp spec fn capitales_de(s: Seq<char>) -> Seq<char>;

/// `str::to_uppercase` : le texte en majuscules, au sens d'Unicode. Sur des
/// caractères ASCII, ce sont les majuscules ASCII.
#[verifier::external_body]
pub(crate) fn capitales(s: &str) -> (r: String)
    ensures
        r@ == capitales_de(s@),
        s.is_ascii() ==> r@ == majuscules_de(s@),
{
    s.to_uppercase()
}

/// Les caractères d'un texte.
pub fn caracteres(s: &str) -> (v: Vec<char>)
    ensures
        v@ == s@,
{
    let mut v: Vec<char> = Vec::new();
    for c in it: s.chars()
        invariant
            v@ == it.seq().take(it.index()),
            it.seq() == s@,
    {
        v.push(c);
    }
    v
}

/// Le texte fait de ces caractères.
pub fn en_texte(v: &[char]) -> (s: String)
    ensures
        s@ == v@,
{
    let mut s: String = String::new();
    let mut i: usize = 0;
    while i < v.len()
        invariant
            i <= v.len(),
            s@ == v@.take(i as int),
        decreases v.len() - i,
    {
        s.push(v[i]);
        i += 1;
    }
    s
}

/// Deux textes sont les mêmes.
pub fn meme_texte(a: &str, b: &str) -> (r: bool)
    ensures
        r == (a@ == b@),
{
    a.to_owned() == b.to_owned()
}

/// Deux suites de caractères sont les mêmes.
pub fn memes_caracteres(a: &[char], b: &[char]) -> (r: bool)
    ensures
        r == (a@ == b@),
{
    if a.len() != b.len() {
        return false;
    }
    let mut i: usize = 0;
    while i < a.len()
        invariant
            i <= a@.len(),
            a@.len() == b@.len(),
            forall|k: int| 0 <= k < i ==> a@[k] == b@[k],
        decreases a@.len() - i,
    {
        if a[i] != b[i] {
            return false;
        }
        i += 1;
    }
    assert(a@ =~= b@);
    true
}

/// Une copie d'une suite de caractères.
pub fn copie(a: &[char]) -> (v: Vec<char>)
    ensures
        v@ == a@,
{
    tranche(a, 0, a.len())
}

/// Les caractères d'une tranche.
pub fn tranche(a: &[char], debut: usize, fin: usize) -> (v: Vec<char>)
    requires
        debut <= fin <= a@.len(),
    ensures
        v@ == a@.subrange(debut as int, fin as int),
{
    let mut v: Vec<char> = Vec::new();
    let mut i: usize = debut;
    while i < fin
        invariant
            debut <= i <= fin <= a@.len(),
            v@ =~= a@.subrange(debut as int, i as int),
        decreases fin - i,
    {
        v.push(a[i]);
        i += 1;
    }
    v
}

/// Ajoute des caractères au bout.
pub fn ajouter(v: &mut Vec<char>, suite: &[char])
    ensures
        final(v)@ == old(v)@ + suite@,
{
    let mut i: usize = 0;
    assert(v@ =~= old(v)@ + suite@.take(0));
    while i < suite.len()
        invariant
            i <= suite@.len(),
            v@ == old(v)@ + suite@.take(i as int),
        decreases suite@.len() - i,
    {
        let ghost avant = v@;
        v.push(suite[i]);
        i += 1;
        assert(v@ =~= old(v)@ + suite@.take(i as int));
    }
    assert(suite@.take(suite@.len() as int) =~= suite@);
}

/// Ajoute un texte au bout.
pub fn ajouter_texte(v: &mut Vec<char>, suite: &str)
    ensures
        final(v)@ == old(v)@ + suite@,
{
    let s: Vec<char> = caracteres(suite);
    ajouter(v, s.as_slice());
}

/// Un blanc : un caractère de la propriété `White_Space` d'Unicode.
pub open spec fn blanc(c: char) -> bool {
    let n = c as u32;
    ||| 0x9 <= n <= 0xd
    ||| n == 0x20
    ||| n == 0x85
    ||| n == 0xa0
    ||| n == 0x1680
    ||| 0x2000 <= n <= 0x200a
    ||| n == 0x2028
    ||| n == 0x2029
    ||| n == 0x202f
    ||| n == 0x205f
    ||| n == 0x3000
}

pub fn est_blanc(c: char) -> (b: bool)
    ensures
        b == blanc(c),
{
    let n: u32 = c as u32;
    (0x9 <= n && n <= 0xd) || n == 0x20 || n == 0x85 || n == 0xa0 || n == 0x1680 || (0x2000 <= n
        && n <= 0x200a) || n == 0x2028 || n == 0x2029 || n == 0x202f || n == 0x205f || n == 0x3000
}

/// Le texte sans ses blancs de tête.
pub open spec fn sans_tete(s: Seq<char>) -> Seq<char>
    decreases s.len(),
{
    if s.len() > 0 && blanc(s[0]) {
        sans_tete(s.skip(1))
    } else {
        s
    }
}

/// Le texte sans ses blancs de queue.
pub open spec fn sans_queue(s: Seq<char>) -> Seq<char>
    decreases s.len(),
{
    if s.len() > 0 && blanc(s.last()) {
        sans_queue(s.drop_last())
    } else {
        s
    }
}

/// Le texte sans ses blancs de bord.
pub open spec fn rogne(s: Seq<char>) -> Seq<char> {
    sans_queue(sans_tete(s))
}

/// Retire les blancs de bord.
pub fn rogner(s: &[char]) -> (v: Vec<char>)
    ensures
        v@ == rogne(s@),
{
    let mut debut: usize = 0;
    assert(s@.skip(0) =~= s@);
    while debut < s.len() && est_blanc(s[debut])
        invariant
            debut <= s@.len(),
            sans_tete(s@) == sans_tete(s@.skip(debut as int)),
        decreases s@.len() - debut,
    {
        proof {
            assert(s@.skip(debut as int).skip(1) =~= s@.skip(debut + 1));
        }
        debut += 1;
    }
    let ghost t = s@.skip(debut as int);
    assert(sans_tete(s@) == t);
    let mut fin: usize = s.len();
    assert(s@.subrange(debut as int, fin as int) =~= t);
    while fin > debut && est_blanc(s[fin - 1])
        invariant
            debut <= fin <= s@.len(),
            sans_queue(t) == sans_queue(s@.subrange(debut as int, fin as int)),
        decreases fin,
    {
        proof {
            let u = s@.subrange(debut as int, fin as int);
            assert(u.last() == s@[fin - 1]);
            assert(u.drop_last() =~= s@.subrange(debut as int, fin - 1));
        }
        fin -= 1;
    }
    proof {
        let u = s@.subrange(debut as int, fin as int);
        if fin > debut {
            assert(u.last() == s@[fin - 1]);
        }
        assert(sans_queue(u) == u);
    }
    tranche(s, debut, fin)
}

/// La majuscule d'une lettre sans accent.
pub open spec fn majuscule(c: char) -> char {
    if 'a' <= c <= 'z' {
        (c as int - 32) as char
    } else {
        c
    }
}

pub open spec fn majuscules_de(s: Seq<char>) -> Seq<char> {
    s.map_values(|c: char| majuscule(c))
}

fn en_majuscule(c: char) -> (r: char)
    ensures
        r == majuscule(c),
{
    if 'a' <= c && c <= 'z' {
        (c as u8 - 32) as char
    } else {
        c
    }
}

/// Met en majuscules les lettres sans accent.
pub fn majuscules(s: &[char]) -> (v: Vec<char>)
    ensures
        v@ == majuscules_de(s@),
{
    let mut v: Vec<char> = Vec::new();
    let mut i: usize = 0;
    while i < s.len()
        invariant
            i <= s@.len(),
            v@.len() == i,
            forall|k: int| 0 <= k < i ==> #[trigger] v@[k] == majuscule(s@[k]),
        decreases s@.len() - i,
    {
        v.push(en_majuscule(s[i]));
        i += 1;
    }
    assert(v@ =~= majuscules_de(s@));
    v
}

/// Les suites de caractères que tiennent des vecteurs.
pub open spec fn vues(v: Seq<Vec<char>>) -> Seq<Seq<char>> {
    v.map_values(|x: Vec<char>| x@)
}

/// Les morceaux d'un texte entre les séparateurs : un de plus qu'il n'y en a.
pub open spec fn morceaux(s: Seq<char>, sep: char) -> Seq<Seq<char>>
    decreases s.len(),
{
    if s.len() == 0 {
        seq![s]
    } else {
        let m = morceaux(s.drop_last(), sep);
        if s.last() == sep {
            m.push(Seq::empty())
        } else {
            m.drop_last().push(m.last().push(s.last()))
        }
    }
}

pub proof fn lemme_morceaux_non_vides(s: Seq<char>, sep: char)
    ensures
        morceaux(s, sep).len() >= 1,
    decreases s.len(),
{
    if s.len() > 0 {
        lemme_morceaux_non_vides(s.drop_last(), sep);
    }
}

/// Coupe un texte à chaque séparateur.
pub fn couper(s: &[char], sep: char) -> (v: Vec<Vec<char>>)
    ensures
        vues(v@) == morceaux(s@, sep),
        v@.len() >= 1,
{
    let mut v: Vec<Vec<char>> = Vec::new();
    let mut courant: Vec<char> = Vec::new();
    let mut i: usize = 0;
    proof {
        assert(s@.take(0) =~= Seq::<char>::empty());
        assert(vues(v@).push(courant@) =~= morceaux(s@.take(0), sep));
    }
    while i < s.len()
        invariant
            i <= s@.len(),
            vues(v@).push(courant@) == morceaux(s@.take(i as int), sep),
        decreases s@.len() - i,
    {
        let c: char = s[i];
        proof {
            assert(s@.take(i + 1).drop_last() =~= s@.take(i as int));
            assert(s@.take(i + 1).last() == c);
        }
        let ghost m = vues(v@).push(courant@);
        if c == sep {
            let ghost avant = v@;
            let ghost cour = courant@;
            let mut fini: Vec<char> = Vec::new();
            fini.append(&mut courant);
            v.push(fini);
            proof {
                assert(fini@ =~= cour);
                assert(courant@ =~= Seq::<char>::empty());
                assert(vues(v@) =~= m);
                assert(vues(v@).push(courant@) =~= m.push(Seq::empty()));
            }
        } else {
            let ghost cour = courant@;
            courant.push(c);
            proof {
                assert(m.drop_last() =~= vues(v@));
                assert(vues(v@).push(courant@) =~= m.drop_last().push(m.last().push(c)));
            }
        }
        i += 1;
    }
    proof {
        assert(s@.take(s@.len() as int) =~= s@);
    }
    let ghost avant = v@;
    let ghost cour = courant@;
    v.push(courant);
    assert(vues(v@) =~= vues(avant).push(cour));
    v
}

/// Les mots d'un texte : ce que séparent les blancs.
pub open spec fn mots(s: Seq<char>) -> Seq<Seq<char>>
    decreases s.len(),
{
    if s.len() == 0 {
        Seq::empty()
    } else {
        let m = mots(s.drop_last());
        if blanc(s.last()) {
            m
        } else if s.len() > 1 && !blanc(s[s.len() - 2]) {
            m.drop_last().push(m.last().push(s.last()))
        } else {
            m.push(seq![s.last()])
        }
    }
}

proof fn lemme_mot_en_cours(s: Seq<char>)
    requires
        s.len() > 0,
        !blanc(s.last()),
    ensures
        mots(s).len() > 0,
{
}

/// Coupe un texte en mots.
pub fn en_mots(s: &[char]) -> (v: Vec<Vec<char>>)
    ensures
        vues(v@) == mots(s@),
{
    let mut v: Vec<Vec<char>> = Vec::new();
    let mut i: usize = 0;
    assert(vues(v@) =~= mots(s@.take(0)));
    while i < s.len()
        invariant
            i <= s@.len(),
            vues(v@) == mots(s@.take(i as int)),
        decreases s@.len() - i,
    {
        let c: char = s[i];
        let ghost t = s@.take(i + 1);
        let ghost m = mots(s@.take(i as int));
        proof {
            assert(t.drop_last() =~= s@.take(i as int));
            assert(t.last() == c);
            if i > 0 {
                assert(t[t.len() - 2] == s@[i - 1]);
            }
        }
        if !est_blanc(c) {
            if i > 0 && !est_blanc(s[i - 1]) {
                proof {
                    assert(s@.take(i as int).last() == s@[i - 1]);
                    lemme_mot_en_cours(s@.take(i as int));
                    assert(vues(v@).last() == v@.last()@);
                }
                let mut dernier: Vec<char> = Vec::new();
                let ghost avant = v@;
                let mut pris: Vec<char> = v.pop().unwrap();
                dernier.append(&mut pris);
                dernier.push(c);
                v.push(dernier);
                proof {
                    assert(vues(v@) =~= m.drop_last().push(m.last().push(c)));
                }
            } else {
                let mut neuf: Vec<char> = Vec::new();
                neuf.push(c);
                v.push(neuf);
                proof {
                    assert(neuf@ =~= seq![c]);
                    assert(vues(v@) =~= m.push(seq![c]));
                }
            }
        }
        i += 1;
    }
    assert(s@.take(s@.len() as int) =~= s@);
    v
}

/// Une ligne sans le retour chariot qui la termine.
pub open spec fn sans_retour(s: Seq<char>) -> Seq<char> {
    if s.len() > 0 && s.last() == '\r' {
        s.drop_last()
    } else {
        s
    }
}

/// Les lignes d'un texte. La dernière peut ne pas être terminée ; une fin de ligne en
/// bout de texte n'en ouvre pas une de plus.
pub open spec fn lignes_de(s: Seq<char>) -> Seq<Seq<char>> {
    let m = morceaux(s, '\n');
    let terminees = m.drop_last().map_values(|l: Seq<char>| sans_retour(l));
    if m.last().len() == 0 {
        terminees
    } else {
        terminees.push(m.last())
    }
}

/// Coupe un texte en lignes.
pub fn en_lignes(s: &[char]) -> (v: Vec<Vec<char>>)
    ensures
        vues(v@) == lignes_de(s@),
{
    let m: Vec<Vec<char>> = couper(s, '\n');
    let n: usize = m.len();
    let ghost mm = morceaux(s@, '\n');
    let mut v: Vec<Vec<char>> = Vec::new();
    let mut i: usize = 0;
    while i < n - 1
        invariant
            n == m@.len(),
            n >= 1,
            i <= n - 1,
            mm == vues(m@),
            v@.len() == i,
            forall|k: int| 0 <= k < i ==> #[trigger] v@[k]@ == sans_retour(mm[k]),
        decreases n - i,
    {
        let l: &Vec<char> = &m[i];
        let k: usize = l.len();
        let w: Vec<char> = if k > 0 && l[k - 1] == '\r' {
            tranche(l.as_slice(), 0, k - 1)
        } else {
            copie(l.as_slice())
        };
        proof {
            assert(mm[i as int] == l@);
            if k > 0 && l@[k - 1] == '\r' {
                assert(l@.subrange(0, k - 1) =~= l@.drop_last());
            }
        }
        v.push(w);
        i += 1;
    }
    proof {
        assert(vues(v@) =~= mm.drop_last().map_values(|l: Seq<char>| sans_retour(l)));
        assert(mm.last() == m@[n - 1]@);
    }
    if m[n - 1].len() > 0 {
        let ghost avant = v@;
        let derniere: Vec<char> = copie(m[n - 1].as_slice());
        v.push(derniere);
        assert(vues(v@) =~= vues(avant).push(mm.last()));
    }
    v
}

/// Des textes joints par un séparateur.
pub open spec fn joints(v: Seq<Seq<char>>, sep: Seq<char>) -> Seq<char>
    decreases v.len(),
{
    if v.len() == 0 {
        Seq::empty()
    } else if v.len() == 1 {
        v[0]
    } else {
        joints(v.drop_last(), sep) + sep + v.last()
    }
}

/// Joint des textes par un séparateur.
pub fn joindre(v: &Vec<Vec<char>>, sep: &str) -> (s: Vec<char>)
    ensures
        s@ == joints(vues(v@), sep@),
{
    let mut s: Vec<char> = Vec::new();
    let ghost w = vues(v@);
    let mut i: usize = 0;
    assert(s@ =~= joints(w.take(0), sep@));
    while i < v.len()
        invariant
            i <= v@.len(),
            w == vues(v@),
            s@ == joints(w.take(i as int), sep@),
        decreases v@.len() - i,
    {
        proof {
            assert(w.take(i + 1).drop_last() =~= w.take(i as int));
            assert(w.take(i + 1).last() == v@[i as int]@);
        }
        let ghost avant = s@;
        if i > 0 {
            ajouter_texte(&mut s, sep);
        }
        ajouter(&mut s, v[i].as_slice());
        proof {
            if i == 0 {
                assert(avant =~= Seq::<char>::empty());
                assert(s@ =~= w.take(1)[0]);
            } else {
                assert(s@ =~= avant + sep@ + v@[i as int]@);
            }
        }
        i += 1;
    }
    assert(w.take(w.len() as int) =~= w);
    s
}

/// Rien que des chiffres.
pub open spec fn tous_chiffres(s: Seq<char>) -> bool {
    forall|i: int| 0 <= i < s.len() ==> chiffre(#[trigger] s[i])
}

/// L'entier relatif qu'écrit un texte : un signe facultatif, puis des chiffres.
pub open spec fn entier_lu(s: Seq<char>) -> Option<int> {
    let signe = s.len() > 0 && (s[0] == '+' || s[0] == '-');
    let t = if signe {
        s.skip(1)
    } else {
        s
    };
    if t.len() == 0 || !tous_chiffres(t) {
        None
    } else if signe && s[0] == '-' {
        Some(-(naturel_de(t) as int))
    } else {
        Some(naturel_de(t) as int)
    }
}

/// L'entier lu, s'il tient entre deux bornes.
pub open spec fn entier_borne(s: Seq<char>, bas: int, haut: int) -> Option<int> {
    match entier_lu(s) {
        Some(n) if bas <= n <= haut => Some(n),
        _ => None,
    }
}

/// Lit un entier relatif sur soixante-quatre bits.
pub fn lire_i64(s: &[char]) -> (r: Option<i64>)
    ensures
        match r {
            Some(n) => entier_borne(s@, i64::MIN as int, i64::MAX as int) == Some(n as int),
            None => entier_borne(s@, i64::MIN as int, i64::MAX as int) is None,
        },
{
    let signe: bool = s.len() > 0 && (s[0] == '+' || s[0] == '-');
    let negatif: bool = signe && s[0] == '-';
    let debut: usize = if signe {
        1
    } else {
        0
    };
    let ghost t = if signe {
        s@.skip(1)
    } else {
        s@
    };
    if debut == s.len() {
        return None;
    }
    let mut x: i128 = 0;
    let mut trop: bool = false;
    let mut i: usize = debut;
    assert(t.take(0) =~= Seq::<char>::empty());
    while i < s.len()
        invariant
            debut <= i <= s@.len(),
            signe == (s@.len() > 0 && (s@[0] == '+' || s@[0] == '-')),
            debut == if signe {
                1int
            } else {
                0
            },
            t == if signe {
                s@.skip(1)
            } else {
                s@
            },
            forall|k: int| 0 <= k < i - debut ==> chiffre(#[trigger] t[k]),
            0 <= x <= 0x8000_0000_0000_0000,
            !trop ==> x == naturel_de(t.take(i - debut)),
            trop ==> naturel_de(t.take(i - debut)) > 0x8000_0000_0000_0000,
        decreases s@.len() - i,
    {
        let c: char = s[i];
        proof {
            assert(t[i - debut] == c);
            assert(t.take(i - debut + 1).drop_last() =~= t.take(i - debut));
            assert(t.take(i - debut + 1).last() == c);
        }
        if !('0' <= c && c <= '9') {
            proof {
                let j = i - debut;
                assert(0 <= j < t.len() && !chiffre(t[j]));
                assert(!tous_chiffres(t));
            }
            return None;
        }
        if !trop {
            let suivant: i128 = x * 10 + valeur_chiffre(c) as i128;
            if suivant > 0x8000_0000_0000_0000 {
                trop = true;
            } else {
                x = suivant;
            }
        }
        i += 1;
    }
    assert(t.take(t.len() as int) =~= t);
    if trop {
        return None;
    }
    if negatif {
        Some((-x) as i64)
    } else if x <= 0x7fff_ffff_ffff_ffff {
        Some(x as i64)
    } else {
        None
    }
}

/// Le premier rang où une suite de textes porte celui-ci.
pub open spec fn rang_de(v: Seq<Seq<char>>, x: Seq<char>) -> Option<int>
    decreases v.len(),
{
    if v.len() == 0 {
        None
    } else {
        match rang_de(v.drop_last(), x) {
            Some(i) => Some(i),
            None => if v.last() == x {
                Some(v.len() - 1)
            } else {
                None
            },
        }
    }
}

/// Le rang est celui d'une occurrence, et son absence celle de toute occurrence.
pub proof fn lemme_rang(v: Seq<Seq<char>>, x: Seq<char>)
    ensures
        match rang_de(v, x) {
            Some(i) => 0 <= i < v.len() && v[i] == x,
            None => !v.contains(x),
        },
    decreases v.len(),
{
    if v.len() > 0 {
        lemme_rang(v.drop_last(), x);
        if rang_de(v, x) is None && v.contains(x) {
            let k = choose|k: int| 0 <= k < v.len() && v[k] == x;
            if k < v.len() - 1 {
                assert(v.drop_last()[k] == x);
            }
        }
    }
}

/// Cherche un texte dans une suite.
pub fn chercher(v: &Vec<Vec<char>>, x: &[char]) -> (r: Option<usize>)
    ensures
        match r {
            Some(i) => rang_de(vues(v@), x@) == Some(i as int) && i < v@.len(),
            None => rang_de(vues(v@), x@) is None,
        },
{
    let ghost w = vues(v@);
    let mut r: Option<usize> = None;
    let mut i: usize = 0;
    assert(w.take(0) =~= Seq::<Seq<char>>::empty());
    while i < v.len()
        invariant
            i <= v@.len(),
            w == vues(v@),
            match r {
                Some(k) => rang_de(w.take(i as int), x@) == Some(k as int) && k < i,
                None => rang_de(w.take(i as int), x@) is None,
            },
        decreases v@.len() - i,
    {
        proof {
            assert(w.take(i + 1).drop_last() =~= w.take(i as int));
            assert(w.take(i + 1).last() == v@[i as int]@);
        }
        if r.is_none() && memes_caracteres(v[i].as_slice(), x) {
            r = Some(i);
        }
        i += 1;
    }
    assert(w.take(w.len() as int) =~= w);
    r
}

/// Le texte ne porte pas ce caractère.
pub open spec fn sans(s: Seq<char>, c: char) -> bool {
    forall|i: int| 0 <= i < s.len() ==> #[trigger] s[i] != c
}

/// Un texte sans séparateur prolonge le dernier morceau.
proof fn lemme_prolonger(s: Seq<char>, t: Seq<char>, sep: char)
    requires
        sans(t, sep),
    ensures
        morceaux(s + t, sep) == morceaux(s, sep).drop_last().push(morceaux(s, sep).last() + t),
    decreases t.len(),
{
    lemme_morceaux_non_vides(s, sep);
    let m = morceaux(s, sep);
    if t.len() == 0 {
        assert(s + t =~= s);
        assert(m.last() + t =~= m.last());
        assert(m.drop_last().push(m.last()) =~= m);
    } else {
        let u = t.drop_last();
        assert forall|i: int| 0 <= i < u.len() implies #[trigger] u[i] != sep by {
            assert(t[i] == u[i]);
        }
        lemme_prolonger(s, u, sep);
        assert((s + t).drop_last() =~= s + u);
        assert((s + t).last() == t.last());
        assert(t[t.len() - 1] != sep);
        let mu = m.drop_last().push(m.last() + u);
        assert(mu.drop_last() =~= m.drop_last());
        assert((m.last() + u).push(t.last()) =~= m.last() + t);
    }
}

/// Couper ce qui a été joint rend les textes joints, s'ils ne portent pas le séparateur.
pub proof fn couper_defait_joindre(v: Seq<Seq<char>>, sep: char)
    requires
        v.len() >= 1,
        forall|i: int| 0 <= i < v.len() ==> sans(#[trigger] v[i], sep),
    ensures
        morceaux(joints(v, seq![sep]), sep) == v,
    decreases v.len(),
{
    let vide = Seq::<char>::empty();
    assert(sans(v[v.len() - 1], sep));
    if v.len() == 1 {
        lemme_prolonger(vide, v[0], sep);
        assert(vide + v[0] =~= v[0]);
        assert(morceaux(vide, sep).drop_last().push(v[0]) =~= v);
    } else {
        let u = v.drop_last();
        assert forall|i: int| 0 <= i < u.len() implies sans(#[trigger] u[i], sep) by {
            assert(u[i] == v[i]);
        }
        couper_defait_joindre(u, sep);
        let a = joints(u, seq![sep]);
        let b = a + seq![sep];
        assert(b.drop_last() =~= a);
        assert(morceaux(b, sep) =~= u.push(vide));
        lemme_prolonger(b, v.last(), sep);
        assert(vide + v.last() =~= v.last());
        assert(u.push(vide).drop_last().push(v.last()) =~= v);
    }
}

/// Les morceaux ne portent pas le séparateur, ni rien que le texte ne porte.
pub proof fn lemme_morceaux_sans(s: Seq<char>, sep: char, c: char)
    requires
        c == sep || sans(s, c),
    ensures
        forall|i: int| 0 <= i < morceaux(s, sep).len() ==> sans(#[trigger] morceaux(s, sep)[i], c),
    decreases s.len(),
{
    if s.len() > 0 {
        let t = s.drop_last();
        assert(c != sep ==> sans(t, c)) by {
            assert forall|i: int| 0 <= i < t.len() && c != sep implies #[trigger] t[i] != c by {
                assert(s[i] == t[i]);
            }
        }
        lemme_morceaux_sans(t, sep, c);
        lemme_morceaux_non_vides(t, sep);
        let m = morceaux(t, sep);
        let r = morceaux(s, sep);
        assert(c != sep ==> s[s.len() - 1] != c);
        assert forall|i: int| 0 <= i < r.len() implies sans(#[trigger] r[i], c) by {
            if s.last() == sep {
                if i < m.len() {
                    assert(r[i] == m[i]);
                }
            } else if i < m.len() - 1 {
                assert(r[i] == m[i]);
            } else {
                assert(sans(m[m.len() - 1], c));
                assert(r[i] == m.last().push(s.last()));
            }
        }
    }
}

/// Ce qui suit ne change que le dernier morceau.
proof fn lemme_morceaux_stables(s: Seq<char>, t: Seq<char>, sep: char)
    ensures
        morceaux(s + t, sep).len() >= morceaux(s, sep).len(),
        forall|i: int|
            0 <= i < morceaux(s, sep).len() - 1 ==> #[trigger] morceaux(s + t, sep)[i] == morceaux(
                s,
                sep,
            )[i],
    decreases t.len(),
{
    lemme_morceaux_non_vides(s, sep);
    if t.len() == 0 {
        assert(s + t =~= s);
    } else {
        lemme_morceaux_stables(s, t.drop_last(), sep);
        assert((s + t).drop_last() =~= s + t.drop_last());
        assert((s + t).last() == t.last());
    }
}

/// La première ligne d'un texte est ce qui précède sa première fin de ligne.
pub proof fn la_premiere_ligne(a: Seq<char>, suite: Seq<char>)
    requires
        sans(a, '\n'),
        a.len() > 0,
        a.last() != '\r',
    ensures
        lignes_de(a + seq!['\n'] + suite).len() >= 1,
        lignes_de(a + seq!['\n'] + suite)[0] == a,
{
    let vide = Seq::<char>::empty();
    lemme_prolonger(vide, a, '\n');
    assert(vide + a =~= a);
    assert(morceaux(a, '\n') =~= seq![a]);
    let b = a + seq!['\n'];
    assert(b.drop_last() =~= a);
    assert(morceaux(b, '\n') =~= seq![a, vide]);
    lemme_morceaux_stables(b, suite, '\n');
    let m = morceaux(b + suite, '\n');
    assert(m[0] == a);
    assert(m.drop_last()[0] == a);
}

/// Le premier rang d'un texte qui n'apparaît qu'une fois.
pub proof fn lemme_rang_seul(v: Seq<Seq<char>>, k: int)
    requires
        0 <= k < v.len(),
        forall|i: int| 0 <= i < v.len() && i != k ==> #[trigger] v[i] != v[k],
    ensures
        rang_de(v, v[k]) == Some(k),
{
    lemme_rang(v, v[k]);
    assert(v.contains(v[k]));
}

/// L'ordre alphabétique des caractères.
pub open spec fn lexicographique(a: Seq<char>, b: Seq<char>) -> bool
    decreases a.len(),
{
    if b.len() == 0 {
        false
    } else if a.len() == 0 {
        true
    } else if a[0] != b[0] {
        a[0] < b[0]
    } else {
        lexicographique(a.skip(1), b.skip(1))
    }
}

/// `a` vient-il avant `b` dans l'ordre alphabétique ?
pub fn vient_avant(a: &[char], b: &[char]) -> (r: bool)
    ensures
        r == lexicographique(a@, b@),
{
    let mut i: usize = 0;
    assert(a@.skip(0) =~= a@ && b@.skip(0) =~= b@);
    while i < a.len() && i < b.len()
        invariant
            i <= a@.len(),
            i <= b@.len(),
            lexicographique(a@, b@) == lexicographique(a@.skip(i as int), b@.skip(i as int)),
        decreases a@.len() - i,
    {
        proof {
            assert(a@.skip(i as int).skip(1) =~= a@.skip(i + 1));
            assert(b@.skip(i as int).skip(1) =~= b@.skip(i + 1));
        }
        if a[i] != b[i] {
            return a[i] < b[i];
        }
        i += 1;
    }
    i < b.len()
}

/// L'ordre de listes de textes : le premier qui diffère décide.
pub open spec fn listes_lexicographiques(a: Seq<Seq<char>>, b: Seq<Seq<char>>) -> bool
    decreases a.len(),
{
    if b.len() == 0 {
        false
    } else if a.len() == 0 {
        true
    } else if a[0] != b[0] {
        lexicographique(a[0], b[0])
    } else {
        listes_lexicographiques(a.skip(1), b.skip(1))
    }
}

/// Une liste vient-elle avant l'autre ?
pub fn liste_vient_avant(a: &Vec<Vec<char>>, b: &Vec<Vec<char>>) -> (r: bool)
    ensures
        r == listes_lexicographiques(vues(a@), vues(b@)),
{
    let ghost (va, vb) = (vues(a@), vues(b@));
    let mut i: usize = 0;
    assert(va.skip(0) =~= va && vb.skip(0) =~= vb);
    while i < a.len() && i < b.len()
        invariant
            i <= a@.len(),
            i <= b@.len(),
            va == vues(a@),
            vb == vues(b@),
            listes_lexicographiques(va, vb) == listes_lexicographiques(
                va.skip(i as int),
                vb.skip(i as int),
            ),
        decreases a@.len() - i,
    {
        proof {
            assert(va.skip(i as int).skip(1) =~= va.skip(i + 1));
            assert(vb.skip(i as int).skip(1) =~= vb.skip(i + 1));
            assert(va.skip(i as int)[0] == a@[i as int]@);
            assert(vb.skip(i as int)[0] == b@[i as int]@);
        }
        if !memes_caracteres(a[i].as_slice(), b[i].as_slice()) {
            return vient_avant(a[i].as_slice(), b[i].as_slice());
        }
        i += 1;
    }
    i < b.len()
}

/// L'ordre alphabétique est strict, transitif, et départage tout ce qui diffère.
pub proof fn l_ordre_alphabetique_est_total(a: Seq<char>, b: Seq<char>, c: Seq<char>)
    ensures
        !lexicographique(a, a),
        lexicographique(a, b) && lexicographique(b, c) ==> lexicographique(a, c),
        lexicographique(a, b) || lexicographique(b, a) || a == b,
    decreases a.len() + b.len(),
{
    if a.len() > 0 {
        if b.len() > 0 {
            l_ordre_alphabetique_est_total(
                a.skip(1),
                b.skip(1),
                if c.len() > 0 {
                    c.skip(1)
                } else {
                    c
                },
            );
            if a[0] == b[0] && a.skip(1) == b.skip(1) {
                assert(a =~= b) by {
                    assert forall|i: int| 0 <= i < a.len() implies a[i] == b[i] by {
                        if i > 0 {
                            assert(a.skip(1)[i - 1] == b.skip(1)[i - 1]);
                        }
                    }
                    assert(a.skip(1).len() == b.skip(1).len());
                }
            }
        } else {
            l_ordre_alphabetique_est_total(a.skip(1), b, c);
        }
    } else if b.len() == 0 {
        assert(a =~= b);
    }
}

/// L'ordre des listes de textes est strict, transitif, et départage tout ce qui diffère.
pub proof fn l_ordre_des_listes_est_total(a: Seq<Seq<char>>, b: Seq<Seq<char>>, c: Seq<Seq<char>>)
    ensures
        !listes_lexicographiques(a, a),
        listes_lexicographiques(a, b) && listes_lexicographiques(b, c) ==> listes_lexicographiques(
            a,
            c,
        ),
        listes_lexicographiques(a, b) || listes_lexicographiques(b, a) || a == b,
    decreases a.len() + b.len(),
{
    if a.len() > 0 {
        if b.len() > 0 {
            l_ordre_des_listes_est_total(
                a.skip(1),
                b.skip(1),
                if c.len() > 0 {
                    c.skip(1)
                } else {
                    c
                },
            );
            if c.len() > 0 {
                l_ordre_alphabetique_est_total(a[0], b[0], c[0]);
                l_ordre_alphabetique_est_total(b[0], a[0], b[0]);
                l_ordre_alphabetique_est_total(b[0], c[0], b[0]);
            }
            l_ordre_alphabetique_est_total(a[0], b[0], a[0]);
            if a[0] == b[0] && a.skip(1) == b.skip(1) {
                assert(a =~= b) by {
                    assert forall|i: int| 0 <= i < a.len() implies a[i] == b[i] by {
                        if i > 0 {
                            assert(a.skip(1)[i - 1] == b.skip(1)[i - 1]);
                        }
                    }
                    assert(a.skip(1).len() == b.skip(1).len());
                }
            }
        } else {
            l_ordre_des_listes_est_total(a.skip(1), b, c);
        }
    } else if b.len() == 0 {
        assert(a =~= b);
    }
}

/// Ce qui est rangé entre deux listes de même début a ce début.
pub proof fn lemme_entre_deux(a: Seq<Seq<char>>, b: Seq<Seq<char>>, c: Seq<Seq<char>>, k: int)
    requires
        0 <= k <= a.len(),
        a.len() == b.len() == c.len(),
        a.take(k) == c.take(k),
        !listes_lexicographiques(b, a),
        !listes_lexicographiques(c, b),
    ensures
        b.take(k) == a.take(k),
    decreases k,
{
    if k > 0 {
        assert(a.take(k)[0] == c.take(k)[0]);
        l_ordre_alphabetique_est_total(a[0], b[0], a[0]);
        assert(a[0] == b[0]);
        assert(a.skip(1).take(k - 1) =~= c.skip(1).take(k - 1)) by {
            assert forall|i: int| 0 <= i < k - 1 implies a.skip(1)[i] == c.skip(1)[i] by {
                assert(a.take(k)[i + 1] == c.take(k)[i + 1]);
            }
        }
        lemme_entre_deux(a.skip(1), b.skip(1), c.skip(1), k - 1);
        assert(b.take(k) =~= a.take(k)) by {
            assert forall|i: int| 0 <= i < k implies b[i] == a[i] by {
                if i > 0 {
                    assert(b.skip(1).take(k - 1)[i - 1] == a.skip(1).take(k - 1)[i - 1]);
                }
            }
        }
    } else {
        assert(b.take(k) =~= a.take(k));
    }
}

/// La minuscule ASCII d'un caractère.
pub open spec fn minuscule(c: char) -> char {
    if 'A' <= c && c <= 'Z' {
        (c as u32 + 32) as char
    } else {
        c
    }
}

/// Le texte en minuscules ASCII.
pub open spec fn minuscules_de(s: Seq<char>) -> Seq<char> {
    Seq::new(s.len(), |i: int| minuscule(s[i]))
}

fn en_minuscule(c: char) -> (m: char)
    ensures
        m == minuscule(c),
{
    if 'A' <= c && c <= 'Z' {
        ((c as u8) + 32) as char
    } else {
        c
    }
}

/// Met un texte en minuscules ASCII.
pub fn minuscules(s: &[char]) -> (v: Vec<char>)
    ensures
        v@ == minuscules_de(s@),
{
    let mut v: Vec<char> = Vec::new();
    let mut i: usize = 0;
    while i < s.len()
        invariant
            i <= s@.len(),
            v@ =~= minuscules_de(s@.take(i as int)),
        decreases s@.len() - i,
    {
        v.push(en_minuscule(s[i]));
        i += 1;
    }
    assert(s@.take(i as int) =~= s@);
    v
}

/// Le texte sans aucun `c`.
pub open spec fn prive_de(s: Seq<char>, c: char) -> Seq<char>
    decreases s.len(),
{
    if s.len() == 0 {
        s
    } else if s.last() == c {
        prive_de(s.drop_last(), c)
    } else {
        prive_de(s.drop_last(), c).push(s.last())
    }
}

/// Ôte tous les `c` d'un texte.
pub fn priver(s: &[char], c: char) -> (v: Vec<char>)
    ensures
        v@ == prive_de(s@, c),
{
    let mut v: Vec<char> = Vec::new();
    let mut i: usize = 0;
    while i < s.len()
        invariant
            i <= s@.len(),
            v@ == prive_de(s@.take(i as int), c),
        decreases s@.len() - i,
    {
        proof {
            assert(s@.take(i + 1).drop_last() =~= s@.take(i as int));
            assert(s@.take(i + 1).last() == s@[i as int]);
        }
        if s[i] != c {
            v.push(s[i]);
        }
        i += 1;
    }
    assert(s@.take(i as int) =~= s@);
    v
}

/// La place du premier `c`, s'il y en a un.
pub open spec fn premier(s: Seq<char>, c: char) -> Option<int>
    decreases s.len(),
{
    if s.len() == 0 {
        None
    } else if s[0] == c {
        Some(0)
    } else {
        match premier(s.skip(1), c) {
            Some(k) => Some(k + 1),
            None => None,
        }
    }
}

/// Cherche le premier `c`.
pub fn chercher_caractere(s: &[char], c: char) -> (r: Option<usize>)
    ensures
        match r {
            Some(k) => premier(s@, c) == Some(k as int) && k < s@.len() && s@[k as int] == c,
            None => premier(s@, c) is None,
        },
{
    let mut i: usize = 0;
    assert(s@.skip(0) =~= s@);
    while i < s.len()
        invariant
            i <= s@.len(),
            premier(s@, c) == match premier(s@.skip(i as int), c) {
                Some(k) => Some(k + i),
                None => None,
            },
        decreases s@.len() - i,
    {
        proof {
            assert(s@.skip(i as int).skip(1) =~= s@.skip(i + 1));
            assert(s@.skip(i as int)[0] == s@[i as int]);
        }
        if s[i] == c {
            return Some(i);
        }
        i += 1;
    }
    None
}

/// Ajouter une ligne terminée à un texte vide ou terminé ajoute cette ligne aux siennes.
pub proof fn une_ligne_s_ajoute(contenu: Seq<char>, ligne: Seq<char>)
    requires
        contenu.len() == 0 || contenu.last() == '\n',
        sans(ligne, '\n'),
        ligne.len() == 0 || ligne.last() != '\r',
    ensures
        lignes_de(contenu + ligne + seq!['\n']) == lignes_de(contenu).push(ligne),
{
    let m = morceaux(contenu, '\n');
    lemme_morceaux_non_vides(contenu, '\n');
    let vide = Seq::<char>::empty();
    assert(m.last() =~= vide) by {
        if contenu.len() == 0 {
            assert(m =~= seq![vide]);
        }
    }
    lemme_prolonger(contenu, ligne, '\n');
    let avec = contenu + ligne;
    let n = morceaux(avec, '\n');
    assert(m.last() + ligne =~= ligne);
    assert(n == m.drop_last().push(ligne));
    let fin = avec + seq!['\n'];
    assert(fin.drop_last() =~= avec);
    assert(fin.last() == '\n');
    assert(morceaux(fin, '\n') == n.push(vide));
    let f = |l: Seq<char>| sans_retour(l);
    assert(n.push(vide).drop_last() =~= n);
    assert(sans_retour(ligne) == ligne);
    assert(n.map_values(f) =~= m.drop_last().map_values(f).push(ligne));
}

/// Un texte sans blanc à ses deux bouts n'a rien à rogner.
pub proof fn lemme_deja_rogne(s: Seq<char>)
    requires
        s.len() > 0 ==> !blanc(s[0]) && !blanc(s.last()),
    ensures
        rogne(s) == s,
{
}

/// Un texte qui n'est pas vide a une ligne au moins.
pub proof fn lemme_une_ligne_au_moins(s: Seq<char>)
    requires
        s.len() > 0,
    ensures
        lignes_de(s).len() > 0,
{
    lemme_morceaux_non_vides(s.drop_last(), '\n');
}

} // verus!
