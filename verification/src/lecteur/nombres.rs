//! Les nombres tels que le rapport les écrit, et les durées telles qu'on les tape.

use crate::decimal::lire_flottant;
#[allow(unused_imports)]
use crate::decimal::flottant_lu;
use crate::fixe::fixe;
#[allow(unused_imports)]
use crate::fixe::fixe_de;
use crate::flottant::Flottant;
use crate::texte::{
    ajouter, ajouter_texte, caracteres, chercher_caractere, copie, en_texte, minuscules, rogner,
    tranche,
};
#[allow(unused_imports)]
use crate::texte::{minuscules_de, premier, prive_de, rogne, sans};
use vstd::prelude::*;

verus! {

/// Le nombre et le facteur d'une durée : son dernier caractère dit l'unité, et son absence
/// la seconde.
pub open spec fn duree_decoupee(brut: Seq<char>) -> (Seq<char>, int) {
    if brut.len() > 0 && brut.last() == 'h' {
        (brut.drop_last(), 3600)
    } else if brut.len() > 0 && brut.last() == 'm' {
        (brut.drop_last(), 60)
    } else if brut.len() > 0 && brut.last() == 's' {
        (brut.drop_last(), 1)
    } else {
        (brut, 1)
    }
}

/// Les secondes qu'une durée dit, tronquées, et jamais négatives. Ce qui n'est pas un nombre
/// n'est pas une durée : la lire comme zéro ferait tourner le suivi sans pause.
pub open spec fn duree_lue(texte: Seq<char>) -> Option<int> {
    let (nombre, facteur) = duree_decoupee(minuscules_de(rogne(texte)));
    match flottant_lu(rogne(nombre)) {
        Some(v) => if v.nan() {
            None
        } else {
            Some(v.fois(Flottant::entier(facteur as i64)).en_u64())
        },
        None => None,
    }
}

/// « 6h », « 90m », « 3600 » -> secondes.
pub fn duree(texte: &str) -> (r: Result<u64, String>)
    ensures
        match r {
            Ok(s) => duree_lue(texte@) == Some(s as int),
            Err(e) => duree_lue(texte@) is None && e@ == "durée invalide : "@ + texte@,
        },
{
    let brut: Vec<char> = minuscules(rogner(caracteres(texte).as_slice()).as_slice());
    let n: usize = brut.len();
    let facteur: i64 = if n > 0 && brut[n - 1] == 'h' {
        3600
    } else if n > 0 && brut[n - 1] == 'm' {
        60
    } else {
        1
    };
    let unite: bool = n > 0 && (brut[n - 1] == 'h' || brut[n - 1] == 'm' || brut[n - 1] == 's');
    let nombre: Vec<char> = if unite {
        tranche(brut.as_slice(), 0, n - 1)
    } else {
        copie(brut.as_slice())
    };
    proof {
        if unite {
            assert(nombre@ =~= brut@.drop_last());
        }
        assert(duree_decoupee(brut@) == (nombre@, facteur as int));
    }
    match lire_flottant(rogner(nombre.as_slice()).as_slice()) {
        Some(v) if !v.est_nan() => Ok(v.fois(Flottant::entier(facteur)).vers_u64()),
        _ => {
            let mut m: Vec<char> = caracteres("durée invalide : ");
            ajouter_texte(&mut m, texte);
            Err(en_texte(m.as_slice()))
        },
    }
}

/// Des chiffres groupés par trois depuis la droite.
pub open spec fn milliers(s: Seq<char>) -> Seq<char>
    decreases s.len(),
{
    if s.len() <= 3 {
        s
    } else {
        milliers(s.take(s.len() - 3)) + seq![','] + s.skip(s.len() - 3)
    }
}

fn grouper(s: &[char]) -> (v: Vec<char>)
    ensures
        v@ == milliers(s@),
    decreases s@.len(),
{
    let n: usize = s.len();
    if n <= 3 {
        return copie(s);
    }
    let tete: Vec<char> = tranche(s, 0, n - 3);
    let queue: Vec<char> = tranche(s, n - 3, n);
    assert(tete@ =~= s@.take(n - 3));
    assert(queue@ =~= s@.skip(n - 3));
    let mut v: Vec<char> = grouper(tete.as_slice());
    v.push(',');
    ajouter(&mut v, queue.as_slice());
    assert(v@ =~= milliers(s@));
    v
}

/// Un nombre écrit, les milliers de sa partie entière groupés.
pub open spec fn partie_groupee(brut: Seq<char>) -> Seq<char> {
    match premier(brut, '.') {
        Some(k) => milliers(brut.take(k)) + if k + 1 < brut.len() {
            brut.skip(k)
        } else {
            Seq::empty()
        },
        None => milliers(brut),
    }
}

/// Un nombre avec séparateurs de milliers.
pub open spec fn groupe_de(valeur: Flottant, decimales: nat) -> Seq<char> {
    let corps = partie_groupee(fixe_de(valeur.abs(), decimales));
    if valeur.inferieur(Flottant::nul()) {
        seq!['-'] + corps
    } else {
        corps
    }
}

/// Un nombre avec séparateurs de milliers, à `decimales` chiffres.
pub fn groupe(valeur: Flottant, decimales: usize) -> (s: Vec<char>)
    ensures
        s@ == groupe_de(valeur, decimales as nat),
{
    let brut: Vec<char> = fixe(valeur.abs(), decimales);
    let n: usize = brut.len();
    let mut corps: Vec<char> = match chercher_caractere(brut.as_slice(), '.') {
        Some(k) => {
            let tete: Vec<char> = tranche(brut.as_slice(), 0, k);
            assert(tete@ =~= brut@.take(k as int));
            let mut v: Vec<char> = grouper(tete.as_slice());
            if k + 1 < n {
                let suite: Vec<char> = tranche(brut.as_slice(), k, n);
                assert(suite@ =~= brut@.skip(k as int));
                ajouter(&mut v, suite.as_slice());
            }
            assert(v@ =~= partie_groupee(brut@));
            v
        },
        None => grouper(brut.as_slice()),
    };
    if valeur.inf(Flottant::nul()) {
        let mut v: Vec<char> = Vec::new();
        v.push('-');
        v.append(&mut corps);
        assert(v@ =~= groupe_de(valeur, decimales as nat));
        v
    } else {
        corps
    }
}

/// Un nombre dont le signe est toujours écrit.
pub open spec fn groupe_signe_de(valeur: Flottant, decimales: nat) -> Seq<char> {
    if Flottant::nul().inferieur_ou_egal(valeur) {
        seq!['+'] + groupe_de(valeur, decimales)
    } else {
        groupe_de(valeur, decimales)
    }
}

/// Comme [`groupe`], mais le signe est toujours écrit : le sens d'un flux de couverture
/// est toute l'information.
pub fn groupe_signe(valeur: Flottant, decimales: usize) -> (s: Vec<char>)
    ensures
        s@ == groupe_signe_de(valeur, decimales as nat),
{
    let mut texte: Vec<char> = groupe(valeur, decimales);
    if Flottant::nul().infeg(valeur) {
        let mut v: Vec<char> = Vec::new();
        v.push('+');
        v.append(&mut texte);
        assert(v@ =~= groupe_signe_de(valeur, decimales as nat));
        v
    } else {
        texte
    }
}

/// Un nombre qui peut manquer.
pub open spec fn optionnel_de(valeur: Option<Flottant>, decimales: nat) -> Seq<char> {
    match valeur {
        Some(v) => groupe_de(v, decimales),
        None => "n/a"@,
    }
}

/// Un nombre qui peut manquer : « n/a » s'il manque.
pub fn optionnel(valeur: Option<Flottant>, decimales: usize) -> (s: Vec<char>)
    ensures
        s@ == optionnel_de(valeur, decimales as nat),
{
    match valeur {
        Some(v) => groupe(v, decimales),
        None => caracteres("n/a"),
    }
}

/// La plus grande valeur absolue, parmi les nombres finis. Zéro sur aucun.
pub open spec fn pic(v: Seq<Flottant>) -> Flottant
    decreases v.len(),
{
    if v.len() == 0 {
        Flottant::nul()
    } else if v.last().fini() {
        pic(v.drop_last()).max(v.last().abs())
    } else {
        pic(v.drop_last())
    }
}

fn sommet(valeurs: &[Flottant]) -> (p: Flottant)
    ensures
        p == pic(valeurs@),
{
    let mut p: Flottant = Flottant::nul();
    let mut i: usize = 0;
    while i < valeurs.len()
        invariant
            i <= valeurs@.len(),
            p == pic(valeurs@.take(i as int)),
        decreases valeurs@.len() - i,
    {
        proof {
            assert(valeurs@.take(i + 1).drop_last() =~= valeurs@.take(i as int));
            assert(valeurs@.take(i + 1).last() == valeurs@[i as int]);
        }
        if valeurs[i].est_fini() {
            p = p.max(valeurs[i].abs());
        }
        i += 1;
    }
    assert(valeurs@.take(i as int) =~= valeurs@);
    p
}

/// L'unité d'affichage de valeurs : son poids, et s'il s'agit de milliards.
pub open spec fn en_milliards(v: Seq<Flottant>) -> bool {
    Flottant::entier(1_000_000_000).inferieur_ou_egal(pic(v))
}

/// L'unité d'affichage, selon l'ordre de grandeur.
pub fn echelle(valeurs: &[Flottant]) -> (r: (Flottant, &'static str))
    ensures
        en_milliards(valeurs@) ==> r.0 == Flottant::entier(1_000_000_000) && r.1@ == "milliards"@,
        !en_milliards(valeurs@) ==> r.0 == Flottant::entier(1_000_000) && r.1@ == "millions"@,
{
    if Flottant::entier(1_000_000_000).infeg(sommet(valeurs)) {
        (Flottant::entier(1_000_000_000), "milliards")
    } else {
        (Flottant::entier(1_000_000), "millions")
    }
}

/// Le poids de l'unité d'une position : le milliard, le million, ou le millier.
pub open spec fn poids_de_position(valeur: Flottant) -> Flottant {
    if Flottant::entier(1_000_000_000).inferieur_ou_egal(valeur.abs()) {
        Flottant::entier(1_000_000_000)
    } else if Flottant::entier(1_000_000).inferieur_ou_egal(valeur.abs()) {
        Flottant::entier(1_000_000)
    } else {
        Flottant::entier(1_000)
    }
}

/// Le nom de cette unité.
pub open spec fn unite_de_position(valeur: Flottant) -> Seq<char> {
    if Flottant::entier(1_000_000_000).inferieur_ou_egal(valeur.abs()) {
        "milliards"@
    } else if Flottant::entier(1_000_000).inferieur_ou_egal(valeur.abs()) {
        "millions"@
    } else {
        "milliers"@
    }
}

/// L'unité d'une position du book, selon son ordre de grandeur.
pub fn ordre(valeur: Flottant) -> (r: (Flottant, &'static str))
    ensures
        r.0 == poids_de_position(valeur),
        r.1@ == unite_de_position(valeur),
{
    if Flottant::entier(1_000_000_000).infeg(valeur.abs()) {
        (Flottant::entier(1_000_000_000), "milliards")
    } else if Flottant::entier(1_000_000).infeg(valeur.abs()) {
        (Flottant::entier(1_000_000), "millions")
    } else {
        (Flottant::entier(1_000), "milliers")
    }
}

/// Un texte précédé d'assez d'espaces pour tenir `largeur` caractères.
pub open spec fn a_droite_de(s: Seq<char>, largeur: nat) -> Seq<char>
    decreases largeur - s.len(),
{
    if s.len() >= largeur {
        s
    } else {
        a_droite_de(seq![' '] + s, largeur)
    }
}

/// Aligne un texte à droite.
pub fn a_droite(s: &[char], largeur: usize) -> (v: Vec<char>)
    ensures
        v@ == a_droite_de(s@, largeur as nat),
{
    let mut v: Vec<char> = copie(s);
    while v.len() < largeur
        invariant
            a_droite_de(v@, largeur as nat) == a_droite_de(s@, largeur as nat),
        decreases largeur - v@.len(),
    {
        let ghost avant = v@;
        v.insert(0, ' ');
        assert(v@ =~= seq![' '] + avant);
    }
    v
}

/// Grouper les milliers n'ajoute que des virgules : les ôter rend les chiffres.
pub proof fn les_milliers_ne_changent_rien(s: Seq<char>)
    requires
        sans(s, ','),
    ensures
        prive_de(milliers(s), ',') == s,
    decreases s.len(),
{
    if s.len() <= 3 {
        lemme_deja_prive(s, ',');
    } else {
        let (t, q) = (s.take(s.len() - 3), s.skip(s.len() - 3));
        les_milliers_ne_changent_rien(t);
        lemme_deja_prive(q, ',');
        lemme_prive_somme(milliers(t) + seq![','], q, ',');
        lemme_prive_somme(milliers(t), seq![','], ',');
        assert(seq![','].drop_last() =~= Seq::<char>::empty());
        assert(prive_de(Seq::<char>::empty(), ',') =~= Seq::<char>::empty());
        assert(prive_de(seq![','], ',') =~= Seq::<char>::empty());
        assert(t + q =~= s);
    }
}

proof fn lemme_deja_prive(s: Seq<char>, c: char)
    requires
        sans(s, c),
    ensures
        prive_de(s, c) == s,
    decreases s.len(),
{
    if s.len() > 0 {
        assert(s[s.len() - 1] != c);
        assert forall|i: int| 0 <= i < s.drop_last().len() implies s.drop_last()[i] != c by {
            assert(s[i] != c);
        }
        lemme_deja_prive(s.drop_last(), c);
        assert(s.drop_last().push(s.last()) =~= s);
    }
}

proof fn lemme_prive_somme(a: Seq<char>, b: Seq<char>, c: char)
    ensures
        prive_de(a + b, c) == prive_de(a, c) + prive_de(b, c),
    decreases b.len(),
{
    if b.len() == 0 {
        assert(a + b =~= a);
        assert(prive_de(b, c) =~= Seq::empty());
        assert(prive_de(a, c) + prive_de(b, c) =~= prive_de(a, c));
    } else {
        lemme_prive_somme(a, b.drop_last(), c);
        assert((a + b).drop_last() =~= a + b.drop_last());
        assert((a + b).last() == b.last());
        if b.last() != c {
            assert(prive_de(a + b, c) =~= prive_de(a, c) + prive_de(b, c));
        }
    }
}

} // verus!
