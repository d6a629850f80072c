//! Ce qu'une valeur JSON est, et comment elle s'écrit sans blancs.

#[allow(unused_imports)]
use crate::fixe::ecrit;
use crate::texte::{ajouter, caracteres};
use vstd::prelude::*;

verus! {

/// Une valeur JSON : un entier naturel, un texte, un tableau ou un objet.
pub enum Json {
    Nombre(nat),
    Texte(Seq<char>),
    Tableau(Seq<Json>),
    Objet(Seq<(Seq<char>, Json)>),
}

/// Le chiffre hexadécimal d'une valeur de moins de seize.
pub open spec fn hexa(n: int) -> char {
    if n < 10 {
        ('0' as int + n) as char
    } else {
        ('a' as int + n - 10) as char
    }
}

/// Un caractère tel qu'il s'écrit entre guillemets.
pub open spec fn echappement(c: char) -> Seq<char> {
    if c == '"' || c == '\\' {
        seq!['\\', c]
    } else if c == '\n' {
        seq!['\\', 'n']
    } else if c == '\r' {
        seq!['\\', 'r']
    } else if c == '\t' {
        seq!['\\', 't']
    } else if c == '\u{8}' {
        seq!['\\', 'b']
    } else if c == '\u{c}' {
        seq!['\\', 'f']
    } else if (c as int) < 32 {
        seq!['\\', 'u', '0', '0', hexa(c as int / 16), hexa(c as int % 16)]
    } else {
        seq![c]
    }
}

/// Un texte échappé, caractère après caractère.
pub open spec fn echappes(s: Seq<char>) -> Seq<char>
    decreases s.len(),
{
    if s.len() == 0 {
        Seq::empty()
    } else {
        echappement(s[0]) + echappes(s.skip(1))
    }
}

/// Un texte JSON : ses guillemets, et ce qu'ils demandent d'échapper.
pub open spec fn texte_cite(s: Seq<char>) -> Seq<char> {
    seq!['"'] + echappes(s) + seq!['"']
}

/// Un texte entre guillemets, par `serde_json::to_string`.
///
/// Le guillemet et la barre oblique inverse s'écrivent derrière une barre oblique inverse ;
/// la fin de ligne, le retour, la tabulation, l'effacement et le saut de page par leur
/// lettre ; les autres caractères de contrôle par leurs quatre chiffres hexadécimaux, en
/// minuscules ; tout le reste tel quel. Écrire un texte n'échoue pas.
#[verifier::external_body]
pub(crate) fn citer(s: &str) -> (r: String)
    ensures
        r@ == texte_cite(s@),
{
    serde_json::to_string(s).expect("un texte s'écrit toujours")
}

/// L'écriture d'une valeur, sans blancs.
pub open spec fn json_ecrit(j: Json) -> Seq<char>
    decreases j,
{
    match j {
        Json::Nombre(n) => ecrit(n),
        Json::Texte(s) => texte_cite(s),
        Json::Tableau(v) => seq!['['] + elements_ecrits(v) + seq![']'],
        Json::Objet(v) => seq!['{'] + membres_ecrits(v) + seq!['}'],
    }
}

/// Les éléments d'un tableau, séparés par des virgules.
pub open spec fn elements_ecrits(v: Seq<Json>) -> Seq<char>
    decreases v,
{
    if v.len() == 0 {
        Seq::empty()
    } else if v.len() == 1 {
        json_ecrit(v[0])
    } else {
        elements_ecrits(v.subrange(0, v.len() - 1)) + seq![','] + json_ecrit(v[v.len() - 1])
    }
}

/// Un membre d'objet : son nom, puis sa valeur.
pub open spec fn membre_ecrit(nom: Seq<char>, valeur: Seq<char>) -> Seq<char> {
    texte_cite(nom) + seq![':'] + valeur
}

/// Les membres d'un objet, séparés par des virgules.
pub open spec fn membres_ecrits(v: Seq<(Seq<char>, Json)>) -> Seq<char>
    decreases v,
{
    if v.len() == 0 {
        Seq::empty()
    } else {
        let m = v[v.len() - 1];
        let membre = membre_ecrit(m.0, json_ecrit(m.1));
        if v.len() == 1 {
            membre
        } else {
            membres_ecrits(v.subrange(0, v.len() - 1)) + seq![','] + membre
        }
    }
}

/// Un membre d'objet, sa valeur déjà écrite.
pub(crate) fn membre(nom: &str, valeur: &[char]) -> (v: Vec<char>)
    ensures
        v@ == membre_ecrit(nom@, valeur@),
{
    let mut v: Vec<char> = caracteres(citer(nom).as_str());
    v.push(':');
    ajouter(&mut v, valeur);
    assert(v@ =~= membre_ecrit(nom@, valeur@));
    v
}

/// Un contenu entre deux bornes.
pub(crate) fn borner(avant: char, contenu: &[char], apres: char) -> (v: Vec<char>)
    ensures
        v@ == seq![avant] + contenu@ + seq![apres],
{
    let mut v: Vec<char> = Vec::new();
    v.push(avant);
    ajouter(&mut v, contenu);
    v.push(apres);
    assert(v@ =~= seq![avant] + contenu@ + seq![apres]);
    v
}

/// Un objet de trois membres, déjà écrits.
pub(crate) fn objet_de_trois(a: &[char], b: &[char], c: &[char]) -> (v: Vec<char>)
    ensures
        v@ == seq!['{'] + (a@ + seq![','] + b@ + seq![','] + c@) + seq!['}'],
{
    let mut v: Vec<char> = Vec::new();
    ajouter(&mut v, a);
    v.push(',');
    ajouter(&mut v, b);
    v.push(',');
    ajouter(&mut v, c);
    assert(v@ =~= a@ + seq![','] + b@ + seq![','] + c@);
    borner('{', v.as_slice(), '}')
}

pub(crate) proof fn lemme_un_membre(a: (Seq<char>, Json))
    ensures
        json_ecrit(Json::Objet(seq![a])) == seq!['{'] + membre_ecrit(a.0, json_ecrit(a.1)) + seq![
            '}',
        ],
{
    reveal_with_fuel(membres_ecrits, 2);
}

pub(crate) proof fn lemme_trois_membres(
    a: (Seq<char>, Json),
    b: (Seq<char>, Json),
    c: (Seq<char>, Json),
)
    ensures
        json_ecrit(Json::Objet(seq![a, b, c])) == seq!['{'] + (membre_ecrit(a.0, json_ecrit(a.1))
            + seq![','] + membre_ecrit(b.0, json_ecrit(b.1)) + seq![','] + membre_ecrit(
            c.0,
            json_ecrit(c.1),
        )) + seq!['}'],
{
    let v = seq![a, b, c];
    assert(v.subrange(0, 2) =~= seq![a, b]);
    assert(seq![a, b].subrange(0, 1) =~= seq![a]);
    reveal_with_fuel(membres_ecrits, 4);
    assert(membres_ecrits(seq![a]) == membre_ecrit(a.0, json_ecrit(a.1)));
    assert(membres_ecrits(seq![a, b]) == membres_ecrits(seq![a]) + seq![','] + membre_ecrit(
        b.0,
        json_ecrit(b.1),
    ));
    assert(membres_ecrits(v) == membres_ecrits(seq![a, b]) + seq![','] + membre_ecrit(
        c.0,
        json_ecrit(c.1),
    ));
}

pub(crate) proof fn lemme_tableaux(a: Json)
    ensures
        json_ecrit(Json::Tableau(seq![a])) == seq!['['] + json_ecrit(a) + seq![']'],
        json_ecrit(Json::Tableau(Seq::empty())) == seq!['[', ']'],
{
    reveal_with_fuel(elements_ecrits, 2);
    assert(elements_ecrits(seq![a]) == json_ecrit(a));
    assert(json_ecrit(Json::Tableau(Seq::empty())) =~= seq!['[', ']']);
}

/// La valeur d'un chiffre hexadécimal.
pub open spec fn chiffre_hexa(c: char) -> Option<int> {
    if '0' <= c <= '9' {
        Some(c as int - '0' as int)
    } else if 'a' <= c <= 'f' {
        Some(c as int - 'a' as int + 10)
    } else {
        None
    }
}

/// Le caractère en tête d'un contenu de texte, et ce qui le suit. Un guillemet nu ou un
/// caractère de contrôle n'y a pas sa place.
pub open spec fn caractere_lu(s: Seq<char>) -> Option<(char, Seq<char>)> {
    if s.len() == 0 || s[0] == '"' || (s[0] as int) < 32 {
        None
    } else if s[0] != '\\' {
        Some((s[0], s.skip(1)))
    } else if s.len() < 2 {
        None
    } else if s[1] == '"' || s[1] == '\\' {
        Some((s[1], s.skip(2)))
    } else if s[1] == 'n' {
        Some(('\n', s.skip(2)))
    } else if s[1] == 'r' {
        Some(('\r', s.skip(2)))
    } else if s[1] == 't' {
        Some(('\t', s.skip(2)))
    } else if s[1] == 'b' {
        Some(('\u{8}', s.skip(2)))
    } else if s[1] == 'f' {
        Some(('\u{c}', s.skip(2)))
    } else if s[1] == 'u' && s.len() >= 6 && s[2] == '0' && s[3] == '0' {
        match (chiffre_hexa(s[4]), chiffre_hexa(s[5])) {
            (Some(a), Some(b)) => Some(((a * 16 + b) as char, s.skip(6))),
            _ => None,
        }
    } else {
        None
    }
}

/// Le texte qu'un contenu entre guillemets dit.
pub open spec fn contenu_lu(s: Seq<char>) -> Option<Seq<char>>
    decreases s.len(),
{
    if s.len() == 0 {
        Some(Seq::empty())
    } else {
        match caractere_lu(s) {
            None => None,
            Some((c, suite)) => if suite.len() < s.len() {
                match contenu_lu(suite) {
                    Some(reste) => Some(seq![c] + reste),
                    None => None,
                }
            } else {
                None
            },
        }
    }
}

/// Un texte cité se relit : rien de ce qu'il contient ne ferme ses guillemets, et ce qu'il
/// dit est le texte lui-même.
pub proof fn le_texte_cite_se_relit(s: Seq<char>)
    ensures
        texte_cite(s).len() >= 2,
        texte_cite(s)[0] == '"',
        texte_cite(s).last() == '"',
        contenu_lu(texte_cite(s).subrange(1, texte_cite(s).len() - 1)) == Some(s),
{
    lemme_contenu(s);
    assert(texte_cite(s).subrange(1, texte_cite(s).len() - 1) =~= echappes(s));
}

proof fn lemme_hexa(c: char)
    ensures
        (c as int) < 32 ==> ({
            &&& chiffre_hexa(hexa(c as int / 16)) == Some(c as int / 16)
            &&& chiffre_hexa(hexa(c as int % 16)) == Some(c as int % 16)
            &&& ((c as int / 16) * 16 + c as int % 16) as char == c
        }),
{
    let n: u32 = c as u32;
    assert(n == c as int);
    if n < 32 {
        let (h, b) = (n as int / 16, n as int % 16);
        assert(0 <= h < 2 && 0 <= b < 16);
        assert(hexa(h) as int == '0' as int + h);
    }
}

proof fn lemme_contenu(s: Seq<char>)
    ensures
        contenu_lu(echappes(s)) == Some(s),
    decreases s.len(),
{
    if s.len() > 0 {
        let c = s[0];
        let reste = echappes(s.skip(1));
        let t = echappes(s);
        let e = echappement(c);
        lemme_contenu(s.skip(1));
        assert(t == e + reste);
        assert(t.skip(e.len() as int) =~= reste);
        assert(caractere_lu(t) == Some((c, reste))) by {
            assert(forall|k: int| 0 <= k < e.len() ==> t[k] == e[k]);
            lemme_hexa(c);
        }
        assert(seq![c] + s.skip(1) =~= s);
    } else {
        assert(s =~= Seq::empty());
    }
}

} // verus!
