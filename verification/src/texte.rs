//! Character-level text handling shared by the command parser and the
//! RESP layer: Unicode white space, splitting a line into words, trimming.

use vstd::prelude::*;
use vstd::string::StrSliceExecFns;

verus! {

/// The texts of a sequence of strings, as sequences of characters.
pub open spec fn vue_textes(v: Seq<String>) -> Seq<Seq<char>> {
    v.map_values(|s: String| s@)
}

/// The Unicode `White_Space` property: the characters that `char::is_whitespace`
/// accepts, and on which `str::split_whitespace` and `str::trim` cut.
pub open spec fn est_blanc(c: char) -> bool {
    let u = c as u32;
    ||| 0x9 <= u <= 0xD
    ||| u == 0x20
    ||| u == 0x85
    ||| u == 0xA0
    ||| u == 0x1680
    ||| 0x2000 <= u <= 0x200A
    ||| u == 0x2028
    ||| u == 0x2029
    ||| u == 0x202F
    ||| u == 0x205F
    ||| u == 0x3000
}

/// The words of `s`: its maximal runs of non-blank characters, in order.
/// Read from the end: a trailing blank adds nothing, a non-blank character
/// after a non-blank one extends the last word, any other non-blank character
/// starts a new word.
pub open spec fn mots(s: Seq<char>) -> Seq<Seq<char>>
    decreases s.len(),
{
    if s.len() == 0 {
        seq![]
    } else {
        let avant = mots(s.drop_last());
        let c = s.last();
        if est_blanc(c) {
            avant
        } else if s.len() >= 2 && !est_blanc(s[s.len() - 2]) {
            avant.update(avant.len() - 1, avant.last().push(c))
        } else {
            avant.push(seq![c])
        }
    }
}

/// `s` without its leading and trailing blanks.
pub open spec fn rogne(s: Seq<char>) -> Seq<char> {
    let d = debut_non_blanc(s, 0);
    let f = fin_non_blanc(s, s.len() as int);
    if f <= d {
        seq![]
    } else {
        s.subrange(d, f)
    }
}

/// The index of the first non-blank character of `s` at or after `i`
/// (`s.len()` where there is none).
pub open spec fn debut_non_blanc(s: Seq<char>, i: int) -> int
    decreases s.len() - i,
{
    if i >= s.len() {
        s.len() as int
    } else if est_blanc(s[i]) {
        debut_non_blanc(s, i + 1)
    } else {
        i
    }
}

/// One past the index of the last non-blank character of `s` before `j`
/// (`0` where there is none).
pub open spec fn fin_non_blanc(s: Seq<char>, j: int) -> int
    decreases j,
{
    if j <= 0 {
        0
    } else if est_blanc(s[j - 1]) {
        fin_non_blanc(s, j - 1)
    } else {
        j
    }
}

/// Whether `c` is a Unicode white-space character.
pub fn est_espace(c: char) -> (r: bool)
    ensures
        r == est_blanc(c),
{
    let u = c as u32;
    (0x9 <= u && u <= 0xD) || u == 0x20 || u == 0x85 || u == 0xA0 || u == 0x1680 || (0x2000
        <= u && u <= 0x200A) || u == 0x2028 || u == 0x2029 || u == 0x202F || u == 0x205F || u
        == 0x3000
}

/// The characters of `s`, in order.
pub fn caracteres(s: &str) -> (r: Vec<char>)
    ensures
        r@ == s@,
{
    let mut r: Vec<char> = Vec::new();
    for c in it: s.chars()
        invariant
            r@ == it.seq().take(it.index() as int),
    {
        r.push(c);
    }
    r
}

proof fn lemme_mots_pas(s: Seq<char>, i: int)
    requires
        0 <= i < s.len(),
    ensures
        mots(s.take(i + 1)) == ({
            let avant = mots(s.take(i));
            let c = s[i];
            if est_blanc(c) {
                avant
            } else if i >= 1 && !est_blanc(s[i - 1]) {
                avant.update(avant.len() - 1, avant.last().push(c))
            } else {
                avant.push(seq![c])
            }
        }),
{
    assert(s.take(i + 1).drop_last() =~= s.take(i));
}

/// The words of `ligne`, split on white space, as `str::split_whitespace`
/// yields them.
pub fn decouper_mots(ligne: &str) -> (r: Vec<String>)
    ensures
        r@.len() == mots(ligne@).len(),
        forall|k: int| 0 <= k < r@.len() ==> #[trigger] r@[k]@ == mots(ligne@)[k],
{
    let cs = caracteres(ligne);
    let n = cs.len();
    let ghost s = ligne@;
    let mut r: Vec<String> = Vec::new();
    let mut dans_mot = false;
    let mut debut: usize = 0;
    let mut i: usize = 0;
    while i < n
        invariant
            cs@ == s,
            s == ligne@,
            n == s.len(),
            i <= n,
            debut <= i,
            dans_mot ==> {
                &&& mots(s.take(i as int)).len() == r@.len() + 1
                &&& forall|k: int| 0 <= k < r@.len() ==> #[trigger] r@[k]@ == mots(s.take(i as int))[k]
                &&& mots(s.take(i as int)).last() == s.subrange(debut as int, i as int)
                &&& debut < i
                &&& !est_blanc(s[i - 1])
            },
            !dans_mot ==> {
                &&& mots(s.take(i as int)).len() == r@.len()
                &&& forall|k: int| 0 <= k < r@.len() ==> #[trigger] r@[k]@ == mots(s.take(i as int))[k]
                &&& (i > 0 ==> est_blanc(s[i - 1]))
            },
        decreases n - i,
    {
        let c = cs[i];
        proof {
            lemme_mots_pas(s, i as int);
        }
        if est_espace(c) {
            if dans_mot {
                let mot = ligne.substring_char(debut, i).to_owned();
                r.push(mot);
                dans_mot = false;
            }
        } else {
            if !dans_mot {
                debut = i;
                dans_mot = true;
            }
            assert(s.subrange(debut as int, i + 1) =~= s.subrange(debut as int, i as int).push(c));
        }
        i = i + 1;
    }
    if dans_mot {
        let mot = ligne.substring_char(debut, n).to_owned();
        r.push(mot);
    }
    assert(s.take(n as int) =~= s);
    r
}

proof fn lemme_debut_borne(s: Seq<char>, i: int)
    requires
        0 <= i <= s.len(),
    ensures
        i <= debut_non_blanc(s, i) <= s.len(),
    decreases s.len() - i,
{
    if i < s.len() && est_blanc(s[i]) {
        lemme_debut_borne(s, i + 1);
    }
}

proof fn lemme_fin_borne(s: Seq<char>, j: int)
    requires
        0 <= j <= s.len(),
    ensures
        0 <= fin_non_blanc(s, j) <= j,
    decreases j,
{
    if j > 0 && est_blanc(s[j - 1]) {
        lemme_fin_borne(s, j - 1);
    }
}

/// `s` without its leading and trailing white space, as `str::trim` gives it.
pub fn rogner(s: &str) -> (r: String)
    ensures
        r@ == rogne(s@),
{
    let cs = caracteres(s);
    let n = cs.len();
    let mut d: usize = 0;
    while d < n && est_espace(cs[d])
        invariant
            cs@ == s@,
            n == s@.len(),
            d <= n,
            debut_non_blanc(s@, 0) == debut_non_blanc(s@, d as int),
        decreases n - d,
    {
        d = d + 1;
    }
    let mut f: usize = n;
    while f > 0 && est_espace(cs[f - 1])
        invariant
            cs@ == s@,
            n == s@.len(),
            f <= n,
            fin_non_blanc(s@, n as int) == fin_non_blanc(s@, f as int),
        decreases f,
    {
        f = f - 1;
    }
    proof {
        lemme_debut_borne(s@, d as int);
        lemme_fin_borne(s@, f as int);
    }
    if f <= d {
        String::new()
    } else {
        s.substring_char(d, f).to_owned()
    }
}

/// What `str::to_uppercase` gives for a text: its Unicode upper-case mapping,
/// where one character may become several.
pub uninterp spec fn majuscules(s: Seq<char>) -> Seq<char>;

/// Calls `str::to_uppercase`. Claimed: the result is `majuscules` of the
/// characters of `s`, a function of them alone. What that mapping is on a given
/// text is left unsaid: it is the Unicode case table.
#[verifier::external_body]
pub(crate) fn en_majuscules(s: &str) -> (r: String)
    ensures
        r@ == majuscules(s@),
{
    s.to_uppercase()
}

/// Whether two texts hold the same characters.
pub fn meme_texte(a: &str, b: &str) -> (r: bool)
    ensures
        r == (a@ == b@),
{
    let x = a.to_owned();
    let y = b.to_owned();
    x == y
}

/// Calls `String::from` on a character. Claimed: the text holds that one
/// character, as the documentation says.
#[verifier::external_body]
pub(crate) fn texte_d_un_caractere(c: char) -> (r: String)
    ensures
        r@ == seq![c],
{
    String::from(c)
}

/// What `format!("{:?}", s)` writes for a text: the text in double quotes,
/// with the characters that need it escaped.
pub uninterp spec fn texte_debug(s: Seq<char>) -> Seq<char>;

/// Writes the `Debug` text of `s` with `format!`. Claimed: the text is
/// `texte_debug` of the characters of `s`, a function of them alone. Which
/// characters are escaped, and how, is left unsaid: it rests on Unicode tables.
#[verifier::external_body]
pub(crate) fn debug_texte(s: &str) -> (r: String)
    ensures
        r@ == texte_debug(s@),
{
    format!("{:?}", s)
}

/// What `String::from_utf8_lossy` gives for a byte string: its characters,
/// with U+FFFD in place of each sequence that is not UTF-8.
pub uninterp spec fn utf8_avec_remplacement(b: Seq<u8>) -> Seq<char>;

/// Calls `String::from_utf8_lossy` and takes the text it gives. Claimed: the
/// result is `utf8_avec_remplacement` of the bytes, a function of them alone,
/// and on valid UTF-8 it is the decoded text, as the documentation says. Where
/// the replacement characters go in invalid input is left unsaid.
#[verifier::external_body]
pub(crate) fn texte_utf8(b: &[u8]) -> (r: String)
    ensures
        r@ == utf8_avec_remplacement(b@),
        vstd::utf8::valid_utf8(b@) ==> r@ == vstd::utf8::decode_utf8(b@),
{
    String::from_utf8_lossy(b).into_owned()
}

} // verus!
