//! The RESP wire format of Redis: encoding replies, reading a request line by
//! line, and turning a request into a command line.

use vstd::prelude::*;
use vstd::string::{StrSliceExecFns, StringExecFns};
use crate::nombres::{analyse_i64, decimal, lire_i64, texte_entier, texte_erreur, texte_naturel};
use crate::nombres::{chiffre, decimal_nat, loi_entier_aller_retour};
use crate::texte::{
    debug_texte, texte_debug, caracteres, est_blanc, mots, rogne, rogner, texte_utf8, utf8_avec_remplacement, vue_textes,
};

verus! {

/// A RESP value.
#[derive(Debug)]
pub enum ValeurResp {
    SimpleString(String),
    Error(String),
    Integer(i64),
    BulkString(String),
    Null,
    Array(Vec<ValeurResp>),
}

/// A RESP value, with its texts as sequences of characters.
pub enum ValeurVue {
    SimpleString(Seq<char>),
    Error(Seq<char>),
    Integer(i64),
    BulkString(Seq<char>),
    Null,
    Array(Seq<ValeurVue>),
}

impl ValeurResp {
    /// The value with its texts as sequences of characters.
    pub open spec fn vue(&self) -> ValeurVue
        decreases self,
    {
        match self {
            ValeurResp::SimpleString(s) => ValeurVue::SimpleString(s@),
            ValeurResp::Error(s) => ValeurVue::Error(s@),
            ValeurResp::Integer(n) => ValeurVue::Integer(*n),
            ValeurResp::BulkString(s) => ValeurVue::BulkString(s@),
            ValeurResp::Null => ValeurVue::Null,
            ValeurResp::Array(v) => ValeurVue::Array(
                Seq::new(
                    v@.len(),
                    |i: int|
                        if 0 <= i < v@.len() {
                            v@[i].vue()
                        } else {
                            ValeurVue::Null
                        },
                ),
            ),
        }
    }
}

/// The `Debug` text of a RESP value: the variant's name and, in brackets,
/// the `Debug` text of its text, its integer in decimal, or its elements in
/// square brackets separated by `, `.
pub open spec fn texte_debug_resp(v: ValeurVue) -> Seq<char>
    decreases v,
{
    match v {
        ValeurVue::SimpleString(s) => "SimpleString("@ + texte_debug(s) + ")"@,
        ValeurVue::Error(s) => "Error("@ + texte_debug(s) + ")"@,
        ValeurVue::Integer(n) => "Integer("@ + decimal(n as int) + ")"@,
        ValeurVue::BulkString(s) => "BulkString("@ + texte_debug(s) + ")"@,
        ValeurVue::Null => "Null"@,
        ValeurVue::Array(e) => "Array(["@ + texte_debug_liste(e) + "])"@,
    }
}

/// The `Debug` texts of the values `e`, separated by `, `.
pub open spec fn texte_debug_liste(e: Seq<ValeurVue>) -> Seq<char>
    decreases e,
{
    if e.len() == 0 {
        seq![]
    } else if e.len() == 1 {
        texte_debug_resp(e[0])
    } else {
        texte_debug_liste(e.drop_last()) + ", "@ + texte_debug_resp(e.last())
    }
}

/// Writes the `Debug` text of `v` after what `out` holds.
fn ecrire_debug(v: &ValeurResp, out: &mut String)
    ensures
        final(out)@ == old(out)@ + texte_debug_resp(v.vue()),
    decreases v,
{
    match v {
        ValeurResp::SimpleString(s) => {
            out.append("SimpleString(");
            let d = debug_texte(s.as_str());
            out.append(d.as_str());
            out.append(")");
        },
        ValeurResp::Error(s) => {
            out.append("Error(");
            let d = debug_texte(s.as_str());
            out.append(d.as_str());
            out.append(")");
        },
        ValeurResp::Integer(n) => {
            out.append("Integer(");
            let d = texte_entier(*n);
            out.append(d.as_str());
            out.append(")");
        },
        ValeurResp::BulkString(s) => {
            out.append("BulkString(");
            let d = debug_texte(s.as_str());
            out.append(d.as_str());
            out.append(")");
        },
        ValeurResp::Null => {
            out.append("Null");
        },
        ValeurResp::Array(elements) => {
            let ghost e = v.vue()->Array_0;
            out.append("Array([");
            let ghost debut = out@;
            let n = elements.len();
            let mut i: usize = 0;
            while i < n
                invariant
                    n == elements@.len(),
                    *v == ValeurResp::Array(*elements),
                    e.len() == n,
                    forall|k: int| 0 <= k < n ==> #[trigger] e[k] == elements@[k].vue(),
                    i <= n,
                    out@ == debut + texte_debug_liste(e.take(i as int)),
                decreases n - i,
            {
                proof {
                    assert(e.take(i + 1).drop_last() =~= e.take(i as int));
                    assert(e.take(i + 1).last() == elements@[i as int].vue());
                    assert(*elements == v->Array_0);
                    assert(decreases_to!(*v => v->Array_0));
                    assert(decreases_to!(v->Array_0 => v->Array_0@));
                    assert(decreases_to!(elements@ => elements@[i as int]));
                    assert(decreases_to!(v => elements@[i as int]));
                }
                if i > 0 {
                    out.append(", ");
                } else {
                    assert(e.take(i as int).len() == 0);
                    assert(e.take(1)[0] == e[0]);
                }
                ecrire_debug(&elements[i], out);
                i = i + 1;
            }
            proof {
                assert(e.take(n as int) =~= e);
            }
            out.append("])");
        },
    }
}

/// The `Debug` text of a RESP value, as `format!("{:?}", v)` writes it.
pub fn debug_resp(v: &ValeurResp) -> (r: String)
    ensures
        r@ == texte_debug_resp(v.vue()),
{
    let mut r = String::new();
    ecrire_debug(v, &mut r);
    r
}

/// The byte length of a text: the length of its UTF-8 encoding.
pub open spec fn octets(s: Seq<char>) -> nat {
    vstd::utf8::encode_utf8(s).len()
}

/// `+OK\r\n`, the reply that an order was done.
pub fn encoder_ok() -> (r: String)
    ensures
        r@ == "+OK\r\n"@,
{
    String::from_str("+OK\r\n")
}

/// An error reply: `-ERR ` and the message, then CRLF.
pub fn encoder_erreur(message: &str) -> (r: String)
    ensures
        r@ == "-ERR "@ + message@ + "\r\n"@,
{
    let mut r = String::from_str("-ERR ");
    r.append(message);
    r.append("\r\n");
    r
}

/// An integer reply: `:`, the integer in decimal, then CRLF.
pub fn encoder_entier(n: i64) -> (r: String)
    ensures
        r@ == ":"@ + decimal(n as int) + "\r\n"@,
{
    let mut r = String::from_str(":");
    let t = texte_entier(n);
    r.append(t.as_str());
    r.append("\r\n");
    r
}

/// A bulk-string reply: `$`, the byte length of `s` in decimal, CRLF, `s`,
/// then CRLF.
pub fn encoder_chaine(s: &str) -> (r: String)
    ensures
        r@ == "$"@ + decimal(octets(s@) as usize as int) + "\r\n"@ + s@ + "\r\n"@,
{
    let mut r = String::from_str("$");
    let t = texte_naturel(s.len());
    r.append(t.as_str());
    r.append("\r\n");
    r.append(s);
    r.append("\r\n");
    r
}

/// The null reply `$-1\r\n`.
pub fn encoder_null() -> (r: String)
    ensures
        r@ == "$-1\r\n"@,
{
    String::from_str("$-1\r\n")
}

/// An array reply: `*`, the number of elements in decimal, CRLF, then the
/// elements (already encoded) one after the other.
pub fn encoder_tableau(elements: Vec<String>) -> (r: String)
    ensures
        r@ == "*"@ + decimal(elements@.len() as int) + "\r\n"@ + vue_textes(elements@).flatten(),
{
    let mut r = String::from_str("*");
    let t = texte_naturel(elements.len());
    r.append(t.as_str());
    r.append("\r\n");
    let ghost tete = r@;
    let n = elements.len();
    let mut i: usize = 0;
    while i < n
        invariant
            n == elements@.len(),
            i <= n,
            r@ == tete + vue_textes(elements@.take(i as int)).flatten(),
        decreases n - i,
    {
        proof {
            assert(vue_textes(elements@.take(i + 1)) =~= vue_textes(elements@.take(i as int)).push(
                elements@[i as int]@,
            ));
            vue_textes(elements@.take(i as int)).lemma_flatten_push(elements@[i as int]@);
        }
        r.append(elements[i].as_str());
        i = i + 1;
    }
    proof {
        assert(elements@.take(n as int) =~= elements@);
    }
    r
}

/// Whether a RESP value is a text: a simple or a bulk string.
pub open spec fn est_texte(v: ValeurVue) -> bool {
    v is SimpleString || v is BulkString
}

/// The text of a simple or bulk string.
pub open spec fn texte_de(v: ValeurVue) -> Seq<char> {
    match v {
        ValeurVue::SimpleString(s) => s,
        ValeurVue::BulkString(s) => s,
        _ => seq![],
    }
}

/// The index of the first element of `e` that is not a text (`e.len()` where
/// all are).
pub open spec fn premier_non_texte(e: Seq<ValeurVue>) -> nat
    decreases e.len(),
{
    if e.len() > 0 && est_texte(e[0]) {
        1 + premier_non_texte(e.drop_first())
    } else {
        0
    }
}

/// The texts of `m` joined with `sep` between each two of them.
pub open spec fn joindre(m: Seq<Seq<char>>, sep: Seq<char>) -> Seq<char>
    decreases m.len(),
{
    if m.len() == 0 {
        seq![]
    } else if m.len() == 1 {
        m[0]
    } else {
        joindre(m.drop_last(), sep) + sep + m.last()
    }
}

/// The command line that a RESP request stands for: the texts of an array
/// joined with spaces, or a lone text; otherwise the error message.
pub open spec fn commande_de_resp(v: ValeurVue) -> Result<Seq<char>, Seq<char>> {
    match v {
        ValeurVue::Array(e) => {
            let k = premier_non_texte(e);
            if k < e.len() {
                Err("Element inattendu : "@ + texte_debug_resp(e[k as int]))
            } else {
                Ok(joindre(e.map_values(|x: ValeurVue| texte_de(x)), " "@))
            }
        },
        ValeurVue::BulkString(s) => Ok(s),
        ValeurVue::SimpleString(s) => Ok(s),
        _ => Err("Format de commande invalide : "@ + texte_debug_resp(v)),
    }
}

proof fn lemme_premier_non_texte(e: Seq<ValeurVue>, j: int)
    requires
        0 <= j <= e.len(),
        forall|i: int| 0 <= i < j ==> est_texte(#[trigger] e[i]),
    ensures
        premier_non_texte(e) >= j,
        premier_non_texte(e) <= e.len(),
        j < e.len() && !est_texte(e[j]) ==> premier_non_texte(e) == j,
    decreases e.len(),
{
    if e.len() > 0 {
        let t = e.drop_first();
        assert forall|i: int| 0 <= i < j - 1 implies est_texte(#[trigger] t[i]) by {
            assert(t[i] == e[i + 1]);
        }
        if j >= 1 {
            lemme_premier_non_texte(t, j - 1);
        } else {
            lemme_premier_non_texte(t, 0);
        }
    }
}

/// The command line of a RESP request: the strings of an array joined with
/// single spaces, or the text of a lone string. Any other element or value is
/// an error whose message shows it.
pub fn resp_vers_commande(valeur: ValeurResp) -> (r: Result<String, String>)
    ensures
        match r {
            Ok(s) => commande_de_resp(valeur.vue()) == Ok::<Seq<char>, Seq<char>>(s@),
            Err(m) => commande_de_resp(valeur.vue()) == Err::<Seq<char>, Seq<char>>(m@),
        },
{
    match valeur {
        ValeurResp::Array(elements) => {
            let ghost e = valeur.vue()->Array_0;
            let n = elements.len();
            let mut ligne = String::new();
            let mut i: usize = 0;
            while i < n
                invariant
                    n == elements@.len(),
                    valeur.vue() == ValeurVue::Array(e),
                    e.len() == n,
                    forall|k: int| 0 <= k < n ==> #[trigger] e[k] == elements@[k].vue(),
                    i <= n,
                    forall|k: int| 0 <= k < i ==> est_texte(#[trigger] e[k]),
                    ligne@ == joindre(e.take(i as int).map_values(|x: ValeurVue| texte_de(x)), " "@),
                decreases n - i,
            {
                let ghost avant = e.take(i as int).map_values(|x: ValeurVue| texte_de(x));
                let ghost apres = e.take(i + 1).map_values(|x: ValeurVue| texte_de(x));
                proof {
                    assert(apres.drop_last() =~= avant);
                }
                match &elements[i] {
                    ValeurResp::BulkString(s) => {
                        if i > 0 {
                            ligne.append(" ");
                        }
                        ligne.append(s.as_str());
                    },
                    ValeurResp::SimpleString(s) => {
                        if i > 0 {
                            ligne.append(" ");
                        }
                        ligne.append(s.as_str());
                    },
                    autre => {
                        proof {
                            assert(e[i as int] == autre.vue());
                            assert(!est_texte(e[i as int]));
                            lemme_premier_non_texte(e, i as int);
                        }
                        let mut m = String::from_str("Element inattendu : ");
                        let d = debug_resp(autre);
                        m.append(d.as_str());
                        return Err(m);
                    },
                }
                i = i + 1;
            }
            proof {
                lemme_premier_non_texte(e, n as int);
                assert(e.take(n as int) =~= e);
            }
            Ok(ligne)
        },
        ValeurResp::BulkString(s) => Ok(s),
        ValeurResp::SimpleString(s) => Ok(s),
        autre => {
            let mut m = String::from_str("Format de commande invalide : ");
            let d = debug_resp(&autre);
            m.append(d.as_str());
            Err(m)
        },
    }
}

/// What to do after reading one line of a RESP request.
#[derive(Debug)]
pub enum EtapeResp {
    /// The line is a whole value.
    Valeur(ValeurResp),
    /// A bulk string follows: read this many bytes and a CRLF.
    LireChaine(i64),
    /// An array follows: read this many values.
    LireTableau(u64),
}

/// A step, with its value as a view.
pub enum EtapeVue {
    Valeur(ValeurVue),
    LireChaine(i64),
    LireTableau(u64),
}

impl EtapeResp {
    pub open spec fn vue(&self) -> EtapeVue {
        match self {
            EtapeResp::Valeur(v) => EtapeVue::Valeur(v.vue()),
            EtapeResp::LireChaine(n) => EtapeVue::LireChaine(*n),
            EtapeResp::LireTableau(n) => EtapeVue::LireTableau(*n),
        }
    }
}

/// `s` without its trailing CRLF pairs.
pub open spec fn sans_crlf(s: Seq<char>) -> Seq<char>
    decreases s.len(),
{
    if s.len() >= 2 && s[s.len() - 2] == '\r' && s.last() == '\n' {
        sans_crlf(s.take(s.len() - 2))
    } else {
        s
    }
}

/// `s` without its trailing line feeds.
pub open spec fn sans_lf(s: Seq<char>) -> Seq<char>
    decreases s.len(),
{
    if s.len() >= 1 && s.last() == '\n' {
        sans_lf(s.drop_last())
    } else {
        s
    }
}

/// What a line of a RESP request says, once its trailing CRLF pairs and then
/// its trailing line feeds are cut: `+` and `-` give a simple string or an
/// error, `:` an integer; `$` a bulk string of that many bytes to come (null
/// for -1); `*` an array of that many values to come (null for -1, none for a
/// negative count). Otherwise the error message.
pub open spec fn etape_ligne(ligne: Seq<char>) -> Result<EtapeVue, Seq<char>> {
    let x = sans_lf(sans_crlf(ligne));
    if x.len() == 0 {
        Err("Ligne vide"@)
    } else {
        let c = x[0];
        let reste = x.drop_first();
        if c == '+' {
            Ok(EtapeVue::Valeur(ValeurVue::SimpleString(reste)))
        } else if c == '-' {
            Ok(EtapeVue::Valeur(ValeurVue::Error(reste)))
        } else if c == ':' || c == '$' || c == '*' {
            match analyse_i64(reste) {
                Err(e) => Err(texte_erreur(e)),
                Ok(n) => if c == ':' {
                    Ok(EtapeVue::Valeur(ValeurVue::Integer(n as i64)))
                } else if n == -1 {
                    Ok(EtapeVue::Valeur(ValeurVue::Null))
                } else if c == '$' {
                    Ok(EtapeVue::LireChaine(n as i64))
                } else if n < 0 {
                    Ok(EtapeVue::LireTableau(0))
                } else {
                    Ok(EtapeVue::LireTableau(n as u64))
                },
            }
        } else {
            Err("Type RESP inconnu : "@ + seq![c])
        }
    }
}

/// Reads one line of a RESP request and says what it holds or what is to be
/// read next. A line whose first character is not ASCII is left out.
pub fn interpreter_ligne(ligne: &str) -> (r: Result<EtapeResp, String>)
    requires
        ligne@.len() > 0 ==> (ligne@[0] as u32) < 0x80,
    ensures
        match r {
            Ok(e) => etape_ligne(ligne@) == Ok::<EtapeVue, Seq<char>>(e.vue()),
            Err(m) => etape_ligne(ligne@) == Err::<EtapeVue, Seq<char>>(m@),
        },
{
    let cs = caracteres(ligne);
    let ghost s = ligne@;
    let mut f: usize = cs.len();
    proof {
        assert(s.take(f as int) =~= s);
    }
    while f >= 2 && cs[f - 2] == '\r' && cs[f - 1] == '\n'
        invariant
            cs@ == s,
            f <= s.len(),
            sans_crlf(s) == sans_crlf(s.take(f as int)),
        decreases f,
    {
        proof {
            assert(s.take(f as int).take(f - 2) =~= s.take(f - 2));
        }
        f = f - 2;
    }
    let ghost g0 = f;
    proof {
        assert(sans_crlf(s) == s.take(f as int));
    }
    while f >= 1 && cs[f - 1] == '\n'
        invariant
            cs@ == s,
            f <= g0 <= s.len(),
            sans_crlf(s) == s.take(g0 as int),
            sans_lf(sans_crlf(s)) == sans_lf(s.take(f as int)),
        decreases f,
    {
        proof {
            assert(s.take(f as int).drop_last() =~= s.take(f - 1));
        }
        f = f - 1;
    }
    let ghost x = s.take(f as int);
    proof {
        assert(sans_lf(sans_crlf(s)) == x);
    }
    if f == 0 {
        proof {
            reveal_strlit("Ligne vide");
        }
        return Err(String::from_str("Ligne vide"));
    }
    let c = cs[0];
    let reste = ligne.substring_char(1, f);
    proof {
        assert(reste@ =~= x.drop_first());
    }
    if c == '+' {
        Ok(EtapeResp::Valeur(ValeurResp::SimpleString(reste.to_owned())))
    } else if c == '-' {
        Ok(EtapeResp::Valeur(ValeurResp::Error(reste.to_owned())))
    } else if c == ':' || c == '$' || c == '*' {
        match lire_i64(reste) {
            Err(e) => Err(e.message()),
            Ok(n) => {
                if c == ':' {
                    Ok(EtapeResp::Valeur(ValeurResp::Integer(n)))
                } else if n == -1 {
                    Ok(EtapeResp::Valeur(ValeurResp::Null))
                } else if c == '$' {
                    Ok(EtapeResp::LireChaine(n))
                } else if n < 0 {
                    Ok(EtapeResp::LireTableau(0))
                } else {
                    Ok(EtapeResp::LireTableau(n as u64))
                }
            },
        }
    } else {
        let mut m = String::from_str("Type RESP inconnu : ");
        let premier = ligne.substring_char(0, 1);
        proof {
            assert(premier@ =~= seq![c]);
        }
        m.append(premier);
        Err(m)
    }
}

/// The bulk string made of the first `taille` bytes read, decoded as UTF-8
/// with U+FFFD in place of what is not.
pub fn terminer_chaine(octets: &[u8], taille: usize) -> (r: ValeurResp)
    requires
        taille <= octets@.len(),
    ensures
        r.vue() == ValeurVue::BulkString(utf8_avec_remplacement(octets@.take(taille as int))),
        vstd::utf8::valid_utf8(octets@.take(taille as int)) ==> r.vue() == ValeurVue::BulkString(
            vstd::utf8::decode_utf8(octets@.take(taille as int)),
        ),
{
    let tete = &octets[0..taille];
    ValeurResp::BulkString(texte_utf8(tete))
}

/// The element count on the first line of a RESP array: the line without its
/// surrounding white space read as an `i64`, or 0 where it is not one.
pub fn compter_elements(ligne: &str) -> (r: i64)
    ensures
        r == match analyse_i64(rogne(ligne@)) {
            Ok(n) => n,
            Err(_) => 0,
        },
{
    let t = rogner(ligne);
    match lire_i64(t.as_str()) {
        Ok(n) => n,
        Err(_) => 0,
    }
}

/// What `encoder_entier` writes, `interpreter_ligne` reads back as the same
/// integer.
pub proof fn loi_entier_resp_aller_retour(n: i64)
    ensures
        etape_ligne(":"@ + decimal(n as int) + "\r\n"@) == Ok::<EtapeVue, Seq<char>>(
            EtapeVue::Valeur(ValeurVue::Integer(n)),
        ),
{
    reveal_strlit(":");
    reveal_strlit("\r\n");
    let d = decimal(n as int);
    let x = ":"@ + d;
    let l = x + "\r\n"@;
    lemme_decimal_finit_par_chiffre(n as int);
    assert(l.take(l.len() - 2) =~= x);
    assert(sans_crlf(l) == sans_crlf(x));
    assert(sans_crlf(x) == x);
    assert(sans_lf(x) == x);
    assert(x.drop_first() =~= d);
    loi_entier_aller_retour(n);
}

proof fn lemme_ligne(x: Seq<char>)
    requires
        x.len() > 0,
        x.last() != '\n',
    ensures
        sans_lf(sans_crlf(x + "\r\n"@)) == x,
{
    reveal_strlit("\r\n");
    let l = x + "\r\n"@;
    assert(l.take(l.len() - 2) =~= x);
    assert(sans_crlf(l) == sans_crlf(x));
    assert(sans_crlf(x) == x);
    assert(sans_lf(x) == x);
}

/// The replies that the encoders write read back, line by line, as the values
/// they stand for: `+OK` as the simple string `OK`, `$-1` as null, an error
/// reply as the error `ERR` and its message (one that does not end with a line
/// feed), an integer as itself; the header of a bulk string as the order to
/// read that many bytes, which then decode to the text; the header of an
/// array as the order to read that many values.
pub proof fn loi_reponses_relues(m: Seq<char>, s: Seq<char>, n: i64)
    requires
        m.len() == 0 || m.last() != '\n',
        octets(s) <= i64::MAX,
        octets(s) <= usize::MAX,
        n >= 0,
    ensures
        etape_ligne("+OK\r\n"@) == Ok::<EtapeVue, Seq<char>>(
            EtapeVue::Valeur(ValeurVue::SimpleString("OK"@)),
        ),
        etape_ligne("$-1\r\n"@) == Ok::<EtapeVue, Seq<char>>(EtapeVue::Valeur(ValeurVue::Null)),
        etape_ligne("-ERR "@ + m + "\r\n"@) == Ok::<EtapeVue, Seq<char>>(
            EtapeVue::Valeur(ValeurVue::Error("ERR "@ + m)),
        ),
        etape_ligne(":"@ + decimal(n as int) + "\r\n"@) == Ok::<EtapeVue, Seq<char>>(
            EtapeVue::Valeur(ValeurVue::Integer(n)),
        ),
        etape_ligne("$"@ + decimal(octets(s) as usize as int) + "\r\n"@) == Ok::<
            EtapeVue,
            Seq<char>,
        >(EtapeVue::LireChaine(octets(s) as i64)),
        ({
            let b = vstd::utf8::encode_utf8(s) + seq![13u8, 10u8];
            &&& b.len() == octets(s) + 2
            &&& vstd::utf8::valid_utf8(b.take(octets(s) as int))
            &&& vstd::utf8::decode_utf8(b.take(octets(s) as int)) == s
        }),
        etape_ligne("*"@ + decimal(n as int) + "\r\n"@) == Ok::<EtapeVue, Seq<char>>(
            EtapeVue::LireTableau(n as u64),
        ),
{
    reveal_strlit("+OK\r\n");
    reveal_strlit("+OK");
    reveal_strlit("OK");
    reveal_strlit("$-1\r\n");
    reveal_strlit("$-1");
    reveal_strlit("-ERR ");
    reveal_strlit("ERR ");
    reveal_strlit("\r\n");
    reveal_strlit("$");
    reveal_strlit("*");
    // +OK
    let x1 = "+OK"@;
    assert("+OK\r\n"@ =~= x1 + "\r\n"@);
    lemme_ligne(x1);
    assert(x1.drop_first() =~= "OK"@);
    // $-1
    let x2 = "$-1"@;
    assert("$-1\r\n"@ =~= x2 + "\r\n"@);
    lemme_ligne(x2);
    loi_entier_aller_retour(-1i64);
    assert(decimal(-1) =~= seq!['-', '1']) by {
        assert(chiffre(1) == '1');
    }
    assert(x2.drop_first() =~= decimal(-1));
    // -ERR m
    let x3 = "-ERR "@ + m;
    assert(x3.last() != '\n');
    lemme_ligne(x3);
    assert(x3.drop_first() =~= "ERR "@ + m);
    // :n
    loi_entier_resp_aller_retour(n);
    // $len
    let k = octets(s) as usize as int;
    assert(k == octets(s));
    let x4 = "$"@ + decimal(k);
    lemme_decimal_finit_par_chiffre(k);
    lemme_ligne(x4);
    assert(x4.drop_first() =~= decimal(k));
    loi_entier_aller_retour(k as i64);
    let b = vstd::utf8::encode_utf8(s) + seq![13u8, 10u8];
    assert(b.take(octets(s) as int) =~= vstd::utf8::encode_utf8(s));
    vstd::utf8::encode_utf8_valid_utf8(s);
    vstd::utf8::encode_utf8_decode_utf8(s);
    // *n
    let x5 = "*"@ + decimal(n as int);
    lemme_decimal_finit_par_chiffre(n as int);
    lemme_ligne(x5);
    assert(x5.drop_first() =~= decimal(n as int));
    loi_entier_aller_retour(n);
}

proof fn lemme_decimal_finit_par_chiffre(n: int)
    ensures
        decimal(n).len() >= 1,
        decimal(n).last() != '\n',
{
    let m: nat = if n < 0 {
        (-n) as nat
    } else {
        n as nat
    };
    let c = chiffre(m % 10);
    assert(c as u32 == m % 10 + 48);
    if n < 0 {
        assert(decimal(n).last() == decimal_nat(m).last());
    }
}

proof fn lemme_mots_blanc(s: Seq<char>, c: char)
    requires
        est_blanc(c),
    ensures
        mots(s.push(c)) == mots(s),
{
    assert(s.push(c).drop_last() =~= s);
}

proof fn lemme_mots_ajout(s: Seq<char>, w: Seq<char>)
    requires
        s.len() == 0 || est_blanc(s.last()),
        w.len() > 0,
        forall|i: int| 0 <= i < w.len() ==> !est_blanc(#[trigger] w[i]),
    ensures
        mots(s + w) == mots(s).push(w),
    decreases w.len(),
{
    let u = s + w;
    assert(u.drop_last() =~= s + w.drop_last());
    assert(u.last() == w.last());
    if w.len() == 1 {
        assert(u.drop_last() =~= s);
        assert(seq![w.last()] =~= w);
    } else {
        let v = w.drop_last();
        lemme_mots_ajout(s, v);
        assert(u[u.len() - 2] == v.last());
        assert(v.push(w.last()) =~= w);
        assert(mots(s).push(v).update(mots(s).len() as int, w) =~= mots(s).push(w));
    }
}

/// The texts of an array of RESP values.
pub open spec fn textes_vue(e: Seq<ValeurVue>) -> Seq<Seq<char>> {
    e.map_values(|x: ValeurVue| texte_de(x))
}

/// A RESP request made of strings that are non-empty and hold no white space
/// reaches the command parser word for word: the words of the command line are
/// the strings of the request.
pub proof fn loi_resp_mot_pour_mot(e: Seq<ValeurVue>)
    requires
        forall|i: int|
            0 <= i < e.len() ==> est_texte(#[trigger] e[i]) && texte_de(e[i]).len() > 0,
        forall|i: int, j: int|
            0 <= i < e.len() && 0 <= j < texte_de(e[i]).len() ==> !est_blanc(
                #[trigger] texte_de(e[i])[j],
            ),
    ensures
        commande_de_resp(ValeurVue::Array(e)) == Ok::<Seq<char>, Seq<char>>(
            joindre(textes_vue(e), " "@),
        ),
        mots(joindre(textes_vue(e), " "@)) == textes_vue(e),
{
    lemme_premier_non_texte(e, e.len() as int);
    lemme_mots_joindre(e, e.len() as int);
    assert(textes_vue(e).take(e.len() as int) =~= textes_vue(e));
}

proof fn lemme_mots_joindre(e: Seq<ValeurVue>, i: int)
    requires
        0 <= i <= e.len(),
        forall|i: int|
            0 <= i < e.len() ==> est_texte(#[trigger] e[i]) && texte_de(e[i]).len() > 0,
        forall|i: int, j: int|
            0 <= i < e.len() && 0 <= j < texte_de(e[i]).len() ==> !est_blanc(
                #[trigger] texte_de(e[i])[j],
            ),
    ensures
        mots(joindre(textes_vue(e).take(i), " "@)) == textes_vue(e).take(i),
    decreases i,
{
    reveal_strlit(" ");
    let m = textes_vue(e).take(i);
    if i == 0 {
        assert(m =~= Seq::<Seq<char>>::empty());
    } else {
        lemme_mots_joindre(e, i - 1);
        let w = texte_de(e[i - 1]);
        assert(m.last() == w);
        assert(m.drop_last() =~= textes_vue(e).take(i - 1));
        assert forall|j: int| 0 <= j < w.len() implies !est_blanc(#[trigger] w[j]) by {
            assert(!est_blanc(texte_de(e[i - 1])[j]));
        }
        if i == 1 {
            assert(joindre(m, " "@) == w);
            assert(Seq::<char>::empty() + w =~= w);
            lemme_mots_ajout(Seq::<char>::empty(), w);
            assert(mots(Seq::<char>::empty()) =~= Seq::<Seq<char>>::empty());
            assert(Seq::<Seq<char>>::empty().push(w) =~= m);
        } else {
            let avant = joindre(m.drop_last(), " "@);
            assert(joindre(m, " "@) == avant + " "@ + w);
            assert(avant + " "@ =~= avant.push(' '));
            assert(est_blanc(' '));
            lemme_mots_blanc(avant, ' ');
            lemme_mots_ajout(avant.push(' '), w);
            assert(m.drop_last().push(w) =~= m);
        }
    }
}

} // verus!
