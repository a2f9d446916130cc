//! Decimal integers in text: reading them as `str::parse` does for `u64` and
//! `i64`, with the same error kinds in the same order, and writing them as
//! `format!("{}", n)` does.

use vstd::prelude::*;
use vstd::string::StringExecFns;
use crate::texte::caracteres;

verus! {

/// Why a text is not an integer of the wanted type: the kinds of
/// `std::num::ParseIntError` that a decimal parse can give.
#[derive(Debug, Clone, Copy, PartialEq, Eq, Structural)]
pub enum ErreurEntier {
    /// The text is empty.
    Vide,
    /// A character that is not a decimal digit, or a lone sign.
    ChiffreInvalide,
    /// The value is above the type's maximum.
    TropGrand,
    /// The value is below the type's minimum.
    TropPetit,
}

pub open spec fn est_chiffre(c: char) -> bool {
    48 <= (c as u32) <= 57
}

pub open spec fn valeur_chiffre(c: char) -> nat {
    ((c as u32) - 48) as nat
}

/// The value of a string of decimal digits (0 for the empty string).
pub open spec fn valeur(s: Seq<char>) -> nat
    decreases s.len(),
{
    if s.len() == 0 {
        0
    } else {
        valeur(s.drop_last()) * 10 + valeur_chiffre(s.last())
    }
}

/// The length of the run of decimal digits that begins `s`.
pub open spec fn prefixe_chiffres(s: Seq<char>) -> nat
    decreases s.len(),
{
    if s.len() > 0 && est_chiffre(s[0]) {
        1 + prefixe_chiffres(s.drop_first())
    } else {
        0
    }
}

/// What `str::parse` gives for `s` on an integer type whose values run from
/// `-max_neg` to `max_pos` (a sign `-` is read only where `signe` holds).
/// The digits are read from left to right and the first failure wins: a value
/// over the bound within the leading digits, else a character that is not a
/// digit.
pub open spec fn analyse_entier(s: Seq<char>, signe: bool, max_pos: nat, max_neg: nat) -> Result<
    int,
    ErreurEntier,
> {
    if s.len() == 0 {
        Err(ErreurEntier::Vide)
    } else if s.len() == 1 && (s[0] == '+' || s[0] == '-') {
        Err(ErreurEntier::ChiffreInvalide)
    } else {
        let negatif = signe && s[0] == '-';
        let d = if s[0] == '+' || negatif {
            s.drop_first()
        } else {
            s
        };
        let k = prefixe_chiffres(d);
        let v = valeur(d.take(k as int));
        if !negatif && v > max_pos {
            Err(ErreurEntier::TropGrand)
        } else if negatif && v > max_neg {
            Err(ErreurEntier::TropPetit)
        } else if k < d.len() {
            Err(ErreurEntier::ChiffreInvalide)
        } else if negatif {
            Ok(-v)
        } else {
            Ok(v as int)
        }
    }
}

/// What `s.parse::<u64>()` gives.
pub open spec fn analyse_u64(s: Seq<char>) -> Result<int, ErreurEntier> {
    analyse_entier(s, false, u64::MAX as nat, 0)
}

/// What `s.parse::<i64>()` gives.
pub open spec fn analyse_i64(s: Seq<char>) -> Result<int, ErreurEntier> {
    analyse_entier(s, true, i64::MAX as nat, 0x8000_0000_0000_0000)
}

/// The digit character for `d < 10`.
pub open spec fn chiffre(d: nat) -> char {
    ((d + 48) as u32) as char
}

/// The decimal digits of `n`, without leading zeros.
pub open spec fn decimal_nat(n: nat) -> Seq<char>
    decreases n,
{
    if n < 10 {
        seq![chiffre(n)]
    } else {
        decimal_nat(n / 10).push(chiffre(n % 10))
    }
}

/// `n` in decimal, with a `-` before a negative value: the `Display` text of
/// an integer.
pub open spec fn decimal(n: int) -> Seq<char> {
    if n < 0 {
        seq!['-'] + decimal_nat((-n) as nat)
    } else {
        decimal_nat(n as nat)
    }
}

proof fn lemme_valeur_take(s: Seq<char>, j: int)
    requires
        0 <= j < s.len(),
    ensures
        valeur(s.take(j + 1)) == valeur(s.take(j)) * 10 + valeur_chiffre(s[j]),
{
    assert(s.take(j + 1).drop_last() =~= s.take(j));
}

proof fn lemme_prefixe(s: Seq<char>, j: int)
    requires
        0 <= j <= s.len(),
        forall|i: int| 0 <= i < j ==> est_chiffre(#[trigger] s[i]),
    ensures
        prefixe_chiffres(s) >= j,
        prefixe_chiffres(s) <= s.len(),
        j < s.len() && !est_chiffre(s[j]) ==> prefixe_chiffres(s) == j,
        forall|i: int| 0 <= i < prefixe_chiffres(s) ==> est_chiffre(#[trigger] s[i]),
    decreases s.len(),
{
    if s.len() > 0 {
        let t = s.drop_first();
        assert forall|i: int| 0 <= i < j - 1 implies est_chiffre(#[trigger] t[i]) by {
            assert(t[i] == s[i + 1]);
        }
        if j >= 1 {
            lemme_prefixe(t, j - 1);
        } else {
            lemme_prefixe(t, 0);
        }
        if est_chiffre(s[0]) {
            assert forall|i: int| 0 <= i < prefixe_chiffres(s) implies est_chiffre(
                #[trigger] s[i],
            ) by {
                if i > 0 {
                    assert(s[i] == t[i - 1]);
                }
            }
        }
    }
}

proof fn lemme_valeur_croissante(s: Seq<char>, j: int, m: int)
    requires
        0 <= j <= m <= s.len(),
    ensures
        valeur(s.take(j)) <= valeur(s.take(m)),
    decreases m - j,
{
    if j < m {
        lemme_valeur_croissante(s, j, m - 1);
        lemme_valeur_take(s, m - 1);
    }
}

/// Reads the digits `cs[debut..]` as a value of at most `max`, reporting
/// `trop` where the leading digits exceed it.
fn lire_chiffres(cs: &Vec<char>, debut: usize, max: u64, trop: ErreurEntier) -> (r: Result<
    u64,
    ErreurEntier,
>)
    requires
        debut <= cs@.len(),
    ensures
        ({
            let d = cs@.skip(debut as int);
            let k = prefixe_chiffres(d);
            let v = valeur(d.take(k as int));
            r == if v > max {
                Err(trop)
            } else if k < d.len() {
                Err(ErreurEntier::ChiffreInvalide)
            } else {
                Ok(v as u64)
            }
        }),
{
    let ghost d = cs@.skip(debut as int);
    let n = cs.len();
    let mut acc: u128 = 0;
    let mut i: usize = debut;
    while i < n
        invariant
            d == cs@.skip(debut as int),
            n == cs@.len(),
            debut <= i <= n,
            acc == valeur(d.take(i - debut)),
            acc <= max,
            forall|j: int| 0 <= j < i - debut ==> est_chiffre(#[trigger] d[j]),
        decreases n - i,
    {
        let c = cs[i];
        let u = c as u32;
        proof {
            assert(d[i - debut] == c);
        }
        if u < 48 || u > 57 {
            proof {
                lemme_prefixe(d, i - debut);
            }
            return Err(ErreurEntier::ChiffreInvalide);
        }
        proof {
            lemme_valeur_take(d, i - debut);
        }
        acc = acc * 10 + (u - 48) as u128;
        if acc > max as u128 {
            proof {
                assert forall|j: int| 0 <= j < i + 1 - debut implies est_chiffre(#[trigger] d[j]) by {
                }
                lemme_prefixe(d, i + 1 - debut);
                lemme_valeur_croissante(d, i + 1 - debut, prefixe_chiffres(d) as int);
            }
            return Err(trop);
        }
        i = i + 1;
    }
    proof {
        lemme_prefixe(d, i - debut);
        assert(d.take(d.len() as int) =~= d);
    }
    Ok(acc as u64)
}

/// `s.parse::<u64>()`: the value of `s` in decimal, after an optional `+`.
pub fn lire_u64(s: &str) -> (r: Result<u64, ErreurEntier>)
    ensures
        match r {
            Ok(v) => analyse_u64(s@) == Ok::<int, ErreurEntier>(v as int),
            Err(e) => analyse_u64(s@) == Err::<int, ErreurEntier>(e),
        },
{
    let cs = caracteres(s);
    let n = cs.len();
    if n == 0 {
        return Err(ErreurEntier::Vide);
    }
    let c0 = cs[0];
    if n == 1 && (c0 == '+' || c0 == '-') {
        return Err(ErreurEntier::ChiffreInvalide);
    }
    let debut: usize = if c0 == '+' {
        1
    } else {
        0
    };
    proof {
        assert(cs@.skip(0) =~= cs@);
        assert(cs@.skip(1) =~= cs@.drop_first());
    }
    lire_chiffres(&cs, debut, u64::MAX, ErreurEntier::TropGrand)
}

/// `s.parse::<i64>()`: the value of `s` in decimal, after an optional sign.
pub fn lire_i64(s: &str) -> (r: Result<i64, ErreurEntier>)
    ensures
        match r {
            Ok(v) => analyse_i64(s@) == Ok::<int, ErreurEntier>(v as int),
            Err(e) => analyse_i64(s@) == Err::<int, ErreurEntier>(e),
        },
{
    let cs = caracteres(s);
    let n = cs.len();
    if n == 0 {
        return Err(ErreurEntier::Vide);
    }
    let c0 = cs[0];
    if n == 1 && (c0 == '+' || c0 == '-') {
        return Err(ErreurEntier::ChiffreInvalide);
    }
    proof {
        assert(cs@.skip(0) =~= cs@);
        assert(cs@.skip(1) =~= cs@.drop_first());
    }
    if c0 == '-' {
        match lire_chiffres(&cs, 1, 0x8000_0000_0000_0000, ErreurEntier::TropPetit) {
            Ok(v) => {
                if v == 0x8000_0000_0000_0000 {
                    Ok(i64::MIN)
                } else {
                    Ok(0 - (v as i64))
                }
            },
            Err(e) => Err(e),
        }
    } else {
        let debut: usize = if c0 == '+' {
            1
        } else {
            0
        };
        match lire_chiffres(&cs, debut, i64::MAX as u64, ErreurEntier::TropGrand) {
            Ok(v) => Ok(v as i64),
            Err(e) => Err(e),
        }
    }
}

/// The `Display` text of the `ParseIntError` of each kind.
pub open spec fn texte_erreur(e: ErreurEntier) -> Seq<char> {
    match e {
        ErreurEntier::Vide => "cannot parse integer from empty string"@,
        ErreurEntier::ChiffreInvalide => "invalid digit found in string"@,
        ErreurEntier::TropGrand => "number too large to fit in target type"@,
        ErreurEntier::TropPetit => "number too small to fit in target type"@,
    }
}

impl ErreurEntier {
    /// The message of the error, as `ParseIntError::to_string` writes it.
    pub fn message(&self) -> (r: String)
        ensures
            r@ == texte_erreur(*self),
    {
        match self {
            ErreurEntier::Vide => String::from_str("cannot parse integer from empty string"),
            ErreurEntier::ChiffreInvalide => String::from_str("invalid digit found in string"),
            ErreurEntier::TropGrand => String::from_str("number too large to fit in target type"),
            ErreurEntier::TropPetit => String::from_str("number too small to fit in target type"),
        }
    }
}

fn texte_chiffre(d: u64) -> (r: &'static str)
    requires
        d < 10,
    ensures
        r@ == seq![chiffre(d as nat)],
{
    proof {
        reveal_strlit("0");
        reveal_strlit("1");
        reveal_strlit("2");
        reveal_strlit("3");
        reveal_strlit("4");
        reveal_strlit("5");
        reveal_strlit("6");
        reveal_strlit("7");
        reveal_strlit("8");
        reveal_strlit("9");
    }
    if d == 0 {
        "0"
    } else if d == 1 {
        "1"
    } else if d == 2 {
        "2"
    } else if d == 3 {
        "3"
    } else if d == 4 {
        "4"
    } else if d == 5 {
        "5"
    } else if d == 6 {
        "6"
    } else if d == 7 {
        "7"
    } else if d == 8 {
        "8"
    } else {
        "9"
    }
}

fn ecrire_nat(n: u64, out: &mut String)
    ensures
        final(out)@ == old(out)@ + decimal_nat(n as nat),
    decreases n,
{
    if n >= 10 {
        ecrire_nat(n / 10, out);
    }
    out.append(texte_chiffre(n % 10));
    proof {
        if n < 10 {
            assert(n % 10 == n);
        }
    }
}

/// `n` written in decimal, as `n.to_string()` gives it.
pub fn texte_entier(n: i64) -> (r: String)
    ensures
        r@ == decimal(n as int),
{
    let mut out = String::new();
    if n < 0 {
        out.append("-");
        proof {
            reveal_strlit("-");
        }
        let m: u64 = if n == i64::MIN {
            0x8000_0000_0000_0000
        } else {
            (0 - n) as u64
        };
        ecrire_nat(m, &mut out);
    } else {
        ecrire_nat(n as u64, &mut out);
    }
    out
}

/// `n` written in decimal, for an unsigned count.
pub fn texte_naturel(n: usize) -> (r: String)
    ensures
        r@ == decimal(n as int),
{
    let mut out = String::new();
    ecrire_nat(n as u64, &mut out);
    out
}

proof fn lemme_decimal_nat(n: nat)
    ensures
        decimal_nat(n).len() >= 1,
        forall|i: int| 0 <= i < decimal_nat(n).len() ==> est_chiffre(#[trigger] decimal_nat(n)[i]),
        valeur(decimal_nat(n)) == n,
        prefixe_chiffres(decimal_nat(n)) == decimal_nat(n).len(),
    decreases n,
{
    let s = decimal_nat(n);
    let c = chiffre(n % 10);
    assert(c as u32 == n % 10 + 48);
    assert(valeur_chiffre(c) == n % 10);
    assert(s.last() == c);
    assert(s.drop_last().len() == 0 ==> valeur(s.drop_last()) == 0);
    if n >= 10 {
        lemme_decimal_nat(n / 10);
        assert(s.drop_last() =~= decimal_nat(n / 10));
        assert(n == (n / 10) * 10 + n % 10);
    }
    lemme_prefixe(s, s.len() as int);
}

/// The decimal text of an integer holds digits and at most a leading `-`, so
/// no line feed.
pub(crate) proof fn lemme_decimal_sans_saut(n: int)
    ensures
        decimal(n).len() >= 1,
        forall|i: int| 0 <= i < decimal(n).len() ==> #[trigger] decimal(n)[i] != '\n',
{
    let m: nat = if n < 0 {
        (-n) as nat
    } else {
        n as nat
    };
    lemme_decimal_nat(m);
    assert forall|i: int| 0 <= i < decimal(n).len() implies #[trigger] decimal(n)[i] != '\n' by {
        if n < 0 {
            if i > 0 {
                assert(decimal(n)[i] == decimal_nat(m)[i - 1]);
                assert(est_chiffre(decimal_nat(m)[i - 1]));
            }
        } else {
            assert(est_chiffre(decimal_nat(m)[i]));
        }
    }
}

/// Reading back what an integer's `Display` text writes gives the integer:
/// for every `i64` value `n`, `n.to_string().parse::<i64>()` is `Ok(n)`.
pub proof fn loi_entier_aller_retour(n: i64)
    ensures
        analyse_i64(decimal(n as int)) == Ok::<int, ErreurEntier>(n as int),
{
    if n < 0 {
        let m = (-n) as nat;
        lemme_decimal_nat(m);
        let s = decimal(n as int);
        assert(s.drop_first() =~= decimal_nat(m));
        assert(decimal_nat(m).take(decimal_nat(m).len() as int) =~= decimal_nat(m));
    } else {
        lemme_decimal_nat(n as nat);
        let d = decimal_nat(n as nat);
        assert(d.take(d.len() as int) =~= d);
    }
}

} // verus!
