//! The text command language: a line of words, the first of which names the
//! command (in any case), the others its arguments.

use vstd::prelude::*;
use vstd::string::{StrSliceExecFns, StringExecFns};
use crate::nombres::{analyse_u64, lire_u64};
use crate::texte::{
    debug_texte, decouper_mots, en_majuscules, majuscules, meme_texte, mots, texte_debug,
    vue_textes,
};

verus! {

/// A command of the cache.
#[derive(Debug, PartialEq)]
pub enum Commande {
    Ping,
    Get(String),
    Definir { cle: String, valeur: Vec<u8>, ttl: Option<u64> },
    Del(String),
    Keys(String),
    Ttl(String),
    Flush,
}

/// Why a line is not a command.
#[derive(Debug)]
pub enum ErreurParsing {
    /// The first word, in upper case, names no command.
    CommandeInconnue(String),
    /// The line is empty, or the command lacks an argument.
    ArgumentsManquants,
    /// The expiry delay after `EX` is not a `u64`.
    NombreInvalide(String),
}

/// A command, with its texts as sequences of characters.
pub enum CommandeVue {
    Ping,
    Get(Seq<char>),
    Definir { cle: Seq<char>, valeur: Seq<u8>, ttl: Option<u64> },
    Del(Seq<char>),
    Keys(Seq<char>),
    Ttl(Seq<char>),
    Flush,
}

/// A parse error, with its texts as sequences of characters.
pub enum ErreurVue {
    CommandeInconnue(Seq<char>),
    ArgumentsManquants,
    NombreInvalide(Seq<char>),
}

impl View for Commande {
    type V = CommandeVue;

    open spec fn view(&self) -> CommandeVue {
        match self {
            Commande::Ping => CommandeVue::Ping,
            Commande::Get(c) => CommandeVue::Get(c@),
            Commande::Definir { cle, valeur, ttl } => CommandeVue::Definir {
                cle: cle@,
                valeur: valeur@,
                ttl: *ttl,
            },
            Commande::Del(c) => CommandeVue::Del(c@),
            Commande::Keys(p) => CommandeVue::Keys(p@),
            Commande::Ttl(c) => CommandeVue::Ttl(c@),
            Commande::Flush => CommandeVue::Flush,
        }
    }
}

impl View for ErreurParsing {
    type V = ErreurVue;

    open spec fn view(&self) -> ErreurVue {
        match self {
            ErreurParsing::CommandeInconnue(s) => ErreurVue::CommandeInconnue(s@),
            ErreurParsing::ArgumentsManquants => ErreurVue::ArgumentsManquants,
            ErreurParsing::NombreInvalide(s) => ErreurVue::NombreInvalide(s@),
        }
    }
}

/// The `Debug` text of a parse error: the variant's name, and where it holds
/// a text, that text's `Debug` text in brackets.
pub open spec fn texte_debug_erreur(e: ErreurVue) -> Seq<char> {
    match e {
        ErreurVue::CommandeInconnue(s) => "CommandeInconnue("@ + texte_debug(s) + ")"@,
        ErreurVue::ArgumentsManquants => "ArgumentsManquants"@,
        ErreurVue::NombreInvalide(s) => "NombreInvalide("@ + texte_debug(s) + ")"@,
    }
}

/// The `Debug` text of a parse error, as `format!("{:?}", e)` writes it.
pub fn debug_erreur(e: &ErreurParsing) -> (r: String)
    ensures
        r@ == texte_debug_erreur(e@),
{
    match e {
        ErreurParsing::CommandeInconnue(s) => {
            let mut r = String::from_str("CommandeInconnue(");
            let d = debug_texte(s.as_str());
            r.append(d.as_str());
            r.append(")");
            r
        },
        ErreurParsing::ArgumentsManquants => String::from_str("ArgumentsManquants"),
        ErreurParsing::NombreInvalide(s) => {
            let mut r = String::from_str("NombreInvalide(");
            let d = debug_texte(s.as_str());
            r.append(d.as_str());
            r.append(")");
            r
        },
    }
}

/// The view of a parse result.
pub open spec fn vue_analyse(r: Result<Commande, ErreurParsing>) -> Result<CommandeVue, ErreurVue> {
    match r {
        Ok(c) => Ok(c@),
        Err(e) => Err(e@),
    }
}

/// The command that the words `m` make, where `verbe` is the first word in
/// upper case and `option` the fourth word in upper case (read only where there
/// are five words or more).
pub open spec fn interpretation(m: Seq<Seq<char>>, verbe: Seq<char>, option: Seq<char>) -> Result<
    CommandeVue,
    ErreurVue,
> {
    if verbe == "PING"@ {
        Ok(CommandeVue::Ping)
    } else if verbe == "GET"@ {
        if m.len() < 2 {
            Err(ErreurVue::ArgumentsManquants)
        } else {
            Ok(CommandeVue::Get(m[1]))
        }
    } else if verbe == "DEL"@ {
        if m.len() < 2 {
            Err(ErreurVue::ArgumentsManquants)
        } else {
            Ok(CommandeVue::Del(m[1]))
        }
    } else if verbe == "SET"@ {
        if m.len() < 3 {
            Err(ErreurVue::ArgumentsManquants)
        } else if m.len() >= 5 && option == "EX"@ {
            match analyse_u64(m[4]) {
                Ok(n) => Ok(
                    CommandeVue::Definir {
                        cle: m[1],
                        valeur: vstd::utf8::encode_utf8(m[2]),
                        ttl: Some(n as u64),
                    },
                ),
                Err(_) => Err(ErreurVue::NombreInvalide(m[4])),
            }
        } else {
            Ok(CommandeVue::Definir { cle: m[1], valeur: vstd::utf8::encode_utf8(m[2]), ttl: None })
        }
    } else if verbe == "KEYS"@ {
        if m.len() >= 2 {
            Ok(CommandeVue::Keys(m[1]))
        } else {
            Ok(CommandeVue::Keys("*"@))
        }
    } else if verbe == "TTL"@ {
        if m.len() < 2 {
            Err(ErreurVue::ArgumentsManquants)
        } else {
            Ok(CommandeVue::Ttl(m[1]))
        }
    } else if verbe == "FLUSH"@ {
        Ok(CommandeVue::Flush)
    } else {
        Err(ErreurVue::CommandeInconnue(verbe))
    }
}

/// The command that the line `ligne` makes: its words, split on white space,
/// read by `interpretation`, the command word and the word before the expiry
/// delay compared in upper case.
pub open spec fn analyse_commande(ligne: Seq<char>) -> Result<CommandeVue, ErreurVue> {
    let m = mots(ligne);
    if m.len() == 0 {
        Err(ErreurVue::ArgumentsManquants)
    } else {
        interpretation(
            m,
            majuscules(m[0]),
            if m.len() >= 5 {
                majuscules(m[3])
            } else {
                seq![]
            },
        )
    }
}

/// Reads the words `mots` as a command, given the first word in upper case
/// (`verbe`) and, where there are five words or more, the fourth in upper case
/// (`option`).
pub fn interpreter_mots(mots: &Vec<String>, verbe: &str, option: &str) -> (r: Result<
    Commande,
    ErreurParsing,
>)
    ensures
        vue_analyse(r) == interpretation(vue_textes(mots@), verbe@, option@),
{
    let ghost m = vue_textes(mots@);
    let n = mots.len();
    if meme_texte(verbe, "PING") {
        Ok(Commande::Ping)
    } else if meme_texte(verbe, "GET") {
        if n < 2 {
            return Err(ErreurParsing::ArgumentsManquants);
        }
        Ok(Commande::Get(mots[1].clone()))
    } else if meme_texte(verbe, "DEL") {
        if n < 2 {
            return Err(ErreurParsing::ArgumentsManquants);
        }
        Ok(Commande::Del(mots[1].clone()))
    } else if meme_texte(verbe, "SET") {
        if n < 3 {
            return Err(ErreurParsing::ArgumentsManquants);
        }
        let cle = mots[1].clone();
        let valeur = mots[2].as_str().as_bytes_vec();
        let ttl = if n >= 5 && meme_texte(option, "EX") {
            match lire_u64(mots[4].as_str()) {
                Ok(secs) => Some(secs),
                Err(_) => {
                    return Err(ErreurParsing::NombreInvalide(mots[4].clone()));
                },
            }
        } else {
            None
        };
        Ok(Commande::Definir { cle, valeur, ttl })
    } else if meme_texte(verbe, "KEYS") {
        let motif = if n >= 2 {
            mots[1].clone()
        } else {
            String::from_str("*")
        };
        Ok(Commande::Keys(motif))
    } else if meme_texte(verbe, "TTL") {
        if n < 2 {
            return Err(ErreurParsing::ArgumentsManquants);
        }
        Ok(Commande::Ttl(mots[1].clone()))
    } else if meme_texte(verbe, "FLUSH") {
        Ok(Commande::Flush)
    } else {
        Err(ErreurParsing::CommandeInconnue(verbe.to_owned()))
    }
}

/// Reads a line as a command: `PING`, `GET cle`, `DEL cle`,
/// `SET cle valeur [EX secondes]`, `KEYS [motif]`, `TTL cle` or `FLUSH`, the
/// command word in any case, words separated by any white space.
pub fn parser_commande(ligne: &str) -> (r: Result<Commande, ErreurParsing>)
    ensures
        vue_analyse(r) == analyse_commande(ligne@),
{
    let mots = decouper_mots(ligne);
    proof {
        assert(vue_textes(mots@) =~= crate::texte::mots(ligne@));
    }
    if mots.len() == 0 {
        return Err(ErreurParsing::ArgumentsManquants);
    }
    let verbe = en_majuscules(mots[0].as_str());
    let option = if mots.len() >= 5 {
        en_majuscules(mots[3].as_str())
    } else {
        String::new()
    };
    interpreter_mots(&mots, verbe.as_str(), option.as_str())
}

/// The command word is read only through its upper case: changing the first
/// word leaves the command that the words make, given its upper case, as it
/// was.
pub proof fn loi_verbe_seul(m: Seq<Seq<char>>, w: Seq<char>, verbe: Seq<char>, option: Seq<char>)
    requires
        m.len() > 0,
    ensures
        interpretation(m.update(0, w), verbe, option) == interpretation(m, verbe, option),
{
    let m2 = m.update(0, w);
    assert(m2.len() == m.len());
    assert(forall|i: int| 1 <= i < m.len() ==> m2[i] == m[i]);
}

/// The command word is compared in upper case only: two lines whose words
/// are the same but for the first, and whose first words have the same upper
/// case, make the same command (or the same error).
pub proof fn loi_analyse_en_majuscules(l1: Seq<char>, l2: Seq<char>)
    requires
        mots(l1).len() == mots(l2).len(),
        mots(l1).len() > 0,
        forall|i: int| 1 <= i < mots(l1).len() ==> #[trigger] mots(l1)[i] == mots(l2)[i],
        majuscules(mots(l1)[0]) == majuscules(mots(l2)[0]),
    ensures
        analyse_commande(l1) == analyse_commande(l2),
{
    let m1 = mots(l1);
    let m2 = mots(l2);
    assert(m2 =~= m1.update(0, m2[0]));
    if m1.len() >= 5 {
        assert(m1[3] == m2[3]);
    }
    loi_verbe_seul(m1, m2[0], majuscules(m1[0]), if m1.len() >= 5 {
        majuscules(m1[3])
    } else {
        seq![]
    });
}

/// Whatever case the command word is written in, a line whose first word
/// reads `GET`, `DEL` or `TTL` in upper case and that has a second word is that
/// command on the second word; one whose first word reads `PING` or `FLUSH` is
/// that command, whatever follows.
pub proof fn loi_commande_en_toute_casse(ligne: Seq<char>)
    requires
        mots(ligne).len() > 0,
    ensures
        ({
            let m = mots(ligne);
            let v = majuscules(m[0]);
            &&& v == "GET"@ && m.len() >= 2 ==> analyse_commande(ligne) == Ok::<CommandeVue, ErreurVue>(
                CommandeVue::Get(m[1]),
            )
            &&& v == "DEL"@ && m.len() >= 2 ==> analyse_commande(ligne) == Ok::<CommandeVue, ErreurVue>(
                CommandeVue::Del(m[1]),
            )
            &&& v == "TTL"@ && m.len() >= 2 ==> analyse_commande(ligne) == Ok::<CommandeVue, ErreurVue>(
                CommandeVue::Ttl(m[1]),
            )
            &&& v == "PING"@ ==> analyse_commande(ligne) == Ok::<CommandeVue, ErreurVue>(
                CommandeVue::Ping,
            )
            &&& v == "FLUSH"@ ==> analyse_commande(ligne) == Ok::<CommandeVue, ErreurVue>(
                CommandeVue::Flush,
            )
        }),
{
    reveal_strlit("GET");
    reveal_strlit("DEL");
    reveal_strlit("TTL");
    reveal_strlit("PING");
    reveal_strlit("FLUSH");
    reveal_strlit("SET");
    reveal_strlit("KEYS");
    let m = mots(ligne);
    let v = majuscules(m[0]);
    let o: Seq<char> = if m.len() >= 5 {
        majuscules(m[3])
    } else {
        seq![]
    };
    assert(analyse_commande(ligne) == interpretation(m, v, o));
    assert("GET"@[0] == 'G' && "DEL"@[0] == 'D' && "TTL"@[0] == 'T' && "PING"@[0] == 'P');
    assert("FLUSH"@[0] == 'F' && "SET"@[0] == 'S' && "KEYS"@[0] == 'K');
}

} // verus!
