//! Carrying out one request line against the store and writing the reply, in
//! the plain text format or in RESP.

use vstd::prelude::*;
use vstd::string::StringExecFns;
use crate::nombres::{decimal, texte_naturel};
use crate::protocole::{
    analyse_commande, debug_erreur, parser_commande, texte_debug_erreur, Commande, CommandeVue,
    ErreurVue,
};
use crate::resp::{
    encoder_chaine, encoder_entier, encoder_erreur, encoder_null, encoder_ok, encoder_tableau,
    joindre, octets,
};
use crate::store::{
    ajouter_cle, duree_restante, entree_ecrite, expiree, lecture, loi_ttl_apres_ecriture, retirer_cle,
    EntreeVue, Store, NANOS_MAX, NANOS_PAR_SECONDE,
};
use crate::texte::{
    rogne, rogner, texte_d_un_caractere, texte_utf8, utf8_avec_remplacement, vue_textes,
};

verus! {

/// A text as a RESP bulk string.
pub open spec fn chaine_resp(s: Seq<char>) -> Seq<char> {
    "$"@ + decimal(octets(s) as usize as int) + "\r\n"@ + s + "\r\n"@
}

/// An integer as a RESP integer reply.
pub open spec fn entier_resp(n: int) -> Seq<char> {
    ":"@ + decimal(n) + "\r\n"@
}

/// The reply to the parsed request `c` on a store holding `m`, its keys listed
/// in the order `o`, at moment `t`; in RESP where `resp` holds, else in the
/// plain format.
pub open spec fn reponse(
    c: Result<CommandeVue, ErreurVue>,
    m: Map<Seq<char>, EntreeVue>,
    o: Seq<Seq<char>>,
    t: u128,
    resp: bool,
) -> Seq<char> {
    match c {
        Ok(CommandeVue::Ping) => "+PONG\r\n"@,
        Ok(CommandeVue::Get(k)) => match lecture(m, k, t) {
            Some(v) => if resp {
                chaine_resp(utf8_avec_remplacement(v))
            } else {
                "+"@ + utf8_avec_remplacement(v) + "\r\n"@
            },
            None => if resp {
                "$-1\r\n"@
            } else {
                "-ERR cle introuvable\r\n"@
            },
        },
        Ok(CommandeVue::Definir { .. }) => "+OK\r\n"@,
        Ok(CommandeVue::Del(k)) => entier_resp(
            if m.contains_key(k) {
                1
            } else {
                0
            },
        ),
        Ok(CommandeVue::Ttl(k)) => match duree_restante(m, k, t) {
            Some(n) => entier_resp(n as int),
            None => if resp {
                entier_resp(-2)
            } else {
                "-ERR cle introuvable\r\n"@
            },
        },
        Ok(CommandeVue::Keys(_)) => if resp {
            "*"@ + decimal(o.len() as int) + "\r\n"@ + o.map_values(|k: Seq<char>| chaine_resp(k)).flatten()
        } else {
            "+"@ + joindre(o, ", "@) + "\r\n"@
        },
        Ok(CommandeVue::Flush) => if resp {
            entier_resp(m.len() as i64 as int)
        } else {
            ":"@ + decimal(m.len() as int) + " entree(s) supprimee(s)\r\n"@
        },
        Err(e) => "-ERR "@ + texte_debug_erreur(e) + "\r\n"@,
    }
}

/// The store's entries and key order after the parsed request `c` is carried
/// out at moment `t`: a write, a delete or a flush changes them, nothing else
/// does.
pub open spec fn effet(
    c: Result<CommandeVue, ErreurVue>,
    m: Map<Seq<char>, EntreeVue>,
    o: Seq<Seq<char>>,
    t: u128,
) -> (Map<Seq<char>, EntreeVue>, Seq<Seq<char>>) {
    match c {
        Ok(CommandeVue::Definir { cle, valeur, ttl }) => (
            m.insert(cle, entree_ecrite(valeur, ttl, t)),
            ajouter_cle(o, cle),
        ),
        Ok(CommandeVue::Del(k)) => (m.remove(k), retirer_cle(o, k)),
        Ok(CommandeVue::Flush) => (Map::empty(), Seq::empty()),
        _ => (m, o),
    }
}

/// Whether a request that begins with the byte `premier` is in RESP: it
/// begins with `*`, the mark of an array.
pub fn est_requete_resp(premier: u8) -> (r: bool)
    ensures
        r == (premier == 42),
{
    premier == 42
}

/// The plain request line made of its first byte, read as the character of
/// that code, and the rest of the line, without surrounding white space.
pub fn ligne_texte(premier: u8, reste: &str) -> (r: String)
    ensures
        r@ == rogne(seq![premier as char] + reste@),
{
    let mut ligne = texte_d_un_caractere(premier as char);
    ligne.append(reste);
    rogner(ligne.as_str())
}

fn texte_ou_chaine(s: &str, resp: bool) -> (r: String)
    ensures
        r@ == if resp {
            chaine_resp(s@)
        } else {
            "+"@ + s@ + "\r\n"@
        },
{
    if resp {
        encoder_chaine(s)
    } else {
        let mut r = String::from_str("+");
        r.append(s);
        r.append("\r\n");
        r
    }
}

fn liste_cles(cles: &Vec<String>, resp: bool) -> (r: String)
    ensures
        r@ == if resp {
            "*"@ + decimal(cles@.len() as int) + "\r\n"@ + vue_textes(cles@).map_values(
                |k: Seq<char>| chaine_resp(k),
            ).flatten()
        } else {
            "+"@ + joindre(vue_textes(cles@), ", "@) + "\r\n"@
        },
{
    let n = cles.len();
    if resp {
        let mut elements: Vec<String> = Vec::new();
        let mut i: usize = 0;
        while i < n
            invariant
                n == cles@.len(),
                i <= n,
                elements@.len() == i,
                forall|j: int| 0 <= j < i ==> #[trigger] elements@[j]@ == chaine_resp(cles@[j]@),
            decreases n - i,
        {
            let e = encoder_chaine(cles[i].as_str());
            elements.push(e);
            i = i + 1;
        }
        let r = encoder_tableau(elements);
        proof {
            assert(vue_textes(elements@) =~= vue_textes(cles@).map_values(|k: Seq<char>| chaine_resp(k)));
        }
        r
    } else {
        let mut r = String::from_str("+");
        let ghost tete = r@;
        let mut i: usize = 0;
        while i < n
            invariant
                n == cles@.len(),
                i <= n,
                tete == "+"@,
                r@ == tete + joindre(vue_textes(cles@).take(i as int), ", "@),
            decreases n - i,
        {
            proof {
                assert(vue_textes(cles@).take(i + 1).drop_last() =~= vue_textes(cles@).take(i as int));
            }
            if i > 0 {
                r.append(", ");
            }
            r.append(cles[i].as_str());
            i = i + 1;
        }
        proof {
            assert(vue_textes(cles@).take(n as int) =~= vue_textes(cles@));
        }
        r.append("\r\n");
        r
    }
}

/// Carries out the request line `ligne` on the store at moment `maintenant`
/// and gives the reply: in RESP where `format_resp` holds, else in the plain
/// format.
pub fn executer_commande_a(ligne: &str, store: &mut Store, format_resp: bool, maintenant: u128) -> (r:
    String)
    requires
        old(store).inv(),
        maintenant < NANOS_MAX,
    ensures
        final(store).horloge() == old(store).horloge(),
        final(store).inv(),
        r@ == reponse(
            analyse_commande(ligne@),
            old(store)@,
            old(store).ordre(),
            maintenant,
            format_resp,
        ),
        (final(store)@, final(store).ordre()) == effet(
            analyse_commande(ligne@),
            old(store)@,
            old(store).ordre(),
            maintenant,
        ),
{
    match parser_commande(ligne) {
        Ok(Commande::Ping) => {
            String::from_str("+PONG\r\n")
        },
        Ok(Commande::Get(cle)) => {
            match store.get_a(cle.as_str(), maintenant) {
                Some(val) => {
                    let s = texte_utf8(val.as_slice());
                    texte_ou_chaine(s.as_str(), format_resp)
                },
                None => {
                    if format_resp {
                        encoder_null()
                    } else {
                        String::from_str("-ERR cle introuvable\r\n")
                    }
                },
            }
        },
        Ok(Commande::Definir { cle, valeur, ttl }) => {
            store.set_a(cle, valeur, ttl, maintenant);
            encoder_ok()
        },
        Ok(Commande::Del(cle)) => {
            let supprime = store.delete(cle.as_str());
            encoder_entier(
                if supprime {
                    1
                } else {
                    0
                },
            )
        },
        Ok(Commande::Ttl(cle)) => {
            match store.ttl_a(cle.as_str(), maintenant) {
                Some(secondes) => encoder_entier(secondes),
                None => {
                    if format_resp {
                        encoder_entier(-2)
                    } else {
                        String::from_str("-ERR cle introuvable\r\n")
                    }
                },
            }
        },
        Ok(Commande::Keys(_motif)) => {
            let cles = store.cles();
            liste_cles(&cles, format_resp)
        },
        Ok(Commande::Flush) => {
            let nb = store.flush();
            if format_resp {
                encoder_entier(nb as i64)
            } else {
                let mut r = String::from_str(":");
                let t = texte_naturel(nb);
                r.append(t.as_str());
                r.append(" entree(s) supprimee(s)\r\n");
                r
            }
        },
        Err(e) => {
            let d = debug_erreur(&e);
            encoder_erreur(d.as_str())
        },
    }
}

/// Carries out the request line `ligne` on the store now and gives the
/// reply: in RESP where `format_resp` holds, else in the plain format.
pub fn executer_commande(ligne: &str, store: &mut Store, format_resp: bool) -> (r: String)
    requires
        old(store).inv(),
    ensures
        final(store).inv(),
        exists|t: u128|
            t < NANOS_MAX && t >= old(store).horloge() && final(store).horloge() == t && r@
                == #[trigger] reponse(
                analyse_commande(ligne@),
                old(store)@,
                old(store).ordre(),
                t,
                format_resp,
            ) && (final(store)@, final(store).ordre()) == effet(
                analyse_commande(ligne@),
                old(store)@,
                old(store).ordre(),
                t,
            ),
        forall|k: Seq<char>|
            analyse_commande(ligne@) == Ok::<CommandeVue, ErreurVue>(CommandeVue::Get(k))
                && old(store)@.contains_key(k) && #[trigger] expiree(
                old(store)@[k],
                old(store).horloge(),
            ) ==> r@ == if format_resp {
                "$-1\r\n"@
            } else {
                "-ERR cle introuvable\r\n"@
            },
{
    let t = store.maintenant();
    let r = executer_commande_a(ligne, store, format_resp, t);
    store.avancer_horloge(t);
    r
}

/// Through the server, `GET k` after `SET k v` (without a delay) replies with
/// `v`, whenever it comes.
pub proof fn loi_get_apres_set(
    m: Map<Seq<char>, EntreeVue>,
    o: Seq<Seq<char>>,
    k: Seq<char>,
    v: Seq<u8>,
    t: u128,
    t2: u128,
    resp: bool,
)
    ensures
        ({
            let (m2, o2) = effet(
                Ok(CommandeVue::Definir { cle: k, valeur: v, ttl: None }),
                m,
                o,
                t,
            );
            reponse(Ok(CommandeVue::Get(k)), m2, o2, t2, resp) == if resp {
                chaine_resp(utf8_avec_remplacement(v))
            } else {
                "+"@ + utf8_avec_remplacement(v) + "\r\n"@
            }
        }),
{
}

/// Through the server, after `DEL k`, `GET k` finds nothing: the null reply
/// in RESP, an error in the plain format.
pub proof fn loi_get_apres_del(
    m: Map<Seq<char>, EntreeVue>,
    o: Seq<Seq<char>>,
    k: Seq<char>,
    t: u128,
    t2: u128,
    resp: bool,
)
    ensures
        ({
            let (m2, o2) = effet(Ok(CommandeVue::Del(k)), m, o, t);
            reponse(Ok(CommandeVue::Get(k)), m2, o2, t2, resp) == if resp {
                "$-1\r\n"@
            } else {
                "-ERR cle introuvable\r\n"@
            }
        }),
{
}

/// Through the server, `FLUSH` replies with the number of entries there were,
/// expired or not, and leaves none: `KEYS` then lists nothing.
pub proof fn loi_flush(m: Map<Seq<char>, EntreeVue>, o: Seq<Seq<char>>, t: u128, t2: u128)
    ensures
        reponse(Ok(CommandeVue::Flush), m, o, t, true) == entier_resp(m.len() as i64 as int),
        ({
            let (m2, o2) = effet(Ok(CommandeVue::Flush), m, o, t);
            &&& m2.len() == 0
            &&& reponse(Ok(CommandeVue::Keys("*"@)), m2, o2, t2, false) == "+"@ + "\r\n"@
        }),
{
    let e = Seq::<Seq<char>>::empty();
    assert(joindre(e, ", "@) == Seq::<char>::empty());
    assert("+"@ + Seq::<char>::empty() =~= "+"@);
}

/// Through the server, an entry written with `SET k v EX s` at moment `t`
/// is gone for every request carried out more than `s` seconds later: `GET k`
/// finds nothing (the null reply in RESP, an error in the plain format) and
/// `TTL k` reads -2 in both formats.
pub proof fn loi_get_apres_expiration(
    m: Map<Seq<char>, EntreeVue>,
    o: Seq<Seq<char>>,
    k: Seq<char>,
    v: Seq<u8>,
    s: u64,
    t: u128,
    t2: u128,
    resp: bool,
)
    requires
        t < NANOS_MAX,
        t2 > t + s * NANOS_PAR_SECONDE,
    ensures
        ({
            let (m2, o2) = effet(
                Ok(CommandeVue::Definir { cle: k, valeur: v, ttl: Some(s) }),
                m,
                o,
                t,
            );
            &&& reponse(Ok(CommandeVue::Get(k)), m2, o2, t2, resp) == if resp {
                "$-1\r\n"@
            } else {
                "-ERR cle introuvable\r\n"@
            }
            &&& reponse(Ok(CommandeVue::Ttl(k)), m2, o2, t2, resp) == ":"@ + decimal(-2) + "\r\n"@
        }),
{
}

/// Since every request is carried out at a moment not earlier than those the
/// store used before, an entry whose expiry moment precedes a moment `h` the
/// store already used is never read again: `GET k` at any moment `t` from `h`
/// on finds nothing.
pub proof fn loi_expiree_pour_toujours(
    m: Map<Seq<char>, EntreeVue>,
    o: Seq<Seq<char>>,
    k: Seq<char>,
    h: u128,
    t: u128,
    resp: bool,
)
    requires
        h <= t,
        m.contains_key(k),
        m[k].expiration matches Some(x) && x < h,
    ensures
        reponse(Ok(CommandeVue::Get(k)), m, o, t, resp) == if resp {
            "$-1\r\n"@
        } else {
            "-ERR cle introuvable\r\n"@
        },
        reponse(Ok(CommandeVue::Ttl(k)), m, o, t, resp) == ":"@ + decimal(-2) + "\r\n"@,
{
}

/// `FLUSH` replies with the number of entries the store held before it was
/// emptied, in both formats: `:n entree(s) supprimee(s)` in the plain
/// format, the integer `n` in RESP.
pub proof fn loi_flush_compte(m: Map<Seq<char>, EntreeVue>, o: Seq<Seq<char>>, t: u128)
    requires
        m.len() <= i64::MAX,
    ensures
        reponse(Ok(CommandeVue::Flush), m, o, t, false) == ":"@ + decimal(m.len() as int)
            + " entree(s) supprimee(s)\r\n"@,
        reponse(Ok(CommandeVue::Flush), m, o, t, true) == ":"@ + decimal(m.len() as int) + "\r\n"@,
{
}

/// `TTL k` on a key that is there gives the same integer reply in both
/// formats: the remaining whole seconds, -1 for a key that never expires, -2
/// for one that has expired.
pub proof fn loi_ttl_meme_entier(
    m: Map<Seq<char>, EntreeVue>,
    o: Seq<Seq<char>>,
    k: Seq<char>,
    t: u128,
)
    requires
        m.contains_key(k),
    ensures
        duree_restante(m, k, t) matches Some(n) && reponse(Ok(CommandeVue::Ttl(k)), m, o, t, true)
            == ":"@ + decimal(n as int) + "\r\n"@ && reponse(Ok(CommandeVue::Ttl(k)), m, o, t, false)
            == ":"@ + decimal(n as int) + "\r\n"@,
{
}

/// Right after `SET k v EX s` with a delay of at least one second, `TTL k`
/// replies with `s` (as an `i64`), in both formats.
pub proof fn loi_ttl_apres_set(
    m: Map<Seq<char>, EntreeVue>,
    o: Seq<Seq<char>>,
    k: Seq<char>,
    v: Seq<u8>,
    s: u64,
    t: u128,
    resp: bool,
)
    requires
        t < NANOS_MAX,
        s >= 1,
    ensures
        ({
            let (m2, o2) = effet(
                Ok(CommandeVue::Definir { cle: k, valeur: v, ttl: Some(s) }),
                m,
                o,
                t,
            );
            reponse(Ok(CommandeVue::Ttl(k)), m2, o2, t, resp) == ":"@ + decimal(s as i64 as int)
                + "\r\n"@
        }),
{
    loi_ttl_apres_ecriture(m, k, v, Some(s), t);
}

} // verus!
