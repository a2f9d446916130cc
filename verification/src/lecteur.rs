//! Reading one RESP value from a stream, one line or one run of bytes at a
//! time: the reader says what to read next, takes what was read, and gives
//! the value once it is whole, arrays being assembled as their elements come.

use vstd::prelude::*;
use crate::resp::{etape_ligne, terminer_chaine, interpreter_ligne, EtapeResp, EtapeVue, ValeurResp, ValeurVue};
use crate::texte::utf8_avec_remplacement;
use crate::nombres::{decimal, lemme_decimal_sans_saut};
use crate::resp::{loi_entier_resp_aller_retour, loi_reponses_relues, octets};
use crate::serveur::chaine_resp;

verus! {

/// An array being read: how many elements are still to come, and those read.
pub struct Cadre {
    pub restant: u64,
    pub elements: Vec<ValeurResp>,
}

/// The reader of one RESP value.
pub struct LecteurResp {
    cadres: Vec<Cadre>,
    chaine: Option<i64>,
}

/// The views of a sequence of RESP values.
pub open spec fn vues(v: Seq<ValeurResp>) -> Seq<ValeurVue> {
    v.map_values(|x: ValeurResp| x.vue())
}

/// The state of a reader: the arrays being read, innermost last, each with
/// the count of elements still to come and the elements read; and, while the
/// bytes of a bulk string are awaited, its length.
pub struct LecteurVue {
    pub cadres: Seq<(u64, Seq<ValeurVue>)>,
    pub chaine: Option<i64>,
}

/// The text that the bytes of a bulk string give: decoded where they are
/// UTF-8, else with replacement characters.
pub open spec fn texte_recu(b: Seq<u8>) -> Seq<char> {
    if vstd::utf8::valid_utf8(b) {
        vstd::utf8::decode_utf8(b)
    } else {
        utf8_avec_remplacement(b)
    }
}

/// Where a whole value `v` goes: to the innermost array being read, which,
/// once full, is itself a whole value; with no array open, `v` is the result.
pub open spec fn livraison(cadres: Seq<(u64, Seq<ValeurVue>)>, v: ValeurVue) -> (
    Seq<(u64, Seq<ValeurVue>)>,
    Option<ValeurVue>,
)
    decreases cadres.len(),
{
    if cadres.len() == 0 {
        (cadres, Some(v))
    } else {
        let (r, e) = cadres.last();
        if r <= 1 {
            livraison(cadres.drop_last(), ValeurVue::Array(e.push(v)))
        } else {
            (cadres.drop_last().push(((r - 1) as u64, e.push(v))), None)
        }
    }
}

/// What the reader does with a line: the state after it and the value made
/// whole, if any, or the error message.
pub open spec fn pas_ligne(etat: LecteurVue, ligne: Seq<char>) -> Result<
    (LecteurVue, Option<ValeurVue>),
    Seq<char>,
> {
    match etape_ligne(ligne) {
        Err(m) => Err(m),
        Ok(EtapeVue::Valeur(v)) => {
            let (c, r) = livraison(etat.cadres, v);
            Ok((LecteurVue { cadres: c, chaine: None }, r))
        },
        Ok(EtapeVue::LireChaine(n)) => Ok(
            (LecteurVue { cadres: etat.cadres, chaine: Some(n) }, None),
        ),
        Ok(EtapeVue::LireTableau(n)) => if n == 0 {
            let (c, r) = livraison(etat.cadres, ValeurVue::Array(seq![]));
            Ok((LecteurVue { cadres: c, chaine: None }, r))
        } else {
            Ok((LecteurVue { cadres: etat.cadres.push((n, seq![])), chaine: None }, None))
        },
    }
}

/// What the reader does with the bytes of a bulk string of length `t`.
pub open spec fn pas_octets(etat: LecteurVue, t: i64, b: Seq<u8>) -> (LecteurVue, Option<ValeurVue>) {
    let (c, r) = livraison(etat.cadres, ValeurVue::BulkString(texte_recu(b.take(t as int))));
    (LecteurVue { cadres: c, chaine: None }, r)
}

/// The value wrapped in an option, as a view.
pub open spec fn vue_option(r: Option<ValeurResp>) -> Option<ValeurVue> {
    match r {
        Some(v) => Some(v.vue()),
        None => None,
    }
}

proof fn lemme_vue_tableau(v: Vec<ValeurResp>)
    ensures
        ValeurResp::Array(v).vue() == ValeurVue::Array(vues(v@)),
{
    assert(vues(v@) =~= ValeurResp::Array(v).vue()->Array_0);
}

impl LecteurResp {
    /// The reader's state.
    pub closed spec fn etat(&self) -> LecteurVue {
        LecteurVue {
            cadres: self.cadres@.map_values(|c: Cadre| (c.restant, vues(c.elements@))),
            chaine: self.chaine,
        }
    }

    /// Every open array still awaits at least one element.
    pub closed spec fn inv(&self) -> bool {
        forall|i: int| 0 <= i < self.cadres@.len() ==> #[trigger] self.cadres@[i].restant >= 1
    }

    /// A reader before anything was read.
    pub fn nouveau() -> (r: Self)
        ensures
            r.inv(),
            r.etat() == (LecteurVue { cadres: seq![], chaine: None }),
    {
        let r = LecteurResp { cadres: Vec::new(), chaine: None };
        assert(r.etat().cadres =~= Seq::<(u64, Seq<ValeurVue>)>::empty());
        r
    }

    /// The length of the bulk string whose bytes are to be read next, or
    /// `None` where a line is to be read next.
    pub fn octets_attendus(&self) -> (r: Option<i64>)
        ensures
            r == self.etat().chaine,
    {
        self.chaine
    }

    fn livrer(&mut self, valeur: ValeurResp) -> (r: Option<ValeurResp>)
        requires
            old(self).inv(),
        ensures
            final(self).inv(),
            final(self).chaine == old(self).chaine,
            final(self).etat().cadres == livraison(old(self).etat().cadres, valeur.vue()).0,
            vue_option(r) == livraison(old(self).etat().cadres, valeur.vue()).1,
    {
        let ghost v0 = valeur.vue();
        let mut v = valeur;
        let ghost but = livraison(self.etat().cadres, v.vue());
        loop
            invariant
                self.inv(),
                self.chaine == old(self).chaine,
                livraison(self.etat().cadres, v.vue()) == but,
                but == livraison(old(self).etat().cadres, v0),
                v0 == valeur.vue(),
            decreases self.cadres@.len(),
        {
            if self.cadres.len() == 0 {
                proof {
                    assert(self.etat().cadres.len() == 0);
                    assert(livraison(self.etat().cadres, v.vue()) == (self.etat().cadres, Some(v.vue())));
                    assert((self.etat().cadres, vue_option(Some(v))) == but);
                }
                return Some(v);
            }
            let ghost avant = self.etat().cadres;
            let ghost vec_avant = self.cadres@;
            let mut cadre = self.cadres.pop().unwrap();
            proof {
                assert(avant.last() == (cadre.restant, vues(cadre.elements@)));
                assert(avant.drop_last() =~= self.etat().cadres);
            }
            let ghost vv = v.vue();
            let ghost e0 = vues(cadre.elements@);
            cadre.elements.push(v);
            proof {
                assert(vues(cadre.elements@) =~= e0.push(vv));
            }
            if cadre.restant <= 1 {
                proof {
                    lemme_vue_tableau(cadre.elements);
                }
                v = ValeurResp::Array(cadre.elements);
            } else {
                cadre.restant = cadre.restant - 1;
                let ghost milieu = self.etat().cadres;
                self.cadres.push(cadre);
                proof {
                    assert(self.etat().cadres =~= milieu.push((cadre.restant, vues(cadre.elements@))));
                    assert(livraison(avant, vv) == (avant.drop_last().push((cadre.restant, e0.push(vv))), None::<ValeurVue>));
                    assert forall|i: int| 0 <= i < self.cadres@.len() implies #[trigger] self.cadres@[i].restant >= 1 by {
                        if i < self.cadres@.len() - 1 {
                            assert(self.cadres@[i] == vec_avant[i]);
                        }
                    }
                }
                return None;
            }
        }
    }

    /// Takes a line read from the stream (when no bulk bytes are awaited):
    /// gives the value made whole, if any, or the error the line holds. A
    /// line whose first character is not ASCII is left out.
    pub fn recevoir_ligne(&mut self, ligne: &str) -> (r: Result<Option<ValeurResp>, String>)
        requires
            old(self).inv(),
            old(self).etat().chaine is None,
            ligne@.len() > 0 ==> (ligne@[0] as u32) < 0x80,
        ensures
            final(self).inv(),
            match r {
                Ok(v) => pas_ligne(old(self).etat(), ligne@) == Ok::<
                    (LecteurVue, Option<ValeurVue>),
                    Seq<char>,
                >((final(self).etat(), vue_option(v))),
                Err(m) => pas_ligne(old(self).etat(), ligne@) == Err::<
                    (LecteurVue, Option<ValeurVue>),
                    Seq<char>,
                >(m@) && final(self).etat() == old(self).etat(),
            },
    {
        match interpreter_ligne(ligne) {
            Err(m) => Err(m),
            Ok(EtapeResp::Valeur(v)) => {
                let r = self.livrer(v);
                Ok(r)
            },
            Ok(EtapeResp::LireChaine(n)) => {
                self.chaine = Some(n);
                Ok(None)
            },
            Ok(EtapeResp::LireTableau(n)) => {
                if n == 0 {
                    let vide: Vec<ValeurResp> = Vec::new();
                    proof {
                        lemme_vue_tableau(vide);
                        assert(vues(vide@) =~= Seq::<ValeurVue>::empty());
                    }
                    let r = self.livrer(ValeurResp::Array(vide));
                    Ok(r)
                } else {
                    let ghost avant = self.etat().cadres;
                    let ghost vec_avant = self.cadres@;
                    let cadre = Cadre { restant: n, elements: Vec::new() };
                    self.cadres.push(cadre);
                    proof {
                        assert(vues(cadre.elements@) =~= Seq::<ValeurVue>::empty());
                        assert(self.etat().cadres =~= avant.push((n, seq![])));
                        assert forall|i: int| 0 <= i < self.cadres@.len() implies #[trigger] self.cadres@[i].restant >= 1 by {
                            if i < self.cadres@.len() - 1 {
                                assert(self.cadres@[i] == vec_avant[i]);
                            }
                        }
                    }
                    Ok(None)
                }
            },
        }
    }

    /// Takes the bytes read for the awaited bulk string (its length and the
    /// CRLF after it): gives the value made whole, if any.
    pub fn recevoir_octets(&mut self, octets: &[u8]) -> (r: Option<ValeurResp>)
        requires
            old(self).inv(),
            old(self).etat().chaine is Some,
            0 <= old(self).etat().chaine.unwrap() <= octets@.len(),
        ensures
            final(self).inv(),
            final(self).etat() == pas_octets(old(self).etat(), old(self).etat().chaine.unwrap(), octets@).0,
            vue_option(r) == pas_octets(old(self).etat(), old(self).etat().chaine.unwrap(), octets@).1,
    {
        let t = self.chaine.unwrap();
        let n = octets.len();
        assert(0 <= t <= n);
        let taille = t as usize;
        assert(taille as int == t as int);
        let v = terminer_chaine(octets, taille);
        proof {
            assert(v.vue() == ValeurVue::BulkString(texte_recu(octets@.take(t as int))));
        }
        self.chaine = None;
        self.livrer(v)
    }
}

/// What the stream gives the reader at one step: a line, or a run of bytes.
pub enum Evenement {
    Ligne(Seq<char>),
    Octets(Seq<u8>),
}

/// How reading a sequence of steps ends: still awaiting more, a whole value
/// after that many steps, an error after that many steps, or a step of the
/// wrong kind (a line where bytes were awaited, or bytes of the wrong length,
/// or the reverse) at that index.
pub enum Issue {
    EnAttente(LecteurVue),
    Fini(ValeurVue, nat),
    Erreur(Seq<char>, nat),
    Decalage(nat),
}

/// `i` with `k` more steps counted before it.
pub open spec fn decaler(i: Issue, k: nat) -> Issue {
    match i {
        Issue::EnAttente(e) => Issue::EnAttente(e),
        Issue::Fini(v, n) => Issue::Fini(v, n + k),
        Issue::Erreur(m, n) => Issue::Erreur(m, n + k),
        Issue::Decalage(n) => Issue::Decalage(n + k),
    }
}

/// What a reader in the state `etat` makes of the steps `evs`, read in order
/// up to the first whole value or error: each line through `pas_ligne`, each
/// run of bytes (the awaited length and a CRLF) through `pas_octets`.
pub open spec fn lecture(etat: LecteurVue, evs: Seq<Evenement>) -> Issue
    decreases evs.len(),
{
    if evs.len() == 0 {
        Issue::EnAttente(etat)
    } else {
        match (etat.chaine, evs[0]) {
            (None, Evenement::Ligne(l)) => match pas_ligne(etat, l) {
                Err(m) => Issue::Erreur(m, 1),
                Ok((_, Some(v))) => Issue::Fini(v, 1),
                Ok((e2, None)) => decaler(lecture(e2, evs.drop_first()), 1),
            },
            (Some(t), Evenement::Octets(b)) => if t >= 0 && b.len() == t + 2 {
                match pas_octets(etat, t, b) {
                    (_, Some(v)) => Issue::Fini(v, 1),
                    (e2, None) => decaler(lecture(e2, evs.drop_first()), 1),
                }
            } else {
                Issue::Decalage(0)
            },
            _ => Issue::Decalage(0),
        }
    }
}

/// A reader before anything was read.
pub open spec fn lecteur_neuf() -> LecteurVue {
    LecteurVue { cadres: seq![], chaine: None }
}

/// The steps in which a bulk string `s` arrives: its header line, then its
/// bytes and a CRLF.
pub open spec fn evenements_chaine(s: Seq<char>) -> Seq<Evenement> {
    seq![
        Evenement::Ligne("$"@ + decimal(octets(s) as usize as int) + "\r\n"@),
        Evenement::Octets(vstd::utf8::encode_utf8(s) + seq![13u8, 10u8]),
    ]
}

/// The steps in which an array of bulk strings arrives: its header line,
/// then each string's steps.
pub open spec fn evenements_tableau(xs: Seq<Seq<char>>) -> Seq<Evenement> {
    seq![Evenement::Ligne("*"@ + decimal(xs.len() as int) + "\r\n"@)] + xs.map_values(
        |x: Seq<char>| evenements_chaine(x),
    ).flatten()
}

proof fn lemme_chaine_dans(e: LecteurVue, s: Seq<char>, suite: Seq<Evenement>)
    requires
        e.chaine is None,
        octets(s) <= i64::MAX,
        octets(s) <= usize::MAX,
    ensures
        ({
            let (c, r) = livraison(e.cadres, ValeurVue::BulkString(s));
            lecture(e, evenements_chaine(s) + suite) == match r {
                Some(v) => Issue::Fini(v, 2),
                None => decaler(lecture(LecteurVue { cadres: c, chaine: None }, suite), 2),
            }
        }),
{
    loi_reponses_relues(seq![], s, 0);
    let evs = evenements_chaine(s) + suite;
    let n = octets(s) as i64;
    let b = vstd::utf8::encode_utf8(s) + seq![13u8, 10u8];
    assert(evs[0] == evenements_chaine(s)[0]);
    assert(evs.drop_first()[0] == evenements_chaine(s)[1]);
    assert(evs.drop_first().drop_first() =~= suite);
    assert(b.len() == n + 2);
    assert(texte_recu(b.take(n as int)) == s);
    let e1 = LecteurVue { cadres: e.cadres, chaine: Some(n) };
    assert(pas_ligne(e, "$"@ + decimal(octets(s) as usize as int) + "\r\n"@) == Ok::<
        (LecteurVue, Option<ValeurVue>),
        Seq<char>,
    >((e1, None)));
    assert(lecture(e, evs) == decaler(lecture(e1, evs.drop_first()), 1));
    let (c, r) = livraison(e.cadres, ValeurVue::BulkString(s));
    assert(pas_octets(e1, n, b) == (LecteurVue { cadres: c, chaine: None }, r));
    match r {
        Some(v) => {
            assert(lecture(e1, evs.drop_first()) == Issue::Fini(v, 1));
        },
        None => {
            assert(lecture(e1, evs.drop_first()) == decaler(
                lecture(LecteurVue { cadres: c, chaine: None }, suite),
                1,
            ));
            let x = lecture(LecteurVue { cadres: c, chaine: None }, suite);
            assert(decaler(decaler(x, 1), 1) == decaler(x, 2));
        },
    }
}

proof fn lemme_elements(xs: Seq<Seq<char>>, i: int, e: Seq<ValeurVue>, suite: Seq<Evenement>)
    requires
        0 <= i < xs.len(),
        xs.len() <= i64::MAX,
        forall|k: int| 0 <= k < xs.len() ==> octets(#[trigger] xs[k]) <= i64::MAX && octets(xs[k]) <= usize::MAX,
        e == xs.take(i).map_values(|x: Seq<char>| ValeurVue::BulkString(x)),
    ensures
        lecture(
            LecteurVue { cadres: seq![((xs.len() - i) as u64, e)], chaine: None },
            xs.skip(i).map_values(|x: Seq<char>| evenements_chaine(x)).flatten() + suite,
        ) == Issue::Fini(
            ValeurVue::Array(xs.map_values(|x: Seq<char>| ValeurVue::BulkString(x))),
            (2 * (xs.len() - i)) as nat,
        ),
    decreases xs.len() - i,
{
    let m = xs.skip(i).map_values(|x: Seq<char>| evenements_chaine(x));
    assert(m.flatten() == m[0] + m.drop_first().flatten());
    assert(m[0] == evenements_chaine(xs[i]));
    assert(m.drop_first() =~= xs.skip(i + 1).map_values(|x: Seq<char>| evenements_chaine(x)));
    let reste = m.drop_first().flatten() + suite;
    assert(m.flatten() + suite =~= evenements_chaine(xs[i]) + reste);
    let etat = LecteurVue { cadres: seq![((xs.len() - i) as u64, e)], chaine: None };
    lemme_chaine_dans(etat, xs[i], reste);
    let e2 = e.push(ValeurVue::BulkString(xs[i]));
    assert(e2 =~= xs.take(i + 1).map_values(|x: Seq<char>| ValeurVue::BulkString(x)));
    let c = seq![((xs.len() - i) as u64, e)];
    assert(c.last() == ((xs.len() - i) as u64, e));
    assert(c.drop_last() =~= Seq::<(u64, Seq<ValeurVue>)>::empty());
    if xs.len() - i <= 1 {
        assert(xs.take(i + 1) =~= xs);
        assert(livraison(c, ValeurVue::BulkString(xs[i])) == livraison(
            Seq::<(u64, Seq<ValeurVue>)>::empty(),
            ValeurVue::Array(e2),
        ));
    } else {
        assert(livraison(c, ValeurVue::BulkString(xs[i])) == (
            seq![((xs.len() - i - 1) as u64, e2)],
            None::<ValeurVue>,
        )) by {
            assert(Seq::<(u64, Seq<ValeurVue>)>::empty().push(((xs.len() - i - 1) as u64, e2))
                =~= seq![((xs.len() - i - 1) as u64, e2)]);
        }
        lemme_elements(xs, i + 1, e2, suite);
    }
}

/// The bytes that the steps carry, one after the other (lines encoded in
/// UTF-8).
pub open spec fn octets_evenements(evs: Seq<Evenement>) -> Seq<u8>
    decreases evs.len(),
{
    if evs.len() == 0 {
        seq![]
    } else {
        (match evs[0] {
            Evenement::Ligne(l) => vstd::utf8::encode_utf8(l),
            Evenement::Octets(b) => b,
        }) + octets_evenements(evs.drop_first())
    }
}

/// Whether `l` is one whole line: it ends with its only line feed.
pub open spec fn ligne_entiere(l: Seq<char>) -> bool {
    &&& l.len() > 0
    &&& l.last() == '\n'
    &&& forall|j: int| 0 <= j < l.len() - 1 ==> l[j] != '\n'
}

/// Whether each line step is one whole line, as a line read from the stream
/// is.
pub open spec fn lignes_entieres(evs: Seq<Evenement>) -> bool {
    forall|k: int|
        #![trigger evs[k]]
        0 <= k < evs.len() ==> match evs[k] {
            Evenement::Ligne(l) => ligne_entiere(l),
            Evenement::Octets(_) => true,
        }
}

proof fn lemme_encode_concat(a: Seq<char>, b: Seq<char>)
    ensures
        vstd::utf8::encode_utf8(a + b) == vstd::utf8::encode_utf8(a) + vstd::utf8::encode_utf8(b),
    decreases a.len(),
{
    if a.len() > 0 {
        assert((a + b).drop_first() =~= a.drop_first() + b);
        assert((a + b)[0] == a[0]);
        lemme_encode_concat(a.drop_first(), b);
        assert(vstd::utf8::encode_utf8(a + b) =~= vstd::utf8::encode_utf8(a) + vstd::utf8::encode_utf8(b));
    } else {
        assert(a + b =~= b);
        assert(vstd::utf8::encode_utf8(a) =~= Seq::<u8>::empty());
        assert(vstd::utf8::encode_utf8(a) + vstd::utf8::encode_utf8(b) =~= vstd::utf8::encode_utf8(b));
    }
}

proof fn lemme_octets_concat(a: Seq<Evenement>, b: Seq<Evenement>)
    ensures
        octets_evenements(a + b) == octets_evenements(a) + octets_evenements(b),
    decreases a.len(),
{
    if a.len() > 0 {
        assert((a + b).drop_first() =~= a.drop_first() + b);
        assert((a + b)[0] == a[0]);
        lemme_octets_concat(a.drop_first(), b);
        assert(octets_evenements(a + b) =~= octets_evenements(a) + octets_evenements(b));
    } else {
        assert(a + b =~= b);
        assert(octets_evenements(a) + octets_evenements(b) =~= octets_evenements(b));
    }
}

proof fn lemme_crlf()
    ensures
        vstd::utf8::encode_utf8("\r\n"@) == seq![13u8, 10u8],
{
    reveal_strlit("\r\n");
    let t = "\r\n"@;
    assert(t[0] as u32 == 13) by {
        vstd::utf8::char_u32_cast('\r', 13);
    }
    assert(t[1] as u32 == 10);
    assert((13u32 & 0x7F) as u8 == 13u8) by (bit_vector);
    assert((10u32 & 0x7F) as u8 == 10u8) by (bit_vector);
    assert(t.drop_first() =~= seq!['\n']);
    assert(t.drop_first().drop_first() =~= Seq::<char>::empty());
    let u = seq!['\n'];
    assert(u.drop_first() =~= Seq::<char>::empty());
    assert(u[0] as u32 == 10) by {
        vstd::utf8::char_u32_cast('\n', 10);
    }
    assert(vstd::utf8::encode_scalar(10u32) =~= seq![10u8]);
    assert(vstd::utf8::encode_utf8(Seq::<char>::empty()) =~= Seq::<u8>::empty());
    assert(vstd::utf8::encode_utf8(u) =~= seq![10u8]);
    assert(vstd::utf8::encode_scalar(13u32) =~= seq![13u8]);
    assert(vstd::utf8::encode_utf8(t) =~= seq![13u8, 10u8]);
}

proof fn lemme_octets_chaine(s: Seq<char>)
    ensures
        octets_evenements(evenements_chaine(s)) == vstd::utf8::encode_utf8(chaine_resp(s)),
{
    let h = "$"@ + decimal(octets(s) as usize as int) + "\r\n"@;
    let evs = evenements_chaine(s);
    assert(evs.drop_first().drop_first() =~= Seq::<Evenement>::empty());
    assert(octets_evenements(Seq::<Evenement>::empty()) =~= Seq::<u8>::empty());
    let b = vstd::utf8::encode_utf8(s) + seq![13u8, 10u8];
    assert(octets_evenements(evs.drop_first()) =~= b);
    assert(octets_evenements(evs) == vstd::utf8::encode_utf8(h) + octets_evenements(evs.drop_first()));
    lemme_crlf();
    lemme_encode_concat(h, s);
    lemme_encode_concat(h + s, "\r\n"@);
    assert(chaine_resp(s) == h + s + "\r\n"@);
    assert(octets_evenements(evs) =~= vstd::utf8::encode_utf8(h) + (vstd::utf8::encode_utf8(s) + seq![
        13u8,
        10u8,
    ]));
    assert(vstd::utf8::encode_utf8(chaine_resp(s)) =~= vstd::utf8::encode_utf8(h) + (
    vstd::utf8::encode_utf8(s) + seq![13u8, 10u8]));
}

proof fn lemme_octets_elements(xs: Seq<Seq<char>>)
    ensures
        octets_evenements(xs.map_values(|x: Seq<char>| evenements_chaine(x)).flatten())
            == vstd::utf8::encode_utf8(xs.map_values(|x: Seq<char>| chaine_resp(x)).flatten()),
        lignes_entieres(xs.map_values(|x: Seq<char>| evenements_chaine(x)).flatten()),
    decreases xs.len(),
{
    let m = xs.map_values(|x: Seq<char>| evenements_chaine(x));
    let c = xs.map_values(|x: Seq<char>| chaine_resp(x));
    if xs.len() == 0 {
        assert(m =~= Seq::<Seq<Evenement>>::empty());
        assert(c =~= Seq::<Seq<char>>::empty());
        assert(vstd::utf8::encode_utf8(Seq::<char>::empty()) =~= Seq::<u8>::empty());
    } else {
        let r = xs.drop_first();
        lemme_octets_elements(r);
        assert(m.drop_first() =~= r.map_values(|x: Seq<char>| evenements_chaine(x)));
        assert(c.drop_first() =~= r.map_values(|x: Seq<char>| chaine_resp(x)));
        assert(m.flatten() == m[0] + m.drop_first().flatten());
        assert(c.flatten() == c[0] + c.drop_first().flatten());
        lemme_octets_concat(m[0], m.drop_first().flatten());
        lemme_encode_concat(c[0], c.drop_first().flatten());
        lemme_octets_chaine(xs[0]);
        lemme_ligne_chaine(xs[0]);
        let a = m[0];
        let b = m.drop_first().flatten();
        assert forall|k: int| 0 <= k < (a + b).len() implies match #[trigger] (a + b)[k] {
            Evenement::Ligne(l) => ligne_entiere(l),
            Evenement::Octets(_) => true,
        } by {
            if k < a.len() {
                assert((a + b)[k] == a[k]);
            } else {
                assert((a + b)[k] == b[k - a.len()]);
            }
        }
    }
}

proof fn lemme_ligne_nombre(c: char, n: int)
    requires
        c != '\n',
    ensures
        ligne_entiere(seq![c] + decimal(n) + "\r\n"@),
{
    reveal_strlit("\r\n");
    lemme_decimal_sans_saut(n);
    let l = seq![c] + decimal(n) + "\r\n"@;
    let d = decimal(n);
    assert forall|j: int| 0 <= j < l.len() - 1 implies l[j] != '\n' by {
        if j == 0 {
        } else if j <= d.len() {
            assert(l[j] == d[j - 1]);
        } else {
            assert(l[j] == '\r');
        }
    }
}

proof fn lemme_ligne_chaine(s: Seq<char>)
    ensures
        lignes_entieres(evenements_chaine(s)),
{
    reveal_strlit("$");
    assert("$"@ =~= seq!['$']);
    lemme_ligne_nombre('$', octets(s) as usize as int);
}

/// What the encoders write is read back, step by step from a stream, as the
/// value it stands for, using exactly its own lines and bytes and leaving
/// whatever follows untouched: `+OK`, `$-1`, an integer and an error reply
/// (whose message has no line feed) in one line each; a bulk string in its
/// header line and its bytes; an array of bulk strings in its header line and
/// the steps of each string. The steps carry exactly the bytes of the
/// encoder's text, and each line step is one whole line.
pub proof fn loi_lecture_en_flux(
    m: Seq<char>,
    s: Seq<char>,
    n: i64,
    xs: Seq<Seq<char>>,
    suite: Seq<Evenement>,
)
    requires
        !m.contains('\n'),
        octets(s) <= i64::MAX,
        octets(s) <= usize::MAX,
        xs.len() <= i64::MAX,
        forall|k: int| 0 <= k < xs.len() ==> octets(#[trigger] xs[k]) <= i64::MAX && octets(xs[k]) <= usize::MAX,
    ensures
        lecture(lecteur_neuf(), seq![Evenement::Ligne("+OK\r\n"@)] + suite) == Issue::Fini(
            ValeurVue::SimpleString("OK"@),
            1,
        ),
        lecture(lecteur_neuf(), seq![Evenement::Ligne("$-1\r\n"@)] + suite) == Issue::Fini(
            ValeurVue::Null,
            1,
        ),
        lecture(lecteur_neuf(), seq![Evenement::Ligne(":"@ + decimal(n as int) + "\r\n"@)] + suite)
            == Issue::Fini(ValeurVue::Integer(n), 1),
        lecture(lecteur_neuf(), seq![Evenement::Ligne("-ERR "@ + m + "\r\n"@)] + suite)
            == Issue::Fini(ValeurVue::Error("ERR "@ + m), 1),
        lecture(lecteur_neuf(), evenements_chaine(s) + suite) == Issue::Fini(
            ValeurVue::BulkString(s),
            2,
        ),
        lecture(lecteur_neuf(), evenements_tableau(xs) + suite) == Issue::Fini(
            ValeurVue::Array(xs.map_values(|x: Seq<char>| ValeurVue::BulkString(x))),
            1 + 2 * xs.len(),
        ),
        octets_evenements(evenements_chaine(s)) == vstd::utf8::encode_utf8(chaine_resp(s)),
        octets_evenements(evenements_tableau(xs)) == vstd::utf8::encode_utf8(
            "*"@ + decimal(xs.len() as int) + "\r\n"@ + xs.map_values(|x: Seq<char>| chaine_resp(x)).flatten(),
        ),
        ligne_entiere("+OK\r\n"@),
        ligne_entiere("$-1\r\n"@),
        ligne_entiere(":"@ + decimal(n as int) + "\r\n"@),
        ligne_entiere("-ERR "@ + m + "\r\n"@),
        lignes_entieres(evenements_chaine(s)),
        lignes_entieres(evenements_tableau(xs)),
{
    let vide = Seq::<(u64, Seq<ValeurVue>)>::empty();
    let neuf = lecteur_neuf();
    // The one-line replies.
    loi_reponses_relues(m.take(0), s, 0);
    if m.len() > 0 {
        assert(m.contains(m.last()));
        loi_reponses_relues(m, s, 0);
    } else {
        assert(m =~= m.take(0));
    }
    loi_entier_resp_aller_retour(n);
    let l1 = seq![Evenement::Ligne("+OK\r\n"@)] + suite;
    assert(l1[0] == Evenement::Ligne("+OK\r\n"@));
    assert(livraison(vide, ValeurVue::SimpleString("OK"@)) == (vide, Some(ValeurVue::SimpleString("OK"@))));
    let l2 = seq![Evenement::Ligne("$-1\r\n"@)] + suite;
    assert(l2[0] == Evenement::Ligne("$-1\r\n"@));
    assert(livraison(vide, ValeurVue::Null) == (vide, Some(ValeurVue::Null)));
    let l3 = seq![Evenement::Ligne(":"@ + decimal(n as int) + "\r\n"@)] + suite;
    assert(l3[0] == Evenement::Ligne(":"@ + decimal(n as int) + "\r\n"@));
    assert(livraison(vide, ValeurVue::Integer(n)) == (vide, Some(ValeurVue::Integer(n))));
    let l4 = seq![Evenement::Ligne("-ERR "@ + m + "\r\n"@)] + suite;
    assert(l4[0] == Evenement::Ligne("-ERR "@ + m + "\r\n"@));
    assert(livraison(vide, ValeurVue::Error("ERR "@ + m)) == (vide, Some(ValeurVue::Error("ERR "@ + m))));
    // A bulk string.
    lemme_chaine_dans(neuf, s, suite);
    assert(livraison(vide, ValeurVue::BulkString(s)) == (vide, Some(ValeurVue::BulkString(s))));
    // An array of bulk strings.
    let h = "*"@ + decimal(xs.len() as int) + "\r\n"@;
    let corps = xs.map_values(|x: Seq<char>| evenements_chaine(x)).flatten();
    let evs = evenements_tableau(xs) + suite;
    assert(evs[0] == Evenement::Ligne(h));
    assert(evs.drop_first() =~= corps + suite);
    loi_reponses_relues(m.take(0), s, xs.len() as i64);
    if xs.len() == 0 {
        assert(xs.map_values(|x: Seq<char>| ValeurVue::BulkString(x)) =~= Seq::<ValeurVue>::empty());
        assert(livraison(vide, ValeurVue::Array(seq![])) == (vide, Some(ValeurVue::Array(seq![]))));
    } else {
        let e1 = LecteurVue { cadres: vide.push((xs.len() as u64, seq![])), chaine: None };
        assert(pas_ligne(neuf, h) == Ok::<(LecteurVue, Option<ValeurVue>), Seq<char>>((e1, None)));
        assert(vide.push((xs.len() as u64, Seq::<ValeurVue>::empty())) =~= seq![(
            xs.len() as u64,
            Seq::<ValeurVue>::empty(),
        )]);
        assert(xs.skip(0) =~= xs);
        assert(xs.take(0).map_values(|x: Seq<char>| ValeurVue::BulkString(x)) =~= Seq::<ValeurVue>::empty());
        lemme_elements(xs, 0, seq![], suite);
    }
    // The bytes and the lines.
    lemme_octets_chaine(s);
    lemme_ligne_chaine(s);
    lemme_octets_elements(xs);
    lemme_crlf();
    lemme_octets_concat(seq![Evenement::Ligne(h)], corps);
    assert(octets_evenements(seq![Evenement::Ligne(h)]) =~= vstd::utf8::encode_utf8(h)) by {
        assert(seq![Evenement::Ligne(h)].drop_first() =~= Seq::<Evenement>::empty());
        assert(octets_evenements(Seq::<Evenement>::empty()) =~= Seq::<u8>::empty());
    }
    lemme_encode_concat(h, xs.map_values(|x: Seq<char>| chaine_resp(x)).flatten());
    reveal_strlit("*");
    reveal_strlit(":");
    reveal_strlit("+OK\r\n");
    reveal_strlit("$-1\r\n");
    reveal_strlit("-ERR ");
    reveal_strlit("\r\n");
    assert("*"@ =~= seq!['*']);
    assert(":"@ =~= seq![':']);
    lemme_ligne_nombre('*', xs.len() as int);
    lemme_ligne_nombre(':', n as int);
    let t = evenements_tableau(xs);
    assert forall|k: int| 0 <= k < t.len() implies match #[trigger] t[k] {
        Evenement::Ligne(l) => ligne_entiere(l),
        Evenement::Octets(_) => true,
    } by {
        if k > 0 {
            assert(t[k] == corps[k - 1]);
        }
    }
    let le = "-ERR "@ + m + "\r\n"@;
    assert forall|j: int| 0 <= j < le.len() - 1 implies le[j] != '\n' by {
        if 5 <= j < 5 + m.len() {
            assert(le[j] == m[j - 5]);
            if m[j - 5] == '\n' {
                assert(m.contains('\n'));
            }
        }
    }
}

} // verus!
