//! The in-memory store: texts mapped to byte values, each with an optional
//! expiry moment. Moments are nanoseconds since the store was made, read from
//! the monotonic clock.

use vstd::prelude::*;
use vstd::hash_map::StringHashMap;
use std::time::{Duration, Instant};
use crate::texte::{meme_texte, vue_textes};

verus! {

broadcast use vstd::hash_map::group_hash_map_axioms;

#[verifier::external_type_specification]
#[verifier::external_body]
pub struct ExInstant(std::time::Instant);

/// A bound on every clock reading: a `Duration` holds at most `u64::MAX`
/// whole seconds, so its length in nanoseconds is below this.
pub const NANOS_MAX: u128 = 18_446_744_073_709_551_616_000_000_000;

/// Nanoseconds in a second.
pub const NANOS_PAR_SECONDE: u128 = 1_000_000_000;

/// Calls `Instant::now`. Nothing is claimed of the moment it gives.
#[verifier::external_body]
fn instant_present() -> Instant {
    Instant::now()
}

/// Calls `Instant::elapsed`. Nothing is claimed of the duration it gives: it
/// depends on the clock.
#[verifier::external_body]
fn duree_depuis(origine: &Instant) -> Duration {
    origine.elapsed()
}

/// Calls `Duration::as_nanos`. Claimed: the count is below `NANOS_MAX`, since a
/// `Duration` is a `u64` count of seconds and a fraction of a second. Which
/// count it is (the duration seen as nanoseconds) is left unsaid, as the
/// duration is opaque here.
#[verifier::external_body]
fn duree_en_nanos(d: &Duration) -> (r: u128)
    ensures
        r < NANOS_MAX,
{
    d.as_nanos()
}

/// A stored value and, where it has one, the moment (in nanoseconds since the
/// store was made) after which it has expired.
pub struct CacheEntry {
    pub valeur: Vec<u8>,
    pub expiration: Option<u128>,
}

/// A stored value as the contracts see it.
pub struct EntreeVue {
    pub valeur: Seq<u8>,
    pub expiration: Option<u128>,
}

impl View for CacheEntry {
    type V = EntreeVue;

    open spec fn view(&self) -> EntreeVue {
        EntreeVue { valeur: self.valeur@, expiration: self.expiration }
    }
}

/// Whether an entry has expired at moment `t`: it has an expiry moment and
/// `t` is strictly after it.
pub open spec fn expiree(e: EntreeVue, t: u128) -> bool {
    match e.expiration {
        Some(x) => t > x,
        None => false,
    }
}

impl CacheEntry {
    /// Whether the entry has expired at moment `maintenant`.
    pub fn est_expiree(&self, maintenant: u128) -> (r: bool)
        ensures
            r == expiree(self@, maintenant),
    {
        match self.expiration {
            Some(x) => maintenant > x,
            None => false,
        }
    }
}

/// The order of keys after `k` is written: unchanged where `k` was there,
/// else `k` at the end.
pub open spec fn ajouter_cle(o: Seq<Seq<char>>, k: Seq<char>) -> Seq<Seq<char>> {
    if o.contains(k) {
        o
    } else {
        o.push(k)
    }
}

/// The entry that `set` writes at moment `t`: the value, and the moment
/// `ttl` seconds after `t` where a delay is given.
pub open spec fn entree_ecrite(valeur: Seq<u8>, ttl: Option<u64>, t: u128) -> EntreeVue {
    EntreeVue {
        valeur,
        expiration: match ttl {
            Some(s) => Some((t + s * NANOS_PAR_SECONDE) as u128),
            None => None,
        },
    }
}

/// What a read of `k` gives at moment `t`: the value where the key is there
/// and has not expired.
pub open spec fn lecture(m: Map<Seq<char>, EntreeVue>, k: Seq<char>, t: u128) -> Option<Seq<u8>> {
    if m.contains_key(k) && !expiree(m[k], t) {
        Some(m[k].valeur)
    } else {
        None
    }
}

proof fn lemme_ajout_ensemble(s: Seq<Seq<char>>, k: Seq<char>)
    ensures
        s.push(k).to_set() == s.to_set().insert(k),
{
    assert(s.push(k) =~= s + seq![k]);
    Seq::lemma_to_set_insert_commutes(s, k);
}

/// The order of keys after `k` is deleted: `k` taken out where it was there.
pub open spec fn retirer_cle(o: Seq<Seq<char>>, k: Seq<char>) -> Seq<Seq<char>> {
    if o.contains(k) {
        o.remove(o.index_of(k))
    } else {
        o
    }
}

/// What the remaining lifetime of `k` reads at moment `t`: `None` for an
/// absent key, -1 for a key that never expires, -2 for one that has expired,
/// else the whole seconds left.
pub open spec fn duree_restante(m: Map<Seq<char>, EntreeVue>, k: Seq<char>, t: u128) -> Option<i64> {
    if !m.contains_key(k) {
        None
    } else {
        match m[k].expiration {
            Some(x) => if x > t {
                Some((((x - t) / (NANOS_PAR_SECONDE as int)) as u64) as i64)
            } else {
                Some(-2i64)
            },
            None => Some(-1i64),
        }
    }
}

/// The entries of `m` that have not expired at moment `t`.
pub open spec fn sans_expirees(m: Map<Seq<char>, EntreeVue>, t: u128) -> Map<Seq<char>, EntreeVue> {
    m.restrict(m.dom().filter(|k: Seq<char>| !expiree(m[k], t)))
}

/// The test that keeps the keys of `m` that have not expired at moment `t`.
pub open spec fn non_expiree(m: Map<Seq<char>, EntreeVue>, t: u128) -> spec_fn(Seq<char>) -> bool {
    |k: Seq<char>| !expiree(m[k], t)
}

proof fn lemme_retrait(o: Seq<Seq<char>>, i: int)
    requires
        o.no_duplicates(),
        0 <= i < o.len(),
    ensures
        o.remove(i).no_duplicates(),
        o.remove(i).to_set() == o.to_set().remove(o[i]),
        o.index_of(o[i]) == i,
        retirer_cle(o, o[i]) == o.remove(i),
{
    let r = o.remove(i);
    assert forall|a: int, b: int| 0 <= a < b < r.len() implies r[a] != r[b] by {
        let a2 = if a < i { a } else { a + 1 };
        let b2 = if b < i { b } else { b + 1 };
        assert(r[a] == o[a2]);
        assert(r[b] == o[b2]);
    }
    assert forall|x: Seq<char>| r.to_set().contains(x) <==> o.to_set().remove(o[i]).contains(x) by {
        if r.contains(x) {
            let a = choose|a: int| 0 <= a < r.len() && r[a] == x;
            let a2 = if a < i { a } else { a + 1 };
            assert(o[a2] == x);
            assert(a2 != i);
        }
        if o.contains(x) && x != o[i] {
            let a2 = choose|a: int| 0 <= a < o.len() && o[a] == x;
            assert(a2 != i);
            let a = if a2 < i { a2 } else { a2 - 1 };
            assert(r[a] == x);
        }
    }
    assert(r.to_set() =~= o.to_set().remove(o[i]));
    assert(o.contains(o[i]));
    let j = o.index_of(o[i]);
    assert(0 <= j < o.len() && o[j] == o[i]);
}

/// The value that a read gave, as a byte sequence.
pub open spec fn valeur_lue(r: Option<&Vec<u8>>) -> Option<Seq<u8>> {
    match r {
        Some(v) => Some(v@),
        None => None,
    }
}

/// A moment of the store's clock, in nanoseconds since the store was made;
/// like every clock reading, below `NANOS_MAX`.
struct Moment {
    valeur: u128,
}

impl Moment {
    #[verifier::type_invariant]
    spec fn borne(&self) -> bool {
        self.valeur < NANOS_MAX
    }

    fn lire(&self) -> (r: u128)
        ensures
            r == self.valeur,
            r < NANOS_MAX,
    {
        proof {
            use_type_invariant(self);
        }
        self.valeur
    }
}

/// A cache store.
pub struct Store {
    donnees: StringHashMap<CacheEntry>,
    cles: Vec<String>,
    origine: Instant,
    horloge: Moment,
}

impl View for Store {
    type V = Map<Seq<char>, EntreeVue>;

    closed spec fn view(&self) -> Map<Seq<char>, EntreeVue> {
        self.donnees@.map_values(|e: CacheEntry| e@)
    }
}

impl Store {
    /// The store's inner consistency: each key listed once, and the listed
    /// keys are those that have entries.
    pub closed spec fn inv(&self) -> bool {
        &&& vue_textes(self.cles@).no_duplicates()
        &&& vue_textes(self.cles@).to_set() == self.donnees@.dom()
    }

    /// The latest moment (in nanoseconds since the store was made) at which
    /// the store carried out a timed write or cleaning: the store's present
    /// is never earlier.
    pub closed spec fn horloge(&self) -> u128 {
        self.horloge.valeur
    }

    /// Records that the store carried out a request at moment `t`, which is
    /// not earlier than the moments it used before.
    pub fn avancer_horloge(&mut self, t: u128)
        requires
            t < NANOS_MAX,
            t >= old(self).horloge(),
        ensures
            final(self).horloge() == t,
            final(self)@ == old(self)@,
            final(self).ordre() == old(self).ordre(),
            final(self).inv() == old(self).inv(),
    {
        self.horloge = Moment { valeur: t };
    }

    /// The order in which the store lists its keys.
    pub closed spec fn ordre(&self) -> Seq<Seq<char>> {
        vue_textes(self.cles@)
    }

    /// The listed keys are the stored keys, each once.
    pub proof fn lemme_ordre(&self)
        requires
            self.inv(),
        ensures
            self.ordre().no_duplicates(),
            self.ordre().to_set() == self@.dom(),
            self.ordre().len() == self@.len(),
            self@.dom().finite(),
    {
        self.ordre().unique_seq_to_set();
        assert(self@.dom() =~= self.donnees@.dom());
    }

    /// An empty store, whose clock starts now.
    pub fn nouveau() -> (s: Self)
        ensures
            s.inv(),
            s@ == Map::<Seq<char>, EntreeVue>::empty(),
            s.ordre() == Seq::<Seq<char>>::empty(),
            s.horloge() == 0,
    {
        let s = Store {
            donnees: StringHashMap::new(),
            cles: Vec::new(),
            origine: instant_present(),
            horloge: Moment { valeur: 0 },
        };
        proof {
            assert(vue_textes(s.cles@) =~= Seq::<Seq<char>>::empty());
            assert(vue_textes(s.cles@).to_set() =~= s.donnees@.dom());
            assert(s@ =~= Map::<Seq<char>, EntreeVue>::empty());
        }
        s
    }

    /// The present moment, in nanoseconds since the store was made: the
    /// monotonic clock's reading, never earlier than a moment the store has
    /// already used.
    pub fn maintenant(&self) -> (r: u128)
        ensures
            r < NANOS_MAX,
            r >= self.horloge(),
    {
        let d = duree_depuis(&self.origine);
        let lu = duree_en_nanos(&d);
        let h = self.horloge.lire();
        if lu < h {
            h
        } else {
            lu
        }
    }

    /// Stores `entree` under `cle`, in place of what was there.
    pub fn inserer(&mut self, cle: String, entree: CacheEntry)
        requires
            old(self).inv(),
        ensures
            final(self).horloge() == old(self).horloge(),
            final(self).inv(),
            final(self)@ == old(self)@.insert(cle@, entree@),
            final(self).ordre() == ajouter_cle(old(self).ordre(), cle@),
    {
        let ghost k = cle@;
        let ghost e = entree@;
        if !self.donnees.contains_key(cle.as_str()) {
            let copie = cle.clone();
            self.cles.push(copie);
            proof {
                assert(vue_textes(self.cles@) =~= vue_textes(old(self).cles@).push(k));
                assert(!vue_textes(old(self).cles@).contains(k));
                lemme_ajout_ensemble(vue_textes(old(self).cles@), k);
            }
        } else {
            assert(vue_textes(old(self).cles@).contains(k));
        }
        self.donnees.insert(cle, entree);
        proof {
            assert(vue_textes(self.cles@).to_set() =~= self.donnees@.dom());
            assert(self@ =~= old(self)@.insert(k, e));
        }
    }

    /// The entry under `cle`, expired or not.
    pub fn entree(&self, cle: &str) -> (r: Option<&CacheEntry>)
        ensures
            match r {
                Some(e) => self@.contains_key(cle@) && e@ == self@[cle@],
                None => !self@.contains_key(cle@),
            },
    {
        self.donnees.get(cle)
    }

    /// Writes `valeur` under `cle` at moment `maintenant`, to expire `ttl_secs`
    /// seconds later where a delay is given.
    pub fn set_a(&mut self, cle: String, valeur: Vec<u8>, ttl_secs: Option<u64>, maintenant: u128)
        requires
            old(self).inv(),
            maintenant < NANOS_MAX,
        ensures
            final(self).horloge() == old(self).horloge(),
            final(self).inv(),
            final(self)@ == old(self)@.insert(cle@, entree_ecrite(valeur@, ttl_secs, maintenant)),
            final(self).ordre() == ajouter_cle(old(self).ordre(), cle@),
    {
        let expiration = match ttl_secs {
            Some(s) => Some(maintenant + (s as u128) * NANOS_PAR_SECONDE),
            None => None,
        };
        self.inserer(cle, CacheEntry { valeur, expiration });
    }

    /// Deletes the entry under `cle`; says whether there was one, expired or
    /// not.
    pub fn delete(&mut self, cle: &str) -> (r: bool)
        requires
            old(self).inv(),
        ensures
            final(self).horloge() == old(self).horloge(),
            final(self).inv(),
            r == old(self)@.contains_key(cle@),
            final(self)@ == old(self)@.remove(cle@),
            final(self).ordre() == retirer_cle(old(self).ordre(), cle@),
    {
        let ghost k = cle@;
        let ghost o = vue_textes(self.cles@);
        if !self.donnees.contains_key(cle) {
            proof {
                assert(!o.to_set().contains(k));
                assert(self@ =~= old(self)@.remove(k));
            }
            return false;
        }
        assert(o.to_set().contains(k));
        let n = self.cles.len();
        let mut i: usize = 0;
        while i < n
            invariant
                n == self.cles@.len(),
                o == vue_textes(self.cles@),
                o.contains(k),
                k == cle@,
                i <= n,
                forall|j: int| 0 <= j < i ==> o[j] != k,
            ensures
                i <= n,
                i < n ==> o[i as int] == k,
                forall|j: int| 0 <= j < i ==> o[j] != k,
            decreases n - i,
        {
            if meme_texte(self.cles[i].as_str(), cle) {
                break;
            }
            i = i + 1;
        }
        if i == n {
            proof {
                let j = choose|j: int| 0 <= j < o.len() && o[j] == k;
                assert(false);
            }
            return false;
        }
        proof {
            assert(o[i as int] == k);
            lemme_retrait(o, i as int);
        }
        self.cles.remove(i);
        self.donnees.remove(cle);
        proof {
            assert(vue_textes(self.cles@) =~= o.remove(i as int));
            assert(vue_textes(self.cles@).to_set() =~= self.donnees@.dom());
            assert(self@ =~= old(self)@.remove(k));
        }
        true
    }

    /// Whether a read of `cle` at moment `maintenant` finds a value.
    pub fn existe_a(&self, cle: &str, maintenant: u128) -> (r: bool)
        ensures
            r == lecture(self@, cle@, maintenant) is Some,
    {
        self.get_a(cle, maintenant).is_some()
    }

    /// The remaining lifetime of `cle` at moment `maintenant`, in whole
    /// seconds: -1 where it never expires, -2 where it has expired, `None`
    /// where it is absent.
    pub fn ttl_a(&self, cle: &str, maintenant: u128) -> (r: Option<i64>)
        ensures
            r == duree_restante(self@, cle@, maintenant),
    {
        match self.donnees.get(cle) {
            Some(entree) => match entree.expiration {
                Some(x) => {
                    if x > maintenant {
                        Some((((x - maintenant) / NANOS_PAR_SECONDE) as u64) as i64)
                    } else {
                        Some(-2)
                    }
                },
                None => Some(-1),
            },
            None => None,
        }
    }

    /// Deletes every entry; gives how many there were.
    pub fn flush(&mut self) -> (r: usize)
        requires
            old(self).inv(),
        ensures
            final(self).horloge() == old(self).horloge(),
            final(self).inv(),
            r == old(self)@.len(),
            final(self)@ == Map::<Seq<char>, EntreeVue>::empty(),
            final(self).ordre() == Seq::<Seq<char>>::empty(),
    {
        let nb = self.donnees.len();
        proof {
            assert(self@.dom() =~= self.donnees@.dom());
        }
        self.donnees.clear();
        self.cles.clear();
        proof {
            assert(vue_textes(self.cles@) =~= Seq::<Seq<char>>::empty());
            assert(vue_textes(self.cles@).to_set() =~= self.donnees@.dom());
            assert(self@ =~= Map::<Seq<char>, EntreeVue>::empty());
        }
        nb
    }

    /// Deletes the entries that have expired at moment `maintenant`; gives how
    /// many went.
    pub fn nettoyer_expires_a(&mut self, maintenant: u128) -> (r: usize)
        requires
            old(self).inv(),
        ensures
            final(self).horloge() == old(self).horloge(),
            final(self).inv(),
            final(self)@ == sans_expirees(old(self)@, maintenant),
            final(self).ordre() == old(self).ordre().filter(non_expiree(old(self)@, maintenant)),
            r == old(self)@.len() - final(self)@.len(),
    {
        let ghost o = vue_textes(self.cles@);
        let ghost m0 = self.donnees@;
        let ghost v0 = self@;
        let ghost p = non_expiree(v0, maintenant);
        proof {
            old(self).lemme_ordre();
        }
        let n = self.cles.len();
        let mut gardees: Vec<String> = Vec::new();
        let mut i: usize = 0;
        while i < n
            invariant
                n == self.cles@.len(),
                o == vue_textes(self.cles@),
                o.no_duplicates(),
                o.to_set() == m0.dom(),
                v0 == m0.map_values(|e: CacheEntry| e@),
                p == non_expiree(v0, maintenant),
                self.horloge() == old(self).horloge(),
                i <= n,
                gardees@.len() <= i,
                vue_textes(gardees@) == o.take(i as int).filter(p),
                vue_textes(gardees@).no_duplicates(),
                forall|k: Seq<char>|
                    #![trigger vue_textes(gardees@).contains(k)]
                    vue_textes(gardees@).contains(k) <==> (o.take(i as int).contains(k) && p(k)),
                forall|k: Seq<char>|
                    #![trigger self.donnees@.contains_key(k)]
                    self.donnees@.contains_key(k) <==> (m0.contains_key(k) && !(o.take(
                        i as int,
                    ).contains(k) && !p(k))),
                forall|k: Seq<char>|
                    #![trigger self.donnees@[k]]
                    self.donnees@.contains_key(k) ==> self.donnees@[k] == m0[k],
            decreases n - i,
        {
            let c = self.cles[i].clone();
            let ghost k = c@;
            let ghost t1 = o.take(i + 1);
            let ghost t0 = o.take(i as int);
            proof {
                assert(k == o[i as int]);
                assert(o.take(i + 1).drop_last() =~= o.take(i as int));
                assert(o.take(i + 1).last() == k);
                assert(!o.take(i as int).contains(k));
                assert(o.contains(k));
                assert(m0.contains_key(k));
                assert forall|x: Seq<char>| t1.contains(x) <==> (t0.contains(x) || x == k) by {
                    if t1.contains(x) {
                        let j = choose|j: int| 0 <= j < t1.len() && t1[j] == x;
                        if j < i {
                            assert(t0[j] == x);
                        }
                    }
                    if t0.contains(x) {
                        let j = choose|j: int| 0 <= j < t0.len() && t0[j] == x;
                        assert(t1[j] == x);
                    }
                    if x == k {
                        assert(t1[i as int] == x);
                    }
                }
            }
            let expire = match self.donnees.get(c.as_str()) {
                Some(e) => e.est_expiree(maintenant),
                None => false,
            };
            proof {
                assert(expire == !p(k));
            }
            if expire {
                self.donnees.remove(c.as_str());
                proof {
                    reveal(Seq::filter);
                    assert(t1.filter(p) == t0.filter(p));
                    assert forall|x: Seq<char>| #[trigger] vue_textes(gardees@).contains(x) <==> (t1.contains(x) && p(x)) by {
                        if x == k {
                            assert(!p(x));
                        }
                    }
                }
            } else {
                let ghost avant = gardees@;
                gardees.push(c);
                proof {
                    assert(vue_textes(gardees@) =~= vue_textes(avant).push(k));
                    reveal(Seq::filter);
                    assert(t1.filter(p) == t0.filter(p).push(k));
                    assert(!vue_textes(avant).contains(k));
                    assert forall|x: Seq<char>| vue_textes(gardees@).contains(x) <==> (vue_textes(
                        avant,
                    ).contains(x) || x == k) by {
                        if vue_textes(gardees@).contains(x) {
                            let j = choose|j: int|
                                0 <= j < vue_textes(gardees@).len() && vue_textes(gardees@)[j] == x;
                            if j < avant.len() {
                                assert(vue_textes(avant)[j] == x);
                            }
                        }
                        if vue_textes(avant).contains(x) {
                            let j = choose|j: int|
                                0 <= j < vue_textes(avant).len() && vue_textes(avant)[j] == x;
                            assert(vue_textes(gardees@)[j] == x);
                        }
                        if x == k {
                            assert(vue_textes(gardees@)[avant.len() as int] == x);
                        }
                    }
                    assert forall|x: Seq<char>| #[trigger] vue_textes(gardees@).contains(x) <==> (t1.contains(x) && p(x)) by {
                        assert(vue_textes(avant).contains(x) <==> (t0.contains(x) && p(x)));
                        assert(t1.contains(x) <==> (t0.contains(x) || x == k));
                        assert(vue_textes(gardees@).contains(x) <==> (vue_textes(avant).contains(x) || x == k));
                        if x == k {
                            assert(p(x));
                        }
                    }
                }
            }
            i = i + 1;
        }
        proof {
            assert(o.take(n as int) =~= o);
            assert forall|x: Seq<char>| o.contains(x) <==> m0.contains_key(x) by {
                assert(o.to_set().contains(x) <==> o.contains(x));
            }
            assert(vue_textes(gardees@).to_set() =~= self.donnees@.dom());
        }
        let apres = gardees.len();
        self.cles = gardees;
        proof {
            self.lemme_ordre();
            assert(self@ =~= sans_expirees(v0, maintenant));
        }
        n - apres
    }

    /// The keys of the store, each once, expired or not.
    pub fn cles(&self) -> (r: Vec<String>)
        ensures
            vue_textes(r@) == self.ordre(),
    {
        let mut r: Vec<String> = Vec::new();
        let n = self.cles.len();
        let mut i: usize = 0;
        while i < n
            invariant
                n == self.cles@.len(),
                i <= n,
                r@.len() == i,
                vue_textes(r@) == vue_textes(self.cles@).take(i as int),
            decreases n - i,
        {
            let c = self.cles[i].clone();
            let ghost avant = r@;
            r.push(c);
            proof {
                assert(c@ == self.cles@[i as int]@);
                assert forall|j: int| 0 <= j < i implies #[trigger] r@[j]@ == self.cles@[j]@ by {
                    assert(r@[j] == avant[j]);
                    assert(vue_textes(avant)[j] == vue_textes(self.cles@).take(i as int)[j]);
                }
                assert(vue_textes(r@) =~= vue_textes(self.cles@).take(i + 1));
            }
            i = i + 1;
        }
        proof {
            assert(vue_textes(self.cles@).take(n as int) =~= vue_textes(self.cles@));
        }
        r
    }

    /// Writes `valeur` under `cle`, to expire `ttl_secs` seconds from now where
    /// a delay is given.
    pub fn set(&mut self, cle: String, valeur: Vec<u8>, ttl_secs: Option<u64>)
        requires
            old(self).inv(),
        ensures
            final(self).inv(),
            exists|t: u128|
                t < NANOS_MAX && t >= old(self).horloge() && final(self).horloge() == t
                    && final(self)@ == old(self)@.insert(
                    cle@,
                    #[trigger] entree_ecrite(valeur@, ttl_secs, t),
                ),
            final(self).ordre() == ajouter_cle(old(self).ordre(), cle@),
    {
        let t = self.maintenant();
        let ghost k = cle@;
        let ghost v = valeur@;
        self.set_a(cle, valeur, ttl_secs, t);
        self.horloge = Moment { valeur: t };
        assert(final(self)@ == old(self)@.insert(k, entree_ecrite(v, ttl_secs, t)));
    }

    /// The value under `cle` now, unless it is absent or has expired.
    pub fn get(&self, cle: &str) -> (r: Option<&Vec<u8>>)
        ensures
            exists|t: u128|
                t < NANOS_MAX && t >= self.horloge() && valeur_lue(r) == #[trigger] lecture(
                    self@,
                    cle@,
                    t,
                ),
    {
        let t = self.maintenant();
        let r = self.get_a(cle, t);
        assert(valeur_lue(r) == lecture(self@, cle@, t));
        r
    }

    /// Whether a read of `cle` now finds a value.
    pub fn existe(&self, cle: &str) -> (r: bool)
        ensures
            exists|t: u128|
                t < NANOS_MAX && t >= self.horloge() && r == (#[trigger] lecture(
                    self@,
                    cle@,
                    t,
                )) is Some,
    {
        self.get(cle).is_some()
    }

    /// The remaining lifetime of `cle` now, in whole seconds: -1 where it
    /// never expires, -2 where it has expired, `None` where it is absent.
    pub fn ttl(&self, cle: &str) -> (r: Option<i64>)
        ensures
            exists|t: u128|
                t < NANOS_MAX && t >= self.horloge() && r == #[trigger] duree_restante(
                    self@,
                    cle@,
                    t,
                ),
    {
        let t = self.maintenant();
        self.ttl_a(cle, t)
    }

    /// Deletes the entries that have expired by now; gives how many went.
    pub fn nettoyer_expires(&mut self) -> (r: usize)
        requires
            old(self).inv(),
        ensures
            final(self).inv(),
            exists|t: u128|
                t < NANOS_MAX && t >= old(self).horloge() && final(self).horloge() == t
                    && final(self)@ == #[trigger] sans_expirees(old(self)@, t)
                    && final(self).ordre() == old(self).ordre().filter(non_expiree(old(self)@, t)),
            r == old(self)@.len() - final(self)@.len(),
            forall|k: Seq<char>|
                old(self)@.contains_key(k) && #[trigger] expiree(old(self)@[k], old(self).horloge())
                    ==> !final(self)@.contains_key(k) && r >= 1,
    {
        let t = self.maintenant();
        let r = self.nettoyer_expires_a(t);
        self.horloge = Moment { valeur: t };
        proof {
            old(self).lemme_ordre();
            assert forall|k: Seq<char>|
                old(self)@.contains_key(k) && #[trigger] expiree(old(self)@[k], old(self).horloge())
                    implies !final(self)@.contains_key(k) && r >= 1 by {
                loi_nettoyage_retire_expirees(old(self)@, k, old(self).horloge(), t);
            }
        }
        r
    }

    /// The value under `cle` at moment `maintenant`, unless it is absent or has
    /// expired.
    pub fn get_a(&self, cle: &str, maintenant: u128) -> (r: Option<&Vec<u8>>)
        ensures
            valeur_lue(r) == lecture(self@, cle@, maintenant),
    {
        match self.donnees.get(cle) {
            Some(entree) => {
                if entree.est_expiree(maintenant) {
                    None
                } else {
                    Some(&entree.valeur)
                }
            },
            None => None,
        }
    }
}

/// A read gives back what a write wrote: right after `SET k v`, and as long
/// as the delay given with `EX` has not run out, `GET k` gives `v`; once it
/// has run out, `GET k` finds nothing.
pub proof fn loi_lecture_apres_ecriture(
    m: Map<Seq<char>, EntreeVue>,
    k: Seq<char>,
    v: Seq<u8>,
    ttl: Option<u64>,
    t: u128,
    t2: u128,
)
    requires
        t < NANOS_MAX,
    ensures
        lecture(m.insert(k, entree_ecrite(v, ttl, t)), k, t2) == (match ttl {
            Some(s) => if t2 > t + s * NANOS_PAR_SECONDE {
                None
            } else {
                Some(v)
            },
            None => Some(v),
        }),
{
}

/// Writing a key leaves what every other key reads unchanged.
pub proof fn loi_ecriture_isolee(
    m: Map<Seq<char>, EntreeVue>,
    k: Seq<char>,
    e: EntreeVue,
    autre: Seq<char>,
    t: u128,
)
    requires
        autre != k,
    ensures
        lecture(m.insert(k, e), autre, t) == lecture(m, autre, t),
        duree_restante(m.insert(k, e), autre, t) == duree_restante(m, autre, t),
{
}

/// After `DEL k`, `GET k` finds nothing, and every other key reads as before.
pub proof fn loi_lecture_apres_suppression(
    m: Map<Seq<char>, EntreeVue>,
    k: Seq<char>,
    autre: Seq<char>,
    t: u128,
)
    ensures
        lecture(m.remove(k), k, t) == None::<Seq<u8>>,
        duree_restante(m.remove(k), k, t) == None::<i64>,
        autre != k ==> lecture(m.remove(k), autre, t) == lecture(m, autre, t),
{
}

/// Deleting the entries expired at a moment changes no read made then or
/// later: the cleaning is invisible to `GET`.
pub proof fn loi_nettoyage_invisible(m: Map<Seq<char>, EntreeVue>, k: Seq<char>, t: u128, t2: u128)
    requires
        t <= t2,
    ensures
        lecture(sans_expirees(m, t), k, t2) == lecture(m, k, t2),
{
}

/// Right after `SET k v` without a delay, `TTL k` reads -1; right after
/// `SET k v EX s`, it reads `s` (as an `i64`) for a delay of at least one
/// second, and -2 for a delay of 0, the entry having expired at once.
pub proof fn loi_ttl_apres_ecriture(
    m: Map<Seq<char>, EntreeVue>,
    k: Seq<char>,
    v: Seq<u8>,
    ttl: Option<u64>,
    t: u128,
)
    requires
        t < NANOS_MAX,
    ensures
        duree_restante(m.insert(k, entree_ecrite(v, ttl, t)), k, t) == (match ttl {
            Some(s) => if s == 0 {
                Some(-2i64)
            } else {
                Some(s as i64)
            },
            None => Some(-1i64),
        }),
{
    if let Some(s) = ttl {
        let x = (t + s * NANOS_PAR_SECONDE) as u128;
        assert(x - t == s * NANOS_PAR_SECONDE);
        assert((s * NANOS_PAR_SECONDE) / (NANOS_PAR_SECONDE as int) == s) by (nonlinear_arith);
    }
}

/// Cleaning at moment `t` removes every entry whose expiry moment precedes a
/// moment `h` not later than `t` (such as a moment the store used before),
/// and counts it: fewer entries remain. The entries that have not expired at
/// `t` all stay, unchanged.
pub proof fn loi_nettoyage_retire_expirees(
    m: Map<Seq<char>, EntreeVue>,
    k: Seq<char>,
    h: u128,
    t: u128,
)
    requires
        m.dom().finite(),
        h <= t,
        m.contains_key(k),
        expiree(m[k], h),
    ensures
        !sans_expirees(m, t).contains_key(k),
        sans_expirees(m, t).len() < m.len(),
        forall|k2: Seq<char>|
            m.contains_key(k2) && !expiree(m[k2], t) ==> #[trigger] sans_expirees(m, t).contains_key(k2)
                && sans_expirees(m, t)[k2] == m[k2],
{
    let r = sans_expirees(m, t);
    assert(r.dom().subset_of(m.dom().remove(k)));
    vstd::set_lib::lemma_len_subset(r.dom(), m.dom().remove(k));
}

} // verus!
