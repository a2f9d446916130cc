//! Snapshots of the store: each entry with its expiry moment turned into a
//! Unix timestamp in seconds, and back. The bytes and the file are the
//! application's business.

use vstd::prelude::*;
use crate::texte::vue_textes;
use crate::store::{
    ajouter_cle, CacheEntry, EntreeVue, Store, NANOS_MAX, NANOS_PAR_SECONDE,
};

verus! {

/// An entry as a snapshot holds it: the value, and where it expires, the Unix
/// time (in seconds) at which it does, 0 where it had already expired.
pub struct CacheEntrySerializable {
    pub valeur: Vec<u8>,
    pub expiration_timestamp: Option<u64>,
}

/// A snapshot entry as the contracts see it.
pub struct EntreeSerialVue {
    pub valeur: Seq<u8>,
    pub horodatage: Option<u64>,
}

impl View for CacheEntrySerializable {
    type V = EntreeSerialVue;

    open spec fn view(&self) -> EntreeSerialVue {
        EntreeSerialVue { valeur: self.valeur@, horodatage: self.expiration_timestamp }
    }
}

/// The timestamp that an expiry moment `x` gets in a snapshot taken at moment
/// `t`, Unix time `unix`: `unix` plus the whole seconds left, or 0 where none
/// are left.
pub open spec fn horodatage(x: u128, t: u128, unix: u64) -> int {
    if x > t {
        unix + (x - t) / (NANOS_PAR_SECONDE as int)
    } else {
        0
    }
}

/// An entry of the store as a snapshot taken at moment `t`, Unix time `unix`,
/// holds it.
pub open spec fn entree_serialisee(e: EntreeVue, t: u128, unix: u64) -> EntreeSerialVue {
    EntreeSerialVue {
        valeur: e.valeur,
        horodatage: match e.expiration {
            Some(x) => Some(horodatage(x, t, unix) as u64),
            None => None,
        },
    }
}

/// Whether every timestamp of a snapshot of `m` taken at moment `t`, Unix
/// time `unix`, fits a `u64`.
pub open spec fn representable(m: Map<Seq<char>, EntreeVue>, t: u128, unix: u64) -> bool {
    forall|k: Seq<char>|
        #![trigger m[k]]
        m.contains_key(k) ==> match m[k].expiration {
            Some(x) => horodatage(x, t, unix) <= u64::MAX,
            None => true,
        }
}

/// The view of a snapshot: each key with its entry.
pub open spec fn vue_instantane(v: Seq<(String, CacheEntrySerializable)>) -> Seq<
    (Seq<char>, EntreeSerialVue),
> {
    v.map_values(|p: (String, CacheEntrySerializable)| (p.0@, p.1@))
}

/// The snapshot of the store whose entries are `m`, listed in the order `o`,
/// taken at moment `t`, Unix time `unix`.
pub open spec fn instantane(m: Map<Seq<char>, EntreeVue>, o: Seq<Seq<char>>, t: u128, unix: u64) -> Seq<
    (Seq<char>, EntreeSerialVue),
> {
    o.map_values(|k: Seq<char>| (k, entree_serialisee(m[k], t, unix)))
}

/// Whether a snapshot entry is still valid at Unix time `unix`: it has no
/// timestamp, or one later than `unix`.
pub open spec fn encore_valide(h: Option<u64>, unix: u64) -> bool {
    match h {
        Some(ts) => ts > unix,
        None => true,
    }
}

/// The entry that a snapshot entry becomes when loaded at moment `t`, Unix
/// time `unix`: the same value, expiring as many seconds after `t` as its
/// timestamp is after `unix`.
pub open spec fn entree_rechargee(s: EntreeSerialVue, t: u128, unix: u64) -> EntreeVue {
    EntreeVue {
        valeur: s.valeur,
        expiration: match s.horodatage {
            Some(ts) => Some((t + (ts - unix) * NANOS_PAR_SECONDE) as u128),
            None => None,
        },
    }
}

/// The entries, the key order and the count of entries loaded after the
/// snapshot entries `e` are loaded, in order, into a store holding `m` in the
/// order `o`, at moment `t`, Unix time `unix`. Entries no longer valid are
/// passed over.
pub open spec fn apres_chargement(
    m: Map<Seq<char>, EntreeVue>,
    o: Seq<Seq<char>>,
    e: Seq<(Seq<char>, EntreeSerialVue)>,
    t: u128,
    unix: u64,
) -> (Map<Seq<char>, EntreeVue>, Seq<Seq<char>>, nat)
    decreases e.len(),
{
    if e.len() == 0 {
        (m, o, 0)
    } else {
        let (m1, o1, n1) = apres_chargement(m, o, e.drop_last(), t, unix);
        let (k, s) = e.last();
        if encore_valide(s.horodatage, unix) {
            (m1.insert(k, entree_rechargee(s, t, unix)), ajouter_cle(o1, k), n1 + 1)
        } else {
            (m1, o1, n1)
        }
    }
}

/// Whether a snapshot of the store taken at moment `maintenant`, Unix time
/// `unix`, has every timestamp within `u64`.
pub fn instantane_representable(store: &Store, maintenant: u128, unix: u64) -> (r: bool)
    requires
        store.inv(),
    ensures
        r == representable(store@, maintenant, unix),
{
    let cles = store.cles();
    proof {
        store.lemme_ordre();
    }
    let n = cles.len();
    let mut i: usize = 0;
    while i < n
        invariant
            n == cles@.len(),
            vue_textes(cles@) == store.ordre(),
            store.ordre().to_set() == store@.dom(),
            i <= n,
            forall|j: int|
                0 <= j < i ==> match (#[trigger] store@[store.ordre()[j]]).expiration {
                    Some(x) => horodatage(x, maintenant, unix) <= u64::MAX,
                    None => true,
                },
        decreases n - i,
    {
        let ghost k = store.ordre()[i as int];
        assert(cles@[i as int]@ == k);
        match store.entree(cles[i].as_str()) {
            Some(e) => match e.expiration {
                Some(x) => {
                    if x > maintenant {
                        let reste = (x - maintenant) / NANOS_PAR_SECONDE;
                        if reste > (u64::MAX - unix) as u128 {
                            return false;
                        }
                    }
                },
                None => {},
            },
            None => {},
        }
        i = i + 1;
    }
    proof {
        assert forall|k: Seq<char>| #[trigger] store@.contains_key(k) implies match store@[k].expiration {
            Some(x) => horodatage(x, maintenant, unix) <= u64::MAX,
            None => true,
        } by {
            assert(store.ordre().to_set().contains(k));
            let j = choose|j: int| 0 <= j < store.ordre().len() && store.ordre()[j] == k;
            assert(store@[store.ordre()[j]] == store@[k]);
        }
    }
    true
}

/// The snapshot of the store at moment `maintenant`, Unix time `unix`: each
/// key, in the store's order, with its value and expiry timestamp.
pub fn vers_instantane(store: &Store, maintenant: u128, unix: u64) -> (r: Vec<
    (String, CacheEntrySerializable),
>)
    requires
        store.inv(),
        representable(store@, maintenant, unix),
    ensures
        vue_instantane(r@) == instantane(store@, store.ordre(), maintenant, unix),
{
    let cles = store.cles();
    proof {
        store.lemme_ordre();
    }
    let ghost o = store.ordre();
    let n = cles.len();
    let mut r: Vec<(String, CacheEntrySerializable)> = Vec::new();
    let mut i: usize = 0;
    while i < n
        invariant
            n == cles@.len(),
            vue_textes(cles@) == o,
            o == store.ordre(),
            o.to_set() == store@.dom(),
            representable(store@, maintenant, unix),
            i <= n,
            vue_instantane(r@) == instantane(store@, o, maintenant, unix).take(i as int),
        decreases n - i,
    {
        let ghost k = o[i as int];
        assert(cles@[i as int]@ == k);
        assert(o.contains(k));
        assert(o.to_set().contains(k));
        let cle = cles[i].clone();
        match store.entree(cle.as_str()) {
            Some(e) => {
                let ts = match e.expiration {
                    Some(x) => {
                        if x > maintenant {
                            assert(store@[k] == e@);
                            Some(unix + ((x - maintenant) / NANOS_PAR_SECONDE) as u64)
                        } else {
                            Some(0u64)
                        }
                    },
                    None => None,
                };
                let entree = CacheEntrySerializable { valeur: e.valeur.clone(), expiration_timestamp: ts };
                let ghost avant = r@;
                proof {
                    assert(entree.valeur@ == e.valeur@);
                }
                r.push((cle, entree));
                proof {
                    assert(vue_instantane(r@) =~= vue_instantane(avant).push((k, entree@)));
                    assert(instantane(store@, o, maintenant, unix).take(i + 1) =~= instantane(
                        store@,
                        o,
                        maintenant,
                        unix,
                    ).take(i as int).push((k, entree_serialisee(store@[k], maintenant, unix))));
                }
            },
            None => {
                assert(false);
            },
        }
        i = i + 1;
    }
    proof {
        assert(instantane(store@, o, maintenant, unix).take(n as int) =~= instantane(
            store@,
            o,
            maintenant,
            unix,
        ));
    }
    r
}

/// Loads the snapshot entries `entrees`, in order, at moment `maintenant`,
/// Unix time `unix`: each entry still valid is written, expiring as many
/// seconds from now as its timestamp is after `unix`; the others are passed
/// over. Gives how many were written.
pub fn charger_entrees(
    store: &mut Store,
    entrees: Vec<(String, CacheEntrySerializable)>,
    maintenant: u128,
    unix: u64,
) -> (r: usize)
    requires
        old(store).inv(),
        maintenant < NANOS_MAX,
    ensures
        final(store).horloge() == old(store).horloge(),
        final(store).inv(),
        (final(store)@, final(store).ordre(), r as nat) == apres_chargement(
            old(store)@,
            old(store).ordre(),
            vue_instantane(entrees@),
            maintenant,
            unix,
        ),
{
    let ghost e = vue_instantane(entrees@);
    let ghost m0 = store@;
    let ghost o0 = store.ordre();
    let mut nb: usize = 0;
    let taille = entrees.len();
    assert(e.len() == taille);
    for paire in it: entrees.into_iter()
        invariant
            store.inv(),
            store.horloge() == old(store).horloge(),
            e.len() <= usize::MAX,
            maintenant < NANOS_MAX,
            e == vue_instantane(it.seq()),
            nb <= it.index(),
            (store@, store.ordre(), nb as nat) == apres_chargement(
                m0,
                o0,
                e.take(it.index() as int),
                maintenant,
                unix,
            ),
    {
        let ghost i = it.index() as int;
        proof {
            assert(e.take(i + 1).drop_last() =~= e.take(i));
            assert(e.take(i + 1).last() == e[i]);
            assert(e[i] == (paire.0@, paire.1@));
            assert(i < e.len());
        }
        let (cle, entree) = paire;
        let valide = match entree.expiration_timestamp {
            Some(ts) => ts > unix,
            None => true,
        };
        if valide {
            let expiration = match entree.expiration_timestamp {
                Some(ts) => Some(maintenant + ((ts - unix) as u128) * NANOS_PAR_SECONDE),
                None => None,
            };
            store.inserer(cle, CacheEntry { valeur: entree.valeur, expiration });
            nb = nb + 1;
        }
    }
    proof {
        assert(e.take(e.len() as int) =~= e);
    }
    nb
}

/// Whether the entry under `k` in `m`, saved at moment `t` and Unix time
/// `unix`, is loaded again at Unix time `unix2`: it never expires, or its
/// timestamp in the snapshot is later than `unix2`.
pub open spec fn survit(m: Map<Seq<char>, EntreeVue>, t: u128, unix: u64, unix2: u64) -> spec_fn(
    Seq<char>,
) -> bool {
    |k: Seq<char>|
        match m[k].expiration {
            Some(x) => horodatage(x, t, unix) > unix2,
            None => true,
        }
}

/// The expiry moment that an entry saved at moment `t`, Unix time `unix`, gets
/// when loaded again at moment `t2`, Unix time `unix2`: as many seconds after
/// `t2` as its timestamp is after `unix2`.
pub open spec fn expiration_decalee(
    e: Option<u128>,
    t: u128,
    unix: u64,
    t2: u128,
    unix2: u64,
) -> Option<u128> {
    match e {
        Some(x) => Some((t2 + (horodatage(x, t, unix) - unix2) * NANOS_PAR_SECONDE) as u128),
        None => None,
    }
}

proof fn lemme_aller_retour(
    m: Map<Seq<char>, EntreeVue>,
    o: Seq<Seq<char>>,
    t: u128,
    unix: u64,
    t2: u128,
    unix2: u64,
    j: int,
)
    requires
        o.no_duplicates(),
        o.to_set() == m.dom(),
        representable(m, t, unix),
        t2 < NANOS_MAX,
        0 <= j <= o.len(),
    ensures
        ({
            let (m2, o2, n) = apres_chargement(
                Map::empty(),
                Seq::empty(),
                instantane(m, o, t, unix).take(j),
                t2,
                unix2,
            );
            &&& o2 == o.take(j).filter(survit(m, t, unix, unix2))
            &&& n == o2.len()
            &&& forall|k: Seq<char>|
                #![trigger m2.contains_key(k)]
                m2.contains_key(k) <==> (o.take(j).contains(k) && survit(m, t, unix, unix2)(k))
            &&& forall|k: Seq<char>|
                #![trigger m2[k]]
                m2.contains_key(k) ==> m2[k] == EntreeVue {
                    valeur: m[k].valeur,
                    expiration: expiration_decalee(m[k].expiration, t, unix, t2, unix2),
                }
        }),
    decreases j,
{
    let snap = instantane(m, o, t, unix);
    let p = survit(m, t, unix, unix2);
    if j == 0 {
        assert(snap.take(0) =~= Seq::<(Seq<char>, EntreeSerialVue)>::empty());
        assert(o.take(0) =~= Seq::<Seq<char>>::empty());
        reveal(Seq::filter);
    } else {
        lemme_aller_retour(m, o, t, unix, t2, unix2, j - 1);
        let (m1, o1, n1) = apres_chargement(
            Map::empty(),
            Seq::empty(),
            snap.take(j - 1),
            t2,
            unix2,
        );
        let k = o[j - 1];
        let sk = entree_serialisee(m[k], t, unix);
        assert(snap.take(j).drop_last() =~= snap.take(j - 1));
        assert(snap.take(j).last() == (k, sk));
        assert(o.take(j).drop_last() =~= o.take(j - 1));
        assert(o.take(j).last() == k);
        assert(o.contains(k));
        assert(o.to_set().contains(k));
        assert(m.contains_key(k));
        assert(!o.take(j - 1).contains(k)) by {
            let ti = o.take(j - 1);
            if ti.contains(k) {
                let i = choose|i: int| 0 <= i < ti.len() && ti[i] == k;
                assert(o[i] == o[j - 1]);
            }
        }
        assert(!o1.contains(k)) by {
            if o1.contains(k) {
                o.take(j - 1).lemma_filter_contains_rev(p, k);
            }
        }
        assert forall|x: Seq<char>| o.take(j).contains(x) <==> (o.take(j - 1).contains(x) || x == k) by {
            let tj = o.take(j);
            let ti = o.take(j - 1);
            if tj.contains(x) {
                let i = choose|i: int| 0 <= i < tj.len() && tj[i] == x;
                if i < j - 1 {
                    assert(ti[i] == x);
                }
            }
            if ti.contains(x) {
                let i = choose|i: int| 0 <= i < ti.len() && ti[i] == x;
                assert(tj[i] == x);
            }
            if x == k {
                assert(tj[j - 1] == x);
            }
        }
        reveal(Seq::filter);
        assert(encore_valide(sk.horodatage, unix2) == p(k)) by {
            match m[k].expiration {
                Some(x) => {
                    assert(m[k] == m[k]);
                    assert(horodatage(x, t, unix) <= u64::MAX);
                },
                None => {},
            }
        }
        if p(k) {
            assert(entree_rechargee(sk, t2, unix2) == EntreeVue {
                valeur: m[k].valeur,
                expiration: expiration_decalee(m[k].expiration, t, unix, t2, unix2),
            }) by {
                match m[k].expiration {
                    Some(x) => {
                        assert(m[k] == m[k]);
                        assert(horodatage(x, t, unix) <= u64::MAX);
                        assert(horodatage(x, t, unix) >= 0);
                    },
                    None => {},
                }
            }
        }
    }
}

/// Saving the store and loading the snapshot into an empty store, at any
/// later moment `t2` and Unix time `unix2`, keeps exactly the entries that
/// never expire or whose timestamp is later than `unix2`, each with its value
/// and expiring as many seconds after `t2` as its timestamp is after `unix2`;
/// it drops the others. The keys come back in the order in which they were
/// listed, and the count given is the number kept.
pub proof fn loi_instantane_aller_retour(
    m: Map<Seq<char>, EntreeVue>,
    o: Seq<Seq<char>>,
    t: u128,
    unix: u64,
    t2: u128,
    unix2: u64,
)
    requires
        o.no_duplicates(),
        o.to_set() == m.dom(),
        representable(m, t, unix),
        t2 < NANOS_MAX,
    ensures
        ({
            let (m2, o2, n) = apres_chargement(
                Map::empty(),
                Seq::empty(),
                instantane(m, o, t, unix),
                t2,
                unix2,
            );
            &&& o2 == o.filter(survit(m, t, unix, unix2))
            &&& n == o2.len()
            &&& forall|k: Seq<char>|
                #![trigger m2.contains_key(k)]
                m2.contains_key(k) <==> (m.contains_key(k) && survit(m, t, unix, unix2)(k))
            &&& forall|k: Seq<char>|
                #![trigger m2[k]]
                m2.contains_key(k) ==> m2[k].valeur == m[k].valeur && m2[k].expiration
                    == expiration_decalee(m[k].expiration, t, unix, t2, unix2)
        }),
{
    lemme_aller_retour(m, o, t, unix, t2, unix2, o.len() as int);
    assert(instantane(m, o, t, unix).take(o.len() as int) =~= instantane(m, o, t, unix));
    assert(o.take(o.len() as int) =~= o);
    assert forall|k: Seq<char>| o.contains(k) <==> m.contains_key(k) by {
        assert(o.to_set().contains(k) <==> o.contains(k));
    }
}

/// Within the same Unix second, a reload keeps exactly the entries that never
/// expire or had at least a whole second left at the save, with their
/// remaining time cut down to whole seconds.
pub proof fn loi_instantane_meme_seconde(m: Map<Seq<char>, EntreeVue>, t: u128, unix: u64, k: Seq<char>, t2: u128)
    requires
        representable(m, t, unix),
        m.contains_key(k),
    ensures
        survit(m, t, unix, unix)(k) <==> match m[k].expiration {
            Some(x) => x > t && x - t >= NANOS_PAR_SECONDE,
            None => true,
        },
        survit(m, t, unix, unix)(k) ==> match m[k].expiration {
            Some(x) => expiration_decalee(m[k].expiration, t, unix, t2, unix) == Some(
                (t2 + ((x - t) / (NANOS_PAR_SECONDE as int)) * NANOS_PAR_SECONDE) as u128,
            ),
            None => expiration_decalee(m[k].expiration, t, unix, t2, unix) == None::<u128>,
        },
{
}

} // verus!
