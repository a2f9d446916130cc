use microcache::persistance::{
    charger_entrees, instantane_representable, vers_instantane, CacheEntrySerializable,
};
use microcache::store::{Store, NANOS_PAR_SECONDE};

#[test]
fn instantane_des_entrees() {
    let mut store = Store::nouveau();
    let t = 10 * NANOS_PAR_SECONDE;
    store.set_a("a".to_string(), b"1".to_vec(), None, t);
    store.set_a("b".to_string(), b"2".to_vec(), Some(60), t);
    store.set_a("c".to_string(), b"3".to_vec(), Some(0), t);
    let maintenant = t + NANOS_PAR_SECONDE / 2;
    assert!(instantane_representable(&store, maintenant, 1_000));
    let snap = vers_instantane(&store, maintenant, 1_000);
    assert_eq!(snap.len(), 3);
    assert_eq!(snap[0].0, "a");
    assert_eq!(snap[0].1.expiration_timestamp, None);
    assert_eq!(snap[1].0, "b");
    assert_eq!(snap[1].1.valeur, b"2".to_vec());
    assert_eq!(snap[1].1.expiration_timestamp, Some(1_059));
    assert_eq!(snap[2].1.expiration_timestamp, Some(0));
}

#[test]
fn horodatage_trop_grand() {
    let mut store = Store::nouveau();
    store.set_a("a".to_string(), b"1".to_vec(), Some(u64::MAX), 0);
    assert!(!instantane_representable(&store, 0, 1));
    assert!(instantane_representable(&store, 0, 0));
}

#[test]
fn chargement_ne_garde_que_les_valides() {
    let mut store = Store::nouveau();
    let entrees = vec![
        ("a".to_string(), CacheEntrySerializable { valeur: b"1".to_vec(), expiration_timestamp: None }),
        ("b".to_string(), CacheEntrySerializable { valeur: b"2".to_vec(), expiration_timestamp: Some(1_030) }),
        ("c".to_string(), CacheEntrySerializable { valeur: b"3".to_vec(), expiration_timestamp: Some(1_000) }),
        ("d".to_string(), CacheEntrySerializable { valeur: b"4".to_vec(), expiration_timestamp: Some(0) }),
    ];
    let t = 5;
    assert_eq!(charger_entrees(&mut store, entrees, t, 1_000), 2);
    assert_eq!(store.cles(), vec!["a".to_string(), "b".to_string()]);
    assert_eq!(store.ttl_a("a", t), Some(-1));
    assert_eq!(store.ttl_a("b", t), Some(30));
    assert_eq!(store.get_a("b", t), Some(&b"2".to_vec()));
}

#[test]
fn sauvegarde_puis_rechargement() {
    let mut store = Store::nouveau();
    let t = 100;
    store.set_a("garde".to_string(), b"v".to_vec(), Some(5), t);
    store.set_a("pour_toujours".to_string(), b"w".to_vec(), None, t);
    store.set_a("presque".to_string(), b"x".to_vec(), Some(0), t);
    let snap = vers_instantane(&store, t, 2_000);
    let mut neuf = Store::nouveau();
    assert_eq!(charger_entrees(&mut neuf, snap, t, 2_000), 2);
    assert_eq!(neuf.cles(), vec!["garde".to_string(), "pour_toujours".to_string()]);
    assert_eq!(neuf.get_a("garde", t), Some(&b"v".to_vec()));
    assert_eq!(neuf.ttl_a("garde", t), Some(5));
    assert_eq!(neuf.get_a("pour_toujours", t), Some(&b"w".to_vec()));
}

#[test]
fn rechargement_plus_tard() {
    let mut store = Store::nouveau();
    let t = 0;
    store.set_a("long".to_string(), b"1".to_vec(), Some(10), t);
    store.set_a("court".to_string(), b"2".to_vec(), Some(2), t);
    store.set_a("fixe".to_string(), b"3".to_vec(), None, t);
    let snap = vers_instantane(&store, t, 1_000);
    let mut neuf = Store::nouveau();
    let t2 = 7;
    // Reloaded three seconds after the save.
    assert_eq!(charger_entrees(&mut neuf, snap, t2, 1_003), 2);
    assert_eq!(neuf.cles(), vec!["long".to_string(), "fixe".to_string()]);
    assert_eq!(neuf.ttl_a("long", t2), Some(7));
    assert_eq!(neuf.get_a("fixe", t2), Some(&b"3".to_vec()));
    assert_eq!(neuf.get_a("court", t2), None);
}
