use microcache::store::{CacheEntry, Store, NANOS_PAR_SECONDE};

#[test]
fn test_set_et_get() {
    let mut store = Store::nouveau();
    store.set("nom".to_string(), b"Alice".to_vec(), None);
    assert_eq!(store.get("nom"), Some(&b"Alice".to_vec()));
}

#[test]
fn test_get_cle_inexistante() {
    let store = Store::nouveau();
    assert_eq!(store.get("inexistant"), None);
}

#[test]
fn test_delete() {
    let mut store = Store::nouveau();
    store.set("nom".to_string(), b"Alice".to_vec(), None);
    assert!(store.delete("nom"));
    assert_eq!(store.get("nom"), None);
}

#[test]
fn test_exists() {
    let mut store = Store::nouveau();
    store.set("nom".to_string(), b"Alice".to_vec(), None);
    assert!(store.existe("nom"));
    store.delete("nom");
    assert!(!store.existe("nom"));
}

#[test]
fn test_ttl_expire() {
    let mut store = Store::nouveau();
    let t = store.maintenant();
    store.set_a("nom".to_string(), b"Alice".to_vec(), Some(0), t);
    // 10 ms later
    assert_eq!(store.get_a("nom", t + 10_000_000), None);
}

#[test]
fn test_flush() {
    let mut store = Store::nouveau();
    store.set("a".to_string(), b"1".to_vec(), None);
    store.set("b".to_string(), b"2".to_vec(), None);
    assert_eq!(store.flush(), 2);
    assert_eq!(store.get("a"), None);
}

#[test]
fn lecture_avant_et_apres_expiration() {
    let mut store = Store::nouveau();
    let t = 1_000;
    store.set_a("s".to_string(), b"v".to_vec(), Some(2), t);
    assert_eq!(store.get_a("s", t), Some(&b"v".to_vec()));
    assert_eq!(store.get_a("s", t + 2 * NANOS_PAR_SECONDE), Some(&b"v".to_vec()));
    assert_eq!(store.get_a("s", t + 2 * NANOS_PAR_SECONDE + 1), None);
    assert!(!store.existe_a("s", t + 3 * NANOS_PAR_SECONDE));
}

#[test]
fn ttl_moins_un_moins_deux_et_secondes() {
    let mut store = Store::nouveau();
    let t = 5;
    store.set_a("a".to_string(), b"1".to_vec(), None, t);
    store.set_a("b".to_string(), b"2".to_vec(), Some(60), t);
    store.set_a("c".to_string(), b"3".to_vec(), Some(0), t);
    assert_eq!(store.ttl_a("a", t), Some(-1));
    assert_eq!(store.ttl_a("b", t), Some(60));
    assert_eq!(store.ttl_a("b", t + 1), Some(59));
    assert_eq!(store.ttl_a("c", t), Some(-2));
    assert_eq!(store.ttl_a("z", t), None);
    assert_eq!(store.ttl("a"), Some(-1));
}

#[test]
fn ecriture_remplace_et_garde_l_ordre() {
    let mut store = Store::nouveau();
    store.set("x".to_string(), b"1".to_vec(), None);
    store.set("y".to_string(), b"2".to_vec(), None);
    store.set("x".to_string(), b"3".to_vec(), None);
    assert_eq!(store.cles(), vec!["x".to_string(), "y".to_string()]);
    assert_eq!(store.get("x"), Some(&b"3".to_vec()));
    assert!(store.delete("x"));
    assert!(!store.delete("x"));
    assert_eq!(store.cles(), vec!["y".to_string()]);
}

#[test]
fn suppression_d_une_entree_expiree() {
    let mut store = Store::nouveau();
    store.set_a("e".to_string(), b"v".to_vec(), Some(0), 0);
    assert_eq!(store.get_a("e", 1), None);
    assert!(store.delete("e"));
}

#[test]
fn nettoyage_des_expirees() {
    let mut store = Store::nouveau();
    store.set_a("a".to_string(), b"1".to_vec(), Some(1), 0);
    store.set_a("b".to_string(), b"2".to_vec(), None, 0);
    store.set_a("c".to_string(), b"3".to_vec(), Some(10), 0);
    store.set_a("d".to_string(), b"4".to_vec(), Some(0), 0);
    let t = 2 * NANOS_PAR_SECONDE;
    assert_eq!(store.nettoyer_expires_a(t), 2);
    assert_eq!(store.cles(), vec!["b".to_string(), "c".to_string()]);
    assert_eq!(store.get_a("c", t), Some(&b"3".to_vec()));
    assert_eq!(store.nettoyer_expires(), 0);
}

#[test]
fn entree_et_insertion_directe() {
    let mut store = Store::nouveau();
    store.inserer("k".to_string(), CacheEntry { valeur: b"v".to_vec(), expiration: Some(7) });
    let e = store.entree("k").unwrap();
    assert_eq!(e.valeur, b"v".to_vec());
    assert_eq!(e.expiration, Some(7));
    assert!(e.est_expiree(8));
    assert!(!e.est_expiree(7));
    assert!(store.entree("autre").is_none());
}

#[test]
fn horloge_avance() {
    let store = Store::nouveau();
    let a = store.maintenant();
    let mut x: u64 = 0;
    for i in 0..100_000u64 {
        x = x.wrapping_add(i * i);
    }
    assert!(x > 0);
    let b = store.maintenant();
    assert!(b >= a);
    assert!(b > 0);
}
