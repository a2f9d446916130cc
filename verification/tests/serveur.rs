use microcache::serveur::{est_requete_resp, executer_commande, executer_commande_a, ligne_texte};
use microcache::store::{Store, NANOS_PAR_SECONDE};

#[test]
fn scenario_texte_du_readme() {
    let mut store = Store::nouveau();
    let t = 0;
    assert_eq!(executer_commande_a("PING", &mut store, false, t), "+PONG\r\n");
    assert_eq!(executer_commande_a("SET ville Yaounde EX 60", &mut store, false, t), "+OK\r\n");
    assert_eq!(executer_commande_a("GET ville", &mut store, false, t), "+Yaounde\r\n");
    assert_eq!(executer_commande_a("TTL ville", &mut store, false, t + NANOS_PAR_SECONDE / 2), ":59\r\n");
    assert_eq!(executer_commande_a("DEL ville", &mut store, false, t), ":1\r\n");
    assert_eq!(executer_commande_a("DEL ville", &mut store, false, t), ":0\r\n");
    assert_eq!(executer_commande_a("GET ville", &mut store, false, t), "-ERR cle introuvable\r\n");
    assert_eq!(executer_commande_a("TTL ville", &mut store, false, t), "-ERR cle introuvable\r\n");
    assert_eq!(executer_commande_a("FLUSH", &mut store, false, t), ":0 entree(s) supprimee(s)\r\n");
}

#[test]
fn scenario_resp() {
    let mut store = Store::nouveau();
    let t = 0;
    assert_eq!(executer_commande_a("SET nom Alice", &mut store, true, t), "+OK\r\n");
    assert_eq!(executer_commande_a("GET nom", &mut store, true, t), "$5\r\nAlice\r\n");
    assert_eq!(executer_commande_a("GET autre", &mut store, true, t), "$-1\r\n");
    assert_eq!(executer_commande_a("TTL nom", &mut store, true, t), ":-1\r\n");
    assert_eq!(executer_commande_a("TTL autre", &mut store, true, t), ":-2\r\n");
    assert_eq!(executer_commande_a("SET b 2", &mut store, true, t), "+OK\r\n");
    assert_eq!(executer_commande_a("KEYS *", &mut store, true, t), "*2\r\n$3\r\nnom\r\n$1\r\nb\r\n");
    assert_eq!(executer_commande_a("KEYS", &mut store, false, t), "+nom, b\r\n");
    assert_eq!(executer_commande_a("FLUSH", &mut store, true, t), ":2\r\n");
    assert_eq!(executer_commande_a("KEYS", &mut store, false, t), "+\r\n");
}

#[test]
fn erreurs_de_commande() {
    let mut store = Store::nouveau();
    assert_eq!(
        executer_commande("BONJOUR", &mut store, false),
        "-ERR CommandeInconnue(\"BONJOUR\")\r\n"
    );
    assert_eq!(executer_commande("GET", &mut store, true), "-ERR ArgumentsManquants\r\n");
    assert_eq!(
        executer_commande("SET a b EX x", &mut store, true),
        "-ERR NombreInvalide(\"x\")\r\n"
    );
}

#[test]
fn valeur_non_utf8() {
    let mut store = Store::nouveau();
    store.set_a("k".to_string(), vec![0x61, 0xFF], None, 0);
    assert_eq!(executer_commande_a("GET k", &mut store, false, 0), "+a\u{FFFD}\r\n");
    assert_eq!(executer_commande_a("GET k", &mut store, true, 0), "$4\r\na\u{FFFD}\r\n");
}

#[test]
fn expiration_vue_par_le_serveur() {
    let mut store = Store::nouveau();
    assert_eq!(executer_commande_a("SET s v EX 1", &mut store, false, 0), "+OK\r\n");
    assert_eq!(executer_commande_a("GET s", &mut store, false, 2 * NANOS_PAR_SECONDE), "-ERR cle introuvable\r\n");
    assert_eq!(executer_commande_a("TTL s", &mut store, false, 2 * NANOS_PAR_SECONDE), ":-2\r\n");
    assert_eq!(executer_commande_a("KEYS", &mut store, false, 2 * NANOS_PAR_SECONDE), "+s\r\n");
}

#[test]
fn aiguillage_et_ligne_texte() {
    assert!(est_requete_resp(b'*'));
    assert!(!est_requete_resp(b'P'));
    assert_eq!(ligne_texte(b'P', "ING\r\n"), "PING");
    assert_eq!(ligne_texte(b' ', " GET a \n"), "GET a");
    assert_eq!(ligne_texte(0xE9, "t\u{e9}\n"), "\u{e9}t\u{e9}");
}
