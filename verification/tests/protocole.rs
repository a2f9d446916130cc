use microcache::protocole::debug_erreur;
use microcache::protocole::{parser_commande, Commande, ErreurParsing};

#[test]
fn test_ping() {
    assert_eq!(parser_commande("PING").unwrap(), Commande::Ping);
}

#[test]
fn test_ping_minuscule() {
    assert_eq!(parser_commande("ping").unwrap(), Commande::Ping);
}

#[test]
fn test_get() {
    assert_eq!(parser_commande("GET nom").unwrap(), Commande::Get("nom".to_string()));
}

#[test]
fn test_set_sans_ttl() {
    assert_eq!(
        parser_commande("SET nom Alice").unwrap(),
        Commande::Definir { cle: "nom".to_string(), valeur: b"Alice".to_vec(), ttl: None }
    );
}

#[test]
fn test_set_avec_ttl() {
    assert_eq!(
        parser_commande("SET nom Alice EX 60").unwrap(),
        Commande::Definir { cle: "nom".to_string(), valeur: b"Alice".to_vec(), ttl: Some(60) }
    );
}

#[test]
fn test_del() {
    assert_eq!(parser_commande("DEL nom").unwrap(), Commande::Del("nom".to_string()));
}

#[test]
fn test_commande_inconnue() {
    assert!(parser_commande("BONJOUR").is_err());
}

#[test]
fn test_get_sans_argument() {
    assert!(parser_commande("GET").is_err());
}

#[test]
fn test_ttl_invalide() {
    assert!(parser_commande("SET nom Alice EX abc").is_err());
}

#[test]
fn ligne_vide_manque_arguments() {
    assert!(matches!(parser_commande(""), Err(ErreurParsing::ArgumentsManquants)));
    assert!(matches!(parser_commande(" \t \u{3000} "), Err(ErreurParsing::ArgumentsManquants)));
}

#[test]
fn commande_inconnue_en_majuscules() {
    match parser_commande("bonjour le monde") {
        Err(ErreurParsing::CommandeInconnue(s)) => assert_eq!(s, "BONJOUR"),
        _ => panic!("erreur attendue"),
    }
}

#[test]
fn nombre_invalide_garde_le_mot() {
    match parser_commande("set a b ex -5") {
        Err(ErreurParsing::NombreInvalide(s)) => assert_eq!(s, "-5"),
        _ => panic!("erreur attendue"),
    }
    assert!(matches!(
        parser_commande("SET a b EX 18446744073709551616"),
        Err(ErreurParsing::NombreInvalide(_))
    ));
}

#[test]
fn set_avec_ex_minuscule_et_espaces() {
    assert_eq!(
        parser_commande("  set\tcle  valeur\u{00A0}ex +7  ").unwrap(),
        Commande::Definir { cle: "cle".to_string(), valeur: b"valeur".to_vec(), ttl: Some(7) }
    );
}

#[test]
fn set_sans_ex_ignore_les_mots_en_trop() {
    assert_eq!(
        parser_commande("SET k v PX 10").unwrap(),
        Commande::Definir { cle: "k".to_string(), valeur: b"v".to_vec(), ttl: None }
    );
    assert_eq!(
        parser_commande("SET k v EX").unwrap(),
        Commande::Definir { cle: "k".to_string(), valeur: b"v".to_vec(), ttl: None }
    );
}

#[test]
fn set_valeur_en_utf8() {
    assert_eq!(
        parser_commande("SET ville Yaoundé").unwrap(),
        Commande::Definir { cle: "ville".to_string(), valeur: "Yaoundé".as_bytes().to_vec(), ttl: None }
    );
}

#[test]
fn keys_motif_par_defaut() {
    assert_eq!(parser_commande("KEYS").unwrap(), Commande::Keys("*".to_string()));
    assert_eq!(parser_commande("keys a*").unwrap(), Commande::Keys("a*".to_string()));
}

#[test]
fn ttl_flush_et_arguments_manquants() {
    assert_eq!(parser_commande("TTL nom").unwrap(), Commande::Ttl("nom".to_string()));
    assert_eq!(parser_commande("flush").unwrap(), Commande::Flush);
    assert!(matches!(parser_commande("TTL"), Err(ErreurParsing::ArgumentsManquants)));
    assert!(matches!(parser_commande("DEL"), Err(ErreurParsing::ArgumentsManquants)));
    assert!(matches!(parser_commande("SET a"), Err(ErreurParsing::ArgumentsManquants)));
}

#[test]
fn majuscules_unicode_du_verbe() {
    // U+0131 (dotless i) is upper-cased to I by str::to_uppercase.
    assert_eq!(parser_commande("p\u{131}ng").unwrap(), Commande::Ping);
    // U+FB02 (the ligature fl) is upper-cased to FL.
    assert_eq!(parser_commande("\u{FB02}ush").unwrap(), Commande::Flush);
}

#[test]
fn verbe_inconnu_mis_en_majuscules_unicode() {
    match parser_commande("straße") {
        Err(ErreurParsing::CommandeInconnue(s)) => assert_eq!(s, "STRASSE"),
        _ => panic!("erreur attendue"),
    }
}

#[test]
fn texte_debug_des_erreurs_comme_derive() {
    let erreurs = vec![
        ErreurParsing::CommandeInconnue("BON\"JOUR".to_string()),
        ErreurParsing::ArgumentsManquants,
        ErreurParsing::NombreInvalide("x\ny".to_string()),
    ];
    for e in erreurs {
        assert_eq!(debug_erreur(&e), format!("{:?}", e));
    }
}
