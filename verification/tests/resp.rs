use microcache::lecteur::LecteurResp;
use microcache::resp::debug_resp;
use microcache::protocole::{parser_commande, Commande};
use microcache::resp::{
    compter_elements, encoder_chaine, encoder_entier, encoder_erreur, encoder_null, encoder_ok,
    encoder_tableau, interpreter_ligne, resp_vers_commande, terminer_chaine, EtapeResp, ValeurResp,
};

#[test]
fn encodages_simples() {
    assert_eq!(encoder_ok(), "+OK\r\n");
    assert_eq!(encoder_erreur("cle introuvable"), "-ERR cle introuvable\r\n");
    assert_eq!(encoder_entier(42), ":42\r\n");
    assert_eq!(encoder_entier(-2), ":-2\r\n");
    assert_eq!(encoder_null(), "$-1\r\n");
}

#[test]
fn encodage_chaine_compte_les_octets() {
    assert_eq!(encoder_chaine("foobar"), "$6\r\nfoobar\r\n");
    assert_eq!(encoder_chaine(""), "$0\r\n\r\n");
    assert_eq!(encoder_chaine("é"), "$2\r\né\r\n");
}

#[test]
fn encodage_tableau() {
    assert_eq!(encoder_tableau(vec![]), "*0\r\n");
    assert_eq!(
        encoder_tableau(vec![encoder_chaine("a"), encoder_entier(1)]),
        "*2\r\n$1\r\na\r\n:1\r\n"
    );
}

#[test]
fn tableau_de_chaines_vers_commande() {
    let v = ValeurResp::Array(vec![
        ValeurResp::BulkString("SET".to_string()),
        ValeurResp::SimpleString("nom".to_string()),
        ValeurResp::BulkString("Alice".to_string()),
    ]);
    assert_eq!(resp_vers_commande(v), Ok("SET nom Alice".to_string()));
    assert_eq!(resp_vers_commande(ValeurResp::Array(vec![])), Ok(String::new()));
    assert_eq!(resp_vers_commande(ValeurResp::BulkString("PING".to_string())), Ok("PING".to_string()));
}

#[test]
fn element_inattendu() {
    let v = ValeurResp::Array(vec![ValeurResp::BulkString("GET".to_string()), ValeurResp::Integer(42)]);
    assert_eq!(resp_vers_commande(v), Err("Element inattendu : Integer(42)".to_string()));
    assert_eq!(
        resp_vers_commande(ValeurResp::Null),
        Err("Format de commande invalide : Null".to_string())
    );
}

fn valeur(l: &str) -> String {
    match interpreter_ligne(l) {
        Ok(EtapeResp::Valeur(v)) => format!("{:?}", v),
        Ok(e) => format!("etape {:?}", e),
        Err(m) => format!("erreur {}", m),
    }
}

#[test]
fn lecture_de_lignes() {
    assert_eq!(valeur("+OK\r\n"), "SimpleString(\"OK\")");
    assert_eq!(valeur("-ERR x\r\n"), "Error(\"ERR x\")");
    assert_eq!(valeur(":42\r\n"), "Integer(42)");
    assert_eq!(valeur(":-7\n\n"), "Integer(-7)");
    assert_eq!(valeur("$-1\r\n"), "Null");
    assert_eq!(valeur("*-1\r\n"), "Null");
    assert_eq!(valeur("$6\r\n"), "etape LireChaine(6)");
    assert_eq!(valeur("$-3\r\n"), "etape LireChaine(-3)");
    assert_eq!(valeur("*2\r\n"), "etape LireTableau(2)");
    assert_eq!(valeur("*-5\r\n"), "etape LireTableau(0)");
    assert_eq!(valeur("+a\r\n\r\n"), "SimpleString(\"a\")");
}

#[test]
fn lignes_en_erreur() {
    assert_eq!(valeur(""), "erreur Ligne vide");
    assert_eq!(valeur("\r\n"), "erreur Ligne vide");
    assert_eq!(valeur("?x\r\n"), "erreur Type RESP inconnu : ?");
    assert_eq!(valeur(":abc\r\n"), "erreur invalid digit found in string");
    assert_eq!(valeur(":\r\n"), "erreur cannot parse integer from empty string");
    assert_eq!(valeur("$99999999999999999999\r\n"), "erreur number too large to fit in target type");
}

#[test]
fn chaine_en_vrac() {
    match terminer_chaine(b"foobar\r\n", 6) {
        ValeurResp::BulkString(s) => assert_eq!(s, "foobar"),
        v => panic!("{:?}", v),
    }
    match terminer_chaine(&[0x66, 0xC3, 0x0D, 0x0A], 2) {
        ValeurResp::BulkString(s) => assert_eq!(s, "f\u{FFFD}"),
        v => panic!("{:?}", v),
    }
}

#[test]
fn comptage_des_elements() {
    assert_eq!(compter_elements("3\r\n"), 3);
    assert_eq!(compter_elements(" 2 \n"), 2);
    assert_eq!(compter_elements("x\r\n"), 0);
    assert_eq!(compter_elements("-1\r\n"), -1);
}

#[test]
fn entier_encode_puis_relu() {
    for n in [0i64, 1, -2, 42, i64::MAX, i64::MIN] {
        match interpreter_ligne(&encoder_entier(n)) {
            Ok(EtapeResp::Valeur(ValeurResp::Integer(m))) => assert_eq!(m, n),
            r => panic!("{:?}", r),
        }
    }
}

#[test]
fn requete_resp_mot_pour_mot() {
    let v = ValeurResp::Array(vec![
        ValeurResp::BulkString("set".to_string()),
        ValeurResp::BulkString("cle".to_string()),
        ValeurResp::BulkString("valeur".to_string()),
        ValeurResp::BulkString("EX".to_string()),
        ValeurResp::BulkString("30".to_string()),
    ]);
    let ligne = resp_vers_commande(v).unwrap();
    assert_eq!(
        parser_commande(&ligne).unwrap(),
        Commande::Definir { cle: "cle".to_string(), valeur: b"valeur".to_vec(), ttl: Some(30) }
    );
}

#[test]
fn texte_debug_comme_derive() {
    let valeurs = vec![
        ValeurResp::SimpleString("a\"b".to_string()),
        ValeurResp::Error("ERR\tx".to_string()),
        ValeurResp::Integer(-42),
        ValeurResp::BulkString("é\n".to_string()),
        ValeurResp::Null,
        ValeurResp::Array(vec![]),
        ValeurResp::Array(vec![
            ValeurResp::Integer(1),
            ValeurResp::Array(vec![ValeurResp::Null, ValeurResp::BulkString("x".to_string())]),
            ValeurResp::SimpleString("\\".to_string()),
        ]),
    ];
    for v in valeurs {
        assert_eq!(debug_resp(&v), format!("{:?}", v));
    }
}

#[test]
fn reponses_relues() {
    assert_eq!(valeur(&encoder_ok()), "SimpleString(\"OK\")");
    assert_eq!(valeur(&encoder_null()), "Null");
    assert_eq!(valeur(&encoder_erreur("cle introuvable")), "Error(\"ERR cle introuvable\")");
    let s = "héllo";
    let texte = encoder_chaine(s);
    let (entete, corps) = texte.split_at(texte.find('\n').unwrap() + 1);
    match interpreter_ligne(entete) {
        Ok(EtapeResp::LireChaine(n)) => match terminer_chaine(corps.as_bytes(), n as usize) {
            ValeurResp::BulkString(t) => assert_eq!(t, s),
            v => panic!("{:?}", v),
        },
        r => panic!("{:?}", r),
    }
    assert_eq!(valeur(&encoder_tableau(vec![encoder_chaine("a"), encoder_chaine("b")])[..4]), "etape LireTableau(2)");
}

#[test]
fn lecteur_assemble_un_tableau() {
    let mut l = LecteurResp::nouveau();
    assert_eq!(l.octets_attendus(), None);
    assert!(l.recevoir_ligne("*3\r\n").unwrap().is_none());
    assert!(l.recevoir_ligne("$3\r\n").unwrap().is_none());
    assert_eq!(l.octets_attendus(), Some(3));
    assert!(l.recevoir_octets(b"SET\r\n").is_none());
    assert!(l.recevoir_ligne("*0\r\n").unwrap().is_none());
    let v = l.recevoir_ligne(":5\r\n").unwrap().unwrap();
    assert_eq!(format!("{:?}", v), "Array([BulkString(\"SET\"), Array([]), Integer(5)])");
}

#[test]
fn lecteur_tableaux_imbriques() {
    let mut l = LecteurResp::nouveau();
    assert!(l.recevoir_ligne("*2\r\n").unwrap().is_none());
    assert!(l.recevoir_ligne("*1\r\n").unwrap().is_none());
    assert!(l.recevoir_ligne("+a\r\n").unwrap().is_none());
    let v = l.recevoir_ligne("$-1\r\n").unwrap().unwrap();
    assert_eq!(format!("{:?}", v), "Array([Array([SimpleString(\"a\")]), Null])");
    let mut l = LecteurResp::nouveau();
    assert_eq!(l.recevoir_ligne("*1\r\n").unwrap().is_none(), true);
    assert_eq!(l.recevoir_ligne("?\r\n").unwrap_err(), "Type RESP inconnu : ?");
    let mut l = LecteurResp::nouveau();
    let v = l.recevoir_ligne(&encoder_entier(-3)).unwrap().unwrap();
    assert_eq!(format!("{:?}", v), "Integer(-3)");
}
