use microcache::nombres::{lire_i64, lire_u64, texte_entier, texte_naturel, ErreurEntier};
use microcache::texte::{decouper_mots, est_espace, meme_texte, rogner};

fn exemples() -> Vec<String> {
    vec![
        "".to_string(),
        "   ".to_string(),
        "a".to_string(),
        " a b  c ".to_string(),
        "\tSET\u{2003}k\u{85}v\r\n".to_string(),
        "é\u{3000}ü  ß".to_string(),
        "\u{200B}x".to_string(),
        "x\u{1680}y\u{202F}z\u{205F}w\u{2028}q\u{2029}r".to_string(),
    ]
}

#[test]
fn espaces_comme_std() {
    for u in 0u32..0x110000 {
        if let Some(c) = char::from_u32(u) {
            assert_eq!(est_espace(c), c.is_whitespace(), "U+{:04X}", u);
        }
    }
}

#[test]
fn mots_comme_split_whitespace() {
    for s in exemples() {
        let attendu: Vec<String> = s.split_whitespace().map(|w| w.to_string()).collect();
        assert_eq!(decouper_mots(&s), attendu, "{:?}", s);
    }
}

#[test]
fn rogner_comme_trim() {
    for s in exemples() {
        assert_eq!(rogner(&s), s.trim(), "{:?}", s);
    }
}

#[test]
fn egalite_des_textes() {
    assert!(meme_texte("abc", "abc"));
    assert!(!meme_texte("abc", "abd"));
    assert!(!meme_texte("abc", "ab"));
}

#[test]
fn lecture_u64_comme_std() {
    let cas = [
        "", "+", "-", "0", "60", "+5", "-5", "007", "18446744073709551615", "18446744073709551616",
        "99999999999999999999x", "12x", "x12", " 1", "1 ", "１", "+-1",
    ];
    for s in cas {
        match (lire_u64(s), s.parse::<u64>()) {
            (Ok(a), Ok(b)) => assert_eq!(a, b, "{:?}", s),
            (Err(e), Err(f)) => assert_eq!(e.message(), f.to_string(), "{:?}", s),
            (a, b) => panic!("{:?}: {:?} contre {:?}", s, a, b),
        }
    }
}

#[test]
fn lecture_i64_comme_std() {
    let cas = [
        "", "+", "-", "0", "-0", "42", "-42", "+42", "9223372036854775807", "9223372036854775808",
        "-9223372036854775808", "-9223372036854775809", "-99999999999999999999x", "4-2", "--1",
    ];
    for s in cas {
        match (lire_i64(s), s.parse::<i64>()) {
            (Ok(a), Ok(b)) => assert_eq!(a, b, "{:?}", s),
            (Err(e), Err(f)) => assert_eq!(e.message(), f.to_string(), "{:?}", s),
            (a, b) => panic!("{:?}: {:?} contre {:?}", s, a, b),
        }
    }
    assert_eq!(lire_i64("-9223372036854775809"), Err(ErreurEntier::TropPetit));
    assert_eq!(lire_i64("9223372036854775808"), Err(ErreurEntier::TropGrand));
    assert_eq!(lire_i64(""), Err(ErreurEntier::Vide));
    assert_eq!(lire_i64("1a"), Err(ErreurEntier::ChiffreInvalide));
}

#[test]
fn ecriture_des_entiers_et_aller_retour() {
    for n in [0i64, 7, 10, -1, -10, 123456789, i64::MAX, i64::MIN] {
        assert_eq!(texte_entier(n), n.to_string());
        assert_eq!(lire_i64(&texte_entier(n)), Ok(n));
    }
    assert_eq!(texte_naturel(0), "0");
    assert_eq!(texte_naturel(usize::MAX), usize::MAX.to_string());
}
