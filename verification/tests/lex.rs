use dusk::lex::{tok_nada, Lex, LexState, Tok};

#[test]
fn keywords_and_identifiers() {
    let mut s = LexState::new("let x");
    match s.next() {
        Some((0, Tok::Kwd(k), 3)) => assert_eq!(k.0, "let"),
        other => panic!("{:?}", other),
    }
    match s.next() {
        Some((4, Tok::Idnt(i), 5)) => assert_eq!(i.0, "x"),
        other => panic!("{:?}", other),
    }
    assert!(s.next().is_none());
}

#[test]
fn longer_identifiers() {
    let mut l = Lex::new("letter a=b/c");
    match l.next() {
        Some((0, t, 6)) => {
            assert!(matches!(t, Tok::Idnt(_)));
            assert_eq!(t.as_str(), "letter");
        }
        other => panic!("{:?}", other),
    }
    match l.next() {
        Some((7, t, 12)) => assert_eq!(t.as_str(), "a=b/c"),
        other => panic!("{:?}", other),
    }
    assert!(l.next().is_none());
    assert_eq!(tok_nada().as_str(), "");
}

#[test]
fn no_identifier() {
    let mut l = Lex::new("  1");
    assert!(l.next().is_none());
}
