use dusk::lexer::{Lexer, Token, TokenKind};

#[test]
fn test_basic_lex() {
    let input = r#"def build = !cargo build --bin xs-compile $args;"#;
    let tokens: Vec<Token> = Lexer::new(input).tokens();
    assert_eq!(tokens[0].kind, TokenKind::Def);
    assert_eq!(tokens[1].kind, TokenKind::Ident);
    assert_eq!(tokens[1].text, "build");
    assert_eq!(tokens[2].kind, TokenKind::Eq);
    assert_eq!(tokens[3].kind, TokenKind::SystemCmd);
    assert_eq!(tokens[3].text, "!cargo");
}

#[test]
fn test_variable_and_slice() {
    let input = "$args[0;]";
    let tokens: Vec<Token> = Lexer::new(input).tokens();
    assert_eq!(tokens[0].kind, TokenKind::Slice);
    assert_eq!(tokens[0].text, "$args[0;]");
}

#[test]
fn test_strings() {
    let input = r#""hello world" 'raw'"#;
    let tokens: Vec<Token> = Lexer::new(input).tokens();
    assert_eq!(tokens[0].kind, TokenKind::String);
    assert_eq!(tokens[1].kind, TokenKind::String);
}

#[test]
fn test_comment() {
    let input = "# this is a comment\ndef x = 1;";
    let tokens: Vec<Token> = Lexer::new(input).tokens();
    assert_eq!(tokens[0].kind, TokenKind::Comment);
    assert_eq!(tokens[1].kind, TokenKind::Def);
}

#[test]
fn test_paths() {
    let input = "./target/debug/xs-compile /usr/bin ../parent ~/home";
    let tokens: Vec<Token> = Lexer::new(input).tokens();
    assert_eq!(tokens[0].kind, TokenKind::RelPath);
    assert_eq!(tokens[1].kind, TokenKind::AbsPath);
    assert_eq!(tokens[2].kind, TokenKind::RelPath);
    assert_eq!(tokens[3].kind, TokenKind::HomePath);
}

#[test]
fn ascii_text_lexes_on_boundaries_and_skips_only_whitespace() {
    let input = "ls  -a \"x y\" #c\n";
    assert!(dusk::lexer::lexes_on_char_boundaries(input));
    let tokens: Vec<Token> = Lexer::new(input).tokens();
    let mut covered = vec![false; input.len()];
    for t in &tokens {
        assert!(t.start < t.end && t.end <= input.len());
        assert_eq!(t.text, &input[t.start..t.end]);
        for o in t.start..t.end {
            covered[o] = true;
        }
    }
    for (o, b) in input.bytes().enumerate() {
        if !covered[o] {
            assert!(b == b' ' || b == b'\n' || b == b'\t' || b == b'\r' || b == 0x0c);
        }
    }
    assert_eq!(tokens.len(), 4);
    // A backslash as the last byte of an unterminated string points past the end.
    assert!(!dusk::lexer::lexes_on_char_boundaries("\"ab\\"));
}
