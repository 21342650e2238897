use dusk::analysis::{
    diagnose, find_bindings, goto_definition, hover, offset_to_position, position_to_offset,
    BindingKind, DiagnosticSeverity, Position,
};
use dusk::lexer::{lexes_on_char_boundaries, lexes_on_char_boundaries_through};

fn pos(line: u32, character: u32) -> Position {
    Position::new(line, character)
}

#[test]
fn positions_of_offsets() {
    let text = "ab\ncd";
    assert_eq!(offset_to_position(text, 0), pos(0, 0));
    assert_eq!(offset_to_position(text, 2), pos(0, 2));
    assert_eq!(offset_to_position(text, 3), pos(1, 0));
    assert_eq!(offset_to_position(text, 4), pos(1, 1));
    assert_eq!(offset_to_position(text, 99), pos(1, 2));
}

#[test]
fn positions_count_characters() {
    let text = "é\nx";
    assert_eq!(offset_to_position(text, 2), pos(0, 1));
    assert_eq!(offset_to_position(text, 3), pos(1, 0));
    assert_eq!(position_to_offset(text, pos(0, 1)), 2);
    assert_eq!(position_to_offset(text, pos(1, 0)), 3);
}

#[test]
fn offsets_of_positions() {
    let text = "ab\ncd";
    assert_eq!(position_to_offset(text, pos(1, 1)), 4);
    assert_eq!(position_to_offset(text, pos(0, 5)), 2);
    assert_eq!(position_to_offset(text, pos(1, 7)), 5);
    assert_eq!(position_to_offset(text, pos(3, 0)), 5);
}

#[test]
fn offset_position_roundtrip() {
    let text = "let x = 1;\n  $x ä\n";
    let mut o = 0;
    while o <= text.len() {
        if text.is_char_boundary(o) {
            assert_eq!(position_to_offset(text, offset_to_position(text, o)), o);
        }
        o += 1;
    }
}

#[test]
fn bracket_diagnostics() {
    let d = diagnose("{ ( }");
    assert_eq!(d.len(), 3);
    assert_eq!(d[0].message, "Mismatched '}', expected closing for '('");
    assert_eq!(d[0].range.start, pos(0, 4));
    assert_eq!(d[0].range.end, pos(0, 5));
    assert_eq!(d[0].severity, DiagnosticSeverity::Error);
    assert_eq!(d[0].source, "dust-lsp");
    assert_eq!(d[1].message, "Unclosed '{'");
    assert_eq!(d[1].range.start, pos(0, 0));
    assert_eq!(d[1].range.end, pos(0, 1));
    assert_eq!(d[2].message, "Unclosed '('");
    assert_eq!(d[2].range.start, pos(0, 2));

    let d = diagnose(")");
    assert_eq!(d.len(), 1);
    assert_eq!(d[0].message, "Unexpected ')'");

    let d = diagnose("[ ) ]");
    assert_eq!(d.len(), 1);
    assert_eq!(d[0].message, "Mismatched ')'");

    assert_eq!(diagnose("{ [ ( ) ] }").len(), 0);
}

#[test]
fn structure_diagnostics() {
    let d = diagnose("let");
    assert_eq!(d.len(), 1);
    assert_eq!(d[0].message, "'let' must be followed by a name");
    assert_eq!(d[0].range.end, pos(0, 3));

    let d = diagnose("let = 1");
    assert_eq!(d.len(), 1);
    assert_eq!(d[0].message, "Expected identifier after 'let'");
    assert_eq!(d[0].range.start, pos(0, 4));

    let d = diagnose("src x 1");
    assert_eq!(d.len(), 1);
    assert_eq!(d[0].message, "Expected '=' after 'src' binding name");
    assert_eq!(d[0].severity, DiagnosticSeverity::Warning);
    assert_eq!(d[0].range.start, pos(0, 6));

    assert_eq!(diagnose("def f x = 1").len(), 0);
    assert_eq!(diagnose("let x = 1;").len(), 0);
}

#[test]
fn bindings_of_a_source() {
    let b = find_bindings("def f = 1; src s = 2; val v = 3; let = 4");
    assert_eq!(b.len(), 3);
    assert_eq!(b[0].name, "f");
    assert_eq!(b[0].kind, BindingKind::Def);
    assert_eq!((b[0].name_start, b[0].name_end), (4, 5));
    assert_eq!(b[1].name, "s");
    assert_eq!(b[1].kind, BindingKind::Src);
    assert_eq!(b[2].name, "v");
    assert_eq!(b[2].kind, BindingKind::Val);
}

#[test]
fn hover_texts() {
    let text = "let x = 1;\n$x !ls";
    let h = hover(text, pos(0, 1)).unwrap();
    assert_eq!(h.contents, "**let** — Eager binding. Execute now, collect now.");
    assert_eq!(h.range.start, pos(0, 0));
    assert_eq!(h.range.end, pos(0, 3));

    let h = hover(text, pos(1, 1)).unwrap();
    assert_eq!(
        h.contents,
        "**$x** — `let` binding\n\nExecute now, collect now (eager binding)"
    );
    assert_eq!(h.range.start, pos(1, 0));
    assert_eq!(h.range.end, pos(1, 2));

    let h = hover(text, pos(0, 4)).unwrap();
    assert_eq!(h.contents, "**x** — `let` binding\n\nExecute now, collect now (eager binding)");

    let h = hover(text, pos(1, 4)).unwrap();
    assert_eq!(h.contents, "**!ls** — System command invocation");

    assert!(hover(text, pos(0, 8)).is_none());
    assert!(hover(text, pos(0, 5)).is_none());
}

#[test]
fn definitions() {
    let text = "def f = 1;\n$f f g";
    let l = goto_definition(text, "file:///a.dust", pos(1, 1)).unwrap();
    assert_eq!(l.uri, "file:///a.dust");
    assert_eq!(l.range.start, pos(0, 4));
    assert_eq!(l.range.end, pos(0, 5));
    let l = goto_definition(text, "file:///a.dust", pos(1, 3)).unwrap();
    assert_eq!(l.range.start, pos(0, 4));
    assert!(goto_definition(text, "file:///a.dust", pos(1, 5)).is_none());
    assert!(goto_definition(text, "file:///a.dust", pos(0, 0)).is_none());
}

#[test]
fn lexing_on_boundaries() {
    assert!(lexes_on_char_boundaries("let x = \"é\";"));
    assert!(!lexes_on_char_boundaries("é"));
    assert!(lexes_on_char_boundaries_through("let é", 1));
    assert!(!lexes_on_char_boundaries_through("let é", 4));
}
