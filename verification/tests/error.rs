use dusk::error::{msg_error, Error, ErrorKind};

#[test]
fn comments_go_to_the_first_frame() {
    let mut e: Error<u8> = Error::new(7);
    e.comment("lost".to_string());
    assert!(e.trace.is_empty());
    e.trace.push(("a.rs", 12, vec![]));
    e.trace.push(("b.rs", 3, vec![]));
    let e = e.with_comment("first".to_string());
    assert_eq!(e.trace[0].2, vec!["first".to_string()]);
    assert!(e.trace[1].2.is_empty());
    assert_eq!(e.kind, 7);
}

#[test]
fn trace_as_text() {
    let mut e = msg_error("boom");
    assert!(matches!(e.kind, ErrorKind::Msg("boom")));
    assert_eq!(e.trace_text(), "");
    e.trace.push(("a.rs", 12, vec!["c1".to_string()]));
    e.trace.push(("b.rs", 7, vec![]));
    assert_eq!(
        e.trace_text(),
        "[\x1b[38:5:125mERROR\x1b[m] \x1b[38:5:220ma.rs\x1b[m:\x1b[38:5:172m12\x1b[m :: \n    \x1b[38:5:246m[Comment]\x1b[m c1\n[\x1b[38:5:125mERROR\x1b[m] \x1b[38:5:220mb.rs\x1b[m:\x1b[38:5:172m7\x1b[m :: \n"
    );
}
