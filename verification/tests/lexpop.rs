use dusk::lex::{ident, longopt, shortopt};
use dusk::lexpop::{
    either, exact, fat, fn_, fnr, one_and_any, one_of, IsAsciiDigit, IsAsciiPunctuation,
    IsWhitespace, MatchExt,
};

fn digits() -> dusk::lexpop::FnProp<IsAsciiDigit> {
    fn_(IsAsciiDigit)
}

#[test]
fn match_range() {
    let wat = digits().match_str::<4>("Hello");
    assert_eq!(wat, 0);
    let wat = digits().match_str::<4>("");
    assert_eq!(wat, 0);
    let wat = digits().match_str::<4>("1");
    assert_eq!(wat, 1);
    let wat = digits().match_str::<4>("12");
    assert_eq!(wat, 2);
    let wat = digits().match_str::<4>("123");
    assert_eq!(wat, 3);
    let wat = digits().match_str::<4>("1234");
    assert_eq!(wat, 4);
    let wat = digits().match_str::<4>("12345");
    assert_eq!(wat, 5);
    let wat = digits().match_str::<4>("a12345");
    assert_eq!(wat, 0);
    let wat = digits().match_str::<4>("abcd+12345");
    assert_eq!(wat, 0);
    let wat = digits().match_str::<4>("+12345");
    assert_eq!(wat, 0);
    let wat = digits().match_str::<4>("-12345");
    assert_eq!(wat, 0);
    let wat = digits().match_str::<4>("abcd-12345");
    assert_eq!(wat, 0);
}

fn t(s: &str, e: usize) {
    let mut m = fat();
    assert_eq!(m.match_str::<1>(s), e);
}

fn t_all(s: &str) {
    t(s, s.len());
}

#[test]
fn complex_prop0() {
    t("r", 0);
}
#[test]
fn complex_prop1() {
    t("r#", 0);
}
#[test]
fn complex_prop2() {
    t("r#\"", 0);
}
#[test]
fn complex_prop3() {
    t("r#\"\"", 0);
}
#[test]
fn complex_prop4() {
    t("r##\"\"#", 0);
}
#[test]
fn complex_prop5() {
    t("r##\"\"##", 7);
}
#[test]
fn complex_prop6() {
    t_all("r#\"What is happening\"#");
}
#[test]
fn complex_prop7() {
    t_all(r###"r##"a"b"#c"##"###);
}
#[test]
fn complex_prop8() {
    t_all(r####"r"""####);
}
#[test]
fn complex_prop9() {
    t_all(r####"r#"""#"####);
}
#[test]
fn complex_prop10() {
    t_all(r####"r##""#"##"####);
}
#[test]
fn complex_prop11() {
    t_all(r####"r###"""#"##"###"####);
}
#[test]
fn complex_prop12() {
    t_all(r####"r#"Kitty"#"####);
}
#[test]
fn complex_prop13() {
    t(r####"r#"K"#  "####, r##"r#"K"#"##.len());
}
#[test]
fn complex_prop14() {
    t_all(r####"r"K""####);
}
#[test]
fn complex_prop15() {
    t(r####"""####, 0);
}
#[test]
fn complex_prop16() {
    t_all(r####""""####);
}
#[test]
fn complex_prop17() {
    t(r####""#""####, "\"#\"".len());
}

#[test]
fn test_either() {
    let a = || exact("the");
    let b = || exact("apple");
    let m = || either(b(), a());
    let m = |s| m().match_str::<1>(s);

    assert_eq!(m(""), 0);
    assert_eq!(m("t"), 0);
    assert_eq!(m("th"), 0);
    assert_eq!(m("the"), 3);
    assert_eq!(m("a"), 0);
    assert_eq!(m("ap"), 0);
    assert_eq!(m("app"), 0);
    assert_eq!(m("appl"), 0);
    assert_eq!(m("apple"), 5);
    assert_eq!(m("theextra"), 3);
    assert_eq!(m("theapple"), 3);
    assert_eq!(m("applethe"), 5);
}

#[test]
fn test_one_and_any() {
    let a = || fn_(IsWhitespace);
    let b = || fnr(IsAsciiPunctuation);
    let m = || one_and_any(b(), a());
    let m = |s| m().match_str::<1>(s);

    assert_eq!(m(""), 0);
    assert_eq!(m("."), 1);
    assert_eq!(m("/"), 1);
    assert_eq!(m("//"), 1);
    assert_eq!(m("/ "), 2);
    assert_eq!(m("/  "), 3);
}

#[test]
fn test_one_of() {
    let m = |e: &str, s| one_of(e).match_str::<1>(s);

    assert_eq!(m("", ""), 0);
    assert_eq!(m("%#$@", ""), 0);
    assert_eq!(m("%#$@", "%"), 1);
    assert_eq!(m("%#$@", "#"), 1);
    assert_eq!(m("%#$@", "$"), 1);
    assert_eq!(m("%#$@", "@"), 1);
    assert_eq!(m("%#$@", "@$"), 1);
    assert_eq!(m("%#$@", "#@$%"), 1);
    assert_eq!(m("%#$@", "#@$"), 1);
    assert_eq!(m("%#$@", " #@$"), 0);
}

#[test]
fn test_exact() {
    let m = |e, s| exact(e).match_str::<1>(s);

    assert_eq!(m("", ""), 0);

    assert_eq!(m("a", ""), 0);
    assert_eq!(m("ab", ""), 0);

    assert_eq!(m("", "a"), 0);
    assert_eq!(m("", "ab"), 0);

    assert_eq!(m("a", "a"), 1);

    assert_eq!(m("a", "ab"), 1);
    assert_eq!(m("b", "ab"), 0);

    assert_eq!(m("ab", "aba"), 2);
    assert_eq!(m("ba", "aba"), 0);

    assert_eq!(m("baab", "baab"), 4);
    assert_eq!(m("baab", "baabi"), 4);
    assert_eq!(m("baab", "baa"), 0);
}

#[test]
fn test_from_fn() {
    let mut a = fnr(IsAsciiDigit);
    let mut m = |s| a.match_str::<1>(s);
    assert_eq!(m(""), 0);
    assert_eq!(m("."), 0);
    assert_eq!(m("1"), 1);
    assert_eq!(m("1."), 1);
    assert_eq!(m("11"), 2);
    assert_eq!(m("11."), 2);
    assert_eq!(m("11./"), 2);
    assert_eq!(m("11./22"), 2);

    let mut b = fn_(IsAsciiPunctuation);
    let mut m = |s| b.match_str::<1>(s);
    assert_eq!(m(""), 0);
    assert_eq!(m("."), 1);
    assert_eq!(m("/."), 2);
    assert_eq!(m("/.ab"), 2);
    assert_eq!(m("ab/."), 0);
}

fn test<P: MatchExt>(mut m: P, inp: &str, exp: usize) {
    let v = m.match_str::<4>(inp);
    assert_eq!(v, exp);
}

#[test]
fn test_longopt() {
    test(longopt(), "-", 0);
    test(longopt(), "--", 2);
    test(longopt(), "---", 2);
    test(longopt(), "--a", 3);

    test(exact("--"), "--", 2);
    test(exact("--"), "-", 0);
    test(ident(), "-", 0);
    let m = || one_and_any(exact("--"), ident());
    test(m(), "-", 0);
    test(m(), "--", 2);
    test(m(), "-a", 0);
    test(longopt(), "-a", 0);
}

#[test]
fn test_shortopt() {
    test(shortopt(), "-", 1);
    test(shortopt(), "--", 1);
    test(shortopt(), "-a", 2);
}

#[test]
fn unicode_white_space() {
    use_white_space_predicate();
}

fn use_white_space_predicate() {
    let p = IsWhitespace;
    for c in ['\t', '\n', ' ', '\u{85}', '\u{a0}', '\u{1680}', '\u{2000}', '\u{200a}', '\u{2028}', '\u{2029}', '\u{202f}', '\u{205f}', '\u{3000}'] {
        assert!(dusk::lexpop::CharPredicate::test(&p, c), "{:?}", c);
    }
    for c in ['a', '\u{200b}', '\u{180e}', '\u{feff}', '_'] {
        assert!(!dusk::lexpop::CharPredicate::test(&p, c), "{:?}", c);
    }
}
