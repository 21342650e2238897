//! The token matchers of the Dust lexer, built from `lexpop` matchers.
use crate::lexpop::{
    char_is_alphabetic, exact, fn_, is_ascii_digit, one_and_any, spec_is_alphabetic,
    spec_is_ascii_digit, CharPredicate, Exact, ExactModel, FnProp, IsWhitespace, OneAndAny,
    OneAndAnyModel, Prop,
};
use crate::lexpop::{MatchExt, spec_match};
use vstd::prelude::*;
use vstd::string::StringSliceAdditionalSpecFns;

verus! {

/// The first character of an identifier: an alphabetic character.
pub open spec fn spec_ident_init(c: char) -> bool {
    spec_is_alphabetic(c)
}

/// The characters of `:.,_/-`.
pub open spec fn spec_ident_punct_no_eq(c: char) -> bool {
    c == ':' || c == '.' || c == ',' || c == '_' || c == '/' || c == '-'
}

/// A later character of an identifier: alphabetic, a decimal digit, or one
/// of `:.,_=/-`.
pub open spec fn spec_ident_rest(c: char) -> bool {
    spec_ident_init(c) || spec_is_ascii_digit(c) || spec_ident_punct_no_eq(c) || c == '='
}

/// A later character of an identifier that may not contain `=`:
/// alphabetic, a decimal digit, or one of `:.,_/-`.
pub open spec fn spec_ident_rest_no_eq(c: char) -> bool {
    spec_ident_init(c) || spec_is_ascii_digit(c) || spec_ident_punct_no_eq(c)
}

/// Whether `c` may start an identifier.
pub fn ident_init(c: char) -> (r: bool)
    ensures
        r == spec_ident_init(c),
{
    char_is_alphabetic(c)
}

/// Whether `c` may continue an identifier.
pub fn ident_rest(c: char) -> (r: bool)
    ensures
        r == spec_ident_rest(c),
{
    ident_init(c) || is_ascii_digit(c) || c == ':' || c == '.' || c == ',' || c == '_' || c
        == '=' || c == '/' || c == '-'
}

/// Whether `c` may continue an identifier that may not contain `=`.
pub fn ident_rest_no_eq(c: char) -> (r: bool)
    ensures
        r == spec_ident_rest_no_eq(c),
{
    ident_init(c) || is_ascii_digit(c) || c == ':' || c == '.' || c == ',' || c == '_' || c
        == '/' || c == '-'
}

/// The class of characters that may start an identifier.
#[derive(Clone, Copy, Debug)]
pub struct IdentInit;

/// The class of characters that may continue an identifier.
#[derive(Clone, Copy, Debug)]
pub struct IdentRest;

/// The class of characters that may continue an identifier without `=`.
#[derive(Clone, Copy, Debug)]
pub struct IdentRestNoEq;

impl CharPredicate for IdentInit {
    open spec fn holds(&self, c: char) -> bool {
        spec_ident_init(c)
    }

    fn test(&self, c: char) -> (r: bool) {
        ident_init(c)
    }
}

impl CharPredicate for IdentRest {
    open spec fn holds(&self, c: char) -> bool {
        spec_ident_rest(c)
    }

    fn test(&self, c: char) -> (r: bool) {
        ident_rest(c)
    }
}

impl CharPredicate for IdentRestNoEq {
    open spec fn holds(&self, c: char) -> bool {
        spec_ident_rest_no_eq(c)
    }

    fn test(&self, c: char) -> (r: bool) {
        ident_rest_no_eq(c)
    }
}

/// A run of whitespace.
pub fn whsp() -> (r: FnProp<IsWhitespace>)
    ensures
        r.model() == IsWhitespace,
{
    fn_(IsWhitespace)
}

/// The keyword `let`.
pub fn kwd() -> (r: Exact)
    ensures
        r.model() == (ExactModel { chars: seq!['l', 'e', 't'], i: 0, n: 0, len: 3 }),
{
    proof {
        reveal_strlit("let");
        assert("let"@ =~= seq!['l', 'e', 't']);
        vstd::utf8::is_ascii_chars_encode_utf8("let"@);
    }
    exact("let")
}

/// An identifier: an alphabetic character, then identifier characters.
pub fn ident() -> (r: OneAndAny<FnProp<IdentInit>, FnProp<IdentRest>>)
    ensures
        r.model() == (OneAndAnyModel {
            a: IdentInit,
            b: IdentRest,
            proto: IdentRest,
            s: 0u8,
        }),
{
    one_and_any(fn_(IdentInit), fn_(IdentRest))
}

/// An identifier without `=` in it.
pub fn ident_no_eq() -> (r: OneAndAny<FnProp<IdentInit>, FnProp<IdentRestNoEq>>)
    ensures
        r.model() == (OneAndAnyModel {
            a: IdentInit,
            b: IdentRestNoEq,
            proto: IdentRestNoEq,
            s: 0u8,
        }),
{
    one_and_any(fn_(IdentInit), fn_(IdentRestNoEq))
}

/// The operator `$`.
pub fn op() -> (r: Exact)
    ensures
        r.model() == (ExactModel { chars: seq!['$'], i: 0, n: 0, len: 1 }),
{
    proof {
        reveal_strlit("$");
        assert("$"@ =~= seq!['$']);
        vstd::utf8::is_ascii_chars_encode_utf8("$"@);
    }
    exact("$")
}

/// The matcher of identifiers, the tail of options.
pub type IdentProp = OneAndAny<FnProp<IdentInit>, FnProp<IdentRest>>;

/// A long option: `--` followed by identifiers.
pub fn longopt() -> (r: OneAndAny<Exact, IdentProp>)
    ensures
        r.model() == (OneAndAnyModel {
            a: ExactModel { chars: seq!['-', '-'], i: 0, n: 0, len: 2 },
            b: OneAndAnyModel { a: IdentInit, b: IdentRest, proto: IdentRest, s: 0u8 },
            proto: OneAndAnyModel { a: IdentInit, b: IdentRest, proto: IdentRest, s: 0u8 },
            s: 0u8,
        }),
{
    proof {
        reveal_strlit("--");
        assert("--"@ =~= seq!['-', '-']);
        vstd::utf8::is_ascii_chars_encode_utf8("--"@);
    }
    one_and_any(exact("--"), ident())
}

/// A short option: `-` followed by identifiers.
pub fn shortopt() -> (r: OneAndAny<Exact, IdentProp>)
    ensures
        r.model() == (OneAndAnyModel {
            a: ExactModel { chars: seq!['-'], i: 0, n: 0, len: 1 },
            b: OneAndAnyModel { a: IdentInit, b: IdentRest, proto: IdentRest, s: 0u8 },
            proto: OneAndAnyModel { a: IdentInit, b: IdentRest, proto: IdentRest, s: 0u8 },
            s: 0u8,
        }),
{
    proof {
        reveal_strlit("-");
        assert("-"@ =~= seq!['-']);
        vstd::utf8::is_ascii_chars_encode_utf8("-"@);
    }
    one_and_any(exact("-"), ident())
}

// ---------------------------------------------------------------------------
// Tokens
// ---------------------------------------------------------------------------

/// A keyword.
#[derive(Debug, Clone, Copy)]
pub struct Kwd<'i>(pub &'i str);

/// An operator.
#[derive(Debug, Clone, Copy)]
pub struct Op<'i>(pub &'i str);

/// Nothing.
#[derive(Debug, Clone, Copy)]
pub struct Nada<'i>(pub &'i str);

/// Whitespace.
#[derive(Debug, Clone, Copy)]
pub struct Whsp<'i>(pub &'i str);

/// An identifier.
#[derive(Debug, Clone, Copy)]
pub struct Idnt<'i>(pub &'i str);

/// An identifier without `=`.
#[derive(Debug, Clone, Copy)]
pub struct IdntNe<'i>(pub &'i str);

/// A token of the Dust lexer, with its text.
#[derive(Debug, Clone, Copy)]
pub enum Tok<'i> {
    Whsp(Whsp<'i>),
    Nada(Nada<'i>),
    Kwd(Kwd<'i>),
    Op(Op<'i>),
    Idnt(Idnt<'i>),
    IdntNe(IdntNe<'i>),
}

impl<'i> Tok<'i> {
    /// The text of the token.
    pub open spec fn spec_text(&self) -> &'i str {
        match *self {
            Tok::Whsp(Whsp(s)) => s,
            Tok::Nada(Nada(s)) => s,
            Tok::Kwd(Kwd(s)) => s,
            Tok::Op(Op(s)) => s,
            Tok::Idnt(Idnt(s)) => s,
            Tok::IdntNe(IdntNe(s)) => s,
        }
    }

    /// The text of the token.
    pub fn as_str(&self) -> (r: &'i str)
        ensures
            r == self.spec_text(),
    {
        match *self {
            Tok::Whsp(Whsp(s)) => s,
            Tok::Nada(Nada(s)) => s,
            Tok::Kwd(Kwd(s)) => s,
            Tok::Op(Op(s)) => s,
            Tok::Idnt(Idnt(s)) => s,
            Tok::IdntNe(IdntNe(s)) => s,
        }
    }
}

/// The token of nothing.
pub fn tok_nada() -> (r: Tok<'static>)
    ensures
        r matches Tok::Nada(Nada(s)) && s@ == ""@,
{
    Tok::Nada(Nada(""))
}

/// A byte offset in the input.
pub type Offset = usize;

/// A token with its start and end offsets.
pub type Spanned<T> = (Offset, T, Offset);

/// The characters of `b` from the byte `p` on.
pub open spec fn tail_chars(b: Seq<u8>, p: int) -> Seq<char> {
    vstd::utf8::decode_utf8(b.subrange(p, b.len() as int))
}

/// The state of the identifier matcher before it has read anything.
pub open spec fn ident_model() -> OneAndAnyModel<IdentInit, IdentRest> {
    OneAndAnyModel { a: IdentInit, b: IdentRest, proto: IdentRest, s: 0u8 }
}

/// The state of the keyword matcher before it has read anything.
pub open spec fn kwd_model() -> ExactModel {
    ExactModel { chars: seq!['l', 'e', 't'], i: 0, n: 0, len: 3 }
}

/// The span of whitespace at `p` (in characters, advanced over as bytes).
pub open spec fn ws_len(b: Seq<u8>, p: int) -> nat {
    spec_match::<FnProp<IsWhitespace>>(3, IsWhitespace, tail_chars(b, p))
}

/// The span of an identifier at `p`.
pub open spec fn ident_len(b: Seq<u8>, p: int) -> nat {
    spec_match::<IdentProp>(3, ident_model(), tail_chars(b, p))
}

/// The span of the keyword at `p`.
pub open spec fn kwd_len(b: Seq<u8>, p: int) -> nat {
    spec_match::<Exact>(3, kwd_model(), tail_chars(b, p))
}

/// Whether a matcher can run at `p` and what it matches can be cut out:
/// `p` and `p + n` are character boundaries within the input.
pub open spec fn cuttable(b: Seq<u8>, p: int, n: nat) -> bool {
    &&& 0 <= p <= b.len()
    &&& vstd::utf8::is_char_boundary(b, p)
    &&& n <= usize::MAX
    &&& n > 0 ==> p + n <= b.len() && vstd::utf8::is_char_boundary(b, p + n)
}

/// What the next step of the lexer from `p` needs: each matcher it runs can
/// run, and each span it cuts lies on character boundaries.
pub open spec fn lexable_at(b: Seq<u8>, p: int) -> bool {
    let p1 = p + ws_len(b, p);
    &&& p < b.len() ==> {
        &&& crate::lexpop::run_ok::<FnProp<IsWhitespace>>(
            IsWhitespace,
            crate::lexpop::empty_window(3),
            tail_chars(b, p),
        )
        &&& cuttable(b, p, ws_len(b, p))
        &&& crate::lexpop::run_ok::<IdentProp>(
            ident_model(),
            crate::lexpop::empty_window(3),
            tail_chars(b, p1),
        )
        &&& cuttable(b, p1, ident_len(b, p1))
        &&& ident_len(b, p1) > 0 ==> crate::lexpop::run_ok::<Exact>(
            kwd_model(),
            crate::lexpop::empty_window(3),
            tail_chars(b, p1),
        ) && cuttable(b, p1, kwd_len(b, p1))
    }
}

/// The next token from `p` (its start, whether it is the keyword, and its
/// end), and the position after the step: skip whitespace, then an
/// identifier, which is the keyword when the keyword spans all of it.
pub open spec fn spec_lex_step(b: Seq<u8>, p: int) -> (Option<(int, bool, int)>, int) {
    if p == b.len() {
        (None, p)
    } else {
        let p1 = p + ws_len(b, p);
        let i = ident_len(b, p1);
        if i == 0 {
            (None, p1)
        } else {
            let k = kwd_len(b, p1);
            (Some((p1, k > 0 && k == i, p1 + i)), p1 + i)
        }
    }
}

/// The state of the lexer: its input and a byte position in it.
#[derive(Debug, Clone, Copy)]
pub struct LexState<'i> {
    inp: &'i str,
    pos: usize,
}

impl<'i> LexState<'i> {
    /// The input.
    pub closed spec fn input(&self) -> &'i str {
        self.inp
    }

    /// The byte position.
    pub closed spec fn position(&self) -> int {
        self.pos as int
    }

    /// A lexer at the start of `inp`.
    pub fn new(inp: &'i str) -> (r: Self)
        ensures
            r.input() == inp,
            r.position() == 0,
    {
        LexState { inp, pos: 0 }
    }

    /// Run `matcher` from the current position; when it matches `n > 0`
    /// characters, the token of the next `n` bytes, made by `ctor`, and the
    /// position moves past them.
    fn mtch<M: Prop>(&mut self, matcher: M, ctor: u8) -> (r: Option<Spanned<Tok<'i>>>)
        requires
            crate::lexpop::run_ok::<M>(
                matcher.model(),
                crate::lexpop::empty_window(3),
                tail_chars(old(self).inp.spec_bytes(), old(self).pos as int),
            ),
            cuttable(
                old(self).inp.spec_bytes(),
                old(self).pos as int,
                spec_match::<M>(
                    3,
                    matcher.model(),
                    tail_chars(old(self).inp.spec_bytes(), old(self).pos as int),
                ),
            ),
        ensures
            final(self).inp == old(self).inp,
            ({
                let b = old(self).inp.spec_bytes();
                let p = old(self).pos as int;
                let n = spec_match::<M>(3, matcher.model(), tail_chars(b, p));
                if n == 0 {
                    r is None && final(self).pos == old(self).pos
                } else {
                    &&& r matches Some((s, t, e))
                    &&& s == p && e == p + n && final(self).pos == p + n
                    &&& t.spec_text().spec_bytes() == b.subrange(p, p + n)
                    &&& (ctor == 0 ==> t is Whsp)
                    &&& (ctor == 1 ==> t is Kwd)
                    &&& (ctor != 0 && ctor != 1 ==> t is Idnt)
                }
            }),
    {
        let mut matcher = matcher;
        let p = self.pos;
        let ghost b = self.inp.spec_bytes();
        let len = self.inp.as_bytes().len();
        proof {
            vstd::utf8::encode_utf8_valid_utf8(self.inp@);
            vstd::utf8::is_char_boundary_start_end_of_seq(b);
        }
        let range = crate::lexer::str_slice(self.inp, p, len);
        proof {
            vstd::utf8::encode_utf8_decode_utf8(range@);
        }
        let n = matcher.match_str::<3>(range);
        if n == 0 {
            None
        } else {
            let text = crate::lexer::str_slice(self.inp, p, p + n);
            let t = if ctor == 0 {
                Tok::Whsp(Whsp(text))
            } else if ctor == 1 {
                Tok::Kwd(Kwd(text))
            } else {
                Tok::Idnt(Idnt(text))
            };
            self.pos = p + n;
            Some((p, t, p + n))
        }
    }

    /// The next token: skip whitespace, then take an identifier, which is
    /// the keyword `let` when the keyword spans all of it; none at the end
    /// of the input or when no identifier follows.
    pub fn next(&mut self) -> (r: Option<Spanned<Tok<'i>>>)
        requires
            lexable_at(old(self).input().spec_bytes(), old(self).position()),
            old(self).position() <= old(self).input().spec_bytes().len(),
        ensures
            final(self).input() == old(self).input(),
            ({
                let b = old(self).input().spec_bytes();
                let (tok, p) = spec_lex_step(b, old(self).position());
                &&& final(self).position() == p
                &&& match tok {
                    None => r is None,
                    Some((s, is_kwd, e)) => r matches Some((s1, t, e1)) && s1 == s && e1 == e
                        && t.spec_text().spec_bytes() == b.subrange(s, e) && (if is_kwd {
                        t is Kwd
                    } else {
                        t is Idnt
                    }),
                }
            }),
    {
        let ghost b = self.inp.spec_bytes();
        let p = self.pos;
        if p == self.inp.as_bytes().len() {
            return None;
        }
        let ws = self.mtch(whsp(), 0);
        let mut s0 = *self;
        let tid = self.mtch(ident(), 2);
        match tid {
            None => None,
            Some((s, t, e)) => {
                proof {
                    reveal_strlit("let");
                }
                let tkwd = s0.mtch(kwd(), 1);
                match tkwd {
                    None => Some((s, t, e)),
                    Some((s2, t2, e2)) => {
                        if t2.as_str().len() == t.as_str().len() {
                            Some((s2, t2, e2))
                        } else {
                            Some((s, t, e))
                        }
                    },
                }
            },
        }
    }
}

/// The lexer of Dust sources.
pub struct Lex<'i> {
    pub state: LexState<'i>,
}

impl<'i> Lex<'i> {
    /// A lexer at the start of `inp`.
    pub fn new(inp: &'i str) -> (r: Self)
        ensures
            r.state.input() == inp,
            r.state.position() == 0,
    {
        let state = LexState::new(inp);
        Lex { state }
    }

    /// The next token (see [`LexState::next`]).
    pub fn next(&mut self) -> (r: Option<Spanned<Tok<'i>>>)
        requires
            lexable_at(old(self).state.input().spec_bytes(), old(self).state.position()),
            old(self).state.position() <= old(self).state.input().spec_bytes().len(),
        ensures
            final(self).state.input() == old(self).state.input(),
            ({
                let b = old(self).state.input().spec_bytes();
                let (tok, p) = spec_lex_step(b, old(self).state.position());
                &&& final(self).state.position() == p
                &&& match tok {
                    None => r is None,
                    Some((s, is_kwd, e)) => r matches Some((s1, t, e1)) && s1 == s && e1 == e
                        && t.spec_text().spec_bytes() == b.subrange(s, e) && (if is_kwd {
                        t is Kwd
                    } else {
                        t is Idnt
                    }),
                }
            }),
    {
        self.state.next()
    }
}

} // verus!
