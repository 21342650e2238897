//! A standalone byte-level lexer for Dust source text, as used by the
//! language server.
//!
//! The lexer is stated as a pure function on the bytes of the input
//! (`spec_next_span`): from a position, skip ASCII whitespace, then try each
//! token class in a fixed order; the first that applies gives the token.
use vstd::prelude::*;
use vstd::string::StringSliceAdditionalSpecFns;

verus! {

/// The kinds of Dust tokens.
#[derive(Debug, Clone, Copy, PartialEq, Eq, Structural)]
pub enum TokenKind {
    // Keywords
    Def,
    Let,
    Val,
    Src,
    Include,
    IncludeStr,
    New,
    If,
    ForEach,
    In,
    // Identifiers & literals
    Ident,
    Natural,
    String,
    RawString,
    // Paths
    AbsPath,
    RelPath,
    HomePath,
    // Options
    LongOpt,
    ShortOpt,
    // Variables & references
    Variable,
    Slice,
    SystemCmd,
    Deref,
    // Operators & punctuation
    Eq,
    Semi,
    Comma,
    At,
    Lt,
    Gt,
    Bang,
    Dollar,
    Star,
    LBrace,
    RBrace,
    LParen,
    RParen,
    LBracket,
    RBracket,
    // Comments
    Comment,
    // Unknown / error token
    Unknown,
}

/// A token: its kind, its text, and its byte span `start..end` in the input.
#[derive(Debug, Clone)]
pub struct Token<'a> {
    pub kind: TokenKind,
    pub text: &'a str,
    pub start: usize,
    pub end: usize,
}

// ---------------------------------------------------------------------------
// Byte classes
// ---------------------------------------------------------------------------

/// ASCII whitespace: space, tab, line feed, form feed, carriage return.
pub open spec fn spec_is_ws(c: u8) -> bool {
    c == 0x20 || c == 0x09 || c == 0x0a || c == 0x0c || c == 0x0d
}

/// An ASCII letter.
pub open spec fn spec_is_alpha(c: u8) -> bool {
    (0x41 <= c && c <= 0x5a) || (0x61 <= c && c <= 0x7a)
}

/// An ASCII decimal digit.
pub open spec fn spec_is_digit(c: u8) -> bool {
    0x30 <= c && c <= 0x39
}

/// A byte that may start an identifier: an ASCII letter or `_`.
pub open spec fn spec_is_ident_init(c: u8) -> bool {
    spec_is_alpha(c) || c == 0x5f
}

/// A byte that may continue an identifier: an ASCII letter or digit, or one
/// of `_:.,/+-=`.
pub open spec fn spec_is_ident_rest(c: u8) -> bool {
    spec_is_alpha(c) || spec_is_digit(c) || c == 0x5f || c == 0x3a || c == 0x2e || c == 0x2c
        || c == 0x2f || c == 0x2b || c == 0x2d || c == 0x3d
}

/// A byte of a relative path: an identifier byte or `.`.
pub open spec fn spec_is_rel_path(c: u8) -> bool {
    spec_is_ident_rest(c) || c == 0x2e
}

/// Not a line feed.
pub open spec fn spec_not_newline(c: u8) -> bool {
    c != 0x0a
}

/// Byte predicates, as values for `scan_while`.
pub open spec fn ws_p() -> spec_fn(u8) -> bool {
    |c: u8| spec_is_ws(c)
}

pub open spec fn ident_init_p() -> spec_fn(u8) -> bool {
    |c: u8| spec_is_ident_init(c)
}

pub open spec fn ident_rest_p() -> spec_fn(u8) -> bool {
    |c: u8| spec_is_ident_rest(c)
}

pub open spec fn digit_p() -> spec_fn(u8) -> bool {
    |c: u8| spec_is_digit(c)
}

pub open spec fn alnum_p() -> spec_fn(u8) -> bool {
    |c: u8| spec_is_alpha(c) || spec_is_digit(c)
}

pub open spec fn rel_path_p() -> spec_fn(u8) -> bool {
    |c: u8| spec_is_rel_path(c)
}

pub open spec fn not_newline_p() -> spec_fn(u8) -> bool {
    |c: u8| spec_not_newline(c)
}

pub open spec fn hash_p() -> spec_fn(u8) -> bool {
    |c: u8| c == 0x23
}

/// Whether `b` is an ASCII whitespace byte.
pub fn is_ascii_ws(b: u8) -> (r: bool)
    ensures
        r == spec_is_ws(b),
{
    b == 0x20 || b == 0x09 || b == 0x0a || b == 0x0c || b == 0x0d
}

/// Whether `b` is an ASCII letter.
pub fn is_alpha(b: u8) -> (r: bool)
    ensures
        r == spec_is_alpha(b),
{
    (0x41 <= b && b <= 0x5a) || (0x61 <= b && b <= 0x7a)
}

/// Whether `b` is an ASCII decimal digit.
pub fn is_digit(b: u8) -> (r: bool)
    ensures
        r == spec_is_digit(b),
{
    0x30 <= b && b <= 0x39
}

/// Whether `b` may start an identifier.
pub fn is_ident_init(b: u8) -> (r: bool)
    ensures
        r == spec_is_ident_init(b),
{
    is_alpha(b) || b == 0x5f
}

/// Whether `b` may continue an identifier.
pub fn is_ident_rest(b: u8) -> (r: bool)
    ensures
        r == spec_is_ident_rest(b),
{
    is_alpha(b) || is_digit(b) || b == 0x5f || b == 0x3a || b == 0x2e || b == 0x2c || b == 0x2f
        || b == 0x2b || b == 0x2d || b == 0x3d
}

// ---------------------------------------------------------------------------
// The lexer as a function on bytes
// ---------------------------------------------------------------------------

/// The byte at `i`, if `i` is in range.
pub open spec fn at(b: Seq<u8>, i: int) -> Option<u8> {
    if 0 <= i < b.len() {
        Some(b[i])
    } else {
        None
    }
}

/// Whether the byte at `i` is in range and equal to `c`.
pub open spec fn at_is(b: Seq<u8>, i: int, c: u8) -> bool {
    0 <= i < b.len() && b[i] == c
}

/// Whether the byte at `i` is in range and satisfies `p`.
pub open spec fn at_sat(b: Seq<u8>, i: int, p: spec_fn(u8) -> bool) -> bool {
    0 <= i < b.len() && p(b[i])
}

/// The first position at or after `i` whose byte is absent or fails `p`.
pub open spec fn scan_while(b: Seq<u8>, i: int, p: spec_fn(u8) -> bool) -> int
    decreases b.len() - i,
{
    if 0 <= i < b.len() && p(b[i]) {
        scan_while(b, i + 1, p)
    } else {
        i
    }
}

/// Whether the `h` bytes from `i` are all `#`.
pub open spec fn hashes_at(b: Seq<u8>, i: int, h: int) -> bool {
    forall|t: int| 0 <= t < h ==> #[trigger] at_is(b, i + t, 0x23)
}

/// The end of the body of a raw string with `h` hashes, searched from `k`:
/// just past the first `"` followed by `h` hashes, or the end of the input.
pub open spec fn raw_close(b: Seq<u8>, k: int, h: int) -> int
    decreases b.len() - k,
{
    if k < 0 || k >= b.len() {
        b.len() as int
    } else if b[k] == 0x22 && hashes_at(b, k + 1, h) {
        k + 1 + h
    } else {
        raw_close(b, k + 1, h)
    }
}

/// The end of a quoted string body, searched from `i`: just past the closing
/// `quote`, or where the input ran out (a backslash skips the next byte, so
/// this may be one past the end of the input).
pub open spec fn string_close(b: Seq<u8>, i: int, quote: u8) -> int
    decreases b.len() + 1 - i,
{
    if i < 0 || i >= b.len() {
        i
    } else if b[i] == 0x5c {
        string_close(b, i + 2, quote)
    } else if b[i] == quote {
        i + 1
    } else {
        string_close(b, i + 1, quote)
    }
}

/// The end of a bracketed slice index, searched from `k` at nesting `depth`.
pub open spec fn bracket_close(b: Seq<u8>, k: int, depth: nat) -> int
    decreases b.len() - k,
{
    if depth == 0 || k < 0 || k >= b.len() {
        k
    } else if b[k] == 0x5b {
        bracket_close(b, k + 1, depth + 1)
    } else if b[k] == 0x5d {
        bracket_close(b, k + 1, (depth - 1) as nat)
    } else {
        bracket_close(b, k + 1, depth)
    }
}

/// A comment: `#` up to the end of the line.
pub open spec fn spec_comment(b: Seq<u8>, s: int) -> Option<(TokenKind, int)> {
    if at_is(b, s, 0x23) {
        Some((TokenKind::Comment, scan_while(b, s, not_newline_p())))
    } else {
        None
    }
}

/// The number of hashes after the `r` of a raw string starting at `s`.
pub open spec fn raw_hashes(b: Seq<u8>, s: int) -> int {
    scan_while(b, s + 1, hash_p()) - (s + 1)
}

/// A raw string: `r`, hashes, `"`, then up to `"` followed by as many hashes.
pub open spec fn spec_raw_string(b: Seq<u8>, s: int) -> Option<(TokenKind, int)> {
    let h = raw_hashes(b, s);
    if at_is(b, s, 0x72) && at_is(b, s + 1 + h, 0x22) {
        Some((TokenKind::RawString, raw_close(b, s + 2 + h, h)))
    } else {
        None
    }
}

/// A string delimited by `quote`.
pub open spec fn spec_string(b: Seq<u8>, s: int, quote: u8) -> Option<(TokenKind, int)> {
    if at_is(b, s, quote) {
        Some((TokenKind::String, string_close(b, s + 1, quote)))
    } else {
        None
    }
}

/// `$` alone, a variable `$name`, or a slice `$name[...]`.
pub open spec fn spec_variable_or_slice(b: Seq<u8>, s: int) -> Option<(TokenKind, int)> {
    if !at_is(b, s, 0x24) {
        None
    } else if !at_sat(b, s + 1, ident_init_p()) {
        Some((TokenKind::Dollar, s + 1))
    } else {
        let j = scan_while(b, s + 1, ident_rest_p());
        if at_is(b, j, 0x5b) {
            Some((TokenKind::Slice, bracket_close(b, j + 1, 1)))
        } else {
            Some((TokenKind::Variable, j))
        }
    }
}

/// `lead` followed by an identifier (system commands `!name`, dereferences `*name`).
pub open spec fn spec_prefixed_ident(b: Seq<u8>, s: int, lead: u8, kind: TokenKind) -> Option<
    (TokenKind, int),
> {
    if at_is(b, s, lead) && at_sat(b, s + 1, ident_init_p()) {
        Some((kind, scan_while(b, s + 1, ident_rest_p())))
    } else {
        None
    }
}

/// A run of decimal digits.
pub open spec fn spec_number(b: Seq<u8>, s: int) -> Option<(TokenKind, int)> {
    if at_sat(b, s, digit_p()) {
        Some((TokenKind::Natural, scan_while(b, s, digit_p())))
    } else {
        None
    }
}

/// A long option `--name`.
pub open spec fn spec_long_opt(b: Seq<u8>, s: int) -> Option<(TokenKind, int)> {
    if at_is(b, s, 0x2d) && at_is(b, s + 1, 0x2d) && at_sat(
        b,
        s + 2,
        ident_rest_p(),
    ) {
        Some((TokenKind::LongOpt, scan_while(b, s + 2, ident_rest_p())))
    } else {
        None
    }
}

/// A short option `-n`.
pub open spec fn spec_short_opt(b: Seq<u8>, s: int) -> Option<(TokenKind, int)> {
    if at_is(b, s, 0x2d) && at_sat(b, s + 1, alnum_p()) {
        Some((TokenKind::ShortOpt, scan_while(b, s + 1, ident_rest_p())))
    } else {
        None
    }
}

/// A path: absolute `/...`, relative `./...` or `../...`, or home `~/...`.
pub open spec fn spec_path(b: Seq<u8>, s: int) -> Option<(TokenKind, int)> {
    if at_is(b, s, 0x2f) && at_sat(b, s + 1, ident_rest_p()) {
        Some((TokenKind::AbsPath, scan_while(b, s + 1, ident_rest_p())))
    } else if at_is(b, s, 0x2e) && (at_is(b, s + 1, 0x2f) || (at_is(b, s + 1, 0x2e) && at_is(
        b,
        s + 2,
        0x2f,
    ))) {
        Some((TokenKind::RelPath, scan_while(b, s, rel_path_p())))
    } else if at_is(b, s, 0x7e) && at_is(b, s + 1, 0x2f) {
        Some((TokenKind::HomePath, scan_while(b, s + 1, ident_rest_p())))
    } else {
        None
    }
}

/// The kind of a word: a keyword, or an identifier.
pub open spec fn spec_word_kind(w: Seq<u8>) -> TokenKind {
    if w == seq![0x64u8, 0x65, 0x66] {
        TokenKind::Def
    } else if w == seq![0x6cu8, 0x65, 0x74] {
        TokenKind::Let
    } else if w == seq![0x76u8, 0x61, 0x6c] {
        TokenKind::Val
    } else if w == seq![0x73u8, 0x72, 0x63] {
        TokenKind::Src
    } else if w == seq![0x69u8, 0x6e, 0x63, 0x6c, 0x75, 0x64, 0x65, 0x5f, 0x73, 0x74, 0x72] {
        TokenKind::IncludeStr
    } else if w == seq![0x69u8, 0x6e, 0x63, 0x6c, 0x75, 0x64, 0x65] {
        TokenKind::Include
    } else if w == seq![0x6eu8, 0x65, 0x77] {
        TokenKind::New
    } else if w == seq![0x69u8, 0x66] {
        TokenKind::If
    } else if w == seq![0x66u8, 0x6f, 0x72, 0x5f, 0x65, 0x61, 0x63, 0x68] {
        TokenKind::ForEach
    } else if w == seq![0x69u8, 0x6e] {
        TokenKind::In
    } else {
        TokenKind::Ident
    }
}

/// An identifier or a keyword.
pub open spec fn spec_ident_or_keyword(b: Seq<u8>, s: int) -> Option<(TokenKind, int)> {
    if at_sat(b, s, ident_init_p()) {
        let e = scan_while(b, s, ident_rest_p());
        Some((spec_word_kind(b.subrange(s, e)), e))
    } else {
        None
    }
}

/// The punctuation kind of a byte, if it is one.
pub open spec fn spec_punct_kind(c: u8) -> Option<TokenKind> {
    if c == 0x3d {
        Some(TokenKind::Eq)
    } else if c == 0x3b {
        Some(TokenKind::Semi)
    } else if c == 0x2c {
        Some(TokenKind::Comma)
    } else if c == 0x40 {
        Some(TokenKind::At)
    } else if c == 0x3c {
        Some(TokenKind::Lt)
    } else if c == 0x3e {
        Some(TokenKind::Gt)
    } else if c == 0x21 {
        Some(TokenKind::Bang)
    } else if c == 0x2a {
        Some(TokenKind::Star)
    } else if c == 0x7b {
        Some(TokenKind::LBrace)
    } else if c == 0x7d {
        Some(TokenKind::RBrace)
    } else if c == 0x28 {
        Some(TokenKind::LParen)
    } else if c == 0x29 {
        Some(TokenKind::RParen)
    } else if c == 0x5b {
        Some(TokenKind::LBracket)
    } else if c == 0x5d {
        Some(TokenKind::RBracket)
    } else {
        None
    }
}

/// A one-byte punctuation token.
pub open spec fn spec_punct(b: Seq<u8>, s: int) -> Option<(TokenKind, int)> {
    if 0 <= s < b.len() {
        match spec_punct_kind(b[s]) {
            Some(k) => Some((k, s + 1)),
            None => None,
        }
    } else {
        None
    }
}

/// The first of two alternatives that applies.
pub open spec fn first_of(
    x: Option<(TokenKind, int)>,
    y: Option<(TokenKind, int)>,
) -> Option<(TokenKind, int)> {
    if x is Some {
        x
    } else {
        y
    }
}

/// The token that starts at `s` (a non-whitespace byte), with its end: the
/// first token class that applies, in the lexer's order; an unknown
/// one-byte token when none does.
pub open spec fn spec_token_at(b: Seq<u8>, s: int) -> (TokenKind, int) {
    let t = first_of(
        spec_comment(b, s),
        first_of(
            spec_raw_string(b, s),
            first_of(
                spec_string(b, s, 0x22),
                first_of(
                    spec_string(b, s, 0x27),
                    first_of(
                        spec_variable_or_slice(b, s),
                        first_of(
                            spec_prefixed_ident(b, s, 0x21, TokenKind::SystemCmd),
                            first_of(
                                spec_prefixed_ident(b, s, 0x2a, TokenKind::Deref),
                                first_of(
                                    spec_number(b, s),
                                    first_of(
                                        spec_long_opt(b, s),
                                        first_of(
                                            spec_short_opt(b, s),
                                            first_of(
                                                spec_path(b, s),
                                                first_of(
                                                    spec_ident_or_keyword(b, s),
                                                    spec_punct(b, s),
                                                ),
                                            ),
                                        ),
                                    ),
                                ),
                            ),
                        ),
                    ),
                ),
            ),
        ),
    );
    match t {
        Some(t) => t,
        None => (TokenKind::Unknown, s + 1),
    }
}

/// The next token from position `pos`, as kind, start and end: skip ASCII
/// whitespace, then take the token there; none at the end of the input.
pub open spec fn spec_next_span(b: Seq<u8>, pos: int) -> Option<(TokenKind, int, int)> {
    let s = scan_while(b, pos, ws_p());
    if s >= b.len() {
        None
    } else {
        let (k, e) = spec_token_at(b, s);
        Some((k, s, e))
    }
}

/// Whether the next token from `pos` can be cut out of the input: its span
/// ends within the input and both ends fall on character boundaries.
pub open spec fn next_is_sliceable(b: Seq<u8>, pos: int) -> bool {
    spec_next_span(b, pos) matches Some((k, s, e)) ==> e <= b.len()
        && vstd::utf8::is_char_boundary(b, s) && vstd::utf8::is_char_boundary(b, e)
}

/// The spans of all tokens from `pos` on.
pub open spec fn spec_spans(b: Seq<u8>, pos: int) -> Seq<(TokenKind, int, int)>
    decreases b.len() - pos,
{
    match spec_next_span(b, pos) {
        None => Seq::empty(),
        Some((k, s, e)) => if pos < e <= b.len() {
            seq![(k, s, e)] + spec_spans(b, e)
        } else {
            seq![(k, s, e)]
        },
    }
}

/// Whether every token from `pos` on can be cut out of the input.
pub open spec fn all_sliceable(b: Seq<u8>, pos: int) -> bool
    decreases b.len() - pos,
{
    next_is_sliceable(b, pos) && match spec_next_span(b, pos) {
        None => true,
        Some((k, s, e)) => pos < e <= b.len() ==> all_sliceable(b, e),
    }
}

// ---------------------------------------------------------------------------
// The lexer
// ---------------------------------------------------------------------------

/// A lexer over a Dust source text, at a byte position.
pub struct Lexer<'a> {
    input: &'a str,
    pos: usize,
}

/// The bytes `start..end` of `s`, cut at two character boundaries within it.
pub(crate) fn str_slice<'a>(s: &'a str, start: usize, end: usize) -> (r: &'a str)
    requires
        start <= end <= s.spec_bytes().len(),
        vstd::utf8::is_char_boundary(s.spec_bytes(), start as int),
        vstd::utf8::is_char_boundary(s.spec_bytes(), end as int),
    ensures
        r.spec_bytes() == s.spec_bytes().subrange(start as int, end as int),
{
    let (_, tail) = s.split_at(start);
    let ghost b = s.spec_bytes();
    let ghost t = tail.spec_bytes();
    proof {
        vstd::utf8::encode_utf8_valid_utf8(s@);
        vstd::utf8::encode_utf8_valid_utf8(tail@);
        let k = end - start;
        if k == t.len() {
            vstd::utf8::is_char_boundary_start_end_of_seq(t);
        } else {
            assert(t[k as int] == b[end as int]);
            vstd::utf8::is_char_boundary_iff_not_is_continuation_byte(t, k as int);
            vstd::utf8::is_char_boundary_iff_not_is_continuation_byte(b, end as int);
        }
    }
    let (mid, _) = tail.split_at(end - start);
    assert(mid.spec_bytes() =~= b.subrange(start as int, end as int));
    mid
}

/// `scan_while` never moves backwards, and moves past a byte that satisfies
/// the predicate.
proof fn lemma_scan_while_ge(b: Seq<u8>, i: int, p: spec_fn(u8) -> bool)
    requires
        0 <= i,
    ensures
        scan_while(b, i, p) >= i,
        at_sat(b, i, p) ==> scan_while(b, i, p) > i,
        scan_while(b, i, p) <= i || scan_while(b, i, p) <= b.len(),
    decreases b.len() - i,
{
    if 0 <= i < b.len() && p(b[i]) {
        lemma_scan_while_ge(b, i + 1, p);
    }
}


/// The end of a raw string body lies after `s` when the search starts after `s`.
proof fn lemma_raw_close_after(b: Seq<u8>, k: int, h: int, s: int)
    requires
        0 <= s < k,
        s < b.len(),
        0 <= h,
    ensures
        raw_close(b, k, h) > s,
    decreases b.len() - k,
{
    if k < 0 || k >= b.len() {
    } else if b[k] == 0x22 && hashes_at(b, k + 1, h) {
    } else {
        lemma_raw_close_after(b, k + 1, h, s);
    }
}

/// The end of a quoted string lies at or after where the search started.
proof fn lemma_string_close_ge(b: Seq<u8>, i: int, quote: u8)
    requires
        0 <= i,
    ensures
        string_close(b, i, quote) >= i,
    decreases b.len() + 1 - i,
{
    if i < 0 || i >= b.len() {
    } else if b[i] == 0x5c {
        lemma_string_close_ge(b, i + 2, quote);
    } else if b[i] == quote {
    } else {
        lemma_string_close_ge(b, i + 1, quote);
    }
}

/// The end of a slice index lies at or after where the search started.
proof fn lemma_bracket_close_ge(b: Seq<u8>, k: int, depth: nat)
    requires
        0 <= k,
    ensures
        bracket_close(b, k, depth) >= k,
    decreases b.len() - k,
{
    if depth == 0 || k < 0 || k >= b.len() {
    } else if b[k] == 0x5b {
        lemma_bracket_close_ge(b, k + 1, depth + 1);
    } else if b[k] == 0x5d {
        lemma_bracket_close_ge(b, k + 1, (depth - 1) as nat);
    } else {
        lemma_bracket_close_ge(b, k + 1, depth);
    }
}

/// Every token is at least one byte long.
pub proof fn lemma_token_progress(b: Seq<u8>, s: int)
    requires
        0 <= s < b.len(),
    ensures
        spec_token_at(b, s).1 > s,
{
    lemma_scan_while_ge(b, s, not_newline_p());
    lemma_scan_while_ge(b, s + 1, hash_p());
    let h = raw_hashes(b, s);
    if at_is(b, s, 0x72) && at_is(b, s + 1 + h, 0x22) {
        lemma_raw_close_after(b, s + 2 + h, h, s);
    }
    lemma_string_close_ge(b, s + 1, 0x22);
    lemma_string_close_ge(b, s + 1, 0x27);
    lemma_scan_while_ge(b, s + 1, ident_rest_p());
    let j = scan_while(b, s + 1, ident_rest_p());
    lemma_bracket_close_ge(b, j + 1, 1);
    lemma_scan_while_ge(b, s, digit_p());
    lemma_scan_while_ge(b, s + 2, ident_rest_p());
    lemma_scan_while_ge(b, s, rel_path_p());
    lemma_scan_while_ge(b, s, ident_rest_p());
}

/// The next token, if any, starts at or after the position and ends after it.
pub proof fn lemma_next_span_progress(b: Seq<u8>, pos: int)
    requires
        0 <= pos,
    ensures
        spec_next_span(b, pos) matches Some((k, s, e)) ==> pos <= s < e && s < b.len(),
{
    lemma_scan_while_ge(b, pos, ws_p());
    let s = scan_while(b, pos, ws_p());
    if s < b.len() {
        lemma_token_progress(b, s);
    }
}

/// Whether the bytes `s..e` of `b` are the word `w`.
fn word_is(b: &[u8], s: usize, e: usize, w: &[u8]) -> (r: bool)
    requires
        s <= e <= b@.len(),
    ensures
        r == (b@.subrange(s as int, e as int) == w@),
{
    if e - s != w.len() {
        assert(b@.subrange(s as int, e as int).len() != w@.len());
        return false;
    }
    let mut k: usize = 0;
    while k < w.len()
        invariant
            s <= e <= b@.len(),
            e - s == w@.len(),
            k <= w@.len(),
            forall|t: int| 0 <= t < k ==> b@[s + t] == w@[t],
        decreases w@.len() - k,
    {
        if b[s + k] != w[k] {
            assert(b@.subrange(s as int, e as int)[k as int] != w@[k as int]);
            return false;
        }
        k = k + 1;
    }
    assert(b@.subrange(s as int, e as int) =~= w@);
    true
}

/// The kind of the word `s..e` of `b`: a keyword, or an identifier.
fn word_kind(b: &[u8], s: usize, e: usize) -> (k: TokenKind)
    requires
        s <= e <= b@.len(),
    ensures
        k == spec_word_kind(b@.subrange(s as int, e as int)),
{
    let ghost w = b@.subrange(s as int, e as int);
    if word_is(b, s, e, &[0x64u8, 0x65, 0x66]) {
        TokenKind::Def
    } else if word_is(b, s, e, &[0x6cu8, 0x65, 0x74]) {
        TokenKind::Let
    } else if word_is(b, s, e, &[0x76u8, 0x61, 0x6c]) {
        TokenKind::Val
    } else if word_is(b, s, e, &[0x73u8, 0x72, 0x63]) {
        TokenKind::Src
    } else if word_is(
        b,
        s,
        e,
        &[0x69u8, 0x6e, 0x63, 0x6c, 0x75, 0x64, 0x65, 0x5f, 0x73, 0x74, 0x72],
    ) {
        TokenKind::IncludeStr
    } else if word_is(b, s, e, &[0x69u8, 0x6e, 0x63, 0x6c, 0x75, 0x64, 0x65]) {
        TokenKind::Include
    } else if word_is(b, s, e, &[0x6eu8, 0x65, 0x77]) {
        TokenKind::New
    } else if word_is(b, s, e, &[0x69u8, 0x66]) {
        TokenKind::If
    } else if word_is(b, s, e, &[0x66u8, 0x6f, 0x72, 0x5f, 0x65, 0x61, 0x63, 0x68]) {
        TokenKind::ForEach
    } else if word_is(b, s, e, &[0x69u8, 0x6e]) {
        TokenKind::In
    } else {
        TokenKind::Ident
    }
}

/// The punctuation kind of a byte, if it is one.
fn punct_kind(c: u8) -> (r: Option<TokenKind>)
    ensures
        r == spec_punct_kind(c),
{
    match c {
        0x3d => Some(TokenKind::Eq),
        0x3b => Some(TokenKind::Semi),
        0x2c => Some(TokenKind::Comma),
        0x40 => Some(TokenKind::At),
        0x3c => Some(TokenKind::Lt),
        0x3e => Some(TokenKind::Gt),
        0x21 => Some(TokenKind::Bang),
        0x2a => Some(TokenKind::Star),
        0x7b => Some(TokenKind::LBrace),
        0x7d => Some(TokenKind::RBrace),
        0x28 => Some(TokenKind::LParen),
        0x29 => Some(TokenKind::RParen),
        0x5b => Some(TokenKind::LBracket),
        0x5d => Some(TokenKind::RBracket),
        _ => None,
    }
}

impl<'a> Lexer<'a> {
    /// The bytes of the input.
    pub closed spec fn bytes(&self) -> Seq<u8> {
        self.input.spec_bytes()
    }

    /// The current byte position.
    pub closed spec fn position(&self) -> int {
        self.pos as int
    }

    /// The input text.
    pub closed spec fn source(&self) -> &'a str {
        self.input
    }

    /// A lexer is in a usable state: the input fits the address space (as
    /// every Rust string does) and the position lies within it.
    pub open spec fn wf(&self) -> bool {
        &&& self.bytes().len() <= isize::MAX
        &&& 0 <= self.position() <= self.bytes().len()
    }

    /// The state inside a token: the position may run one past the end.
    closed spec fn inner_wf(&self) -> bool {
        &&& self.input.spec_bytes().len() <= isize::MAX
        &&& self.pos <= self.input.spec_bytes().len() + 1
    }

    /// A lexer at the start of `input`.
    pub fn new(input: &'a str) -> (r: Self)
        ensures
            r.source() == input,
            r.bytes() == input.spec_bytes(),
            r.position() == 0,
    {
        Self { input, pos: 0 }
    }

    fn peek(&self) -> (r: Option<u8>)
        ensures
            r == at(self.bytes(), self.pos as int),
    {
        let b = self.input.as_bytes();
        if self.pos < b.len() {
            Some(b[self.pos])
        } else {
            None
        }
    }

    fn peek_at(&self, offset: usize) -> (r: Option<u8>)
        requires
            self.pos + offset <= usize::MAX,
        ensures
            r == at(self.bytes(), self.pos + offset),
    {
        let b = self.input.as_bytes();
        let i = self.pos + offset;
        if i < b.len() {
            Some(b[i])
        } else {
            None
        }
    }

    fn advance(&mut self, n: usize)
        requires
            old(self).pos + n <= usize::MAX,
        ensures
            final(self).pos == old(self).pos + n,
            final(self).input == old(self).input,
    {
        self.pos = self.pos + n;
    }

    fn skip_whitespace(&mut self)
        requires
            old(self).inner_wf(),
            old(self).pos <= old(self).bytes().len(),
        ensures
            final(self).input == old(self).input,
            final(self).pos == scan_while(old(self).bytes(), old(self).pos as int, ws_p()),
            final(self).pos <= final(self).bytes().len(),
    {
        let ghost b = self.bytes();
        let ghost p0 = self.pos as int;
        loop
            invariant
                self.input == old(self).input,
                b == self.bytes(),
                b == old(self).bytes(),
                p0 == old(self).pos,
                b.len() <= isize::MAX,
                self.pos <= b.len(),
                scan_while(b, self.pos as int, ws_p()) == scan_while(b, p0, ws_p()),
            decreases b.len() - self.pos,
        {
            match self.peek() {
                Some(c) => {
                    if is_ascii_ws(c) {
                        self.pos = self.pos + 1;
                    } else {
                        return;
                    }
                },
                None => {
                    return;
                },
            }
        }
    }

    /// Advance over bytes that may continue an identifier.
    fn skip_ident_rest(&mut self)
        requires
            old(self).inner_wf(),
            old(self).pos <= old(self).bytes().len(),
        ensures
            final(self).input == old(self).input,
            final(self).pos == scan_while(old(self).bytes(), old(self).pos as int, ident_rest_p()),
            final(self).pos <= final(self).bytes().len(),
    {
        let ghost b = self.bytes();
        let ghost p0 = self.pos as int;
        loop
            invariant
                self.input == old(self).input,
                b == self.bytes(),
                b == old(self).bytes(),
                p0 == old(self).pos,
                b.len() <= isize::MAX,
                self.pos <= b.len(),
                scan_while(b, self.pos as int, ident_rest_p()) == scan_while(b, p0, ident_rest_p()),
            decreases b.len() - self.pos,
        {
            match self.peek() {
                Some(c) => {
                    if is_ident_rest(c) {
                        self.pos = self.pos + 1;
                    } else {
                        return;
                    }
                },
                None => {
                    return;
                },
            }
        }
    }

    fn eat_comment(&mut self) -> (r: Option<TokenKind>)
        requires
            old(self).inner_wf(),
            old(self).pos < old(self).bytes().len(),
        ensures
            final(self).input == old(self).input,
            match spec_comment(old(self).bytes(), old(self).pos as int) {
                None => r is None && final(self).pos == old(self).pos,
                Some((k, e)) => r == Some(k) && final(self).pos == e,
            },
    {
        if self.peek() != Some(0x23u8) {
            return None;
        }
        let ghost b = self.bytes();
        let ghost p0 = self.pos as int;
        loop
            invariant
                self.input == old(self).input,
                b == self.bytes(),
                b == old(self).bytes(),
                p0 == old(self).pos,
                b.len() <= isize::MAX,
                self.pos <= b.len(),
                at_is(b, p0, 0x23),
                scan_while(b, self.pos as int, not_newline_p()) == scan_while(
                    b,
                    p0,
                    not_newline_p(),
                ),
            decreases b.len() - self.pos,
        {
            match self.peek() {
                Some(c) => {
                    if c == 0x0a {
                        return Some(TokenKind::Comment);
                    }
                    self.pos = self.pos + 1;
                },
                None => {
                    return Some(TokenKind::Comment);
                },
            }
        }
    }

    fn eat_number(&mut self) -> (r: Option<TokenKind>)
        requires
            old(self).inner_wf(),
            old(self).pos < old(self).bytes().len(),
        ensures
            final(self).input == old(self).input,
            match spec_number(old(self).bytes(), old(self).pos as int) {
                None => r is None && final(self).pos == old(self).pos,
                Some((k, e)) => r == Some(k) && final(self).pos == e,
            },
    {
        match self.peek() {
            Some(c) => {
                if !is_digit(c) {
                    return None;
                }
            },
            None => {
                return None;
            },
        }
        let ghost b = self.bytes();
        let ghost p0 = self.pos as int;
        loop
            invariant
                self.input == old(self).input,
                b == self.bytes(),
                b == old(self).bytes(),
                p0 == old(self).pos,
                b.len() <= isize::MAX,
                self.pos <= b.len(),
                at_sat(b, p0, digit_p()),
                scan_while(b, self.pos as int, digit_p()) == scan_while(b, p0, digit_p()),
            decreases b.len() - self.pos,
        {
            match self.peek() {
                Some(c) => {
                    if is_digit(c) {
                        self.pos = self.pos + 1;
                    } else {
                        return Some(TokenKind::Natural);
                    }
                },
                None => {
                    return Some(TokenKind::Natural);
                },
            }
        }
    }

    /// Whether the `h` bytes after the current one are all `#`.
    fn hashes_follow(&self, h: usize) -> (r: bool)
        requires
            self.inner_wf(),
            self.pos < self.bytes().len(),
            h <= self.bytes().len(),
        ensures
            r == hashes_at(self.bytes(), self.pos + 1, h as int),
    {
        let mut i: usize = 1;
        while i <= h
            invariant
                1 <= i <= h + 1,
                h <= self.bytes().len(),
                self.inner_wf(),
                self.pos < self.bytes().len(),
                forall|t: int| 0 <= t < i - 1 ==> #[trigger] at_is(self.bytes(), self.pos + 1 + t, 0x23),
            decreases h + 1 - i,
        {
            if self.peek_at(i) != Some(0x23u8) {
                assert(!at_is(self.bytes(), self.pos + 1 + (i - 1), 0x23));
                return false;
            }
            i = i + 1;
        }
        true
    }

    fn eat_raw_string(&mut self) -> (r: Option<TokenKind>)
        requires
            old(self).inner_wf(),
            old(self).pos < old(self).bytes().len(),
        ensures
            final(self).input == old(self).input,
            match spec_raw_string(old(self).bytes(), old(self).pos as int) {
                None => r is None && final(self).pos == old(self).pos,
                Some((k, e)) => r == Some(k) && final(self).pos == e,
            },
    {
        if self.peek() != Some(0x72u8) {
            return None;
        }
        let ghost b = self.bytes();
        let ghost s = self.pos as int;
        let mut off: usize = 1;
        let mut hash_count: usize = 0;
        while self.peek_at(off) == Some(0x23u8)
            invariant
                self.input == old(self).input,
                self.pos == old(self).pos,
                b == self.bytes(),
                b.len() <= isize::MAX,
                s == self.pos,
                s < b.len(),
                off == 1 + hash_count,
                s + off <= b.len() + 1,
                scan_while(b, s + off, hash_p()) == scan_while(b, s + 1, hash_p()),
            decreases b.len() + 1 - (s + off),
        {
            hash_count = hash_count + 1;
            off = off + 1;
        }
        assert(raw_hashes(b, s) == hash_count);
        if self.peek_at(off) != Some(0x22u8) {
            return None;
        }
        off = off + 1;
        self.advance(off);
        loop
            invariant
                self.input == old(self).input,
                b == self.bytes(),
                b.len() <= isize::MAX,
                s == old(self).pos,
                hash_count == raw_hashes(b, s),
                hash_count <= b.len(),
                at_is(b, s, 0x72),
                at_is(b, s + 1 + hash_count, 0x22),
                self.pos <= b.len(),
                raw_close(b, self.pos as int, hash_count as int) == raw_close(
                    b,
                    s + 2 + hash_count,
                    hash_count as int,
                ),
            decreases b.len() - self.pos,
        {
            if self.pos >= self.input.len() {
                return Some(TokenKind::RawString);
            }
            if self.peek() == Some(0x22u8) {
                if self.hashes_follow(hash_count) {
                    self.advance(1 + hash_count);
                    return Some(TokenKind::RawString);
                }
            }
            self.advance(1);
        }
    }

    fn eat_string(&mut self, quote: u8) -> (r: Option<TokenKind>)
        requires
            old(self).inner_wf(),
            old(self).pos < old(self).bytes().len(),
        ensures
            final(self).input == old(self).input,
            final(self).pos <= final(self).bytes().len() + 1,
            match spec_string(old(self).bytes(), old(self).pos as int, quote) {
                None => r is None && final(self).pos == old(self).pos,
                Some((k, e)) => r == Some(k) && final(self).pos == e,
            },
    {
        if self.peek() != Some(quote) {
            return None;
        }
        let ghost b = self.bytes();
        let ghost s = self.pos as int;
        self.advance(1);
        loop
            invariant
                self.input == old(self).input,
                b == self.bytes(),
                b.len() <= isize::MAX,
                s == old(self).pos,
                at_is(b, s, quote),
                self.pos <= b.len() + 1,
                string_close(b, self.pos as int, quote) == string_close(b, s + 1, quote),
            decreases b.len() + 1 - self.pos,
        {
            match self.peek() {
                Some(c) => {
                    if c == 0x5c {
                        self.advance(2);
                    } else if c == quote {
                        self.advance(1);
                        return Some(TokenKind::String);
                    } else {
                        self.advance(1);
                    }
                },
                None => {
                    return Some(TokenKind::String);
                },
            }
        }
    }

    fn eat_variable_or_slice(&mut self) -> (r: Option<TokenKind>)
        requires
            old(self).inner_wf(),
            old(self).pos < old(self).bytes().len(),
        ensures
            final(self).input == old(self).input,
            match spec_variable_or_slice(old(self).bytes(), old(self).pos as int) {
                None => r is None && final(self).pos == old(self).pos,
                Some((k, e)) => r == Some(k) && final(self).pos == e,
            },
    {
        if self.peek() != Some(0x24u8) {
            return None;
        }
        let ghost b = self.bytes();
        let ghost s = self.pos as int;
        self.advance(1);
        let starts_ident = match self.peek() {
            Some(c) => is_ident_init(c),
            None => false,
        };
        if !starts_ident {
            return Some(TokenKind::Dollar);
        }
        self.skip_ident_rest();
        if self.peek() == Some(0x5bu8) {
            let ghost j = self.pos as int;
            self.advance(1);
            let mut depth: usize = 1;
            loop
                invariant
                    self.input == old(self).input,
                    b == self.bytes(),
                    b.len() <= isize::MAX,
                    s == old(self).pos,
                    at_is(b, s, 0x24),
                    at_sat(b, s + 1, ident_init_p()),
                    j == scan_while(b, s + 1, ident_rest_p()),
                    at_is(b, j, 0x5b),
                    1 <= self.pos <= b.len(),
                    depth <= self.pos,
                    bracket_close(b, self.pos as int, depth as nat) == bracket_close(b, j + 1, 1),
                decreases b.len() - self.pos,
            {
                if depth == 0 {
                    return Some(TokenKind::Slice);
                }
                match self.peek() {
                    Some(c) => {
                        if c == 0x5b {
                            depth = depth + 1;
                        } else if c == 0x5d {
                            depth = depth - 1;
                        }
                        self.advance(1);
                    },
                    None => {
                        return Some(TokenKind::Slice);
                    },
                }
            }
        }
        Some(TokenKind::Variable)
    }

    /// `lead` followed by an identifier.
    fn eat_prefixed_ident(&mut self, lead: u8, kind: TokenKind) -> (r: Option<TokenKind>)
        requires
            old(self).inner_wf(),
            old(self).pos < old(self).bytes().len(),
        ensures
            final(self).input == old(self).input,
            match spec_prefixed_ident(old(self).bytes(), old(self).pos as int, lead, kind) {
                None => r is None && final(self).pos == old(self).pos,
                Some((k, e)) => r == Some(k) && final(self).pos == e,
            },
    {
        if self.peek() != Some(lead) {
            return None;
        }
        let follows_ident = match self.peek_at(1) {
            Some(c) => is_ident_init(c),
            None => false,
        };
        if !follows_ident {
            return None;
        }
        self.advance(1);
        self.skip_ident_rest();
        Some(kind)
    }

    fn eat_system_cmd(&mut self) -> (r: Option<TokenKind>)
        requires
            old(self).inner_wf(),
            old(self).pos < old(self).bytes().len(),
        ensures
            final(self).input == old(self).input,
            match spec_prefixed_ident(
                old(self).bytes(),
                old(self).pos as int,
                0x21,
                TokenKind::SystemCmd,
            ) {
                None => r is None && final(self).pos == old(self).pos,
                Some((k, e)) => r == Some(k) && final(self).pos == e,
            },
    {
        self.eat_prefixed_ident(0x21, TokenKind::SystemCmd)
    }

    fn eat_deref(&mut self) -> (r: Option<TokenKind>)
        requires
            old(self).inner_wf(),
            old(self).pos < old(self).bytes().len(),
        ensures
            final(self).input == old(self).input,
            match spec_prefixed_ident(
                old(self).bytes(),
                old(self).pos as int,
                0x2a,
                TokenKind::Deref,
            ) {
                None => r is None && final(self).pos == old(self).pos,
                Some((k, e)) => r == Some(k) && final(self).pos == e,
            },
    {
        self.eat_prefixed_ident(0x2a, TokenKind::Deref)
    }

    fn eat_long_opt(&mut self) -> (r: Option<TokenKind>)
        requires
            old(self).inner_wf(),
            old(self).pos < old(self).bytes().len(),
        ensures
            final(self).input == old(self).input,
            match spec_long_opt(old(self).bytes(), old(self).pos as int) {
                None => r is None && final(self).pos == old(self).pos,
                Some((k, e)) => r == Some(k) && final(self).pos == e,
            },
    {
        let third_ok = match self.peek_at(2) {
            Some(c) => is_ident_rest(c),
            None => false,
        };
        if self.peek() == Some(0x2du8) && self.peek_at(1) == Some(0x2du8) && third_ok {
            self.advance(2);
            self.skip_ident_rest();
            return Some(TokenKind::LongOpt);
        }
        None
    }

    fn eat_short_opt(&mut self) -> (r: Option<TokenKind>)
        requires
            old(self).inner_wf(),
            old(self).pos < old(self).bytes().len(),
        ensures
            final(self).input == old(self).input,
            match spec_short_opt(old(self).bytes(), old(self).pos as int) {
                None => r is None && final(self).pos == old(self).pos,
                Some((k, e)) => r == Some(k) && final(self).pos == e,
            },
    {
        let second_ok = match self.peek_at(1) {
            Some(c) => is_alpha(c) || is_digit(c),
            None => false,
        };
        if self.peek() == Some(0x2du8) && second_ok {
            self.advance(1);
            self.skip_ident_rest();
            return Some(TokenKind::ShortOpt);
        }
        None
    }

    fn eat_path(&mut self) -> (r: Option<TokenKind>)
        requires
            old(self).inner_wf(),
            old(self).pos < old(self).bytes().len(),
        ensures
            final(self).input == old(self).input,
            match spec_path(old(self).bytes(), old(self).pos as int) {
                None => r is None && final(self).pos == old(self).pos,
                Some((k, e)) => r == Some(k) && final(self).pos == e,
            },
    {
        let b = match self.peek() {
            Some(b) => b,
            None => {
                return None;
            },
        };
        let next_rest = match self.peek_at(1) {
            Some(c) => is_ident_rest(c),
            None => false,
        };
        if b == 0x2f && next_rest {
            self.advance(1);
            self.skip_ident_rest();
            return Some(TokenKind::AbsPath);
        }
        if b == 0x2e {
            let next = self.peek_at(1);
            if next == Some(0x2fu8) || (next == Some(0x2eu8) && self.peek_at(2) == Some(0x2fu8)) {
                let ghost bs = self.bytes();
                let ghost p0 = self.pos as int;
                loop
                    invariant
                        self.input == old(self).input,
                        bs == self.bytes(),
                        bs == old(self).bytes(),
                        p0 == old(self).pos,
                        bs.len() <= isize::MAX,
                        self.pos <= bs.len(),
                        at_is(bs, p0, 0x2e),
                        at_is(bs, p0 + 1, 0x2f) || (at_is(bs, p0 + 1, 0x2e) && at_is(
                            bs,
                            p0 + 2,
                            0x2f,
                        )),
                        scan_while(bs, self.pos as int, rel_path_p()) == scan_while(
                            bs,
                            p0,
                            rel_path_p(),
                        ),
                    decreases bs.len() - self.pos,
                {
                    match self.peek() {
                        Some(c) => {
                            if is_ident_rest(c) || c == 0x2e {
                                self.advance(1);
                            } else {
                                return Some(TokenKind::RelPath);
                            }
                        },
                        None => {
                            return Some(TokenKind::RelPath);
                        },
                    }
                }
            }
        }
        if b == 0x7e && self.peek_at(1) == Some(0x2fu8) {
            self.advance(1);
            self.skip_ident_rest();
            return Some(TokenKind::HomePath);
        }
        None
    }

    fn eat_ident_or_keyword(&mut self) -> (r: Option<TokenKind>)
        requires
            old(self).inner_wf(),
            old(self).pos < old(self).bytes().len(),
        ensures
            final(self).input == old(self).input,
            match spec_ident_or_keyword(old(self).bytes(), old(self).pos as int) {
                None => r is None && final(self).pos == old(self).pos,
                Some((k, e)) => r == Some(k) && final(self).pos == e,
            },
    {
        let starts = match self.peek() {
            Some(c) => is_ident_init(c),
            None => false,
        };
        if !starts {
            return None;
        }
        let start = self.pos;
        self.skip_ident_rest();
        proof {
            lemma_scan_while_ge(self.bytes(), start as int, ident_rest_p());
        }
        Some(word_kind(self.input.as_bytes(), start, self.pos))
    }

    fn eat_punct(&mut self) -> (r: Option<TokenKind>)
        requires
            old(self).inner_wf(),
            old(self).pos < old(self).bytes().len(),
        ensures
            final(self).input == old(self).input,
            match spec_punct(old(self).bytes(), old(self).pos as int) {
                None => r is None && final(self).pos == old(self).pos,
                Some((k, e)) => r == Some(k) && final(self).pos == e,
            },
    {
        let c = match self.peek() {
            Some(c) => c,
            None => {
                return None;
            },
        };
        let kind = match punct_kind(c) {
            Some(k) => k,
            None => {
                return None;
            },
        };
        self.advance(1);
        Some(kind)
    }

    /// The token of kind `kind` from `start` to the current position.
    fn make_token(&self, kind: TokenKind, start: usize) -> (t: Token<'a>)
        requires
            start <= self.pos <= self.bytes().len(),
            vstd::utf8::is_char_boundary(self.bytes(), start as int),
            vstd::utf8::is_char_boundary(self.bytes(), self.pos as int),
        ensures
            t.kind == kind,
            t.start == start,
            t.end == self.pos,
            t.text.spec_bytes() == self.bytes().subrange(start as int, self.pos as int),
    {
        Token { kind, text: str_slice(self.input, start, self.pos), start, end: self.pos }
    }

    /// The kind and start of the next token, moving past it: skip ASCII
    /// whitespace, then take the first token class that applies at the
    /// position (an unknown one-byte token when none does); none at the end
    /// of the input.
    fn next_kind(&mut self) -> (r: Option<(TokenKind, usize)>)
        requires
            old(self).wf(),
        ensures
            final(self).source() == old(self).source(),
            match spec_next_span(old(self).bytes(), old(self).position()) {
                None => r is None && final(self).position() == old(self).bytes().len(),
                Some((k, s, e)) => r == Some((k, s as usize)) && final(self).position() == e,
            },
    {
        self.skip_whitespace();
        if self.pos >= self.input.len() {
            return None;
        }
        let start = self.pos;
        let ghost b = self.bytes();
        let ghost tok = spec_token_at(b, start as int);
        proof {
            lemma_token_progress(b, start as int);
            assert(spec_next_span(b, old(self).pos as int) == Some((tok.0, start as int, tok.1)));
        }
        if let Some(k) = self.eat_comment() {
            return Some((k, start));
        }
        if let Some(k) = self.eat_raw_string() {
            return Some((k, start));
        }
        if let Some(k) = self.eat_string(0x22) {
            return Some((k, start));
        }
        if let Some(k) = self.eat_string(0x27) {
            return Some((k, start));
        }
        if let Some(k) = self.eat_variable_or_slice() {
            return Some((k, start));
        }
        if let Some(k) = self.eat_system_cmd() {
            return Some((k, start));
        }
        if let Some(k) = self.eat_deref() {
            return Some((k, start));
        }
        if let Some(k) = self.eat_number() {
            return Some((k, start));
        }
        if let Some(k) = self.eat_long_opt() {
            return Some((k, start));
        }
        if let Some(k) = self.eat_short_opt() {
            return Some((k, start));
        }
        if let Some(k) = self.eat_path() {
            return Some((k, start));
        }
        if let Some(k) = self.eat_ident_or_keyword() {
            return Some((k, start));
        }
        if let Some(k) = self.eat_punct() {
            return Some((k, start));
        }
        self.advance(1);
        Some((TokenKind::Unknown, start))
    }

    /// The next token: skip ASCII whitespace, then take the first token class
    /// that applies at the position (an unknown one-byte token when none
    /// does); none at the end of the input.
    pub fn next(&mut self) -> (r: Option<Token<'a>>)
        requires
            old(self).wf(),
            next_is_sliceable(old(self).bytes(), old(self).position()),
        ensures
            final(self).source() == old(self).source(),
            final(self).wf(),
            match spec_next_span(old(self).bytes(), old(self).position()) {
                None => r is None && final(self).position() == old(self).bytes().len(),
                Some((k, s, e)) => r matches Some(t) && t.kind == k && t.start == s && t.end
                    == e && t.text.spec_bytes() == old(self).bytes().subrange(s, e)
                    && final(self).position() == e,
            },
    {
        proof {
            lemma_next_span_progress(self.bytes(), self.position());
        }
        match self.next_kind() {
            None => None,
            Some((k, start)) => Some(self.make_token(k, start)),
        }
    }

    /// All tokens from the current position to the end of the input, in
    /// order (what iterating the lexer to the end yields).
    pub fn tokens(self) -> (r: Vec<Token<'a>>)
        requires
            self.wf(),
            all_sliceable(self.bytes(), self.position()),
        ensures
            r.len() == spec_spans(self.bytes(), self.position()).len(),
            forall|i: int|
                0 <= i < r.len() ==> {
                    let (k, s, e) = #[trigger] spec_spans(self.bytes(), self.position())[i];
                    &&& r[i].kind == k
                    &&& r[i].start == s
                    &&& r[i].end == e
                    &&& r[i].text.spec_bytes() == self.bytes().subrange(s, e)
                },
    {
        let mut lexer = self;
        let ghost b = lexer.bytes();
        let ghost all = spec_spans(b, lexer.position());
        let ghost mut done: Seq<(TokenKind, int, int)> = Seq::empty();
        let mut r: Vec<Token<'a>> = Vec::new();
        loop
            invariant
                lexer.wf(),
                lexer.bytes() == b,
                b == self.bytes(),
                all == spec_spans(self.bytes(), self.position()),
                all_sliceable(b, lexer.position()),
                done + spec_spans(b, lexer.position()) == all,
                r.len() == done.len(),
                forall|i: int|
                    0 <= i < r.len() ==> {
                        let (k, s, e) = #[trigger] done[i];
                        &&& r[i].kind == k
                        &&& r[i].start == s
                        &&& r[i].end == e
                        &&& r[i].text.spec_bytes() == b.subrange(s, e)
                    },
            decreases b.len() - lexer.position(),
        {
            let ghost p = lexer.position();
            proof {
                lemma_next_span_progress(b, p);
            }
            match lexer.next() {
                Some(t) => {
                    proof {
                        let (k, s, e) = spec_next_span(b, p)->0;
                        assert(spec_spans(b, p) == seq![(k, s, e)] + spec_spans(b, e));
                        done = done.push((k, s, e));
                        assert(done + spec_spans(b, e) =~= all);
                    }
                    r.push(t);
                },
                None => {
                    proof {
                        assert(done =~= all);
                    }
                    return r;
                },
            }
        }
    }
}

/// Whether every token from `pos` on, up to and including the first that
/// covers the byte `o`, can be cut out of the input.
pub open spec fn sliceable_through(b: Seq<u8>, pos: int, o: int) -> bool
    decreases b.len() - pos,
{
    next_is_sliceable(b, pos) && match spec_next_span(b, pos) {
        None => true,
        Some((k, s, e)) => s <= o < e || (pos < e <= b.len() ==> sliceable_through(b, e, o)),
    }
}

/// The first token from `pos` on whose span covers the byte `o`.
pub open spec fn spec_token_covering(b: Seq<u8>, pos: int, o: int) -> Option<
    (TokenKind, int, int),
>
    decreases b.len() - pos,
{
    match spec_next_span(b, pos) {
        None => None,
        Some((k, s, e)) => if s <= o < e {
            Some((k, s, e))
        } else if pos < e <= b.len() {
            spec_token_covering(b, e, o)
        } else {
            None
        },
    }
}

/// The tokens from `pos` on lie within the input, each at least one byte
/// long, in order and without overlap.
pub proof fn lemma_spans_in_bounds(b: Seq<u8>, pos: int)
    requires
        0 <= pos,
        all_sliceable(b, pos),
    ensures
        forall|i: int|
            0 <= i < spec_spans(b, pos).len() ==> pos <= (#[trigger] spec_spans(b, pos)[i]).1
                < spec_spans(b, pos)[i].2 <= b.len(),
        forall|i: int, j: int|
            0 <= i < j < spec_spans(b, pos).len() ==> (#[trigger] spec_spans(b, pos)[i]).2
                <= (#[trigger] spec_spans(b, pos)[j]).1,
    decreases b.len() - pos,
{
    lemma_next_span_progress(b, pos);
    match spec_next_span(b, pos) {
        None => {},
        Some((k, s, e)) => {
            let rest = spec_spans(b, e);
            lemma_spans_in_bounds(b, e);
            let all = spec_spans(b, pos);
            assert(all == seq![(k, s, e)] + rest);
            assert forall|i: int| 0 <= i < all.len() implies pos <= (#[trigger] all[i]).1
                < all[i].2 <= b.len() by {
                if i > 0 {
                    assert(all[i] == rest[i - 1]);
                }
            }
            assert forall|i: int, j: int| 0 <= i < j < all.len() implies (
            #[trigger] all[i]).2 <= (#[trigger] all[j]).1 by {
                assert(all[j] == rest[j - 1]);
                if i > 0 {
                    assert(all[i] == rest[i - 1]);
                }
            }
        },
    }
}

/// A token whose bytes are exactly a keyword of Dust (`def`, `let`, `val`,
/// `src`, `include_str`, `include`, `new`, `if`, `for_each`, `in`) has that
/// keyword's own kind, and never the kind of an identifier.
pub proof fn law_keyword_tokens(b: Seq<u8>, s: int)
    requires
        0 <= s < b.len(),
    ensures
        ({
            let (k, e) = spec_token_at(b, s);
            let w = b.subrange(s, e);
            e <= b.len() ==> {
                &&& w == seq![0x64u8, 0x65, 0x66] ==> k == TokenKind::Def
                &&& w == seq![0x6cu8, 0x65, 0x74] ==> k == TokenKind::Let
                &&& w == seq![0x76u8, 0x61, 0x6c] ==> k == TokenKind::Val
                &&& w == seq![0x73u8, 0x72, 0x63] ==> k == TokenKind::Src
                &&& w == seq![0x69u8, 0x6e, 0x63, 0x6c, 0x75, 0x64, 0x65, 0x5f, 0x73, 0x74, 0x72]
                    ==> k == TokenKind::IncludeStr
                &&& w == seq![0x69u8, 0x6e, 0x63, 0x6c, 0x75, 0x64, 0x65] ==> k
                    == TokenKind::Include
                &&& w == seq![0x6eu8, 0x65, 0x77] ==> k == TokenKind::New
                &&& w == seq![0x69u8, 0x66] ==> k == TokenKind::If
                &&& w == seq![0x66u8, 0x6f, 0x72, 0x5f, 0x65, 0x61, 0x63, 0x68] ==> k
                    == TokenKind::ForEach
                &&& w == seq![0x69u8, 0x6e] ==> k == TokenKind::In
            }
        }),
{
    lemma_token_progress(b, s);
    let (k, e) = spec_token_at(b, s);
    let w = b.subrange(s, e);
    let j = scan_while(b, s, ident_rest_p());
    if e <= b.len() && e > s && (b[s] == 0x64 || b[s] == 0x6c || b[s] == 0x76 || b[s] == 0x73
        || b[s] == 0x69 || b[s] == 0x6e || b[s] == 0x66) {
        assert(spec_ident_or_keyword(b, s) is Some);
        assert(k == spec_word_kind(b.subrange(s, j)) && e == j);
        assert(k == spec_word_kind(w));
    }
    if e <= b.len() && w.len() > 0 {
        assert(w[0] == b[s]);
    }
}

/// Whether every byte of `b` is ASCII and the last byte, if any, is no backslash.
pub open spec fn ascii_without_trailing_backslash(b: Seq<u8>) -> bool {
    &&& forall|i: int| 0 <= i < b.len() ==> #[trigger] b[i] < 0x80
    &&& (b.len() == 0 || b[b.len() - 1] != 0x5c)
}

/// A scan that starts within the input stops within it, and every byte it
/// passes satisfies the predicate.
proof fn lemma_scan_while_within(b: Seq<u8>, i: int, p: spec_fn(u8) -> bool)
    requires
        0 <= i <= b.len(),
    ensures
        i <= scan_while(b, i, p) <= b.len(),
        forall|o: int| i <= o < scan_while(b, i, p) ==> #[trigger] p(b[o]),
    decreases b.len() - i,
{
    if i < b.len() && p(b[i]) {
        lemma_scan_while_within(b, i + 1, p);
    }
}

/// The body of a raw string ends within the input.
proof fn lemma_raw_close_within(b: Seq<u8>, k: int, h: int)
    requires
        0 <= h,
    ensures
        raw_close(b, k, h) <= b.len(),
    decreases b.len() - k,
{
    if k < 0 || k >= b.len() {
    } else if b[k] == 0x22 && hashes_at(b, k + 1, h) {
        if h > 0 {
            assert(at_is(b, k + 1 + (h - 1), 0x23));
        }
    } else {
        lemma_raw_close_within(b, k + 1, h);
    }
}

/// Without a backslash as the last byte, a quoted string ends within the input.
proof fn lemma_string_close_within(b: Seq<u8>, i: int, quote: u8)
    requires
        0 <= i <= b.len(),
        b.len() == 0 || b[b.len() - 1] != 0x5c,
    ensures
        string_close(b, i, quote) <= b.len(),
    decreases b.len() + 1 - i,
{
    if i >= b.len() {
    } else if b[i] == 0x5c {
        lemma_string_close_within(b, i + 2, quote);
    } else if b[i] == quote {
    } else {
        lemma_string_close_within(b, i + 1, quote);
    }
}

/// A slice index ends within the input.
proof fn lemma_bracket_close_within(b: Seq<u8>, k: int, depth: nat)
    requires
        0 <= k <= b.len(),
    ensures
        bracket_close(b, k, depth) <= b.len(),
    decreases b.len() - k,
{
    if depth == 0 || k >= b.len() {
    } else if b[k] == 0x5b {
        lemma_bracket_close_within(b, k + 1, depth + 1);
    } else if b[k] == 0x5d {
        lemma_bracket_close_within(b, k + 1, (depth - 1) as nat);
    } else {
        lemma_bracket_close_within(b, k + 1, depth);
    }
}

/// Without a backslash as the last byte, every token ends within the input.
proof fn lemma_token_within(b: Seq<u8>, s: int)
    requires
        0 <= s < b.len(),
        b[b.len() - 1] != 0x5c,
    ensures
        spec_token_at(b, s).1 <= b.len(),
{
    lemma_scan_while_within(b, s, not_newline_p());
    lemma_scan_while_within(b, s + 1, hash_p());
    let h = raw_hashes(b, s);
    lemma_raw_close_within(b, s + 2 + h, h);
    lemma_string_close_within(b, s + 1, 0x22);
    lemma_string_close_within(b, s + 1, 0x27);
    lemma_scan_while_within(b, s + 1, ident_rest_p());
    let j = scan_while(b, s + 1, ident_rest_p());
    if j < b.len() {
        lemma_bracket_close_within(b, j + 1, 1);
    }
    lemma_scan_while_within(b, s, digit_p());
    if s + 2 <= b.len() {
        lemma_scan_while_within(b, s + 2, ident_rest_p());
    }
    lemma_scan_while_within(b, s, rel_path_p());
    lemma_scan_while_within(b, s, ident_rest_p());
}

/// In ASCII input every position from the start to the end is a character boundary.
proof fn lemma_ascii_boundaries(b: Seq<u8>, i: int)
    requires
        vstd::utf8::valid_utf8(b),
        forall|j: int| 0 <= j < b.len() ==> #[trigger] b[j] < 0x80,
        0 <= i <= b.len(),
    ensures
        vstd::utf8::is_char_boundary(b, i),
{
    if i == b.len() {
        vstd::utf8::is_char_boundary_start_end_of_seq(b);
    } else {
        vstd::utf8::is_char_boundary_iff_not_is_continuation_byte(b, i);
    }
}

/// ASCII text that does not end in a backslash lexes, from any position within
/// it, into tokens that all lie on character boundaries within the text.
pub proof fn law_ascii_lexes_on_boundaries(b: Seq<u8>, pos: int)
    requires
        vstd::utf8::valid_utf8(b),
        ascii_without_trailing_backslash(b),
        0 <= pos <= b.len(),
    ensures
        all_sliceable(b, pos),
    decreases b.len() - pos,
{
    lemma_next_span_progress(b, pos);
    match spec_next_span(b, pos) {
        None => {},
        Some((k, s, e)) => {
            lemma_token_within(b, s);
            lemma_ascii_boundaries(b, s);
            lemma_ascii_boundaries(b, e);
            law_ascii_lexes_on_boundaries(b, e);
        },
    }
}

/// Every byte from `pos` on that no token covers is ASCII whitespace.
pub proof fn law_uncovered_bytes_are_whitespace(b: Seq<u8>, pos: int, o: int)
    requires
        vstd::utf8::valid_utf8(b),
        ascii_without_trailing_backslash(b),
        0 <= pos <= o < b.len(),
        forall|i: int|
            0 <= i < spec_spans(b, pos).len() ==> !((#[trigger] spec_spans(b, pos)[i]).1 <= o
                < spec_spans(b, pos)[i].2),
    ensures
        spec_is_ws(b[o]),
    decreases b.len() - pos,
{
    lemma_next_span_progress(b, pos);
    lemma_scan_while_within(b, pos, ws_p());
    match spec_next_span(b, pos) {
        None => {
            assert(ws_p()(b[o]));
        },
        Some((k, s, e)) => {
            lemma_token_within(b, s);
            let all = spec_spans(b, pos);
            assert(all == seq![(k, s, e)] + spec_spans(b, e));
            assert(all[0] == (k, s, e));
            if o < s {
                assert(ws_p()(b[o]));
            } else {
                assert forall|i: int|
                    0 <= i < spec_spans(b, e).len() implies !((#[trigger] spec_spans(
                    b,
                    e,
                )[i]).1 <= o < spec_spans(b, e)[i].2) by {
                    assert(all[i + 1] == spec_spans(b, e)[i]);
                }
                law_uncovered_bytes_are_whitespace(b, e, o);
            }
        },
    }
}

/// A character boundary of a string's bytes lies within them.
proof fn lemma_boundary_within(b: Seq<u8>, i: int)
    requires
        vstd::utf8::valid_utf8(b),
        vstd::utf8::is_char_boundary(b, i),
    ensures
        0 <= i <= b.len(),
{
    if i != 0 {
        if i < 0 || b.len() < i {
            assert(!vstd::utf8::is_char_boundary(b, i));
        }
    }
}

/// Whether every token of `text` can be cut out of it, that is whether
/// [`Lexer::tokens`] can be called on a lexer at its start.
pub fn lexes_on_char_boundaries(text: &str) -> (r: bool)
    requires
        text.spec_bytes().len() <= isize::MAX,
    ensures
        r == all_sliceable(text.spec_bytes(), 0),
{
    let mut lx = Lexer::new(text);
    let ghost b = text.spec_bytes();
    proof {
        vstd::utf8::encode_utf8_valid_utf8(text@);
    }
    loop
        invariant
            lx.wf(),
            lx.bytes() == b,
            lx.source() == text,
            b == text.spec_bytes(),
            vstd::utf8::valid_utf8(b),
            all_sliceable(b, 0) == all_sliceable(b, lx.position()),
        decreases b.len() - lx.position(),
    {
        let ghost p = lx.position();
        proof {
            lemma_next_span_progress(b, p);
        }
        match lx.next_kind() {
            None => {
                return true;
            },
            Some((_, s)) => {
                let e = lx.pos;
                if !(text.is_char_boundary(s) && text.is_char_boundary(e)) {
                    return false;
                }
                proof {
                    lemma_boundary_within(b, e as int);
                }
            },
        }
    }
}

/// Whether every token of `text` up to the first that covers the byte `o`
/// can be cut out of it.
pub fn lexes_on_char_boundaries_through(text: &str, o: usize) -> (r: bool)
    requires
        text.spec_bytes().len() <= isize::MAX,
    ensures
        r == sliceable_through(text.spec_bytes(), 0, o as int),
{
    let mut lx = Lexer::new(text);
    let ghost b = text.spec_bytes();
    proof {
        vstd::utf8::encode_utf8_valid_utf8(text@);
    }
    loop
        invariant
            lx.wf(),
            lx.bytes() == b,
            lx.source() == text,
            b == text.spec_bytes(),
            vstd::utf8::valid_utf8(b),
            sliceable_through(b, 0, o as int) == sliceable_through(b, lx.position(), o as int),
        decreases b.len() - lx.position(),
    {
        let ghost p = lx.position();
        proof {
            lemma_next_span_progress(b, p);
        }
        match lx.next_kind() {
            None => {
                return true;
            },
            Some((_, s)) => {
                let e = lx.pos;
                if !(text.is_char_boundary(s) && text.is_char_boundary(e)) {
                    return false;
                }
                proof {
                    lemma_boundary_within(b, e as int);
                }
                if s <= o && o < e {
                    return true;
                }
            },
        }
    }
}

/// The first token of the lexer's input, from its position on, that covers
/// the byte `o`.
pub fn token_covering<'a>(lexer: Lexer<'a>, o: usize) -> (r: Option<Token<'a>>)
    requires
        lexer.wf(),
        sliceable_through(lexer.bytes(), lexer.position(), o as int),
    ensures
        match spec_token_covering(lexer.bytes(), lexer.position(), o as int) {
            None => r is None,
            Some((k, s, e)) => r matches Some(t) && t.kind == k && t.start == s && t.end == e
                && t.text.spec_bytes() == lexer.bytes().subrange(s, e),
        },
{
    let ghost b = lexer.bytes();
    let ghost p0 = lexer.position();
    let mut lx = lexer;
    loop
        invariant
            lx.wf(),
            lx.bytes() == b,
            b == lexer.bytes(),
            p0 == lexer.position(),
            sliceable_through(b, lx.position(), o as int),
            spec_token_covering(b, p0, o as int) == spec_token_covering(
                b,
                lx.position(),
                o as int,
            ),
        decreases b.len() - lx.position(),
    {
        let ghost p = lx.position();
        proof {
            lemma_next_span_progress(b, p);
        }
        let ghost sp = spec_next_span(b, p);
        assert(spec_token_covering(b, p, o as int) == match sp {
            None => None,
            Some((k, s, e)) => if s <= o < e {
                Some((k, s, e))
            } else if p < e <= b.len() {
                spec_token_covering(b, e, o as int)
            } else {
                None
            },
        });
        match lx.next() {
            None => {
                return None;
            },
            Some(t) => {
                if t.start <= o && o < t.end {
                    return Some(t);
                }
            },
        }
    }
}

} // verus!
