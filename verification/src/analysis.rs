//! Editor support for Dust sources: positions, bindings, diagnostics, hover
//! text and definitions, computed from the tokens of `crate::lexer`.
//!
//! A position is a zero-based line and a zero-based column counted in
//! characters within the line. Texts are taken as their UTF-8 bytes: a
//! character starts at every byte that is not a continuation byte, and a
//! line ends at every line feed.
use vstd::prelude::*;
use vstd::string::StringSliceAdditionalSpecFns;
use vstd::string::StringExecFns;
use crate::lexer::{
    Token,
    TokenKind,
    Lexer,
    all_sliceable,
    sliceable_through,
    spec_spans,
    spec_token_covering,
    lemma_spans_in_bounds,
    token_covering,
};

verus! {

// ---------------------------------------------------------------------------
// Positions
// ---------------------------------------------------------------------------

/// A position in a text: a line and a column, both counted from zero.
#[derive(Debug, Clone, Copy, PartialEq, Eq, Structural)]
pub struct Position {
    pub line: u32,
    pub character: u32,
}

/// A span of a text, from one position to another.
#[derive(Debug, Clone, Copy, PartialEq, Eq, Structural)]
pub struct Range {
    pub start: Position,
    pub end: Position,
}

impl Position {
    /// The position at `line` and column `character`.
    pub fn new(line: u32, character: u32) -> (r: Self)
        ensures
            r.line == line,
            r.character == character,
    {
        Position { line, character }
    }
}

impl Range {
    /// The span from `start` to `end`.
    pub fn new(start: Position, end: Position) -> (r: Self)
        ensures
            r.start == start,
            r.end == end,
    {
        Range { start, end }
    }
}

/// Whether the byte `c` starts a character: it is not a UTF-8 continuation
/// byte.
pub open spec fn is_char_start(c: u8) -> bool {
    !(0x80 <= c <= 0xbf)
}

/// The number of line feeds among the first `o` bytes of `b`.
pub open spec fn newlines_before(b: Seq<u8>, o: int) -> nat
    decreases o,
{
    if o <= 0 {
        0
    } else if b[o - 1] == 0x0a {
        newlines_before(b, o - 1) + 1
    } else {
        newlines_before(b, o - 1)
    }
}

/// Where the line that holds the byte `o` begins: just after the last line
/// feed before `o`, or at the start of the text.
pub open spec fn line_start(b: Seq<u8>, o: int) -> int
    decreases o,
{
    if o <= 0 {
        0
    } else if b[o - 1] == 0x0a {
        o
    } else {
        line_start(b, o - 1)
    }
}

/// The number of characters that start in the bytes `s..o` of `b`.
pub open spec fn chars_between(b: Seq<u8>, s: int, o: int) -> nat
    decreases o - s,
{
    if o <= s {
        0
    } else if is_char_start(b[o - 1]) {
        chars_between(b, s, o - 1) + 1
    } else {
        chars_between(b, s, o - 1)
    }
}

/// The offset `o` brought within the text.
pub open spec fn clamp(b: Seq<u8>, o: int) -> int {
    if o < b.len() {
        o
    } else {
        b.len() as int
    }
}

/// The line of the byte offset `o`.
pub open spec fn line_of(b: Seq<u8>, o: int) -> int {
    newlines_before(b, clamp(b, o)) as int
}

/// The column of the byte offset `o`: the characters that start on its line
/// before it.
pub open spec fn column_of(b: Seq<u8>, o: int) -> int {
    let c = clamp(b, o);
    chars_between(b, line_start(b, c), c) as int
}

/// The position of the byte offset `o` (an offset past the end counts as
/// the end).
pub open spec fn spec_position(b: Seq<u8>, o: int) -> Position {
    Position { line: line_of(b, o) as u32, character: column_of(b, o) as u32 }
}

/// The span of the bytes `s..e`.
pub open spec fn spec_range(b: Seq<u8>, s: int, e: int) -> Range {
    Range { start: spec_position(b, s), end: spec_position(b, e) }
}

/// Whether the search for the position `pos` ends at the byte `i`: a
/// character starts there and either it is at `pos`, or it is the line feed
/// that ends the line of `pos`.
pub open spec fn stops_at(b: Seq<u8>, i: int, pos: Position) -> bool {
    &&& is_char_start(b[i])
    &&& (line_of(b, i) == pos.line && column_of(b, i) == pos.character) || (b[i] == 0x0a
        && line_of(b, i) == pos.line)
}

/// The first byte from `i` on where the search for `pos` ends; the length
/// of the text when there is none.
pub open spec fn first_stop(b: Seq<u8>, pos: Position, i: int) -> int
    decreases b.len() - i,
{
    if i < 0 || i >= b.len() {
        b.len() as int
    } else if stops_at(b, i, pos) {
        i
    } else {
        first_stop(b, pos, i + 1)
    }
}

/// The byte offset of the position `pos`: where its character starts; the
/// end of its line when the line is shorter; the end of the text when the
/// text has fewer lines.
pub open spec fn spec_offset(b: Seq<u8>, pos: Position) -> int {
    first_stop(b, pos, 0)
}

/// Texts whose positions fit in `u32` and whose bytes fit in an `isize`.
pub open spec fn fits(b: Seq<u8>) -> bool {
    b.len() <= u32::MAX && b.len() <= isize::MAX
}

proof fn lemma_counts_bounded(b: Seq<u8>, s: int, o: int)
    requires
        0 <= s,
    ensures
        newlines_before(b, o) <= if o < 0 {
            0
        } else {
            o
        },
        chars_between(b, s, o) <= if o < s {
            0
        } else {
            o - s
        },
        line_start(b, o) <= if o < 0 {
            0
        } else {
            o
        },
        0 <= line_start(b, o),
    decreases o,
{
    if o > 0 {
        lemma_counts_bounded(b, s, o - 1);
    }
}

/// The position of the byte offset `offset` in `text`.
pub fn offset_to_position(text: &str, offset: usize) -> (r: Position)
    requires
        fits(text.spec_bytes()),
    ensures
        r == spec_position(text.spec_bytes(), offset as int),
{
    let b = text.as_bytes();
    let end = if offset < b.len() {
        offset
    } else {
        b.len()
    };
    let mut line: u32 = 0;
    let mut col: u32 = 0;
    let mut i: usize = 0;
    while i < end
        invariant
            b@ == text.spec_bytes(),
            fits(b@),
            end == clamp(b@, offset as int),
            i <= end,
            line == newlines_before(b@, i as int),
            col == chars_between(b@, line_start(b@, i as int), i as int),
        decreases end - i,
    {
        proof {
            lemma_counts_bounded(b@, 0, i as int);
            lemma_counts_bounded(b@, line_start(b@, i as int), i as int);
        }
        if b[i] == 0x0a {
            line = line + 1;
            col = 0;
        } else if b[i] < 0x80 || b[i] > 0xbf {
            col = col + 1;
        }
        i = i + 1;
    }
    Position { line, character: col }
}

/// The byte offset of the position `pos` in `text`.
pub fn position_to_offset(text: &str, pos: Position) -> (r: usize)
    requires
        fits(text.spec_bytes()),
    ensures
        r == spec_offset(text.spec_bytes(), pos),
{
    let b = text.as_bytes();
    let mut line: u32 = 0;
    let mut col: u32 = 0;
    let mut i: usize = 0;
    while i < b.len()
        invariant
            b@ == text.spec_bytes(),
            fits(b@),
            i <= b@.len(),
            line == newlines_before(b@, i as int),
            col == chars_between(b@, line_start(b@, i as int), i as int),
            first_stop(b@, pos, 0) == first_stop(b@, pos, i as int),
        decreases b@.len() - i,
    {
        proof {
            lemma_counts_bounded(b@, 0, i as int);
            lemma_counts_bounded(b@, line_start(b@, i as int), i as int);
        }
        let c = b[i];
        if c < 0x80 || c > 0xbf {
            if line == pos.line && col == pos.character {
                return i;
            }
            if c == 0x0a {
                if line == pos.line {
                    return i;
                }
                line = line + 1;
                col = 0;
            } else {
                col = col + 1;
            }
        }
        i = i + 1;
    }
    b.len()
}

/// Positions grow along the text: a character that starts before the
/// offset `o` lies on an earlier line, or on the same line in an earlier
/// column (and is then no line feed).
proof fn lemma_position_grows(b: Seq<u8>, i: int, o: int)
    requires
        0 <= i < o <= b.len(),
        is_char_start(b[i]),
    ensures
        line_of(b, i) < line_of(b, o) || (line_of(b, i) == line_of(b, o) && column_of(b, i)
            < column_of(b, o) && b[i] != 0x0a),
    decreases o - i,
{
    lemma_counts_bounded(b, 0, o - 1);
    if o == i + 1 {
        assert(line_start(b, i) <= i);
    } else {
        lemma_position_grows(b, i, o - 1);
        let ls = line_start(b, o - 1);
        assert(ls <= o - 1);
        if b[o - 1] != 0x0a {
            assert(line_start(b, o) == ls);
            assert(chars_between(b, ls, o) >= chars_between(b, ls, o - 1));
        }
    }
}

/// When the search for `pos` does not end at any byte in `i..o`, it goes
/// on from `o`.
proof fn lemma_first_stop_skip(b: Seq<u8>, pos: Position, i: int, o: int)
    requires
        0 <= i <= o <= b.len(),
        forall|j: int| i <= j < o ==> !stops_at(b, j, pos),
    ensures
        first_stop(b, pos, i) == first_stop(b, pos, o),
    decreases o - i,
{
    if i < o {
        lemma_first_stop_skip(b, pos, i + 1, o);
    }
}

/// Converting the offset of a character (or of the end of the text) to a
/// position and back gives the offset again.
pub proof fn law_offset_position_roundtrip(b: Seq<u8>, o: int)
    requires
        fits(b),
        0 <= o <= b.len(),
        o == b.len() || is_char_start(b[o]),
    ensures
        spec_offset(b, spec_position(b, o)) == o,
{
    let p = spec_position(b, o);
    lemma_counts_bounded(b, 0, o);
    lemma_counts_bounded(b, line_start(b, o), o);
    assert(p.line == line_of(b, o));
    assert(p.character == column_of(b, o));
    assert forall|j: int| 0 <= j < o implies !stops_at(b, j, p) by {
        if is_char_start(b[j]) {
            lemma_position_grows(b, j, o);
        }
    }
    lemma_first_stop_skip(b, p, 0, o);
}

// ---------------------------------------------------------------------------
// Tokens and bindings
// ---------------------------------------------------------------------------

/// A token as kind and byte span.
pub open spec fn token_model<'a>(t: Token<'a>) -> (TokenKind, int, int) {
    (t.kind, t.start as int, t.end as int)
}

/// Tokens as kinds and byte spans.
pub open spec fn tokens_model<'a>(ts: Seq<Token<'a>>) -> Seq<(TokenKind, int, int)> {
    ts.map_values(|t: Token<'a>| token_model(t))
}

/// Tokens cut out of `b`: each text is the bytes of its span, which lies in
/// `b`.
pub open spec fn tokens_of<'a>(ts: Seq<Token<'a>>, b: Seq<u8>) -> bool {
    forall|i: int|
        0 <= i < ts.len() ==> {
            &&& (#[trigger] ts[i]).start < ts[i].end <= b.len()
            &&& ts[i].text.spec_bytes() == b.subrange(ts[i].start as int, ts[i].end as int)
        }
}

/// The characters of the bytes `s..e` of `b`.
pub open spec fn text_of(b: Seq<u8>, s: int, e: int) -> Seq<char> {
    vstd::utf8::decode_utf8(b.subrange(s, e))
}

/// The characters of a string slice are those its bytes encode.
proof fn lemma_text_of_token<'a>(t: &'a str, b: Seq<u8>, s: int, e: int)
    requires
        t.spec_bytes() == b.subrange(s, e),
    ensures
        t@ == text_of(b, s, e),
{
    vstd::utf8::encode_utf8_decode_utf8(t@);
}

/// The kinds of binding a Dust source can introduce.
#[derive(Debug, Clone, Copy, PartialEq, Eq, Structural)]
pub enum BindingKind {
    Def,
    Let,
    Val,
    Src,
}

impl BindingKind {
    /// The keyword that introduces the binding.
    pub open spec fn spec_keyword(self) -> Seq<char> {
        match self {
            BindingKind::Def => "def"@,
            BindingKind::Let => "let"@,
            BindingKind::Val => "val"@,
            BindingKind::Src => "src"@,
        }
    }

    /// What the binding does.
    pub open spec fn spec_description(self) -> Seq<char> {
        match self {
            BindingKind::Def => "Execute later, collect later (function definition)"@,
            BindingKind::Let => "Execute now, collect now (eager binding)"@,
            BindingKind::Val => "Execute now, collect now (alias for let)"@,
            BindingKind::Src => "Execute now, collect later (lazy collection)"@,
        }
    }

    /// The keyword that introduces the binding.
    pub fn keyword(&self) -> (r: &'static str)
        ensures
            r@ == self.spec_keyword(),
    {
        match self {
            BindingKind::Def => "def",
            BindingKind::Let => "let",
            BindingKind::Val => "val",
            BindingKind::Src => "src",
        }
    }

    /// What the binding does.
    pub fn description(&self) -> (r: &'static str)
        ensures
            r@ == self.spec_description(),
    {
        match self {
            BindingKind::Def => "Execute later, collect later (function definition)",
            BindingKind::Let => "Execute now, collect now (eager binding)",
            BindingKind::Val => "Execute now, collect now (alias for let)",
            BindingKind::Src => "Execute now, collect later (lazy collection)",
        }
    }
}

/// What the description of a binding kind says of it: a `def` runs later and
/// is collected later; `let` and `val` run now and are collected now; `src`
/// runs now and is collected later. No two kinds share a description.
pub proof fn law_binding_descriptions(k: BindingKind, k2: BindingKind)
    ensures
        ({
            let d = k.spec_description();
            &&& (d.len() >= 28 && d.take(28) == "Execute later, collect later"@) <==> k
                == BindingKind::Def
            &&& (d.len() >= 24 && d.take(24) == "Execute now, collect now"@) <==> (k
                == BindingKind::Let || k == BindingKind::Val)
            &&& (d.len() >= 26 && d.take(26) == "Execute now, collect later"@) <==> k
                == BindingKind::Src
            &&& k != k2 ==> d != k2.spec_description()
        }),
{
    reveal_strlit("Execute later, collect later (function definition)");
    reveal_strlit("Execute now, collect now (eager binding)");
    reveal_strlit("Execute now, collect now (alias for let)");
    reveal_strlit("Execute now, collect later (lazy collection)");
    reveal_strlit("Execute later, collect later");
    reveal_strlit("Execute now, collect now");
    reveal_strlit("Execute now, collect later");
    let a = "Execute later, collect later"@;
    let n = "Execute now, collect now"@;
    let l = "Execute now, collect later"@;
    assert(a[8] == 'l' && n[8] == 'n' && l[8] == 'n' && n[21] == 'n' && l[21] == 'l');
    let d = k.spec_description();
    let d2 = k2.spec_description();
    assert(d.take(28)[8] == d[8] && d.take(24)[8] == d[8] && d.take(26)[8] == d[8]);
    assert(d.take(24)[21] == d[21] && d.take(26)[21] == d[21]);
    match k {
        BindingKind::Def => {
            assert(d.take(28) =~= a);
        },
        BindingKind::Src => {
            assert(d.take(26) =~= l);
        },
        _ => {
            assert(d.take(24) =~= n);
        },
    }
    if k != k2 {
        assert(d[8] != d2[8] || d[21] != d2[21] || d[26] != d2[26]);
    }
}

/// The binding a keyword token introduces, if it is one.
pub open spec fn binding_kind_of(k: TokenKind) -> Option<BindingKind> {
    match k {
        TokenKind::Def => Some(BindingKind::Def),
        TokenKind::Let => Some(BindingKind::Let),
        TokenKind::Val => Some(BindingKind::Val),
        TokenKind::Src => Some(BindingKind::Src),
        _ => None,
    }
}

fn binding_kind(k: TokenKind) -> (r: Option<BindingKind>)
    ensures
        r == binding_kind_of(k),
{
    match k {
        TokenKind::Def => Some(BindingKind::Def),
        TokenKind::Let => Some(BindingKind::Let),
        TokenKind::Val => Some(BindingKind::Val),
        TokenKind::Src => Some(BindingKind::Src),
        _ => None,
    }
}

/// A binding introduced in a source: its name, its kind, and the byte span
/// of the name.
#[derive(Debug)]
pub struct BindingDef {
    pub name: String,
    pub kind: BindingKind,
    pub name_start: usize,
    pub name_end: usize,
}

/// What a binding is: its name's characters, its kind and its name's span.
pub struct BindingModel {
    pub name: Seq<char>,
    pub kind: BindingKind,
    pub name_start: int,
    pub name_end: int,
}

impl View for BindingDef {
    type V = BindingModel;

    open spec fn view(&self) -> BindingModel {
        BindingModel {
            name: self.name@,
            kind: self.kind,
            name_start: self.name_start as int,
            name_end: self.name_end as int,
        }
    }
}

/// The binding the token `i` introduces: a binding keyword followed by an
/// identifier, which is the name.
pub open spec fn binding_at(b: Seq<u8>, toks: Seq<(TokenKind, int, int)>, i: int) -> Option<
    BindingModel,
> {
    if 0 <= i && i + 1 < toks.len() && binding_kind_of(toks[i].0) is Some && toks[i + 1].0
        == TokenKind::Ident {
        Some(
            BindingModel {
                name: text_of(b, toks[i + 1].1, toks[i + 1].2),
                kind: binding_kind_of(toks[i].0)->0,
                name_start: toks[i + 1].1,
                name_end: toks[i + 1].2,
            },
        )
    } else {
        None
    }
}

/// The bindings introduced by the first `n` tokens, in order.
pub open spec fn bindings_before(b: Seq<u8>, toks: Seq<(TokenKind, int, int)>, n: int) -> Seq<
    BindingModel,
>
    decreases n,
{
    if n <= 0 {
        Seq::empty()
    } else {
        let prev = bindings_before(b, toks, n - 1);
        match binding_at(b, toks, n - 1) {
            Some(m) => prev.push(m),
            None => prev,
        }
    }
}

/// The bindings of a source, given as its bytes.
pub open spec fn spec_bindings(b: Seq<u8>) -> Seq<BindingModel> {
    let toks = spec_spans(b, 0);
    bindings_before(b, toks, toks.len() as int)
}

/// Bindings as models.
pub open spec fn bindings_view(v: Seq<BindingDef>) -> Seq<BindingModel> {
    v.map_values(|d: BindingDef| d@)
}

/// The tokens of a text, cut out of it.
fn lex_all<'a>(text: &'a str) -> (r: Vec<Token<'a>>)
    requires
        fits(text.spec_bytes()),
        all_sliceable(text.spec_bytes(), 0),
    ensures
        tokens_model(r@) == spec_spans(text.spec_bytes(), 0),
        tokens_of(r@, text.spec_bytes()),
{
    let ghost b = text.spec_bytes();
    let r = Lexer::new(text).tokens();
    proof {
        lemma_spans_in_bounds(b, 0);
        let sp = spec_spans(b, 0);
        assert(tokens_model(r@) =~= sp);
        assert forall|i: int| 0 <= i < r@.len() implies {
            &&& (#[trigger] r@[i]).start < r@[i].end <= b.len()
            &&& r@[i].text.spec_bytes() == b.subrange(r@[i].start as int, r@[i].end as int)
        } by {
            assert(sp[i] == token_model(r@[i]));
        }
    }
    r
}

/// The bindings of `text`, in the order of their names.
pub fn find_bindings(text: &str) -> (r: Vec<BindingDef>)
    requires
        fits(text.spec_bytes()),
        all_sliceable(text.spec_bytes(), 0),
    ensures
        bindings_view(r@) == spec_bindings(text.spec_bytes()),
{
    let ghost b = text.spec_bytes();
    let tokens = lex_all(text);
    let ghost toks = tokens_model(tokens@);
    let mut bindings: Vec<BindingDef> = Vec::new();
    let mut i: usize = 0;
    while i < tokens.len()
        invariant
            b == text.spec_bytes(),
            toks == tokens_model(tokens@),
            toks == spec_spans(b, 0),
            tokens_of(tokens@, b),
            i <= tokens.len(),
            bindings_view(bindings@) == bindings_before(b, toks, i as int),
        decreases tokens.len() - i,
    {
        assert(toks[i as int] == token_model(tokens@[i as int]));
        if let Some(kind) = binding_kind(tokens[i].kind) {
            if i + 1 < tokens.len() && tokens[i + 1].kind == TokenKind::Ident {
                let name_tok = &tokens[i + 1];
                assert(toks[i + 1] == token_model(tokens@[i + 1]));
                proof {
                    lemma_text_of_token(name_tok.text, b, name_tok.start as int, name_tok.end as int);
                }
                let def = BindingDef {
                    name: String::from_str(name_tok.text),
                    kind,
                    name_start: name_tok.start,
                    name_end: name_tok.end,
                };
                let ghost prev = bindings@;
                bindings.push(def);
                proof {
                    assert(bindings_view(bindings@) =~= bindings_view(prev).push(def@));
                    assert(binding_at(b, toks, i + 1) is None);
                    assert(bindings_before(b, toks, i + 2) == bindings_before(b, toks, i + 1));
                }
                i = i + 2;
                continue;
            }
        }
        i = i + 1;
    }
    bindings
}

// ---------------------------------------------------------------------------
// Diagnostics
// ---------------------------------------------------------------------------

/// How serious a diagnostic is.
#[derive(Debug, Clone, Copy, PartialEq, Eq, Structural)]
pub enum DiagnosticSeverity {
    Error,
    Warning,
}

/// A problem found in a source: where, how serious, who found it, and what.
#[derive(Debug)]
pub struct Diagnostic {
    pub range: Range,
    pub severity: DiagnosticSeverity,
    pub source: String,
    pub message: String,
}

/// What a diagnostic says.
pub struct DiagnosticModel {
    pub range: Range,
    pub severity: DiagnosticSeverity,
    pub source: Seq<char>,
    pub message: Seq<char>,
}

impl View for Diagnostic {
    type V = DiagnosticModel;

    open spec fn view(&self) -> DiagnosticModel {
        DiagnosticModel {
            range: self.range,
            severity: self.severity,
            source: self.source@,
            message: self.message@,
        }
    }
}

/// Diagnostics as models.
pub open spec fn diagnostics_view(v: Seq<Diagnostic>) -> Seq<DiagnosticModel> {
    v.map_values(|d: Diagnostic| d@)
}

/// The diagnostic over the bytes `s..e` with the given severity and
/// message.
pub open spec fn diag(
    b: Seq<u8>,
    s: int,
    e: int,
    severity: DiagnosticSeverity,
    message: Seq<char>,
) -> DiagnosticModel {
    DiagnosticModel { range: spec_range(b, s, e), severity, source: "dust-lsp"@, message }
}

fn make_diagnostic(
    text: &str,
    s: usize,
    e: usize,
    severity: DiagnosticSeverity,
    message: String,
) -> (d: Diagnostic)
    requires
        fits(text.spec_bytes()),
    ensures
        d@ == diag(text.spec_bytes(), s as int, e as int, severity, message@),
{
    Diagnostic {
        range: Range::new(offset_to_position(text, s), offset_to_position(text, e)),
        severity,
        source: String::from_str("dust-lsp"),
        message,
    }
}

fn push_diagnostic(diagnostics: &mut Vec<Diagnostic>, d: Diagnostic)
    ensures
        diagnostics_view(final(diagnostics)@) == diagnostics_view(old(diagnostics)@).push(d@),
{
    let ghost prev = diagnostics@;
    diagnostics.push(d);
    assert(diagnostics_view(diagnostics@) =~= diagnostics_view(prev).push(d@));
}

/// The opening bracket that a closing one closes.
pub open spec fn opening_of(k: TokenKind) -> TokenKind {
    match k {
        TokenKind::RParen => TokenKind::LParen,
        TokenKind::RBracket => TokenKind::LBracket,
        _ => TokenKind::LBrace,
    }
}

/// How an opening bracket is written.
pub open spec fn bracket_text(k: TokenKind) -> Seq<char> {
    match k {
        TokenKind::LBrace => "{"@,
        TokenKind::LParen => "("@,
        TokenKind::LBracket => "["@,
        _ => "?"@,
    }
}

/// The message for the closing bracket `close` when `open` is the innermost
/// open bracket.
pub open spec fn mismatch_message(close: TokenKind, open: TokenKind) -> Seq<char> {
    match close {
        TokenKind::RBrace => "Mismatched '}', expected closing for '"@ + (if open
            == TokenKind::LParen {
            "("@
        } else if open == TokenKind::LBracket {
            "["@
        } else {
            "{"@
        }) + "'"@,
        TokenKind::RParen => "Mismatched ')'"@,
        _ => "Mismatched ']'"@,
    }
}

/// The message for the closing bracket `close` when no bracket is open.
pub open spec fn unexpected_message(close: TokenKind) -> Seq<char> {
    match close {
        TokenKind::RBrace => "Unexpected '}'"@,
        TokenKind::RParen => "Unexpected ')'"@,
        _ => "Unexpected ']'"@,
    }
}

/// The open brackets (innermost last) and the diagnostics so far, after
/// one more token.
pub open spec fn bracket_step(
    b: Seq<u8>,
    st: (Seq<(TokenKind, int)>, Seq<DiagnosticModel>),
    t: (TokenKind, int, int),
) -> (Seq<(TokenKind, int)>, Seq<DiagnosticModel>) {
    let (stack, diags) = st;
    let (k, s, e) = t;
    if k == TokenKind::LBrace || k == TokenKind::LParen || k == TokenKind::LBracket {
        (stack.push((k, s)), diags)
    } else if k == TokenKind::RBrace || k == TokenKind::RParen || k == TokenKind::RBracket {
        if stack.len() == 0 {
            (stack, diags.push(diag(b, s, e, DiagnosticSeverity::Error, unexpected_message(k))))
        } else if stack.last().0 == opening_of(k) {
            (stack.drop_last(), diags)
        } else {
            (
                stack,
                diags.push(
                    diag(b, s, e, DiagnosticSeverity::Error, mismatch_message(k, stack.last().0)),
                ),
            )
        }
    } else {
        st
    }
}

/// What one token does to the open brackets and the diagnostics: an opening
/// bracket is pushed, at its position; a closing bracket that matches the
/// innermost open one (`)` for `(`, `]` for `[`, `}` for `{`) pops it and
/// reports nothing; one that does not match, or finds no open bracket,
/// leaves the open brackets as they were and is reported once; any other
/// token changes nothing. Diagnostics are only ever added after the others.
pub proof fn law_bracket_step(
    b: Seq<u8>,
    st: (Seq<(TokenKind, int)>, Seq<DiagnosticModel>),
    t: (TokenKind, int, int),
)
    ensures
        ({
            let (stack, diags) = st;
            let (k, s, e) = t;
            let (stack2, diags2) = bracket_step(b, st, t);
            let opening = k == TokenKind::LBrace || k == TokenKind::LParen || k
                == TokenKind::LBracket;
            let closing = k == TokenKind::RBrace || k == TokenKind::RParen || k
                == TokenKind::RBracket;
            let matches = stack.len() > 0 && ((k == TokenKind::RParen && stack.last().0
                == TokenKind::LParen) || (k == TokenKind::RBracket && stack.last().0
                == TokenKind::LBracket) || (k == TokenKind::RBrace && stack.last().0
                == TokenKind::LBrace));
            &&& opening ==> stack2 == stack.push((k, s)) && diags2 == diags
            &&& closing && matches ==> stack2 == stack.drop_last() && diags2 == diags
            &&& closing && !matches ==> stack2 == stack && diags2.len() == diags.len() + 1
                && diags2.take(diags.len() as int) == diags
            &&& closing && !matches ==> {
                let d = diags2.last();
                &&& d.range == spec_range(b, s, e)
                &&& d.severity == DiagnosticSeverity::Error
                &&& d.message.len() > 12
                &&& d.message.take(12) == if stack.len() == 0 {
                    "Unexpected '"@
                } else {
                    "Mismatched '"@
                }
                &&& d.message[12] == if k == TokenKind::RParen {
                    ')'
                } else if k == TokenKind::RBracket {
                    ']'
                } else {
                    '}'
                }
            }
            &&& !opening && !closing ==> stack2 == stack && diags2 == diags
            &&& stack2.len() < stack.len() ==> closing && matches
        }),
{
    let (stack, diags) = st;
    let (k, s, e) = t;
    let d2 = bracket_step(b, st, t).1;
    if d2.len() == diags.len() + 1 {
        assert(d2.take(diags.len() as int) =~= diags);
    }
    reveal_strlit("Unexpected '");
    reveal_strlit("Mismatched '");
    reveal_strlit("Unexpected '}'");
    reveal_strlit("Unexpected ')'");
    reveal_strlit("Unexpected ']'");
    reveal_strlit("Mismatched '}', expected closing for '");
    reveal_strlit("Mismatched ')'");
    reveal_strlit("Mismatched ']'");
    reveal_strlit("(");
    reveal_strlit("[");
    reveal_strlit("{");
    reveal_strlit("'");
    let m = d2.last().message;
    assert(m.take(12) =~= d2.last().message.take(12));
    if k == TokenKind::RBrace && stack.len() > 0 && stack.last().0 != TokenKind::LBrace {
        let head = "Mismatched '}', expected closing for '"@;
        assert(m.take(12) =~= head.take(12));
        assert(m[12] == head[12]);
    }
}

/// The open brackets and the diagnostics after the first `n` tokens.
pub open spec fn bracket_scan(b: Seq<u8>, toks: Seq<(TokenKind, int, int)>, n: int) -> (
    Seq<(TokenKind, int)>,
    Seq<DiagnosticModel>,
)
    decreases n,
{
    if n <= 0 {
        (Seq::empty(), Seq::empty())
    } else {
        bracket_step(b, bracket_scan(b, toks, n - 1), toks[n - 1])
    }
}

/// A diagnostic for each bracket left open, outermost first.
pub open spec fn unclosed_diagnostics(b: Seq<u8>, stack: Seq<(TokenKind, int)>) -> Seq<
    DiagnosticModel,
> {
    stack.map_values(
        |x: (TokenKind, int)|
            diag(b, x.1, x.1 + 1, DiagnosticSeverity::Error, "Unclosed '"@ + bracket_text(x.0) + "'"@),
    )
}

/// The bracket diagnostics of a token sequence: a closing bracket with no
/// open one, one that closes another kind, and every bracket left open.
pub open spec fn spec_check_brackets(b: Seq<u8>, toks: Seq<(TokenKind, int, int)>) -> Seq<
    DiagnosticModel,
> {
    let (stack, diags) = bracket_scan(b, toks, toks.len() as int);
    diags + unclosed_diagnostics(b, stack)
}

/// Open brackets as kinds and byte offsets.
pub open spec fn stack_model(v: Seq<(TokenKind, usize)>) -> Seq<(TokenKind, int)> {
    v.map_values(|x: (TokenKind, usize)| (x.0, x.1 as int))
}

/// Appends the bracket diagnostics of `tokens` to `diagnostics`.
pub fn check_brackets(tokens: &[Token], text: &str, diagnostics: &mut Vec<Diagnostic>)
    requires
        fits(text.spec_bytes()),
        tokens_of(tokens@, text.spec_bytes()),
    ensures
        diagnostics_view(final(diagnostics)@) == diagnostics_view(old(diagnostics)@)
            + spec_check_brackets(text.spec_bytes(), tokens_model(tokens@)),
{
    let ghost b = text.spec_bytes();
    let ghost toks = tokens_model(tokens@);
    let ghost d0 = diagnostics_view(diagnostics@);
    let mut stack: Vec<(TokenKind, usize)> = Vec::new();
    let mut i: usize = 0;
    while i < tokens.len()
        invariant
            b == text.spec_bytes(),
            fits(b),
            toks == tokens_model(tokens@),
            tokens_of(tokens@, b),
            i <= tokens.len(),
            stack_model(stack@) == bracket_scan(b, toks, i as int).0,
            forall|j: int| 0 <= j < stack@.len() ==> #[trigger] stack@[j].1 < b.len(),
            diagnostics_view(diagnostics@) == d0 + bracket_scan(b, toks, i as int).1,
        decreases tokens.len() - i,
    {
        let tok = &tokens[i];
        let ghost st = bracket_scan(b, toks, i as int);
        assert(toks[i as int] == token_model(*tok));
        assert(tok.start < tok.end <= b.len());
        let k = tok.kind;
        if k == TokenKind::LBrace || k == TokenKind::LParen || k == TokenKind::LBracket {
            let ghost prev = stack@;
            stack.push((k, tok.start));
            assert(stack_model(stack@) =~= stack_model(prev).push((k, tok.start as int)));
        } else if k == TokenKind::RBrace || k == TokenKind::RParen || k == TokenKind::RBracket {
            if stack.len() > 0 {
                let open = stack[stack.len() - 1].0;
                assert(stack_model(stack@).last().0 == open);
                let expected = if k == TokenKind::RBrace {
                    TokenKind::LBrace
                } else if k == TokenKind::RParen {
                    TokenKind::LParen
                } else {
                    TokenKind::LBracket
                };
                if open == expected {
                    let ghost prev = stack@;
                    stack.pop();
                    assert(stack_model(stack@) =~= stack_model(prev).drop_last());
                } else {
                    let message = if k == TokenKind::RBrace {
                        let mut m = String::from_str("Mismatched '}', expected closing for '");
                        if open == TokenKind::LParen {
                            m.append("(");
                        } else if open == TokenKind::LBracket {
                            m.append("[");
                        } else {
                            m.append("{");
                        }
                        m.append("'");
                        m
                    } else if k == TokenKind::RParen {
                        String::from_str("Mismatched ')'")
                    } else {
                        String::from_str("Mismatched ']'")
                    };
                    let d = make_diagnostic(
                        text,
                        tok.start,
                        tok.end,
                        DiagnosticSeverity::Error,
                        message,
                    );
                    push_diagnostic(diagnostics, d);
                }
            } else {
                let message = if k == TokenKind::RBrace {
                    String::from_str("Unexpected '}'")
                } else if k == TokenKind::RParen {
                    String::from_str("Unexpected ')'")
                } else {
                    String::from_str("Unexpected ']'")
                };
                let d = make_diagnostic(text, tok.start, tok.end, DiagnosticSeverity::Error, message);
                push_diagnostic(diagnostics, d);
            }
        }
        i = i + 1;
    }
    let ghost stack_all = stack_model(stack@);
    let ghost d1 = diagnostics_view(diagnostics@);
    let mut j: usize = 0;
    while j < stack.len()
        invariant
            b == text.spec_bytes(),
            fits(b),
            stack_all == stack_model(stack@),
            forall|q: int| 0 <= q < stack@.len() ==> #[trigger] stack@[q].1 < b.len(),
            j <= stack.len(),
            diagnostics_view(diagnostics@) == d1 + unclosed_diagnostics(b, stack_all).take(
                j as int,
            ),
        decreases stack.len() - j,
    {
        let (kind, start) = stack[j];
        assert(stack@[j as int].1 < b.len());
        let mut message = String::from_str("Unclosed '");
        if kind == TokenKind::LBrace {
            message.append("{");
        } else if kind == TokenKind::LParen {
            message.append("(");
        } else if kind == TokenKind::LBracket {
            message.append("[");
        } else {
            message.append("?");
        }
        message.append("'");
        let d = make_diagnostic(text, start, start + 1, DiagnosticSeverity::Error, message);
        push_diagnostic(diagnostics, d);
        proof {
            let u = unclosed_diagnostics(b, stack_all);
            assert(u.take(j + 1) =~= u.take(j as int).push(u[j as int]));
        }
        j = j + 1;
    }
    proof {
        let u = unclosed_diagnostics(b, stack_all);
        assert(u.take(stack@.len() as int) =~= u);
    }
}

/// The structure diagnostic at the token `i`, if any: a binding keyword
/// must be followed by a name, and (but for `def`, whose name may take
/// parameters) the name by `=`.
pub open spec fn structure_diagnostic_at(
    b: Seq<u8>,
    toks: Seq<(TokenKind, int, int)>,
    i: int,
) -> Seq<DiagnosticModel> {
    let (k, s, e) = toks[i];
    let kw = text_of(b, s, e);
    if binding_kind_of(k) is None {
        Seq::empty()
    } else if i + 1 >= toks.len() {
        seq![diag(b, s, e, DiagnosticSeverity::Error, "'"@ + kw + "' must be followed by a name"@)]
    } else if toks[i + 1].0 != TokenKind::Ident {
        seq![
            diag(
                b,
                toks[i + 1].1,
                toks[i + 1].2,
                DiagnosticSeverity::Error,
                "Expected identifier after '"@ + kw + "'"@,
            ),
        ]
    } else if i + 2 < toks.len() && toks[i + 2].0 != TokenKind::Eq && k != TokenKind::Def {
        seq![
            diag(
                b,
                toks[i + 2].1,
                toks[i + 2].2,
                DiagnosticSeverity::Warning,
                "Expected '=' after '"@ + kw + "' binding name"@,
            ),
        ]
    } else {
        Seq::empty()
    }
}

/// The structure diagnostics of the first `n` tokens, in order.
pub open spec fn structure_diagnostics(
    b: Seq<u8>,
    toks: Seq<(TokenKind, int, int)>,
    n: int,
) -> Seq<DiagnosticModel>
    decreases n,
{
    if n <= 0 {
        Seq::empty()
    } else {
        structure_diagnostics(b, toks, n - 1) + structure_diagnostic_at(b, toks, n - 1)
    }
}

/// The structure diagnostics of a token sequence.
pub open spec fn spec_check_structure(b: Seq<u8>, toks: Seq<(TokenKind, int, int)>) -> Seq<
    DiagnosticModel,
> {
    structure_diagnostics(b, toks, toks.len() as int)
}

/// Appends the structure diagnostics of `tokens` to `diagnostics`.
pub fn check_structure(tokens: &[Token], text: &str, diagnostics: &mut Vec<Diagnostic>)
    requires
        fits(text.spec_bytes()),
        tokens_of(tokens@, text.spec_bytes()),
    ensures
        diagnostics_view(final(diagnostics)@) == diagnostics_view(old(diagnostics)@)
            + spec_check_structure(text.spec_bytes(), tokens_model(tokens@)),
{
    let ghost b = text.spec_bytes();
    let ghost toks = tokens_model(tokens@);
    let ghost d0 = diagnostics_view(diagnostics@);
    let mut i: usize = 0;
    while i < tokens.len()
        invariant
            b == text.spec_bytes(),
            fits(b),
            toks == tokens_model(tokens@),
            tokens_of(tokens@, b),
            i <= tokens.len(),
            diagnostics_view(diagnostics@) == d0 + structure_diagnostics(b, toks, i as int),
        decreases tokens.len() - i,
    {
        let tok = &tokens[i];
        let ghost dv = diagnostics_view(diagnostics@);
        assert(toks[i as int] == token_model(*tok));
        proof {
            lemma_text_of_token(tok.text, b, tok.start as int, tok.end as int);
        }
        let k = tok.kind;
        if k == TokenKind::Def || k == TokenKind::Let || k == TokenKind::Val || k
            == TokenKind::Src {
            let kw = tok.text;
            if i + 1 >= tokens.len() {
                let mut message = String::from_str("'");
                message.append(kw);
                message.append("' must be followed by a name");
                let d = make_diagnostic(text, tok.start, tok.end, DiagnosticSeverity::Error, message);
                push_diagnostic(diagnostics, d);
            } else if tokens[i + 1].kind != TokenKind::Ident {
                assert(toks[i + 1] == token_model(tokens@[i + 1]));
                let mut message = String::from_str("Expected identifier after '");
                message.append(kw);
                message.append("'");
                let d = make_diagnostic(
                    text,
                    tokens[i + 1].start,
                    tokens[i + 1].end,
                    DiagnosticSeverity::Error,
                    message,
                );
                push_diagnostic(diagnostics, d);
            } else if i + 2 < tokens.len() && tokens[i + 2].kind != TokenKind::Eq {
                assert(toks[i + 1] == token_model(tokens@[i + 1]));
                assert(toks[i + 2] == token_model(tokens@[i + 2]));
                if k != TokenKind::Def {
                    let mut message = String::from_str("Expected '=' after '");
                    message.append(kw);
                    message.append("' binding name");
                    let d = make_diagnostic(
                        text,
                        tokens[i + 2].start,
                        tokens[i + 2].end,
                        DiagnosticSeverity::Warning,
                        message,
                    );
                    push_diagnostic(diagnostics, d);
                }
            } else {
                assert(toks[i + 1] == token_model(tokens@[i + 1]));
                if i + 2 < tokens.len() {
                    assert(toks[i + 2] == token_model(tokens@[i + 2]));
                }
            }
        }
        proof {
            assert(diagnostics_view(diagnostics@) =~= dv + structure_diagnostic_at(b, toks, i as int));
        }
        i = i + 1;
    }
}

/// The diagnostics of a source: its bracket diagnostics, then its
/// structure diagnostics.
pub open spec fn spec_diagnose(b: Seq<u8>) -> Seq<DiagnosticModel> {
    let toks = spec_spans(b, 0);
    spec_check_brackets(b, toks) + spec_check_structure(b, toks)
}

/// The diagnostics of `text`: its bracket diagnostics, then its structure
/// diagnostics.
pub fn diagnose(text: &str) -> (r: Vec<Diagnostic>)
    requires
        fits(text.spec_bytes()),
        all_sliceable(text.spec_bytes(), 0),
    ensures
        diagnostics_view(r@) == spec_diagnose(text.spec_bytes()),
{
    let mut diagnostics: Vec<Diagnostic> = Vec::new();
    let tokens = lex_all(text);
    assert(diagnostics_view(diagnostics@) =~= Seq::empty());
    check_brackets(tokens.as_slice(), text, &mut diagnostics);
    check_structure(tokens.as_slice(), text, &mut diagnostics);
    proof {
        let b = text.spec_bytes();
        let toks = spec_spans(b, 0);
        assert(Seq::<DiagnosticModel>::empty() + spec_check_brackets(b, toks)
            + spec_check_structure(b, toks) =~= spec_diagnose(b));
    }
    diagnostics
}

// ---------------------------------------------------------------------------
// Hover and definitions
// ---------------------------------------------------------------------------

/// Hover text (Markdown) over a span of a source.
#[derive(Debug)]
pub struct Hover {
    pub contents: String,
    pub range: Range,
}

/// What a hover shows.
pub struct HoverModel {
    pub contents: Seq<char>,
    pub range: Range,
}

impl View for Hover {
    type V = HoverModel;

    open spec fn view(&self) -> HoverModel {
        HoverModel { contents: self.contents@, range: self.range }
    }
}

/// A span of the document named `uri`.
#[derive(Debug)]
pub struct Location {
    pub uri: String,
    pub range: Range,
}

/// What a location designates.
pub struct LocationModel {
    pub uri: Seq<char>,
    pub range: Range,
}

impl View for Location {
    type V = LocationModel;

    open spec fn view(&self) -> LocationModel {
        LocationModel { uri: self.uri@, range: self.range }
    }
}

/// The first token of `b` that covers the byte `o`.
pub open spec fn token_at(b: Seq<u8>, o: int) -> Option<(TokenKind, int, int)> {
    spec_token_covering(b, 0, o)
}

/// Whether looking up the token at `pos` can cut every token it needs out
/// of the text: those up to the token at `pos`, and all of them when that
/// token names a binding (a variable or an identifier).
pub open spec fn lexable_for_lookup(b: Seq<u8>, pos: Position) -> bool {
    let o = spec_offset(b, pos);
    &&& sliceable_through(b, 0, o)
    &&& match token_at(b, o) {
        Some((k, s, e)) => (k == TokenKind::Variable || k == TokenKind::Ident) ==> all_sliceable(
            b,
            0,
        ),
        None => true,
    }
}

/// The first of the bindings `bs`, from the index `j` on, whose name has
/// the bytes `s..e` of `b`.
pub open spec fn first_binding_named(
    b: Seq<u8>,
    bs: Seq<BindingModel>,
    s: int,
    e: int,
    j: int,
) -> Option<BindingModel>
    decreases bs.len() - j,
{
    if j < 0 || j >= bs.len() {
        None
    } else if b.subrange(bs[j].name_start, bs[j].name_end) == b.subrange(s, e) {
        Some(bs[j])
    } else {
        first_binding_named(b, bs, s, e, j + 1)
    }
}

/// The binding of `b` whose name has the bytes `s..e`: the first one.
pub open spec fn binding_named(b: Seq<u8>, s: int, e: int) -> Option<BindingModel> {
    first_binding_named(b, spec_bindings(b), s, e, 0)
}

/// The hover text of a keyword token.
pub open spec fn keyword_hover(k: TokenKind) -> Option<Seq<char>> {
    match k {
        TokenKind::Def => Some(
            "**def** — Define a binding. Execute later, collect later (function definition)."@,
        ),
        TokenKind::Let => Some("**let** — Eager binding. Execute now, collect now."@),
        TokenKind::Val => Some("**val** — Alias for `let`. Execute now, collect now."@),
        TokenKind::Src => Some("**src** — Source binding. Execute now, collect later."@),
        TokenKind::Include => Some("**include** — Include and execute another Dust file."@),
        TokenKind::IncludeStr => Some(
            "**include_str** — Include the string content of a file into a binding."@,
        ),
        _ => None,
    }
}

/// The hover text of a reference, written `head`, to the binding `m`.
pub open spec fn binding_hover_text(head: Seq<char>, m: BindingModel) -> Seq<char> {
    "**"@ + head + "** — `"@ + m.kind.spec_keyword() + "` binding\n\n"@ + m.kind.spec_description()
}

/// The hover at `pos` in `b`: for a keyword, what it does; for a variable
/// `$name` or an identifier `name` naming a binding, that binding's kind;
/// for a system command `!name`, that it is one.
pub open spec fn spec_hover(b: Seq<u8>, pos: Position) -> Option<HoverModel> {
    match token_at(b, spec_offset(b, pos)) {
        None => None,
        Some((k, s, e)) => {
            let range = spec_range(b, s, e);
            if keyword_hover(k) is Some {
                Some(HoverModel { contents: keyword_hover(k)->0, range })
            } else if k == TokenKind::Variable && binding_named(b, s + 1, e) is Some {
                Some(
                    HoverModel {
                        contents: binding_hover_text(text_of(b, s, e), binding_named(b, s + 1, e)->0),
                        range,
                    },
                )
            } else if k == TokenKind::SystemCmd {
                Some(
                    HoverModel {
                        contents: "**"@ + text_of(b, s, e) + "** — System command invocation"@,
                        range,
                    },
                )
            } else if k == TokenKind::Ident && binding_named(b, s, e) is Some {
                let m = binding_named(b, s, e)->0;
                Some(HoverModel { contents: binding_hover_text(m.name, m), range })
            } else {
                None
            }
        },
    }
}

/// The definition that `pos` in `b` refers to: the name of the binding
/// that the variable or identifier there names.
pub open spec fn spec_definition(b: Seq<u8>, pos: Position) -> Option<Range> {
    match token_at(b, spec_offset(b, pos)) {
        None => None,
        Some((k, s, e)) => {
            let name_start = if k == TokenKind::Variable {
                s + 1
            } else {
                s
            };
            if k != TokenKind::Variable && k != TokenKind::Ident {
                None
            } else {
                match binding_named(b, name_start, e) {
                    Some(m) => Some(spec_range(b, m.name_start, m.name_end)),
                    None => None,
                }
            }
        },
    }
}

/// The first token of `text` that covers the byte `offset`.
pub fn token_at_offset<'a>(text: &'a str, offset: usize) -> (r: Option<Token<'a>>)
    requires
        fits(text.spec_bytes()),
        sliceable_through(text.spec_bytes(), 0, offset as int),
    ensures
        match token_at(text.spec_bytes(), offset as int) {
            None => r is None,
            Some((k, s, e)) => r matches Some(t) && t.kind == k && t.start == s && t.end == e
                && t.text.spec_bytes() == text.spec_bytes().subrange(s, e),
        },
{
    token_covering(Lexer::new(text), offset)
}

/// The names of bindings lie within the text.
proof fn lemma_bindings_in_bounds(b: Seq<u8>, toks: Seq<(TokenKind, int, int)>, n: int)
    requires
        forall|i: int| 0 <= i < toks.len() ==> 0 <= (#[trigger] toks[i]).1 < toks[i].2 <= b.len(),
    ensures
        forall|j: int|
            0 <= j < bindings_before(b, toks, n).len() ==> 0 <= (#[trigger] bindings_before(
                b,
                toks,
                n,
            )[j]).name_start <= bindings_before(b, toks, n)[j].name_end <= b.len(),
    decreases n,
{
    if n > 0 {
        lemma_bindings_in_bounds(b, toks, n - 1);
        let prev = bindings_before(b, toks, n - 1);
        match binding_at(b, toks, n - 1) {
            Some(m) => {
                assert(toks[n] == toks[n - 1 + 1]);
                let all = prev.push(m);
                assert forall|j: int| 0 <= j < all.len() implies 0 <= (#[trigger] all[j]).name_start
                    <= all[j].name_end <= b.len() by {
                    if j < prev.len() {
                        assert(all[j] == prev[j]);
                    }
                }
            },
            None => {},
        }
    }
}

/// The names of the bindings of `b` lie within it.
proof fn lemma_spec_bindings_in_bounds(b: Seq<u8>)
    requires
        all_sliceable(b, 0),
    ensures
        forall|j: int|
            0 <= j < spec_bindings(b).len() ==> 0 <= (#[trigger] spec_bindings(b)[j]).name_start
                <= spec_bindings(b)[j].name_end <= b.len(),
{
    lemma_spans_in_bounds(b, 0);
    let toks = spec_spans(b, 0);
    lemma_bindings_in_bounds(b, toks, toks.len() as int);
}

/// Whether the bytes `s1..e1` and `s2..e2` of `b` are the same.
fn same_bytes(b: &[u8], s1: usize, e1: usize, s2: usize, e2: usize) -> (r: bool)
    requires
        s1 <= e1 <= b@.len(),
        s2 <= e2 <= b@.len(),
    ensures
        r == (b@.subrange(s1 as int, e1 as int) == b@.subrange(s2 as int, e2 as int)),
{
    if e1 - s1 != e2 - s2 {
        assert(b@.subrange(s1 as int, e1 as int).len() != b@.subrange(s2 as int, e2 as int).len());
        return false;
    }
    let n = e1 - s1;
    let mut k: usize = 0;
    while k < n
        invariant
            n == e1 - s1,
            n == e2 - s2,
            s1 <= e1 <= b@.len(),
            s2 <= e2 <= b@.len(),
            k <= n,
            forall|j: int|
                0 <= j < k ==> b@.subrange(s1 as int, e1 as int)[j] == #[trigger] b@.subrange(
                    s2 as int,
                    e2 as int,
                )[j],
        decreases n - k,
    {
        if b[s1 + k] != b[s2 + k] {
            assert(b@.subrange(s1 as int, e1 as int)[k as int] != b@.subrange(
                s2 as int,
                e2 as int,
            )[k as int]);
            return false;
        }
        k = k + 1;
    }
    assert(b@.subrange(s1 as int, e1 as int) =~= b@.subrange(s2 as int, e2 as int));
    true
}

/// The index of the first of `bindings` whose name has the bytes `s..e` of
/// `b`.
fn find_binding_named(bindings: &Vec<BindingDef>, b: &[u8], s: usize, e: usize) -> (r: Option<
    usize,
>)
    requires
        s <= e <= b@.len(),
        forall|j: int|
            0 <= j < bindings@.len() ==> (#[trigger] bindings@[j]).name_start
                <= bindings@[j].name_end <= b@.len(),
    ensures
        match first_binding_named(b@, bindings_view(bindings@), s as int, e as int, 0) {
            None => r is None,
            Some(m) => r matches Some(j) && j < bindings@.len() && bindings@[j as int]@ == m,
        },
{
    let ghost bs = bindings_view(bindings@);
    let mut j: usize = 0;
    while j < bindings.len()
        invariant
            bs == bindings_view(bindings@),
            s <= e <= b@.len(),
            forall|q: int|
                0 <= q < bindings@.len() ==> (#[trigger] bindings@[q]).name_start
                    <= bindings@[q].name_end <= b@.len(),
            j <= bindings.len(),
            first_binding_named(b@, bs, s as int, e as int, 0) == first_binding_named(
                b@,
                bs,
                s as int,
                e as int,
                j as int,
            ),
        decreases bindings.len() - j,
    {
        assert(bs[j as int] == bindings@[j as int]@);
        if same_bytes(b, bindings[j].name_start, bindings[j].name_end, s, e) {
            return Some(j);
        }
        j = j + 1;
    }
    None
}

fn hover_at(text: &str, s: usize, e: usize, contents: String) -> (r: Option<Hover>)
    requires
        fits(text.spec_bytes()),
    ensures
        r matches Some(h) && h@ == (HoverModel {
            contents: contents@,
            range: spec_range(text.spec_bytes(), s as int, e as int),
        }),
{
    Some(
        Hover {
            contents,
            range: Range::new(offset_to_position(text, s), offset_to_position(text, e)),
        },
    )
}

/// The hover at `pos` in `text`.
pub fn hover(text: &str, pos: Position) -> (r: Option<Hover>)
    requires
        fits(text.spec_bytes()),
        lexable_for_lookup(text.spec_bytes(), pos),
    ensures
        match spec_hover(text.spec_bytes(), pos) {
            None => r is None,
            Some(h) => r matches Some(x) && x@ == h,
        },
{
    let ghost b = text.spec_bytes();
    let offset = position_to_offset(text, pos);
    let token = match token_at_offset(text, offset) {
        Some(t) => t,
        None => {
            return None;
        },
    };
    proof {
        lemma_text_of_token(token.text, b, token.start as int, token.end as int);
        lemma_next_covering_in_bounds(b, offset as int);
    }
    let keyword_info = match token.kind {
        TokenKind::Def => Some(
            "**def** — Define a binding. Execute later, collect later (function definition).",
        ),
        TokenKind::Let => Some("**let** — Eager binding. Execute now, collect now."),
        TokenKind::Val => Some("**val** — Alias for `let`. Execute now, collect now."),
        TokenKind::Src => Some("**src** — Source binding. Execute now, collect later."),
        TokenKind::Include => Some("**include** — Include and execute another Dust file."),
        TokenKind::IncludeStr => Some(
            "**include_str** — Include the string content of a file into a binding.",
        ),
        _ => None,
    };
    if let Some(info) = keyword_info {
        return hover_at(text, token.start, token.end, String::from_str(info));
    }
    let bytes = text.as_bytes();
    if token.kind == TokenKind::Variable {
        let bindings = find_bindings(text);
        proof {
            lemma_spec_bindings_in_bounds(b);
            assert forall|q: int| 0 <= q < bindings@.len() implies (#[trigger] bindings@[q]).name_start
                <= bindings@[q].name_end <= b.len() by {
                assert(bindings_view(bindings@)[q] == bindings@[q]@);
            }
        }
        if let Some(j) = find_binding_named(&bindings, bytes, token.start + 1, token.end) {
            let bd = &bindings[j];
            let mut info = String::from_str("**");
            info.append(token.text);
            info.append("** — `");
            info.append(bd.kind.keyword());
            info.append("` binding\n\n");
            info.append(bd.kind.description());
            return hover_at(text, token.start, token.end, info);
        }
    }
    if token.kind == TokenKind::SystemCmd {
        let mut info = String::from_str("**");
        info.append(token.text);
        info.append("** — System command invocation");
        return hover_at(text, token.start, token.end, info);
    }
    if token.kind == TokenKind::Ident {
        let bindings = find_bindings(text);
        proof {
            lemma_spec_bindings_in_bounds(b);
            assert forall|q: int| 0 <= q < bindings@.len() implies (#[trigger] bindings@[q]).name_start
                <= bindings@[q].name_end <= b.len() by {
                assert(bindings_view(bindings@)[q] == bindings@[q]@);
            }
        }
        if let Some(j) = find_binding_named(&bindings, bytes, token.start, token.end) {
            let bd = &bindings[j];
            let mut info = String::from_str("**");
            info.append(bd.name.as_str());
            info.append("** — `");
            info.append(bd.kind.keyword());
            info.append("` binding\n\n");
            info.append(bd.kind.description());
            return hover_at(text, token.start, token.end, info);
        }
    }
    None
}

/// The location of the definition that `pos` in `text` refers to, in the
/// document named `uri`.
pub fn goto_definition(text: &str, uri: &str, pos: Position) -> (r: Option<Location>)
    requires
        fits(text.spec_bytes()),
        lexable_for_lookup(text.spec_bytes(), pos),
    ensures
        match spec_definition(text.spec_bytes(), pos) {
            None => r is None,
            Some(range) => r matches Some(l) && l@ == (LocationModel { uri: uri@, range }),
        },
{
    let ghost b = text.spec_bytes();
    let offset = position_to_offset(text, pos);
    let token = match token_at_offset(text, offset) {
        Some(t) => t,
        None => {
            return None;
        },
    };
    proof {
        lemma_next_covering_in_bounds(b, offset as int);
    }
    let name_start = match token.kind {
        TokenKind::Variable => token.start + 1,
        TokenKind::Ident => token.start,
        _ => {
            return None;
        },
    };
    let bindings = find_bindings(text);
    proof {
        lemma_spec_bindings_in_bounds(b);
        assert forall|q: int| 0 <= q < bindings@.len() implies (#[trigger] bindings@[q]).name_start
            <= bindings@[q].name_end <= b.len() by {
            assert(bindings_view(bindings@)[q] == bindings@[q]@);
        }
    }
    match find_binding_named(&bindings, text.as_bytes(), name_start, token.end) {
        Some(j) => {
            let bd = &bindings[j];
            Some(
                Location {
                    uri: String::from_str(uri),
                    range: Range::new(
                        offset_to_position(text, bd.name_start),
                        offset_to_position(text, bd.name_end),
                    ),
                },
            )
        },
        None => None,
    }
}

/// The token that covers a byte lies within the text.
proof fn lemma_next_covering_in_bounds(b: Seq<u8>, o: int)
    requires
        sliceable_through(b, 0, o),
    ensures
        token_at(b, o) matches Some((k, s, e)) ==> 0 <= s < e <= b.len(),
{
    lemma_covering_in_bounds(b, 0, o);
}

proof fn lemma_covering_in_bounds(b: Seq<u8>, pos: int, o: int)
    requires
        0 <= pos,
        sliceable_through(b, pos, o),
    ensures
        spec_token_covering(b, pos, o) matches Some((k, s, e)) ==> pos <= s < e <= b.len(),
    decreases b.len() - pos,
{
    crate::lexer::lemma_next_span_progress(b, pos);
    match crate::lexer::spec_next_span(b, pos) {
        None => {},
        Some((k, s, e)) => {
            if !(s <= o < e) && pos < e <= b.len() {
                lemma_covering_in_bounds(b, e, o);
            }
        },
    }
}

} // verus!
