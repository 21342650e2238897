//! Streaming character matchers ("props").
//!
//! A matcher is fed a sliding window over the input, the most recent
//! character first.  At each step it answers `Some(n)` to commit `n` more
//! characters to the match (possibly `0`, to say "keep going"), or `None`
//! to stop.  The span of a match is the sum of all committed counts.
use crate::text::str_chars;
use vstd::prelude::*;
use vstd::string::StringSliceAdditionalSpecFns;

verus! {

/// A window over the input, most recent character first.
pub type Range<'a> = &'a [char];

/// The length, in characters, of a match.
pub type Span = usize;

// ---------------------------------------------------------------------------
// Character classes
// ---------------------------------------------------------------------------

/// A class of characters, tested one character at a time.
pub trait CharPredicate {
    spec fn holds(&self, c: char) -> bool;

    fn test(&self, c: char) -> (r: bool)
        ensures
            r == self.holds(c),
    ;
}

/// Whether a character has the Unicode `White_Space` property, which
/// `char::is_whitespace` answers: tab, line feed, vertical tab, form feed,
/// carriage return, space, next line, no-break space, ogham space mark, the
/// spaces from en quad to hair space, line and paragraph separators, narrow
/// no-break space, medium mathematical space and ideographic space.
pub open spec fn spec_is_whitespace(c: char) -> bool {
    let u = c as u32;
    ||| (0x09 <= u && u <= 0x0d)
    ||| u == 0x20
    ||| u == 0x85
    ||| u == 0xa0
    ||| u == 0x1680
    ||| (0x2000 <= u && u <= 0x200a)
    ||| u == 0x2028
    ||| u == 0x2029
    ||| u == 0x202f
    ||| u == 0x205f
    ||| u == 0x3000
}

/// What `char::is_alphabetic` answers for a character (the Unicode
/// `Alphabetic` property).
pub uninterp spec fn spec_is_alphabetic(c: char) -> bool;

/// Whether `c` has the Unicode `White_Space` property (what
/// `char::is_whitespace` answers), by its code point.
pub(crate) fn char_is_whitespace(c: char) -> (r: bool)
    ensures
        r == spec_is_whitespace(c),
{
    let u = c as u32;
    (0x09 <= u && u <= 0x0d) || u == 0x20 || u == 0x85 || u == 0xa0 || u == 0x1680 || (0x2000 <= u
        && u <= 0x200a) || u == 0x2028 || u == 0x2029 || u == 0x202f || u == 0x205f || u == 0x3000
}

/// Calls `char::is_alphabetic`; its answer is named `spec_is_alphabetic`,
/// a function of the character alone.
#[verifier::external_body]
pub(crate) fn char_is_alphabetic(c: char) -> (r: bool)
    ensures
        r == spec_is_alphabetic(c),
{
    c.is_alphabetic()
}

/// An ASCII decimal digit, `'0'..='9'`.
pub open spec fn spec_is_ascii_digit(c: char) -> bool {
    '0' <= c && c <= '9'
}

/// ASCII punctuation: `!"#$%&'()*+,-./`, `:;<=>?@`, `[\]^_` and a backquote, `{|}~`.
pub open spec fn spec_is_ascii_punctuation(c: char) -> bool {
    ||| ('!' <= c && c <= '/')
    ||| (':' <= c && c <= '@')
    ||| ('[' <= c && c <= '`')
    ||| ('{' <= c && c <= '~')
}

/// `char::is_ascii_digit`, which is also `char::is_digit(10)`.
pub fn is_ascii_digit(c: char) -> (r: bool)
    ensures
        r == spec_is_ascii_digit(c),
{
    '0' <= c && c <= '9'
}

/// `char::is_ascii_punctuation`.
pub fn is_ascii_punctuation(c: char) -> (r: bool)
    ensures
        r == spec_is_ascii_punctuation(c),
{
    ('!' <= c && c <= '/') || (':' <= c && c <= '@') || ('[' <= c && c <= '`') || ('{' <= c
        && c <= '~')
}

/// Whitespace characters.
#[derive(Clone, Copy, Debug)]
pub struct IsWhitespace;

/// ASCII decimal digits.
#[derive(Clone, Copy, Debug)]
pub struct IsAsciiDigit;

/// ASCII punctuation.
#[derive(Clone, Copy, Debug)]
pub struct IsAsciiPunctuation;

impl CharPredicate for IsWhitespace {
    open spec fn holds(&self, c: char) -> bool {
        spec_is_whitespace(c)
    }

    fn test(&self, c: char) -> (r: bool) {
        char_is_whitespace(c)
    }
}

impl CharPredicate for IsAsciiDigit {
    open spec fn holds(&self, c: char) -> bool {
        spec_is_ascii_digit(c)
    }

    fn test(&self, c: char) -> (r: bool) {
        is_ascii_digit(c)
    }
}

impl CharPredicate for IsAsciiPunctuation {
    open spec fn holds(&self, c: char) -> bool {
        spec_is_ascii_punctuation(c)
    }

    fn test(&self, c: char) -> (r: bool) {
        is_ascii_punctuation(c)
    }
}

/// Decorations on characters.
pub trait CharDeco {
    /// Is this an ASCII decimal digit (`is_digit(10)`)?
    fn d10(self) -> (r: bool)
        where Self: Sized,
    ;
}

impl CharDeco for char {
    fn d10(self) -> (r: bool)
        ensures
            r == spec_is_ascii_digit(self),
    {
        is_ascii_digit(self)
    }
}

// ---------------------------------------------------------------------------
// The matcher interface and the match loop
// ---------------------------------------------------------------------------

/// A streaming matcher: a state machine over windows of characters.
///
/// Its behaviour is stated over `Model`, the state it is in.
pub trait Prop: Sized {
    type Model;

    /// The state this matcher is in.
    spec fn model(&self) -> Self::Model;

    /// The windows on which `prop` may be called in state `m`.
    spec fn prop_requires(m: Self::Model, range: Seq<char>) -> bool;

    /// The answer of `prop` on `range` in state `m`.
    spec fn output(m: Self::Model, range: Seq<char>) -> Option<usize>;

    /// The state after `prop` on `range` in state `m`.
    spec fn next_model(m: Self::Model, range: Seq<char>) -> Self::Model;

    /// Feed one window (most recent character first).
    fn prop(&mut self, range: &[char]) -> (r: Option<usize>)
        requires
            Self::prop_requires(old(self).model(), range@),
        ensures
            r == Self::output(old(self).model(), range@),
            final(self).model() == Self::next_model(old(self).model(), range@),
    ;

    /// A matcher in the same state as this one, to restart from.
    fn renew(&self) -> (r: Self)
        ensures
            r.model() == self.model(),
    ;
}

/// The window after reading `c`: `c` in front, the oldest character dropped.
pub open spec fn shift_in(window: Seq<char>, c: char) -> Seq<char> {
    seq![c] + window.take(window.len() - 1)
}

/// The window before anything was read: `N` default characters.
pub open spec fn empty_window(n: nat) -> Seq<char> {
    Seq::new(n, |i: int| '\0')
}

/// Whether every step of a run from state `m` over `inp`, from `window`, is allowed.
pub open spec fn run_ok<P: Prop>(m: P::Model, window: Seq<char>, inp: Seq<char>) -> bool
    decreases inp.len(),
{
    if inp.len() == 0 {
        true
    } else {
        let w = shift_in(window, inp[0]);
        P::prop_requires(m, w) && match P::output(m, w) {
            None => true,
            Some(n) => run_ok::<P>(P::next_model(m, w), w, inp.drop_first()),
        }
    }
}

/// The span matched by a run from state `m` over `inp`, from `window`: the sum
/// of the committed counts until the matcher stops or the input ends.
pub open spec fn run_span<P: Prop>(m: P::Model, window: Seq<char>, inp: Seq<char>) -> nat
    decreases inp.len(),
{
    if inp.len() == 0 {
        0
    } else {
        let w = shift_in(window, inp[0]);
        match P::output(m, w) {
            None => 0,
            Some(n) => n as nat + run_span::<P>(P::next_model(m, w), w, inp.drop_first()),
        }
    }
}

/// The state after a run from state `m` over `inp`, from `window`.
pub open spec fn run_state<P: Prop>(m: P::Model, window: Seq<char>, inp: Seq<char>) -> P::Model
    decreases inp.len(),
{
    if inp.len() == 0 {
        m
    } else {
        let w = shift_in(window, inp[0]);
        match P::output(m, w) {
            None => P::next_model(m, w),
            Some(n) => run_state::<P>(P::next_model(m, w), w, inp.drop_first()),
        }
    }
}

/// What `match_str::<N>` answers for a matcher in state `m` on `inp`.
pub open spec fn spec_match<P: Prop>(n: nat, m: P::Model, inp: Seq<char>) -> nat {
    run_span::<P>(m, empty_window(n), inp)
}

/// Running a matcher over a whole input.
pub trait MatchExt: Prop {
    /// Feed `inp` to `p` through an `N`-window and return the span matched.
    fn match_range<const N: usize>(&mut self, inp: &[char]) -> (span: Span)
        requires
            N >= 1,
            run_ok::<Self>(old(self).model(), empty_window(N as nat), inp@),
            run_span::<Self>(old(self).model(), empty_window(N as nat), inp@) <= usize::MAX,
        ensures
            span == run_span::<Self>(old(self).model(), empty_window(N as nat), inp@),
            final(self).model() == run_state::<Self>(old(self).model(), empty_window(N as nat), inp@),
    {
        let mut buf = Buffer::<N, char>::new();
        let mut span: usize = 0;
        let mut i: usize = 0;
        let ghost p0 = self.model();
        let ghost w0 = buf.range@;
        assert(w0 =~= empty_window(N as nat));
        assert(inp@.skip(0) =~= inp@);
        while i < inp.len()
            invariant
                N >= 1,
                i <= inp.len(),
                buf.range@.len() == N,
                run_ok::<Self>(self.model(), buf.range@, inp@.skip(i as int)),
                span + run_span::<Self>(self.model(), buf.range@, inp@.skip(i as int)) == run_span::<Self>(
                    p0,
                    w0,
                    inp@,
                ),
                run_state::<Self>(self.model(), buf.range@, inp@.skip(i as int)) == run_state::<Self>(
                    p0,
                    w0,
                    inp@,
                ),
                run_ok::<Self>(p0, w0, inp@),
                run_span::<Self>(p0, w0, inp@) <= usize::MAX,
                w0 == empty_window(N as nat),
                p0 == old(self).model(),
            decreases inp.len() - i,
        {
            let ghost rest = inp@.skip(i as int);
            let ghost p_before = self.model();
            let ghost w_before = buf.range@;
            assert(rest[0] == inp@[i as int]);
            assert(rest.drop_first() =~= inp@.skip(i + 1));
            buf.read_one(Some(inp[i]));
            assert(buf.range@ == shift_in(w_before, rest[0]));
            match self.prop(buf.range.as_slice()) {
                Some(n) => {
                    span = span + n;
                },
                None => {
                    return span;
                },
            }
            i = i + 1;
        }
        assert(inp@.skip(i as int).len() == 0);
        span
    }

    /// Feed the characters of `inp` to `p` through an `N`-window and return the
    /// span matched.
    fn match_str<const N: usize>(&mut self, inp: &str) -> (span: Span)
        requires
            N >= 1,
            run_ok::<Self>(old(self).model(), empty_window(N as nat), inp@),
            run_span::<Self>(old(self).model(), empty_window(N as nat), inp@) <= usize::MAX,
        ensures
            span == run_span::<Self>(old(self).model(), empty_window(N as nat), inp@),
            final(self).model() == run_state::<Self>(old(self).model(), empty_window(N as nat), inp@),
    {
        let chars = str_chars(inp);
        self.match_range::<N>(chars.as_slice())
    }
}

impl<P: Prop> MatchExt for P {}

// ---------------------------------------------------------------------------
// The window buffer
// ---------------------------------------------------------------------------

/// The last `N` items read, most recent first.
#[derive(Debug)]
pub struct Buffer<const N: usize, T> {
    pub range: Vec<T>,
}

impl<const N: usize> Buffer<N, char> {
    /// A window of `N` default characters.
    pub fn new() -> (r: Self)
        ensures
            r.range@ == empty_window(N as nat),
    {
        let mut range: Vec<char> = Vec::new();
        let mut k: usize = 0;
        while k < N
            invariant
                k <= N,
                range@ == empty_window(k as nat),
            decreases N - k,
        {
            range.push('\0');
            k = k + 1;
            assert(range@ =~= empty_window(k as nat));
        }
        Buffer { range }
    }

    /// Read the next item of the input, if there is one: it enters the
    /// window in front and the oldest item leaves.  Answers whether an item
    /// was read.
    pub fn read_one(&mut self, item: Option<char>) -> (r: bool)
        requires
            N >= 1,
            old(self).range@.len() == N,
        ensures
            r == item.is_some(),
            final(self).range@.len() == N,
            item matches Some(c) ==> final(self).range@ == shift_in(old(self).range@, c),
            item is None ==> final(self).range@ == old(self).range@,
    {
        match item {
            Some(c) => {
                let ghost old_range = self.range@;
                let mut n: usize = 0;
                while n < N - 1
                    invariant
                        N >= 1,
                        n <= N - 1,
                        self.range@.len() == N,
                        forall|k: int|
                            0 <= k < N - n ==> #[trigger] self.range@[k] == old_range[k],
                        forall|k: int|
                            N - n <= k < N ==> #[trigger] self.range@[k] == old_range[k - 1],
                    decreases N - 1 - n,
                {
                    let m = (N - 1) - n;
                    let prev = self.range[m - 1];
                    self.range.set(m, prev);
                    n = n + 1;
                }
                self.range.set(0, c);
                assert(self.range@ =~= shift_in(old_range, c));
                true
            },
            None => false,
        }
    }
}

// ---------------------------------------------------------------------------
// Single characters
// ---------------------------------------------------------------------------

/// A character matches itself, once: after a match it turns into the null
/// character, which matches nothing.
impl Prop for char {
    type Model = char;

    open spec fn model(&self) -> char {
        *self
    }

    open spec fn prop_requires(m: char, range: Seq<char>) -> bool {
        true
    }

    open spec fn output(m: char, range: Seq<char>) -> Option<usize> {
        if (m as u32) % 256 == 0 {
            None
        } else if range.len() > 0 && range[0] == m {
            Some(1)
        } else {
            None
        }
    }

    open spec fn next_model(m: char, range: Seq<char>) -> char {
        if (m as u32) % 256 != 0 && range.len() > 0 && range[0] == m {
            '\0'
        } else {
            m
        }
    }

    fn prop(&mut self, range: &[char]) -> (r: Option<usize>) {
        if (*self as u32) % 256 == 0 {
            None
        } else if range.len() > 0 && range[0] == *self {
            *self = '\0';
            Some(1)
        } else {
            None
        }
    }

    fn renew(&self) -> (r: Self) {
        *self
    }
}

// ---------------------------------------------------------------------------
// fn_ / fnr: a run of characters of a class
// ---------------------------------------------------------------------------

/// Matches one character of a class per step; stops at the first one outside it.
#[derive(Clone, Copy, Debug)]
pub struct FnProp<F> {
    pub f: F,
}

impl<F: CharPredicate + Copy> Prop for FnProp<F> {
    type Model = F;

    open spec fn model(&self) -> F {
        self.f
    }

    open spec fn prop_requires(m: F, range: Seq<char>) -> bool {
        true
    }

    open spec fn output(m: F, range: Seq<char>) -> Option<usize> {
        if range.len() > 0 && m.holds(range[0]) {
            Some(1)
        } else {
            None
        }
    }

    open spec fn next_model(m: F, range: Seq<char>) -> F {
        m
    }

    fn prop(&mut self, range: &[char]) -> (r: Option<usize>) {
        if range.len() > 0 && self.f.test(range[0]) {
            Some(1)
        } else {
            None
        }
    }

    fn renew(&self) -> (r: Self) {
        FnProp { f: self.f }
    }
}

/// A matcher for a run of characters for which `f` holds.
pub fn fn_<F: CharPredicate + Copy>(f: F) -> (r: FnProp<F>)
    ensures
        r.model() == f,
{
    FnProp { f }
}

/// A matcher for a run of characters for which `f` holds; the same matcher
/// as [`fn_`], for predicates written over a borrowed character.
pub fn fnr<F: CharPredicate + Copy>(f: F) -> (r: FnProp<F>)
    ensures
        r.model() == f,
{
    fn_(f)
}

// ---------------------------------------------------------------------------
// exact: a fixed string
// ---------------------------------------------------------------------------

/// Matches a fixed string, one character per step.  Each step consumes the
/// next expected character, matched or not.  It commits nothing until the
/// match is complete, then commits the whole length at once.
pub struct Exact {
    chars: Vec<char>,
    i: usize,
    n: usize,
    len: usize,
}

/// The state of an `Exact` matcher: the expected characters, how many of
/// them were consumed, how many matched, and the byte length of the string.
pub struct ExactModel {
    pub chars: Seq<char>,
    pub i: nat,
    pub n: nat,
    pub len: nat,
}

impl Prop for Exact {
    type Model = ExactModel;

    closed spec fn model(&self) -> ExactModel {
        ExactModel { chars: self.chars@, i: self.i as nat, n: self.n as nat, len: self.len as nat }
    }

    open spec fn prop_requires(m: ExactModel, range: Seq<char>) -> bool {
        m.n <= m.i <= m.chars.len()
    }

    open spec fn output(m: ExactModel, range: Seq<char>) -> Option<usize> {
        if m.i < m.chars.len() && range.len() > 0 && range[0] == m.chars[m.i as int] {
            Some(
                if m.n + 1 == m.len {
                    (m.n + 1) as usize
                } else {
                    0
                },
            )
        } else {
            None
        }
    }

    open spec fn next_model(m: ExactModel, range: Seq<char>) -> ExactModel {
        if m.i < m.chars.len() {
            ExactModel {
                i: m.i + 1,
                n: if range.len() > 0 && range[0] == m.chars[m.i as int] {
                    m.n + 1
                } else {
                    m.n
                },
                ..m
            }
        } else {
            m
        }
    }

    fn prop(&mut self, range: &[char]) -> (r: Option<usize>) {
        if self.i < self.chars.len() {
            let x = self.chars[self.i];
            self.i = self.i + 1;
            if range.len() > 0 && range[0] == x {
                self.n = self.n + 1;
                if self.n == self.len {
                    Some(self.n)
                } else {
                    Some(0)
                }
            } else {
                None
            }
        } else {
            None
        }
    }

    fn renew(&self) -> (r: Self) {
        Exact { chars: copy_chars(&self.chars), i: self.i, n: self.n, len: self.len }
    }
}

/// A copy of a vector of characters.
fn copy_chars(v: &Vec<char>) -> (r: Vec<char>)
    ensures
        r@ == v@,
{
    let mut r: Vec<char> = Vec::new();
    let mut k: usize = 0;
    while k < v.len()
        invariant
            k <= v.len(),
            r@ == v@.take(k as int),
        decreases v.len() - k,
    {
        r.push(v[k]);
        k = k + 1;
        assert(r@ =~= v@.take(k as int));
    }
    assert(v@.take(k as int) =~= v@);
    r
}

/// A matcher for exactly the string `s`.
pub fn exact(s: &str) -> (r: Exact)
    ensures
        r.model() == (ExactModel { chars: s@, i: 0, n: 0, len: s.len() as nat }),
{
    Exact { chars: str_chars(s), i: 0, n: 0, len: s.len() }
}

// ---------------------------------------------------------------------------
// one_of: one character out of a set
// ---------------------------------------------------------------------------

/// Matches one character out of a set, in its first step only.
pub struct OneOf {
    set: Vec<char>,
    done: bool,
}

/// The state of a `OneOf` matcher: the set, and whether the step was taken.
pub struct OneOfModel {
    pub set: Seq<char>,
    pub done: bool,
}

impl Prop for OneOf {
    type Model = OneOfModel;

    closed spec fn model(&self) -> OneOfModel {
        OneOfModel { set: self.set@, done: self.done }
    }

    open spec fn prop_requires(m: OneOfModel, range: Seq<char>) -> bool {
        !m.done ==> range.len() > 0
    }

    open spec fn output(m: OneOfModel, range: Seq<char>) -> Option<usize> {
        if m.done {
            None
        } else if m.set.contains(range[0]) {
            Some(1)
        } else {
            None
        }
    }

    open spec fn next_model(m: OneOfModel, range: Seq<char>) -> OneOfModel {
        OneOfModel { done: true, ..m }
    }

    fn prop(&mut self, range: &[char]) -> (r: Option<usize>) {
        if self.done {
            None
        } else {
            self.done = true;
            if contains_char(&self.set, range[0]) {
                Some(1)
            } else {
                None
            }
        }
    }

    fn renew(&self) -> (r: Self) {
        OneOf { set: copy_chars(&self.set), done: self.done }
    }
}

/// Whether `c` occurs in `v`.
fn contains_char(v: &Vec<char>, c: char) -> (r: bool)
    ensures
        r == v@.contains(c),
{
    let mut k: usize = 0;
    while k < v.len()
        invariant
            k <= v@.len(),
            forall|j: int| 0 <= j < k ==> v@[j] != c,
        decreases v@.len() - k,
    {
        if v[k] == c {
            assert(v@[k as int] == c);
            return true;
        }
        k = k + 1;
    }
    false
}

/// A matcher for one character of `set`.
pub fn one_of(set: &str) -> (r: OneOf)
    ensures
        r.model() == (OneOfModel { set: set@, done: false }),
{
    OneOf { set: str_chars(set), done: false }
}

// ---------------------------------------------------------------------------
// either: the longer of two matches
// ---------------------------------------------------------------------------

/// Runs two matchers side by side and commits as far as the one that got
/// furthest; stops when both have stopped.
pub struct Either<A, B> {
    a: A,
    b: B,
    pos_a: Option<usize>,
    pos_b: Option<usize>,
    pos: usize,
}

/// The state of an `Either` matcher: both inner states, how far each has
/// committed (`None` once it stopped), and how far the pair has committed.
pub struct EitherModel<MA, MB> {
    pub a: MA,
    pub b: MB,
    pub pos_a: Option<usize>,
    pub pos_b: Option<usize>,
    pub pos: usize,
}

/// The larger of two integers.
pub open spec fn spec_max(x: int, y: int) -> int {
    if x >= y {
        x
    } else {
        y
    }
}

/// How far an `Either` pair has committed after a step on `range`.
pub open spec fn either_reach<A: Prop, B: Prop>(
    m: EitherModel<A::Model, B::Model>,
    range: Seq<char>,
) -> int {
    let ca: int = match m.pos_a {
        Some(pa) => match A::output(m.a, range) {
            Some(n) => spec_max(m.pos as int, pa + n),
            None => m.pos as int,
        },
        None => m.pos as int,
    };
    match m.pos_b {
        Some(pb) => match B::output(m.b, range) {
            Some(n) => spec_max(m.pos as int, pb + n),
            None => ca,
        },
        None => ca,
    }
}

/// Where a side of an `Either` pair stands after a step: its new commitment,
/// or `None` once it stopped.
pub open spec fn side_pos(pos: Option<usize>, out: Option<usize>) -> Option<usize> {
    match pos {
        Some(p) => match out {
            Some(n) => Some((p + n) as usize),
            None => None,
        },
        None => None,
    }
}

impl<A: Prop, B: Prop> Prop for Either<A, B> {
    type Model = EitherModel<A::Model, B::Model>;

    closed spec fn model(&self) -> Self::Model {
        EitherModel {
            a: self.a.model(),
            b: self.b.model(),
            pos_a: self.pos_a,
            pos_b: self.pos_b,
            pos: self.pos,
        }
    }

    open spec fn prop_requires(m: Self::Model, range: Seq<char>) -> bool {
        &&& m.pos_a matches Some(pa) ==> A::prop_requires(m.a, range) && (A::output(
            m.a,
            range,
        ) matches Some(n) ==> pa + n <= usize::MAX)
        &&& m.pos_b matches Some(pb) ==> B::prop_requires(m.b, range) && (B::output(
            m.b,
            range,
        ) matches Some(n) ==> pb + n <= usize::MAX)
    }

    open spec fn output(m: Self::Model, range: Seq<char>) -> Option<usize> {
        let na = if m.pos_a is Some { A::output(m.a, range) } else { None };
        let nb = if m.pos_b is Some { B::output(m.b, range) } else { None };
        if side_pos(m.pos_a, na) is Some || side_pos(m.pos_b, nb) is Some {
            Some((either_reach::<A, B>(m, range) - m.pos) as usize)
        } else {
            None
        }
    }

    open spec fn next_model(m: Self::Model, range: Seq<char>) -> Self::Model {
        let na = if m.pos_a is Some { A::output(m.a, range) } else { None };
        let nb = if m.pos_b is Some { B::output(m.b, range) } else { None };
        EitherModel {
            a: if m.pos_a is Some { A::next_model(m.a, range) } else { m.a },
            b: if m.pos_b is Some { B::next_model(m.b, range) } else { m.b },
            pos_a: side_pos(m.pos_a, na),
            pos_b: side_pos(m.pos_b, nb),
            pos: either_reach::<A, B>(m, range) as usize,
        }
    }

    fn prop(&mut self, range: &[char]) -> (r: Option<usize>) {
        let mut c = self.pos;
        match self.pos_a {
            Some(pa) => match self.a.prop(range) {
                Some(n) => {
                    let p = pa + n;
                    self.pos_a = Some(p);
                    c = if self.pos >= p { self.pos } else { p };
                },
                None => {
                    self.pos_a = None;
                },
            },
            None => {},
        }
        match self.pos_b {
            Some(pb) => match self.b.prop(range) {
                Some(n) => {
                    let p = pb + n;
                    self.pos_b = Some(p);
                    c = if self.pos >= p { self.pos } else { p };
                },
                None => {
                    self.pos_b = None;
                },
            },
            None => {},
        }
        let n = c - self.pos;
        self.pos = c;
        if self.pos_a.is_some() || self.pos_b.is_some() {
            Some(n)
        } else {
            None
        }
    }

    fn renew(&self) -> (r: Self) {
        Either {
            a: self.a.renew(),
            b: self.b.renew(),
            pos_a: self.pos_a,
            pos_b: self.pos_b,
            pos: self.pos,
        }
    }
}

/// A matcher that runs `a` and `b` side by side and matches as far as the
/// longer of the two.
pub fn either<A: Prop, B: Prop>(a: A, b: B) -> (r: Either<A, B>)
    ensures
        r.model() == (EitherModel {
            a: a.model(),
            b: b.model(),
            pos_a: Some(0usize),
            pos_b: Some(0usize),
            pos: 0usize,
        }),
{
    Either { a, b, pos_a: Some(0), pos_b: Some(0), pos: 0 }
}

// ---------------------------------------------------------------------------
// one_and_any: one `a`, then any number of `b`
// ---------------------------------------------------------------------------

/// Matches `a` until it has matched something, then only `b`, repeatedly:
/// each time `b` stops, a fresh copy of the prototype is tried on the same
/// window.
pub struct OneAndAny<A, B> {
    a: A,
    b: B,
    proto: B,
    s: u8,
}

/// The state of a `OneAndAny` matcher: both inner states, the prototype of
/// `b`, and the phase (0: `a` has not committed yet, 1: `a` has committed,
/// 2: `b` has taken over).
pub struct OneAndAnyModel<MA, MB> {
    pub a: MA,
    pub b: MB,
    pub proto: MB,
    pub s: u8,
}

impl<A: Prop, B: Prop> Prop for OneAndAny<A, B> {
    type Model = OneAndAnyModel<A::Model, B::Model>;

    closed spec fn model(&self) -> Self::Model {
        OneAndAnyModel { a: self.a.model(), b: self.b.model(), proto: self.proto.model(), s: self.s }
    }

    open spec fn prop_requires(m: Self::Model, range: Seq<char>) -> bool {
        if m.s == 0 {
            A::prop_requires(m.a, range)
        } else if m.s == 1 {
            B::prop_requires(m.b, range)
        } else {
            B::prop_requires(m.b, range) && (B::output(m.b, range) is None ==> B::prop_requires(
                m.proto,
                range,
            ))
        }
    }

    open spec fn output(m: Self::Model, range: Seq<char>) -> Option<usize> {
        if m.s == 0 {
            A::output(m.a, range)
        } else if m.s == 1 {
            B::output(m.b, range)
        } else {
            match B::output(m.b, range) {
                Some(n) => Some(n),
                None => B::output(m.proto, range),
            }
        }
    }

    open spec fn next_model(m: Self::Model, range: Seq<char>) -> Self::Model {
        if m.s == 0 {
            OneAndAnyModel {
                a: A::next_model(m.a, range),
                s: if A::output(m.a, range) matches Some(c) && c > 0 {
                    1u8
                } else {
                    0u8
                },
                ..m
            }
        } else if m.s == 1 {
            OneAndAnyModel {
                b: B::next_model(m.b, range),
                s: if B::output(m.b, range) is Some {
                    2u8
                } else {
                    1u8
                },
                ..m
            }
        } else {
            match B::output(m.b, range) {
                Some(n) => OneAndAnyModel { b: B::next_model(m.b, range), ..m },
                None => OneAndAnyModel { b: B::next_model(m.proto, range), ..m },
            }
        }
    }

    fn prop(&mut self, range: &[char]) -> (r: Option<usize>) {
        if self.s == 0 {
            let r = self.a.prop(range);
            match r {
                Some(c) => {
                    if c > 0 {
                        self.s = 1;
                    }
                },
                None => {},
            }
            r
        } else if self.s == 1 {
            let r = self.b.prop(range);
            if r.is_some() {
                self.s = 2;
            }
            r
        } else {
            match self.b.prop(range) {
                Some(n) => Some(n),
                None => {
                    self.b = self.proto.renew();
                    self.b.prop(range)
                },
            }
        }
    }

    fn renew(&self) -> (r: Self) {
        OneAndAny { a: self.a.renew(), b: self.b.renew(), proto: self.proto.renew(), s: self.s }
    }
}

/// A matcher for one `a` followed by any number of matches of `make_b`
/// (each a fresh copy of it).
pub fn one_and_any<A: Prop, B: Prop>(a: A, make_b: B) -> (r: OneAndAny<A, B>)
    ensures
        r.model() == (OneAndAnyModel {
            a: a.model(),
            b: make_b.model(),
            proto: make_b.model(),
            s: 0u8,
        }),
{
    let b = make_b.renew();
    OneAndAny { a, b, proto: make_b, s: 0 }
}

/// A matcher for any number of matches of `make_b` (each a fresh copy).
pub fn any<B: Prop>(make_b: B) -> (r: OneAndAny<B, B>)
    ensures
        r.model() == (OneAndAnyModel {
            a: make_b.model(),
            b: make_b.model(),
            proto: make_b.model(),
            s: 0u8,
        }),
{
    let a = make_b.renew();
    one_and_any(a, make_b)
}

// ---------------------------------------------------------------------------
// fat: raw strings
// ---------------------------------------------------------------------------

/// Matches a raw string `r#..#"..."#..#` (any number of hashes, the same
/// number to close) or a plain `"..."`.  It commits characters of the
/// content as they are known not to close the string, and the delimiters
/// when it closes.
pub struct Fat {
    h: usize,
    state: u8,
    j: usize,
    nr: usize,
}

/// The state of a `Fat` matcher: the number of opening hashes `h`, the phase
/// (0: start, 1: opening hashes, 2: content, 3: closing hashes, 4: done), the
/// number of closing hashes still awaited `j`, and the length of the prefix
/// (`1` for `r`, `0` for none).
pub struct FatModel {
    pub h: nat,
    pub state: u8,
    pub j: nat,
    pub nr: nat,
}

/// One step of the raw string machine on the character `a`: the new state
/// and the answer.
pub open spec fn fat_step(m: FatModel, a: char) -> (FatModel, Option<usize>) {
    if m.state == 0 && a == 'r' {
        (FatModel { h: 0, nr: 1, state: 1, ..m }, Some(0))
    } else if m.state == 0 && a == '"' {
        (FatModel { h: 0, nr: 0, state: 2, ..m }, Some(0))
    } else if m.state == 1 && a == '#' {
        (FatModel { h: m.h + 1, ..m }, Some(0))
    } else if m.state == 1 && a == '"' {
        (FatModel { state: 2, j: m.h, ..m }, Some(0))
    } else if m.state == 2 && a == '"' && m.h == 0 {
        (FatModel { state: 4, ..m }, Some((m.nr + 2) as usize))
    } else if m.state == 2 && a == '"' {
        (FatModel { state: 3, ..m }, Some(0))
    } else if m.state == 2 {
        (m, Some(1))
    } else if m.state == 3 && a == '"' {
        (FatModel { j: m.h, ..m }, Some((1 + (m.h - m.j)) as usize))
    } else if m.state == 3 && a == '#' && m.j > 1 {
        (FatModel { j: (m.j - 1) as nat, ..m }, Some(0))
    } else if m.state == 3 && a == '#' && m.j == 1 {
        (FatModel { state: 4, ..m }, Some((2 * m.h + 3) as usize))
    } else if m.state == 3 {
        (FatModel { state: 2, j: m.h, ..m }, Some((2 + (m.h - m.j)) as usize))
    } else {
        (m, None)
    }
}

impl Prop for Fat {
    type Model = FatModel;

    closed spec fn model(&self) -> FatModel {
        FatModel { h: self.h as nat, state: self.state, j: self.j as nat, nr: self.nr as nat }
    }

    open spec fn prop_requires(m: FatModel, range: Seq<char>) -> bool {
        &&& range.len() > 0
        &&& m.j <= m.h
        &&& m.nr <= 1
        &&& 2 * m.h + 3 <= usize::MAX
    }

    open spec fn output(m: FatModel, range: Seq<char>) -> Option<usize> {
        fat_step(m, range[0]).1
    }

    open spec fn next_model(m: FatModel, range: Seq<char>) -> FatModel {
        fat_step(m, range[0]).0
    }

    fn prop(&mut self, range: &[char]) -> (r: Option<usize>) {
        let a = range[0];
        if self.state == 0 && a == 'r' {
            self.h = 0;
            self.nr = 1;
            self.state = 1;
            Some(0)
        } else if self.state == 0 && a == '"' {
            self.h = 0;
            self.nr = 0;
            self.state = 2;
            Some(0)
        } else if self.state == 1 && a == '#' {
            self.h = self.h + 1;
            Some(0)
        } else if self.state == 1 && a == '"' {
            self.state = 2;
            self.j = self.h;
            Some(0)
        } else if self.state == 2 && a == '"' && self.h == 0 {
            self.state = 4;
            Some(self.nr + 1 + 1)
        } else if self.state == 2 && a == '"' {
            self.state = 3;
            Some(0)
        } else if self.state == 2 {
            Some(1)
        } else if self.state == 3 && a == '"' {
            let n = self.h - self.j;
            self.j = self.h;
            Some(1 + n)
        } else if self.state == 3 && a == '#' && self.j > 1 {
            self.j = self.j - 1;
            Some(0)
        } else if self.state == 3 && a == '#' && self.j == 1 {
            self.state = 4;
            Some(1 + self.h + 1 + 1 + self.h)
        } else if self.state == 3 {
            let n = 1 + (self.h - self.j) + 1;
            self.state = 2;
            self.j = self.h;
            Some(n)
        } else {
            None
        }
    }

    fn renew(&self) -> (r: Self) {
        Fat { h: self.h, state: self.state, j: self.j, nr: self.nr }
    }
}

/// The raw string matcher, in its start state.
pub fn fat() -> (r: Fat)
    ensures
        r.model() == (FatModel { h: 0, state: 0, j: 0, nr: 0 }),
{
    Fat { h: 0, state: 0, j: 0, nr: 0 }
}

} // verus!
