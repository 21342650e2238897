//! Errors with a trace of the places they went through, each with comments.
use crate::compiler::{decimal, decimal_text};
use vstd::prelude::*;
use vstd::string::StringExecFns;

verus! {

/// The file of a trace frame.
pub type FileTrace = &'static str;

/// The line of a trace frame.
pub type LineTrace = u32;

/// The comments attached to a trace frame.
pub type Comments = Vec<String>;

/// A place an error went through, with comments.
pub type Frame = (FileTrace, LineTrace, Comments);

/// The places an error went through, first the innermost.
pub type Trace = Vec<Frame>;

/// An error of some kind, with its trace.
pub struct Error<Kind> {
    pub kind: Kind,
    pub trace: Trace,
}

/// A result whose error is an `Error` of kind `K`.
pub type Result<T, K> = core::result::Result<T, Error<K>>;

/// Conversion of a fallible value into a `Result` with a traced error.
pub trait IntoResult<K, T>: Sized {
    fn into_result(self) -> Result<T, K>;
}

impl<T, K> IntoResult<K, T> for Result<T, K> {
    /// A traced result is already one.
    fn into_result(self) -> (r: Result<T, K>)
        ensures
            r == self,
    {
        self
    }
}

impl<K> Error<K> {
    /// An error of kind `kind` with an empty trace.
    pub fn new(kind: K) -> (r: Self)
        ensures
            r.kind == kind,
            r.trace@.len() == 0,
    {
        Error { kind, trace: Vec::new() }
    }

    /// This error, with `msg` added to the comments of its first frame (if
    /// it has one).
    pub fn with_comment(self, msg: String) -> (r: Self)
        ensures
            r.kind == self.kind,
            commented(self.trace@, r.trace@, msg),
    {
        let mut e = self;
        e.comment(msg);
        e
    }

    /// Add `msg` to the comments of the first frame of the trace; an error
    /// without a trace is left as it is.
    pub fn comment(&mut self, msg: String)
        ensures
            final(self).kind == old(self).kind,
            commented(old(self).trace@, final(self).trace@, msg),
    {
        if self.trace.len() > 0 {
            let mut frame = self.trace.remove(0);
            frame.2.push(msg);
            self.trace.insert(0, frame);
        }
    }
}

/// The kinds of errors of the compiler.
pub enum ErrorKind {
    /// A fixed message.
    Msg(&'static str),
    /// A composed message.
    Message(String),
    /// A number that does not parse.
    ParseInt,
    /// Something that should have been there was not.
    Missing,
}

/// An error of the compiler.
pub type CompileError = Error<ErrorKind>;

/// A result of the compiler.
pub type CompileResult<T> = Result<T, ErrorKind>;

/// An error of the compiler with a fixed message and an empty trace.
pub fn msg_error(m: &'static str) -> (e: CompileError)
    ensures
        e.kind == ErrorKind::Msg(m),
        e.trace@.len() == 0,
{
    Error::new(ErrorKind::Msg(m))
}

/// `after` is `before` with `msg` added to the comments of its first frame,
/// when there is one; the same trace otherwise.
pub open spec fn commented(before: Seq<Frame>, after: Seq<Frame>, msg: String) -> bool {
    &&& after.len() == before.len()
    &&& forall|i: int| 1 <= i < before.len() ==> #[trigger] after[i] == before[i]
    &&& before.len() > 0 ==> {
        &&& after[0].0 == before[0].0
        &&& after[0].1 == before[0].1
        &&& after[0].2@ == before[0].2@.push(msg)
    }
}

// ---------------------------------------------------------------------------
// The trace as text
// ---------------------------------------------------------------------------

/// The lines of the comments of a frame, each marked as a comment.
pub open spec fn comments_text(cs: Seq<String>) -> Seq<char>
    decreases cs.len(),
{
    if cs.len() == 0 {
        Seq::empty()
    } else {
        comments_text(cs.subrange(0, cs.len() - 1)) + "    \x1b[38:5:246m[Comment]\x1b[m "@
            + cs[cs.len() - 1]@ + "\n"@
    }
}

/// A frame reads as a line naming its file and line, in colour, then its
/// comments.
pub open spec fn frame_text(f: Frame) -> Seq<char> {
    "[\x1b[38:5:125mERROR\x1b[m] \x1b[38:5:220m"@ + f.0@ + "\x1b[m:\x1b[38:5:172m"@
        + decimal_text(f.1 as nat) + "\x1b[m :: \n"@ + comments_text(f.2@)
}

/// A trace reads as its frames, in order.
pub open spec fn trace_text(t: Seq<Frame>) -> Seq<char>
    decreases t.len(),
{
    if t.len() == 0 {
        Seq::empty()
    } else {
        trace_text(t.subrange(0, t.len() - 1)) + frame_text(t[t.len() - 1])
    }
}

fn write_frame(f: &Frame, out: &mut String)
    ensures
        final(out)@ == old(out)@ + frame_text(*f),
{
    out.append("[\x1b[38:5:125mERROR\x1b[m] \x1b[38:5:220m");
    out.append(f.0);
    out.append("\x1b[m:\x1b[38:5:172m");
    let line = decimal(f.1 as usize);
    out.append(line.as_str());
    out.append("\x1b[m :: \n");
    let ghost head = out@;
    let cs = &f.2;
    let mut k: usize = 0;
    while k < cs.len()
        invariant
            k <= cs@.len(),
            out@ == head + comments_text(cs@.subrange(0, k as int)),
        decreases cs@.len() - k,
    {
        assert(cs@.subrange(0, k + 1).subrange(0, k as int) =~= cs@.subrange(0, k as int));
        out.append("    \x1b[38:5:246m[Comment]\x1b[m ");
        out.append(cs[k].as_str());
        out.append("\n");
        k = k + 1;
    }
    assert(cs@.subrange(0, cs@.len() as int) =~= cs@);
    assert(out@ =~= old(out)@ + frame_text(*f));
}

impl<K> Error<K> {
    /// The trace as text: for each frame, a line naming its file and line,
    /// in colour, then its comments. (The kind is for its own type to show.)
    pub fn trace_text(&self) -> (r: String)
        ensures
            r@ == trace_text(self.trace@),
    {
        let mut r = String::new();
        let mut k: usize = 0;
        while k < self.trace.len()
            invariant
                k <= self.trace@.len(),
                r@ == trace_text(self.trace@.subrange(0, k as int)),
            decreases self.trace@.len() - k,
        {
            assert(self.trace@.subrange(0, k + 1).subrange(0, k as int) =~= self.trace@.subrange(
                0,
                k as int,
            ));
            write_frame(&self.trace[k], &mut r);
            k = k + 1;
        }
        assert(self.trace@.subrange(0, self.trace@.len() as int) =~= self.trace@);
        r
    }
}

} // verus!
