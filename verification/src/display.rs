//! Rendering invocations and their parts back to text.
use vstd::prelude::*;
use vstd::string::StringExecFns;
use crate::ast::{
    AbsPath, Dereference, HomePath, Invocation, InvocationArg, InvocationCwd, InvocationTarget,
    InvocationTargetDereference, InvocationTargetInvocation, InvocationTargetLocal,
    InvocationTargetSystemName, InvocationTargetSystemPath, LongOpt, Natural, Opt, Path, Range,
    Redirect, RedirectInput, RedirectOutput, RelPath, ShortOpt, Slice, StringLit, Variable, Word,
};

verus! {

// ---------------------------------------------------------------------------
// What each piece reads as
// ---------------------------------------------------------------------------

/// A path reads as its text.
pub open spec fn path_text(p: Path) -> Seq<char> {
    match p {
        Path::AbsPath(AbsPath((t,))) => t@,
        Path::RelPath(RelPath((t,))) => t@,
        Path::HomePath(HomePath((t,))) => t@,
    }
}

/// An option reads as its text.
pub open spec fn opt_text(o: Opt) -> Seq<char> {
    match o {
        Opt::ShortOpt(ShortOpt((t,))) => t@,
        Opt::LongOpt(LongOpt((t,))) => t@,
    }
}

/// A variable reads as `$name`.
pub open spec fn variable_text(v: Variable) -> Seq<char> {
    seq!['$'] + v.0.0@
}

/// A dereference reads as `*name`.
pub open spec fn dereference_text(d: Dereference) -> Seq<char> {
    seq!['*'] + d.0.0@
}

/// Doc comments read as one line each.
pub open spec fn comments_text(lines: Seq<&str>) -> Seq<char>
    decreases lines.len(),
{
    if lines.len() == 0 {
        Seq::empty()
    } else {
        comments_text(lines.subrange(0, lines.len() - 1)) + lines[lines.len() - 1]@ + seq!['\n']
    }
}

/// An argument reads as what it holds.
pub open spec fn arg_text(a: InvocationArg) -> Seq<char>
    decreases a,
{
    match a {
        InvocationArg::Ident(s) => s@,
        InvocationArg::Opt(o) => opt_text(o),
        InvocationArg::Path(p) => path_text(p),
        InvocationArg::String(StringLit((s,))) => s@,
        InvocationArg::Variable(v) => variable_text(v),
        InvocationArg::Word(Word((s,))) => s@,
        InvocationArg::Natural(Natural((s,))) => s@,
        InvocationArg::Invocation(inv) => invocation_text(inv),
        InvocationArg::Slice(s) => slice_text(s),
    }
}

/// A slice reads as the name, then the range.
pub open spec fn slice_text(s: Slice) -> Seq<char>
    decreases s,
{
    s.0.0@ + range_text(*s.0.1)
}

/// A range reads as `[a; b]` or `[i]`.
pub open spec fn range_text(r: Range) -> Seq<char>
    decreases r,
{
    match r {
        Range::DoubleRange((a, b)) => seq!['['] + arg_text(a) + seq![';', ' '] + arg_text(b)
            + seq![']'],
        Range::Index(a) => seq!['['] + arg_text(a) + seq![']'],
    }
}

/// The arguments, each after a space.
pub open spec fn args_text(args: Seq<InvocationArg>) -> Seq<char>
    decreases args,
{
    if args.len() == 0 {
        Seq::empty()
    } else {
        args_text(args.subrange(0, args.len() - 1)) + seq![' '] + arg_text(args[args.len() - 1])
    }
}

/// The environment variables, each as `i name=value`.
pub open spec fn envs_text(envs: Seq<(&str, InvocationArg)>) -> Seq<char>
    decreases envs,
{
    if envs.len() == 0 {
        Seq::empty()
    } else {
        envs_text(envs.subrange(0, envs.len() - 1)) + seq!['i', ' '] + envs[envs.len() - 1].0@
            + seq!['='] + arg_text(envs[envs.len() - 1].1)
    }
}

/// A redirection reads as where it goes to or comes from.
pub open spec fn redirect_text(r: Redirect) -> Seq<char>
    decreases r,
{
    match r {
        Redirect::Path(p) => path_text(p),
        Redirect::Variable(v) => variable_text(v),
        Redirect::Dereference(d) => dereference_text(d),
        Redirect::Invocation(inv) => invocation_text(inv),
        Redirect::Slice(s) => slice_text(s),
        Redirect::String(StringLit((s,))) => s@,
    }
}

/// The input redirections, each as ` <x`.
pub open spec fn inputs_text(rs: Seq<RedirectInput>) -> Seq<char>
    decreases rs,
{
    if rs.len() == 0 {
        Seq::empty()
    } else {
        inputs_text(rs.subrange(0, rs.len() - 1)) + seq![' ', '<'] + redirect_text(
            rs[rs.len() - 1].0.0,
        )
    }
}

/// The output redirections, each as ` >x`.
pub open spec fn outputs_text(rs: Seq<RedirectOutput>) -> Seq<char>
    decreases rs,
{
    if rs.len() == 0 {
        Seq::empty()
    } else {
        outputs_text(rs.subrange(0, rs.len() - 1)) + seq![' ', '>'] + redirect_text(
            rs[rs.len() - 1].0.0,
        )
    }
}

/// A working directory reads as what it holds.
pub open spec fn cwd_text(c: InvocationCwd) -> Seq<char>
    decreases c,
{
    match c {
        InvocationCwd::Path(p) => path_text(p),
        InvocationCwd::Variable(v) => variable_text(v),
        InvocationCwd::BoxInvocation(inv) => invocation_text(*inv),
    }
}

/// A target reads as its name (`!name` for a system command), or as the
/// variable or invocation that gives it.
pub open spec fn target_text(t: InvocationTarget) -> Seq<char>
    decreases t,
{
    match t {
        InvocationTarget::InvocationTargetLocal(InvocationTargetLocal((n,))) => n@,
        InvocationTarget::InvocationTargetSystemName(InvocationTargetSystemName((n,))) => seq!['!']
            + n@,
        InvocationTarget::InvocationTargetSystemPath(InvocationTargetSystemPath((p,))) => seq!['!']
            + path_text(p),
        InvocationTarget::InvocationTargetDereference(InvocationTargetDereference((d,))) =>
            dereference_text(d),
        InvocationTarget::InvocationTargetInvocation(InvocationTargetInvocation((inv,))) =>
            invocation_text(*inv),
    }
}

/// An invocation reads as its doc comments, its target, then its working
/// directory, redirections, environment variables and arguments.
pub open spec fn invocation_text(inv: Invocation) -> Seq<char>
    decreases inv,
{
    comments_text(inv.0.0@) + target_text(inv.0.1) + match inv.0.2 {
        Some(c) => seq![' '] + cwd_text(c),
        None => Seq::empty(),
    } + inputs_text(inv.0.3@) + outputs_text(inv.0.4@) + envs_text(inv.0.5@) + args_text(
        inv.0.6@,
    )
}

// ---------------------------------------------------------------------------
// Writing the text out
// ---------------------------------------------------------------------------

fn write_path(p: &Path, out: &mut String)
    ensures
        final(out)@ == old(out)@ + path_text(*p),
{
    match p {
        Path::AbsPath(AbsPath((t,))) => out.append(t),
        Path::RelPath(RelPath((t,))) => out.append(t),
        Path::HomePath(HomePath((t,))) => out.append(t),
    }
}

fn write_opt(o: &Opt, out: &mut String)
    ensures
        final(out)@ == old(out)@ + opt_text(*o),
{
    match o {
        Opt::ShortOpt(ShortOpt((t,))) => out.append(t),
        Opt::LongOpt(LongOpt((t,))) => out.append(t),
    }
}

fn write_variable(v: &Variable, out: &mut String)
    ensures
        final(out)@ == old(out)@ + variable_text(*v),
{
    proof {
        reveal_strlit("$");
    }
    out.append("$");
    out.append(v.0.0);
    assert(out@ =~= old(out)@ + variable_text(*v));
}

fn write_dereference(d: &Dereference, out: &mut String)
    ensures
        final(out)@ == old(out)@ + dereference_text(*d),
{
    proof {
        reveal_strlit("*");
    }
    out.append("*");
    out.append(d.0.0);
    assert(out@ =~= old(out)@ + dereference_text(*d));
}

fn write_arg(a: &InvocationArg, out: &mut String)
    ensures
        final(out)@ == old(out)@ + arg_text(*a),
    decreases a,
{
    match a {
        InvocationArg::Ident(s) => out.append(s),
        InvocationArg::Opt(o) => write_opt(o, out),
        InvocationArg::Path(p) => write_path(p, out),
        InvocationArg::String(StringLit((s,))) => out.append(s),
        InvocationArg::Variable(v) => write_variable(v, out),
        InvocationArg::Word(Word((s,))) => out.append(s),
        InvocationArg::Natural(Natural((s,))) => out.append(s),
        InvocationArg::Invocation(inv) => write_invocation(inv, out),
        InvocationArg::Slice(s) => write_slice(s, out),
    }
}

fn write_slice(s: &Slice, out: &mut String)
    ensures
        final(out)@ == old(out)@ + slice_text(*s),
    decreases s,
{
    out.append(s.0.0);
    write_range(&s.0.1, out);
    assert(out@ =~= old(out)@ + slice_text(*s));
}

fn write_range(r: &Range, out: &mut String)
    ensures
        final(out)@ == old(out)@ + range_text(*r),
    decreases r,
{
    proof {
        reveal_strlit("[");
        reveal_strlit("; ");
        reveal_strlit("]");
    }
    match r {
        Range::DoubleRange((a, b)) => {
            out.append("[");
            write_arg(a, out);
            out.append("; ");
            write_arg(b, out);
            out.append("]");
        },
        Range::Index(a) => {
            out.append("[");
            write_arg(a, out);
            out.append("]");
        },
    }
    assert(out@ =~= old(out)@ + range_text(*r));
}

fn write_redirect(r: &Redirect, out: &mut String)
    ensures
        final(out)@ == old(out)@ + redirect_text(*r),
    decreases r,
{
    match r {
        Redirect::Path(p) => write_path(p, out),
        Redirect::Variable(v) => write_variable(v, out),
        Redirect::Dereference(d) => write_dereference(d, out),
        Redirect::Invocation(inv) => write_invocation(inv, out),
        Redirect::Slice(s) => write_slice(s, out),
        Redirect::String(StringLit((s,))) => out.append(s),
    }
}

fn write_cwd(c: &InvocationCwd, out: &mut String)
    ensures
        final(out)@ == old(out)@ + cwd_text(*c),
    decreases c,
{
    match c {
        InvocationCwd::Path(p) => write_path(p, out),
        InvocationCwd::Variable(v) => write_variable(v, out),
        InvocationCwd::BoxInvocation(inv) => write_invocation(inv, out),
    }
}

fn write_target(t: &InvocationTarget, out: &mut String)
    ensures
        final(out)@ == old(out)@ + target_text(*t),
    decreases t,
{
    proof {
        reveal_strlit("!");
    }
    match t {
        InvocationTarget::InvocationTargetLocal(InvocationTargetLocal((n,))) => out.append(n),
        InvocationTarget::InvocationTargetSystemName(InvocationTargetSystemName((n,))) => {
            out.append("!");
            out.append(n);
        },
        InvocationTarget::InvocationTargetSystemPath(InvocationTargetSystemPath((p,))) => {
            out.append("!");
            write_path(p, out);
        },
        InvocationTarget::InvocationTargetDereference(InvocationTargetDereference((d,))) =>
            write_dereference(d, out),
        InvocationTarget::InvocationTargetInvocation(InvocationTargetInvocation((inv,))) =>
            write_invocation(inv, out),
    }
    assert(out@ =~= old(out)@ + target_text(*t));
}

#[verifier::rlimit(50)]
fn write_invocation(inv: &Invocation, out: &mut String)
    ensures
        final(out)@ == old(out)@ + invocation_text(*inv),
    decreases inv,
{
    proof {
        reveal_strlit("\n");
        reveal_strlit(" ");
        reveal_strlit(" <");
        reveal_strlit(" >");
        reveal_strlit("i ");
        reveal_strlit("=");
    }
    let ghost start = out@;
    let comments = &inv.0.0;
    let mut k: usize = 0;
    while k < comments.len()
        invariant
            k <= comments@.len(),
            comments == &inv.0.0,
            out@ == start + comments_text(comments@.subrange(0, k as int)),
        decreases comments.len() - k,
    {
        proof {
            reveal_strlit("\n");
        }
        assert(comments@.subrange(0, k + 1).subrange(0, k as int) =~= comments@.subrange(0, k as int));
        out.append(comments[k]);
        out.append("\n");
        k = k + 1;
    }
    assert(comments@.subrange(0, comments@.len() as int) =~= comments@);
    let ghost after_comments = out@;
    write_target(&inv.0.1, out);
    let ghost after_target = out@;
    match &inv.0.2 {
        Some(c) => {
            out.append(" ");
            write_cwd(c, out);
        },
        None => {},
    }
    let ghost after_cwd = out@;
    assert(after_cwd =~= after_target + match inv.0.2 {
        Some(c) => seq![' '] + cwd_text(c),
        None => Seq::empty(),
    });
    let inputs = &inv.0.3;
    let mut k: usize = 0;
    while k < inputs.len()
        invariant
            k <= inputs@.len(),
            inputs == &inv.0.3,
            out@ == after_cwd + inputs_text(inputs@.subrange(0, k as int)),
        decreases inputs.len() - k,
    {
        proof {
            reveal_strlit(" <");
        }
        assert(inputs@.subrange(0, k + 1).subrange(0, k as int) =~= inputs@.subrange(0, k as int));
        out.append(" <");
        write_redirect(&inputs[k].0.0, out);
        k = k + 1;
    }
    assert(inputs@.subrange(0, inputs@.len() as int) =~= inputs@);
    let ghost after_inputs = out@;
    let outputs = &inv.0.4;
    let mut k: usize = 0;
    while k < outputs.len()
        invariant
            k <= outputs@.len(),
            outputs == &inv.0.4,
            out@ == after_inputs + outputs_text(outputs@.subrange(0, k as int)),
        decreases outputs.len() - k,
    {
        proof {
            reveal_strlit(" >");
        }
        assert(outputs@.subrange(0, k + 1).subrange(0, k as int) =~= outputs@.subrange(0, k as int));
        out.append(" >");
        write_redirect(&outputs[k].0.0, out);
        k = k + 1;
    }
    assert(outputs@.subrange(0, outputs@.len() as int) =~= outputs@);
    let ghost after_outputs = out@;
    let envs = &inv.0.5;
    let mut k: usize = 0;
    while k < envs.len()
        invariant
            k <= envs@.len(),
            envs == &inv.0.5,
            out@ == after_outputs + envs_text(envs@.subrange(0, k as int)),
        decreases envs.len() - k,
    {
        proof {
            reveal_strlit("i ");
            reveal_strlit("=");
        }
        assert(envs@.subrange(0, k + 1).subrange(0, k as int) =~= envs@.subrange(0, k as int));
        out.append("i ");
        out.append(envs[k].0);
        out.append("=");
        write_arg(&envs[k].1, out);
        k = k + 1;
    }
    assert(envs@.subrange(0, envs@.len() as int) =~= envs@);
    let ghost after_envs = out@;
    let args = &inv.0.6;
    let mut k: usize = 0;
    while k < args.len()
        invariant
            k <= args@.len(),
            args == &inv.0.6,
            out@ == after_envs + args_text(args@.subrange(0, k as int)),
        decreases args.len() - k,
    {
        proof {
            reveal_strlit(" ");
        }
        assert(args@.subrange(0, k + 1).subrange(0, k as int) =~= args@.subrange(0, k as int));
        out.append(" ");
        write_arg(&args[k], out);
        k = k + 1;
    }
    assert(args@.subrange(0, args@.len() as int) =~= args@);
    assert(out@ =~= old(out)@ + invocation_text(*inv));
}

// ---------------------------------------------------------------------------
// The text of each piece
// ---------------------------------------------------------------------------

impl<'i> InvocationTarget<'i> {
    /// The text of a target.
    pub fn to_string(&self) -> (r: String)
        ensures
            r@ == target_text(*self),
    {
        let mut r = String::new();
        write_target(self, &mut r);
        assert(r@ =~= target_text(*self));
        r
    }
}

impl<'i> Path<'i> {
    /// The text of a path.
    pub fn to_string(&self) -> (r: String)
        ensures
            r@ == path_text(*self),
    {
        let mut r = String::new();
        write_path(self, &mut r);
        assert(r@ =~= path_text(*self));
        r
    }
}

impl<'i> Variable<'i> {
    /// The text of a variable.
    pub fn to_string(&self) -> (r: String)
        ensures
            r@ == variable_text(*self),
    {
        let mut r = String::new();
        write_variable(self, &mut r);
        assert(r@ =~= variable_text(*self));
        r
    }
}

impl<'i> Dereference<'i> {
    /// The text of a dereference.
    pub fn to_string(&self) -> (r: String)
        ensures
            r@ == dereference_text(*self),
    {
        let mut r = String::new();
        write_dereference(self, &mut r);
        assert(r@ =~= dereference_text(*self));
        r
    }
}

impl<'i> Invocation<'i> {
    /// The text of an invocation.
    pub fn to_string(&self) -> (r: String)
        ensures
            r@ == invocation_text(*self),
    {
        let mut r = String::new();
        write_invocation(self, &mut r);
        assert(r@ =~= invocation_text(*self));
        r
    }
}

impl<'i> InvocationCwd<'i> {
    /// The text of a working directory.
    pub fn to_string(&self) -> (r: String)
        ensures
            r@ == cwd_text(*self),
    {
        let mut r = String::new();
        write_cwd(self, &mut r);
        assert(r@ =~= cwd_text(*self));
        r
    }
}

impl<'i> Redirect<'i> {
    /// The text of a redirection.
    pub fn to_string(&self) -> (r: String)
        ensures
            r@ == redirect_text(*self),
    {
        let mut r = String::new();
        write_redirect(self, &mut r);
        assert(r@ =~= redirect_text(*self));
        r
    }
}

impl<'i> InvocationArg<'i> {
    /// The text of an argument.
    pub fn to_string(&self) -> (r: String)
        ensures
            r@ == arg_text(*self),
    {
        let mut r = String::new();
        write_arg(self, &mut r);
        assert(r@ =~= arg_text(*self));
        r
    }
}

impl<'i> Slice<'i> {
    /// The text of a slice.
    pub fn to_string(&self) -> (r: String)
        ensures
            r@ == slice_text(*self),
    {
        let mut r = String::new();
        write_slice(self, &mut r);
        assert(r@ =~= slice_text(*self));
        r
    }
}

impl<'i> Opt<'i> {
    /// The text of an option.
    pub fn to_string(&self) -> (r: String)
        ensures
            r@ == opt_text(*self),
    {
        let mut r = String::new();
        write_opt(self, &mut r);
        assert(r@ =~= opt_text(*self));
        r
    }
}

impl<'i> Range<'i> {
    /// The text of a range.
    pub fn to_string(&self) -> (r: String)
        ensures
            r@ == range_text(*self),
    {
        let mut r = String::new();
        write_range(self, &mut r);
        assert(r@ =~= range_text(*self));
        r
    }
}

} // verus!
