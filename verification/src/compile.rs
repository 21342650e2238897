//! Compiling statements whose expressions are literals: `let`, `src`,
//! expression statements, and function definitions (`def`), whose code is
//! laid out as a jump over the body, a frame allocation, the body, the
//! return of its value and the frame's release. Also the literal parts of
//! invocations (arguments, targets, working directories), and the linking
//! of compiled modules into one.
use crate::ast::{
    Block, Body, DefStmt, Expr, Invocation, InvocationArg, InvocationCwd, InvocationTarget,
    InvocationTargetDereference, InvocationTargetInvocation, InvocationTargetLocal,
    InvocationTargetSystemName, InvocationTargetSystemPath, Item, LetStmt, Module, Natural, Path, Redirect,
    RedirectInput, SrcStmt, StringLit, Variable,
};
use crate::display::{opt_text, path_text};
use crate::compiler::{
    make_forward_invocation, SYSCALL_ARG_SLICE, SYSCALL_BUILTIN, SYSCALL_SPAWN, cleanup_instr,
    interned, interned_id, patched, spec_parse_usize, symbol_instr, unquotable, unquoted,
    Cleanup, Compile, Compiler, CompilersImpl, Instr,
};
use crate::error::{msg_error, CompileResult};
use crate::symbol_info::{
    Info as SymInfo, InfoModel, LitType, Local, Typ, TypModel, aliased_model, infos_model,
    lemma_types_size_prefix, null_model, typ_size, types_size,
};
use crate::symbol_table::{EntryModel, current_id, frame_size, table_lookup};
use crate::text::{str_eq, str_to_string};
use vstd::prelude::*;
use vstd::string::StringSliceAdditionalSpecFns;

verus! {

broadcast use vstd::std_specs::vec::group_vec_axioms;

/// The state of a compiler as values: its instructions, its string table,
/// its scopes and its stack of active scopes.
pub struct CompilerModel {
    pub instrs: Seq<Instr>,
    pub table: Seq<Seq<char>>,
    pub scopes: Seq<Seq<EntryModel>>,
    pub stack: Seq<usize>,
}

/// The state of a compiler, as values.
pub open spec fn model(c: &Compiler) -> CompilerModel {
    CompilerModel {
        instrs: c.instrs(),
        table: c.table(),
        scopes: c.sym_table.scopes(),
        stack: c.sym_table.stack(),
    }
}

/// The state with one more instruction.
pub open spec fn emitted(m: CompilerModel, i: Instr) -> CompilerModel {
    CompilerModel { instrs: m.instrs.push(i), ..m }
}

/// The state with `entry` recorded in the current scope.
pub open spec fn recorded(m: CompilerModel, entry: EntryModel) -> CompilerModel {
    CompilerModel {
        scopes: m.scopes.update(current_id(m.stack), m.scopes[current_id(m.stack)].push(entry)),
        ..m
    }
}

// ---------------------------------------------------------------------------
// What compiles without a panic
// ---------------------------------------------------------------------------

/// An argument compiles without a panic: it is no bare word, a string
/// literal can be cut out of its quotes, and an invocation in it compiles
/// without a panic.
pub open spec fn arg_ok<'i>(a: InvocationArg<'i>) -> bool
    decreases a,
{
    match a {
        InvocationArg::Word(_) => false,
        InvocationArg::String(StringLit((t,))) => unquotable(t.spec_bytes()),
        InvocationArg::Invocation(inv) => invocation_ok(inv),
        _ => true,
    }
}

/// An input redirection compiles without a panic: it reads no path and no
/// dereference, and what it reads compiles without a panic.
pub open spec fn input_ok<'i>(r: RedirectInput<'i>) -> bool
    decreases r,
{
    match r.0.0 {
        Redirect::Path(_) | Redirect::Dereference(_) => false,
        Redirect::String(StringLit((t,))) => unquotable(t.spec_bytes()),
        Redirect::Invocation(inv) => invocation_ok(inv),
        _ => true,
    }
}

/// A target compiles without a panic.
pub open spec fn target_ok<'i>(t: InvocationTarget<'i>) -> bool
    decreases t,
{
    match t {
        InvocationTarget::InvocationTargetInvocation(InvocationTargetInvocation((inv,))) =>
            invocation_ok(*inv),
        _ => true,
    }
}

/// A working directory compiles without a panic.
pub open spec fn cwd_ok<'i>(c: InvocationCwd<'i>) -> bool
    decreases c,
{
    match c {
        InvocationCwd::BoxInvocation(inv) => invocation_ok(*inv),
        _ => true,
    }
}

/// An invocation compiles without a panic: each of the parts it compiles
/// does (its output redirections are not compiled).
pub open spec fn invocation_ok<'i>(inv: Invocation<'i>) -> bool
    decreases inv,
{
    &&& forall|k: int| 0 <= k < inv.0.5@.len() ==> arg_ok(#[trigger] inv.0.5@[k].1)
    &&& forall|k: int| 0 <= k < inv.0.3@.len() ==> input_ok(#[trigger] inv.0.3@[k])
    &&& target_ok(inv.0.1)
    &&& (inv.0.2 matches Some(c) ==> cwd_ok(c))
    &&& forall|k: int| 0 <= k < inv.0.6@.len() ==> arg_ok(#[trigger] inv.0.6@[k])
}

/// An expression compiles without a panic.
pub open spec fn expr_ok<'i>(e: Expr<'i>) -> bool {
    match e {
        Expr::String(StringLit((t,))) => unquotable(t.spec_bytes()),
        Expr::Invocation(inv) => invocation_ok(inv),
        _ => true,
    }
}

/// A statement compiles without a panic.
pub open spec fn item_ok<'i>(item: Item<'i>) -> bool
    decreases item,
{
    match item {
        Item::Expr(e) => expr_ok(e),
        Item::LetStmt(LetStmt((_, e))) => expr_ok(e),
        Item::SrcStmt(SrcStmt((_, e))) => expr_ok(e),
        Item::DefStmt(DefStmt((_, Body::Block(Block((items, e)))))) => expr_ok(e) && forall|k: int|
            0 <= k < items@.len() ==> item_ok(#[trigger] items@[k]),
        _ => true,
    }
}

/// A block compiles without a panic.
pub open spec fn block_ok<'i>(b: Block<'i>) -> bool {
    expr_ok(b.0.1) && forall|k: int| 0 <= k < b.0.0@.len() ==> item_ok(#[trigger] b.0.0@[k])
}

// ---------------------------------------------------------------------------
// Compiling invocations, as values
// ---------------------------------------------------------------------------

/// The string literal of `s` in the table `t` (once interned).
pub open spec fn string_model(t: Seq<Seq<char>>, s: Seq<char>) -> InfoModel {
    InfoModel {
        typ: TypModel::Literal { id: interned_id(t, s) as usize, lit_type: LitType::String },
        scope_id: 0,
    }
}

/// The state with `s` interned.
pub open spec fn interning(m: CompilerModel, s: Seq<char>) -> CompilerModel {
    CompilerModel { table: interned(m.table, s), ..m }
}

/// Compiling a string: interning it, and its literal.
pub open spec fn spec_text(m: CompilerModel, s: Seq<char>) -> (CompilerModel, Option<InfoModel>) {
    (interning(m, s), Some(string_model(m.table, s)))
}

/// Compiling a natural number literal: its value, when it fits.
pub open spec fn spec_natural(m: CompilerModel, t: Seq<char>) -> (CompilerModel, Option<InfoModel>) {
    match spec_parse_usize(t) {
        Some(v) => (m, Some(nat_model(v))),
        None => (m, None),
    }
}

/// The natural number literal `v`.
pub open spec fn nat_model(v: usize) -> InfoModel {
    InfoModel { typ: TypModel::Literal { id: v, lit_type: LitType::Natural }, scope_id: 0 }
}

/// The arguments of the running function.
pub open spec fn args_model() -> InfoModel {
    InfoModel { typ: TypModel::Literal { id: 0, lit_type: LitType::Args }, scope_id: 0 }
}

/// A new temporary local of `types`, at the next free cell of the frame of
/// the current scope.
pub open spec fn tmp_local(m: CompilerModel, types: Seq<InfoModel>) -> InfoModel {
    InfoModel {
        typ: TypModel::Local {
            fp_off: frame_size(m.scopes[current_id(m.stack)]) as usize,
            is_alias: false,
            types,
        },
        scope_id: current_id(m.stack) as usize,
    }
}

/// The state with that temporary recorded.
pub open spec fn with_tmp_local(m: CompilerModel, types: Seq<InfoModel>) -> CompilerModel {
    recorded(m, (crate::compiler::tmp_name(m.scopes, m.stack), tmp_local(m, types)))
}

/// Pushing the value of `x` (`emit_from_symbol` with `push`): a temporary
/// recorded for it, then its push instruction; none for a symbol that
/// cannot be pushed.
pub open spec fn pushed(m: CompilerModel, x: InfoModel) -> Option<CompilerModel> {
    match symbol_instr(true, x) {
        Some(ins) => Some(
            CompilerModel {
                instrs: m.instrs.push(ins),
                scopes: crate::compiler::with_tmp(m.scopes, m.stack),
                ..m
            },
        ),
        None => None,
    }
}

/// Pushing the first `n` of `xs`, in order: the state, and whether all
/// could be pushed.
pub open spec fn pushed_all(m: CompilerModel, xs: Seq<InfoModel>, n: int) -> (CompilerModel, bool)
    decreases n,
{
    if n <= 0 || n > xs.len() {
        (m, true)
    } else {
        let (m1, ok) = pushed_all(m, xs, n - 1);
        if !ok {
            (m1, false)
        } else {
            match pushed(m1, xs[n - 1]) {
                Some(m2) => (m2, true),
                None => (m1, false),
            }
        }
    }
}

/// Pushing the first `n` environment variables, each its value then its
/// name.
pub open spec fn pushed_envs(m: CompilerModel, es: Seq<(InfoModel, InfoModel)>, n: int) -> (
    CompilerModel,
    bool,
)
    decreases n,
{
    if n <= 0 || n > es.len() {
        (m, true)
    } else {
        let (m1, ok) = pushed_envs(m, es, n - 1);
        if !ok {
            (m1, false)
        } else {
            match pushed(m1, es[n - 1].1) {
                Some(m2) => match pushed(m2, es[n - 1].0) {
                    Some(m3) => (m3, true),
                    None => (m2, false),
                },
                None => (m1, false),
            }
        }
    }
}

/// Releasing, as `c` says, the job that a value holds: a local that is no
/// alias is released; nothing is done for a literal.
pub open spec fn cleaned(m: CompilerModel, c: Cleanup, x: InfoModel) -> CompilerModel {
    match x.typ {
        TypModel::Local { fp_off, is_alias, .. } => if !is_alias {
            emitted(m, cleanup_instr(c, fp_off))
        } else {
            m
        },
        _ => m,
    }
}

/// The types of the temporary that receives what an invocation of `tgt`
/// gives: what a function returns; a job (of the target's own type) for a
/// command, a system call or a local; none for any other literal.
pub open spec fn retval_types(tgt: InfoModel) -> Option<Seq<InfoModel>> {
    match tgt.typ {
        TypModel::Address { ret_t, .. } => Some(seq![*ret_t]),
        TypModel::Local { .. } => Some(seq![InfoModel { typ: tgt.typ, scope_id: 0 }]),
        TypModel::Literal { lit_type, .. } => if lit_type == LitType::String || lit_type
            == LitType::Syscall {
            Some(seq![InfoModel { typ: tgt.typ, scope_id: 0 }])
        } else {
            None
        },
    }
}

/// The instruction that runs the target: a call of a function, its system
/// call, or the system call that spawns a command or a job.
pub open spec fn run_instr(tgt: InfoModel) -> Instr {
    match tgt.typ {
        TypModel::Address { .. } => Instr::Call(0xffff_ffff),
        TypModel::Literal { id, lit_type } => if lit_type == LitType::Syscall {
            Instr::Syscall(id)
        } else {
            Instr::Syscall(SYSCALL_SPAWN)
        },
        TypModel::Local { .. } => Instr::Syscall(SYSCALL_SPAWN),
    }
}

/// The code of an invocation once its parts are compiled: the temporary for
/// its value; the environment variables and their count; the input
/// redirections and their count; the target; the working directory; the
/// arguments (fewer cells than a `u16` holds) and their count in cells; and
/// the instruction that runs the target. The value is the temporary.
pub open spec fn invocation_emits(
    m: CompilerModel,
    envs: Seq<(InfoModel, InfoModel)>,
    inps: Seq<InfoModel>,
    tgt: InfoModel,
    cwd: InfoModel,
    args: Seq<InfoModel>,
) -> (CompilerModel, Option<InfoModel>) {
    match retval_types(tgt) {
        None => (m, None),
        Some(ts) => {
            let ret = tmp_local(m, ts);
            let m1 = with_tmp_local(m, ts);
            let (m2, ok2) = pushed_envs(m1, envs, envs.len() as int);
            if !ok2 {
                (m2, None)
            } else {
                let m3 = emitted(
                    with_tmp_local(m2, seq![nat_model(envs.len() as usize)]),
                    Instr::PushNat(envs.len() as usize),
                );
                let (m4, ok4) = pushed_all(m3, inps, inps.len() as int);
                if !ok4 {
                    (m4, None)
                } else {
                    let m5 = emitted(
                        with_tmp_local(m4, seq![nat_model(inps.len() as usize)]),
                        Instr::PushNat(inps.len() as usize),
                    );
                    match pushed(m5, tgt) {
                        None => (m5, None),
                        Some(m6) => match pushed(m6, cwd) {
                            None => (m6, None),
                            Some(m7) => if types_size(args) > u16::MAX {
                                (m7, None)
                            } else {
                                let (m8, ok8) = pushed_all(m7, args, args.len() as int);
                                if !ok8 {
                                    (m8, None)
                                } else {
                                    match pushed(m8, nat_model(types_size(args) as usize)) {
                                        None => (m8, None),
                                        Some(m9) => (emitted(m9, run_instr(tgt)), Some(ret)),
                                    }
                                }
                            },
                        },
                    }
                }
            }
        },
    }
}

/// Compiling an argument: options, words, paths and string literals become
/// string literals; numbers natural literals; `$args` the arguments of the
/// running function; an invocation its value. Other variables and slices
/// fail.
pub open spec fn spec_arg<'i>(m: CompilerModel, a: InvocationArg<'i>) -> (
    CompilerModel,
    Option<InfoModel>,
)
    decreases a, 0int,
{
    match a {
        InvocationArg::Opt(o) => spec_text(m, opt_text(o)),
        InvocationArg::Ident(t) => spec_text(m, t@),
        InvocationArg::Path(p) => spec_text(m, path_text(p)),
        InvocationArg::String(StringLit((t,))) => spec_text(m, unquoted(t.spec_bytes())),
        InvocationArg::Variable(Variable((v,))) => if v@ == "args"@ {
            (m, Some(args_model()))
        } else {
            (m, None)
        },
        InvocationArg::Natural(Natural((t,))) => spec_natural(m, t@),
        InvocationArg::Invocation(inv) => spec_invocation(m, inv),
        _ => (m, None),
    }
}

/// Compiling an input redirection: an invocation gives its value, a string
/// literal its literal; other variables and slices fail.
pub open spec fn spec_input<'i>(m: CompilerModel, r: RedirectInput<'i>) -> (
    CompilerModel,
    Option<InfoModel>,
)
    decreases r, 0int,
{
    match r.0.0 {
        Redirect::Invocation(inv) => spec_invocation(m, inv),
        Redirect::String(StringLit((t,))) => spec_text(m, unquoted(t.spec_bytes())),
        _ => (m, None),
    }
}

/// Compiling a target: the built-in names give their system calls; another
/// name the function of that name (it must be one); a system command the
/// string literal of its name or path; an invocation its value, whose output
/// is then buffered as a string. A dereference fails.
pub open spec fn spec_target<'i>(m: CompilerModel, t: InvocationTarget<'i>) -> (
    CompilerModel,
    Option<InfoModel>,
)
    decreases t, 0int,
{
    match t {
        InvocationTarget::InvocationTargetLocal(InvocationTargetLocal((n,))) => if n@
            == "__syscall-argslice"@ {
            (m, Some(syscall_model(SYSCALL_ARG_SLICE)))
        } else if n@ == "__builtin"@ {
            (m, Some(syscall_model(SYSCALL_BUILTIN)))
        } else {
            match table_lookup(m.scopes, m.stack, n@) {
                Some(x) => if x.typ is Address {
                    (m, Some(x))
                } else {
                    (m, None)
                },
                None => (m, None),
            }
        },
        InvocationTarget::InvocationTargetSystemName(InvocationTargetSystemName((n,))) => spec_text(
            m,
            n@,
        ),
        InvocationTarget::InvocationTargetSystemPath(InvocationTargetSystemPath((p,))) => spec_text(
            m,
            path_text(p),
        ),
        InvocationTarget::InvocationTargetDereference(_) => (m, None),
        InvocationTarget::InvocationTargetInvocation(InvocationTargetInvocation((inv,))) => {
            let (m1, r) = spec_invocation(m, *inv);
            match r {
                Some(x) => (cleaned(m1, Cleanup::BufferString, x), Some(x)),
                None => (m1, None),
            }
        },
    }
}

/// The system call `id`, as a literal.
pub open spec fn syscall_model(id: usize) -> InfoModel {
    InfoModel { typ: TypModel::Literal { id, lit_type: LitType::Syscall }, scope_id: 0 }
}

/// Compiling a working directory: a path gives its string literal, an
/// invocation its value; a variable fails.
pub open spec fn spec_cwd<'i>(m: CompilerModel, c: InvocationCwd<'i>) -> (
    CompilerModel,
    Option<InfoModel>,
)
    decreases c, 0int,
{
    match c {
        InvocationCwd::Path(p) => spec_text(m, path_text(p)),
        InvocationCwd::Variable(_) => (m, None),
        InvocationCwd::BoxInvocation(inv) => spec_invocation(m, *inv),
    }
}

/// Compiling the first `n` environment variables, in order: each name,
/// then each value.
pub open spec fn spec_envs<'i>(m: CompilerModel, es: Seq<(&'i str, InvocationArg<'i>)>, n: int) -> (
    CompilerModel,
    Option<Seq<(InfoModel, InfoModel)>>,
)
    decreases es, n,
{
    if n <= 0 || n > es.len() {
        (m, Some(Seq::empty()))
    } else {
        let (m1, r) = spec_envs(m, es, n - 1);
        match r {
            None => (m1, None),
            Some(xs) => {
                let (m2, name) = spec_text(m1, es[n - 1].0@);
                let (m3, v) = spec_arg(m2, es[n - 1].1);
                match (name, v) {
                    (Some(x), Some(y)) => (m3, Some(xs.push((x, y)))),
                    _ => (m3, None),
                }
            },
        }
    }
}

/// Compiling the first `n` input redirections, in order.
pub open spec fn spec_inputs<'i>(m: CompilerModel, rs: Seq<RedirectInput<'i>>, n: int) -> (
    CompilerModel,
    Option<Seq<InfoModel>>,
)
    decreases rs, n,
{
    if n <= 0 || n > rs.len() {
        (m, Some(Seq::empty()))
    } else {
        let (m1, r) = spec_inputs(m, rs, n - 1);
        match r {
            None => (m1, None),
            Some(xs) => {
                let (m2, v) = spec_input(m1, rs[n - 1]);
                match v {
                    Some(y) => (m2, Some(xs.push(y))),
                    None => (m2, None),
                }
            },
        }
    }
}

/// Compiling the last `n` arguments, from the last one backwards.
pub open spec fn spec_args_rev<'i>(m: CompilerModel, args: Seq<InvocationArg<'i>>, n: int) -> (
    CompilerModel,
    Option<Seq<InfoModel>>,
)
    decreases args, n,
{
    if n <= 0 || n > args.len() {
        (m, Some(Seq::empty()))
    } else {
        let (m1, r) = spec_args_rev(m, args, n - 1);
        match r {
            None => (m1, None),
            Some(xs) => {
                let (m2, v) = spec_arg(m1, args[args.len() - n]);
                match v {
                    Some(y) => (m2, Some(xs.push(y))),
                    None => (m2, None),
                }
            },
        }
    }
}

/// Compiling an invocation: its environment variables, its input
/// redirections, its target, its working directory (the null literal when
/// there is none) and its arguments, last first, each stopping everything on
/// failure; then its code (`invocation_emits`).
pub open spec fn spec_invocation<'i>(m: CompilerModel, inv: Invocation<'i>) -> (
    CompilerModel,
    Option<InfoModel>,
)
    decreases inv, 0int,
{
    let (m1, envs) = spec_envs(m, inv.0.5@, inv.0.5@.len() as int);
    match envs {
        None => (m1, None),
        Some(es) => {
            let (m2, inps) = spec_inputs(m1, inv.0.3@, inv.0.3@.len() as int);
            match inps {
                None => (m2, None),
                Some(is) => {
                    let (m3, tgt) = spec_target(m2, inv.0.1);
                    match tgt {
                        None => (m3, None),
                        Some(t) => {
                            let (m4, cwd) = match inv.0.2 {
                                Some(c) => spec_cwd(m3, c),
                                None => (m3, Some(null_model())),
                            };
                            match cwd {
                                None => (m4, None),
                                Some(cw) => {
                                    let (m5, args) = spec_args_rev(
                                        m4,
                                        inv.0.6@,
                                        inv.0.6@.len() as int,
                                    );
                                    match args {
                                        None => (m5, None),
                                        Some(xs) => invocation_emits(m5, es, is, t, cw, xs),
                                    }
                                },
                            }
                        },
                    }
                },
            }
        },
    }
}

/// Compiling an expression: the new state, and its value (none when it
/// fails). A string literal is interned; a natural number must fit; an
/// invocation gives its value. Variables, slices and arrays fail.
pub open spec fn spec_expr<'i>(m: CompilerModel, e: Expr<'i>) -> (CompilerModel, Option<InfoModel>) {
    match e {
        Expr::String(StringLit((t,))) => spec_text(m, unquoted(t.spec_bytes())),
        Expr::Natural(Natural((t,))) => spec_natural(m, t@),
        Expr::Invocation(inv) => spec_invocation(m, inv),
        _ => (m, None),
    }
}

/// The value `x` bound to `name` in the current scope.
pub open spec fn alias_entry(m: CompilerModel, name: Seq<char>, x: InfoModel) -> EntryModel {
    (name, InfoModel { scope_id: current_id(m.stack) as usize, ..aliased_model(x) })
}

/// The state after compiling the first `n` of `items` (or after the first
/// that fails), and whether they all compiled.
pub open spec fn spec_items<'i>(m: CompilerModel, items: Seq<Item<'i>>, n: int) -> (
    CompilerModel,
    bool,
)
    decreases items, n,
{
    if n <= 0 || n > items.len() {
        (m, true)
    } else {
        let (m1, ok) = spec_items(m, items, n - 1);
        if ok {
            let (m2, r) = spec_item(m1, items[n - 1]);
            (m2, r is Some)
        } else {
            (m1, false)
        }
    }
}

/// The end of compiling a function whose body's statements compiled into
/// the state `m3`: its final expression, the return of its value, the
/// frame's release, the patching of the frame size (at `j + 1`) and of the
/// jump over the body (at `j`), and the function recorded under `name`.
pub open spec fn def_tail<'i>(m3: CompilerModel, name: Seq<char>, e: Expr<'i>, j: int) -> (
    CompilerModel,
    Option<InfoModel>,
) {
    let (m4, r) = spec_expr(m3, e);
    match r {
        None => (m4, None),
        Some(ret) => def_end(m4, name, ret, j),
    }
}

/// The end of compiling a function whose final expression compiled into the
/// state `m4` and the value `ret`: the return of the value, the frame's
/// release, the patching of the frame size (at `j + 1`) and of the jump over
/// the body (at `j`), and the function recorded under `name`.
pub open spec fn def_end(m4: CompilerModel, name: Seq<char>, ret: InfoModel, j: int) -> (
    CompilerModel,
    Option<InfoModel>,
) {
    let frame = frame_size(m4.scopes[current_id(m4.stack)]);
    match symbol_instr(false, ret) {
        None => (m4, None),
        Some(ins) => {
            let m5 = emitted(m4, ins);
            let m6 = CompilerModel { stack: m5.stack.drop_last(), ..m5 };
            let m7 = CompilerModel {
                instrs: m6.instrs.update(j + 1, Instr::Allocate { size: frame as usize }),
                ..m6
            };
            let m8 = emitted(m7, Instr::Return(frame as usize));
            let m9 = CompilerModel {
                instrs: m8.instrs.update(j, Instr::Jump { addr: m8.instrs.len() as usize }),
                ..m8
            };
            let f = InfoModel {
                typ: TypModel::Address { addr: (j + 1) as usize, ret_t: Box::new(ret) },
                scope_id: current_id(m9.stack) as usize,
            };
            (recorded(m9, (name, f)), Some(f))
        },
    }
}

/// Compiling a statement: the new state, and its value (none when it
/// failed).
pub open spec fn spec_item<'i>(m: CompilerModel, item: Item<'i>) -> (CompilerModel, Option<InfoModel>)
    decreases item,
{
    match item {
        Item::Expr(e) => {
            let (m1, r) = spec_expr(m, e);
            match r {
                Some(x) => (cleaned(m1, Cleanup::CleanUp, x), Some(x)),
                None => (m1, None),
            }
        },
        Item::LetStmt(LetStmt((name, e))) => {
            let (m1, r) = spec_expr(m, e);
            match r {
                Some(x) => (
                    cleaned(recorded(m1, alias_entry(m1, name@, x)), Cleanup::Collect, x),
                    Some(x),
                ),
                None => (m1, None),
            }
        },
        Item::SrcStmt(SrcStmt((name, e))) => {
            let (m1, r) = spec_expr(m, e);
            match r {
                Some(x) => (
                    cleaned(recorded(m1, alias_entry(m1, name@, x)), Cleanup::Pipe, x),
                    Some(x),
                ),
                None => (m1, None),
            }
        },
        Item::DefStmt(DefStmt((name, Body::Block(Block((items, e)))))) => {
            let j = m.instrs.len() as int;
            let m1 = emitted(emitted(m, Instr::Jump { addr: 0 }), Instr::Allocate { size: 0 });
            let m2 = CompilerModel {
                scopes: m1.scopes.push(Seq::empty()),
                stack: m1.stack.push(m1.scopes.len() as usize),
                ..m1
            };
            let (m3, ok) = spec_items(m2, items@, items@.len() as int);
            if !ok {
                (m3, None)
            } else {
                def_tail(m3, name@, e, j)
            }
        },
        Item::Empty => (m, Some(null_model())),
        _ => (m, None),
    }
}

/// Once a statement fails, the ones after it are not compiled.
proof fn lemma_items_stop<'i>(m: CompilerModel, items: Seq<Item<'i>>, k: int, n: int)
    requires
        0 <= k <= n <= items.len(),
        !spec_items(m, items, k).1,
    ensures
        spec_items(m, items, n) == spec_items(m, items, k),
    decreases n - k,
{
    if n > k {
        lemma_items_stop(m, items, k, n - 1);
    }
}

// ---------------------------------------------------------------------------
// Helpers of invocation compiling
// ---------------------------------------------------------------------------

/// The views of pairs of symbol informations.
pub open spec fn pair_views(v: Seq<(SymInfo, SymInfo)>) -> Seq<(InfoModel, InfoModel)> {
    Seq::new(v.len(), |i: int| (v[i].0@, v[i].1@))
}

proof fn lemma_envs_stop<'i>(m: CompilerModel, es: Seq<(&'i str, InvocationArg<'i>)>, k: int, n: int)
    requires
        0 <= k <= n <= es.len(),
        spec_envs(m, es, k).1 is None,
    ensures
        spec_envs(m, es, n) == spec_envs(m, es, k),
    decreases n - k,
{
    if n > k {
        lemma_envs_stop(m, es, k, n - 1);
    }
}

proof fn lemma_inputs_stop<'i>(m: CompilerModel, rs: Seq<RedirectInput<'i>>, k: int, n: int)
    requires
        0 <= k <= n <= rs.len(),
        spec_inputs(m, rs, k).1 is None,
    ensures
        spec_inputs(m, rs, n) == spec_inputs(m, rs, k),
    decreases n - k,
{
    if n > k {
        lemma_inputs_stop(m, rs, k, n - 1);
    }
}

proof fn lemma_args_stop<'i>(m: CompilerModel, args: Seq<InvocationArg<'i>>, k: int, n: int)
    requires
        0 <= k <= n <= args.len(),
        spec_args_rev(m, args, k).1 is None,
    ensures
        spec_args_rev(m, args, n) == spec_args_rev(m, args, k),
    decreases n - k,
{
    if n > k {
        lemma_args_stop(m, args, k, n - 1);
    }
}

proof fn lemma_pushed_all_stop(m: CompilerModel, xs: Seq<InfoModel>, k: int, n: int)
    requires
        0 <= k <= n <= xs.len(),
        !pushed_all(m, xs, k).1,
    ensures
        pushed_all(m, xs, n) == pushed_all(m, xs, k),
    decreases n - k,
{
    if n > k {
        lemma_pushed_all_stop(m, xs, k, n - 1);
    }
}

proof fn lemma_pushed_envs_stop(m: CompilerModel, es: Seq<(InfoModel, InfoModel)>, k: int, n: int)
    requires
        0 <= k <= n <= es.len(),
        !pushed_envs(m, es, k).1,
    ensures
        pushed_envs(m, es, n) == pushed_envs(m, es, k),
    decreases n - k,
{
    if n > k {
        lemma_pushed_envs_stop(m, es, k, n - 1);
    }
}

/// The number of stack cells of a local, when it fits in a `u16`.
fn local_cells(l: &Local) -> (r: Option<u16>)
    ensures
        match r {
            Some(c) => c == types_size(infos_model(l.types@)),
            None => types_size(infos_model(l.types@)) > u16::MAX,
        },
    decreases l,
{
    let ghost ts = infos_model(l.types@);
    let mut total: u16 = 0;
    let mut k: usize = 0;
    while k < l.types.len()
        invariant
            k <= l.types@.len(),
            ts == infos_model(l.types@),
            total == types_size(ts.take(k as int)),
        decreases l.types@.len() - k,
    {
        proof {
            lemma_types_size_prefix(ts, k as int);
            lemma_types_size_prefix(ts, k + 1);
        }
        assert(ts[k as int] == l.types@[k as int]@);
        let c = match typ_cells(&l.types[k].typ) {
            Some(c) => c,
            None => {
                proof {
                    lemma_types_size_prefix(ts, k + 1);
                }
                return None;
            },
        };
        if c > u16::MAX - total {
            return None;
        }
        total = total + c;
        k = k + 1;
    }
    proof {
        assert(ts.take(k as int) =~= ts);
    }
    Some(total)
}

/// The number of stack cells of a value of a type, when it fits in a `u16`.
fn typ_cells(t: &Typ) -> (r: Option<u16>)
    ensures
        match r {
            Some(c) => c == typ_size(t@),
            None => typ_size(t@) > u16::MAX,
        },
    decreases t,
{
    match t {
        Typ::Local(l) => local_cells(l),
        _ => Some(1),
    }
}

/// The number of stack cells of values, when it fits in a `u16`.
fn infos_cells(v: &Vec<SymInfo>) -> (r: Option<u16>)
    ensures
        match r {
            Some(c) => c == types_size(infos_model(v@)),
            None => types_size(infos_model(v@)) > u16::MAX,
        },
{
    let ghost ts = infos_model(v@);
    let mut total: u16 = 0;
    let mut k: usize = 0;
    while k < v.len()
        invariant
            k <= v@.len(),
            ts == infos_model(v@),
            total == types_size(ts.take(k as int)),
        decreases v@.len() - k,
    {
        proof {
            lemma_types_size_prefix(ts, k as int);
            lemma_types_size_prefix(ts, k + 1);
        }
        assert(ts[k as int] == v@[k as int]@);
        let c = match typ_cells(&v[k].typ) {
            Some(c) => c,
            None => {
                return None;
            },
        };
        if c > u16::MAX - total {
            return None;
        }
        total = total + c;
        k = k + 1;
    }
    proof {
        assert(ts.take(k as int) =~= ts);
    }
    Some(total)
}

/// Release, as `c` says, the job that `x` holds, when it is a local that is
/// no alias.
fn clean(compiler: &mut Compiler, c: Cleanup, x: &SymInfo)
    ensures
        model(final(compiler)) == cleaned(model(old(compiler)), c, x@),
        final(compiler).icode.strings == old(compiler).icode.strings,
        final(compiler).sym_table == old(compiler).sym_table,
        final(compiler).current_file_path == old(compiler).current_file_path,
{
    match &x.typ {
        Typ::Local(l) => {
            if !l.is_alias {
                let _ = compiler.emit_cleanup(c, x);
            }
        },
        _ => {},
    }
}

impl CompilersImpl {
    /// An expression: a string or number literal, or an invocation.
    pub fn expr(compiler: &mut Compiler, e: Expr) -> (r: CompileResult<SymInfo>)
        requires
            old(compiler).wf(),
            expr_ok(e),
            e is Invocation ==> old(compiler).sym_table.has_current(),
        ensures
            final(compiler).wf(),
            final(compiler).current_file_path == old(compiler).current_file_path,
            final(compiler).sym_table.stack() == old(compiler).sym_table.stack(),
            final(compiler).sym_table.scopes().len() == old(compiler).sym_table.scopes().len(),
            model(final(compiler)) == spec_expr(model(old(compiler)), e).0,
            match spec_expr(model(old(compiler)), e).1 {
                Some(x) => r matches Ok(y) && y@ == x,
                None => r is Err,
            },
    {
        match e {
            Expr::String(s) => CompilersImpl::string(compiler, s),
            Expr::Natural(n) => CompilersImpl::natural(compiler, n),
            Expr::Invocation(inv) => CompilersImpl::invocation(compiler, inv),
            _ => Err(msg_error("Variables, slices and arrays are not compiled")),
        }
    }

    /// An argument of an invocation: strings become string literals,
    /// numbers natural literals, `$args` the arguments of the running
    /// function, an invocation its value.
    pub fn invocation_arg(compiler: &mut Compiler, a: InvocationArg) -> (r: CompileResult<SymInfo>)
        requires
            old(compiler).wf(),
            arg_ok(a),
            a is Invocation ==> old(compiler).sym_table.has_current(),
        ensures
            final(compiler).wf(),
            final(compiler).current_file_path == old(compiler).current_file_path,
            final(compiler).sym_table.stack() == old(compiler).sym_table.stack(),
            final(compiler).sym_table.scopes().len() == old(compiler).sym_table.scopes().len(),
            model(final(compiler)) == spec_arg(model(old(compiler)), a).0,
            match spec_arg(model(old(compiler)), a).1 {
                Some(x) => r matches Ok(y) && y@ == x,
                None => r is Err,
            },
        decreases a, 0int,
    {
        match a {
            InvocationArg::Opt(opt) => CompilersImpl::invocation_option(compiler, opt),
            InvocationArg::String(s) => CompilersImpl::string(compiler, s),
            InvocationArg::Ident(id) => compiler.compile_text(id),
            InvocationArg::Variable(Variable((v,))) => {
                proof {
                    reveal_strlit("args");
                }
                if str_eq(v, "args") {
                    Ok(SymInfo::args())
                } else {
                    Err(msg_error("Variables are not compiled"))
                }
            },
            InvocationArg::Path(path) => CompilersImpl::path(compiler, path),
            InvocationArg::Natural(n) => CompilersImpl::natural(compiler, n),
            InvocationArg::Invocation(inv) => CompilersImpl::invocation(compiler, inv),
            _ => Err(msg_error("Slices are not compiled")),
        }
    }

    /// An input redirection: an invocation gives its value, a string literal
    /// its literal.
    pub fn invocation_input_redirection(compiler: &mut Compiler, node: RedirectInput) -> (r:
        CompileResult<SymInfo>)
        requires
            old(compiler).wf(),
            input_ok(node),
            node.0.0 is Invocation ==> old(compiler).sym_table.has_current(),
        ensures
            final(compiler).wf(),
            final(compiler).current_file_path == old(compiler).current_file_path,
            final(compiler).sym_table.stack() == old(compiler).sym_table.stack(),
            final(compiler).sym_table.scopes().len() == old(compiler).sym_table.scopes().len(),
            model(final(compiler)) == spec_input(model(old(compiler)), node).0,
            match spec_input(model(old(compiler)), node).1 {
                Some(x) => r matches Ok(y) && y@ == x,
                None => r is Err,
            },
        decreases node, 0int,
    {
        let ghost orig = node;
        let RedirectInput((red,)) = node;
        proof {
            assert(decreases_to!(orig => orig.0));
            assert(decreases_to!(orig.0 => orig.0.0));
        }
        match red {
            Redirect::Invocation(inv) => CompilersImpl::invocation(compiler, inv),
            Redirect::String(s) => CompilersImpl::string(compiler, s),
            _ => Err(msg_error("Variables and slices are not compiled")),
        }
    }

    /// What an invocation runs: a built-in name its system call; a function
    /// of the program (which the name must be); a system command the string
    /// literal of its name or path; an invocation its value, buffered as a
    /// string.
    pub fn invocation_target(compiler: &mut Compiler, t: InvocationTarget) -> (r: CompileResult<
        SymInfo,
    >)
        requires
            old(compiler).wf(),
            target_ok(t),
            t is InvocationTargetInvocation ==> old(compiler).sym_table.has_current(),
        ensures
            final(compiler).wf(),
            final(compiler).current_file_path == old(compiler).current_file_path,
            final(compiler).sym_table.stack() == old(compiler).sym_table.stack(),
            final(compiler).sym_table.scopes().len() == old(compiler).sym_table.scopes().len(),
            model(final(compiler)) == spec_target(model(old(compiler)), t).0,
            match spec_target(model(old(compiler)), t).1 {
                Some(x) => r matches Ok(y) && y@ == x,
                None => r is Err,
            },
        decreases t, 0int,
    {
        let ghost orig = t;
        proof {
            reveal_strlit("__syscall-argslice");
            reveal_strlit("__builtin");
        }
        match t {
            InvocationTarget::InvocationTargetLocal(InvocationTargetLocal((id,))) => {
                if str_eq(id, "__syscall-argslice") {
                    Ok(SymInfo::syscall(SYSCALL_ARG_SLICE))
                } else if str_eq(id, "__builtin") {
                    Ok(SymInfo::syscall(SYSCALL_BUILTIN))
                } else {
                    compiler.compile_funcaddr(id)
                }
            },
            InvocationTarget::InvocationTargetSystemName(InvocationTargetSystemName((id,))) =>
                compiler.compile_text(id),
            InvocationTarget::InvocationTargetSystemPath(InvocationTargetSystemPath((path,))) =>
                CompilersImpl::path(compiler, path),
            InvocationTarget::InvocationTargetDereference(_) => Err(
                msg_error("Variables are not compiled"),
            ),
            InvocationTarget::InvocationTargetInvocation(InvocationTargetInvocation((inv,))) => {
                let x = match CompilersImpl::invocation(compiler, *inv) {
                    Ok(x) => x,
                    Err(e) => {
                        return Err(e);
                    },
                };
                clean(compiler, Cleanup::BufferString, &x);
                Ok(x)
            },
        }
    }

    /// The working directory of an invocation: a path gives its string
    /// literal, an invocation its value.
    pub fn invocation_cwd(compiler: &mut Compiler, c: InvocationCwd) -> (r: CompileResult<SymInfo>)
        requires
            old(compiler).wf(),
            cwd_ok(c),
            c is BoxInvocation ==> old(compiler).sym_table.has_current(),
        ensures
            final(compiler).wf(),
            final(compiler).current_file_path == old(compiler).current_file_path,
            final(compiler).sym_table.stack() == old(compiler).sym_table.stack(),
            final(compiler).sym_table.scopes().len() == old(compiler).sym_table.scopes().len(),
            model(final(compiler)) == spec_cwd(model(old(compiler)), c).0,
            match spec_cwd(model(old(compiler)), c).1 {
                Some(x) => r matches Ok(y) && y@ == x,
                None => r is Err,
            },
        decreases c, 0int,
    {
        match c {
            InvocationCwd::Path(path) => CompilersImpl::path(compiler, path),
            InvocationCwd::BoxInvocation(inv) => CompilersImpl::invocation(compiler, *inv),
            _ => Err(msg_error("Variables are not compiled")),
        }
    }

    /// An invocation: its environment variables (each name, then value),
    /// its input redirections, its target, its working directory (the null
    /// literal when there is none) and its arguments, last first; then its
    /// code. Its value is the temporary that receives what it gives.
    pub fn invocation(compiler: &mut Compiler, inv: Invocation) -> (r: CompileResult<SymInfo>)
        requires
            old(compiler).wf(),
            old(compiler).sym_table.has_current(),
            invocation_ok(inv),
        ensures
            final(compiler).wf(),
            final(compiler).current_file_path == old(compiler).current_file_path,
            final(compiler).sym_table.stack() == old(compiler).sym_table.stack(),
            final(compiler).sym_table.scopes().len() == old(compiler).sym_table.scopes().len(),
            model(final(compiler)) == spec_invocation(model(old(compiler)), inv).0,
            match spec_invocation(model(old(compiler)), inv).1 {
                Some(x) => r matches Ok(y) && y@ == x,
                None => r is Err,
            },
        decreases inv, 0int,
    {
        let ghost m0 = model(compiler);
        let ghost orig = inv;
        let Invocation((_doc, target, cwd_opt, inputs, _outputs, envs, args)) = inv;
        let ghost es = envs@;
        let ghost rs = inputs@;
        let ghost als = args@;
        proof {
            assert(decreases_to!(orig => orig.0));
            assert(decreases_to!(orig.0 => orig.0.5));
            assert(decreases_to!(orig.0 => orig.0.3));
            assert(decreases_to!(orig.0 => orig.0.6));
            assert(decreases_to!(orig.0.5 => orig.0.5@));
            assert(decreases_to!(orig.0.3 => orig.0.3@));
            assert(decreases_to!(orig.0.6 => orig.0.6@));
            assert forall|q: int| 0 <= q < es.len() implies decreases_to!(orig => #[trigger] es[q].1) by {
                assert(decreases_to!(orig.0.5@ => orig.0.5@[q]));
                assert(decreases_to!(orig.0.5@[q] => orig.0.5@[q].1));
            }
            assert forall|q: int| 0 <= q < rs.len() implies decreases_to!(orig => #[trigger] rs[q]) by {
                assert(decreases_to!(orig.0.3@ => orig.0.3@[q]));
            }
            assert forall|q: int| 0 <= q < als.len() implies decreases_to!(orig => #[trigger] als[q]) by {
                assert(decreases_to!(orig.0.6@ => orig.0.6@[q]));
            }
        }
        // Environment variables.
        let mut envs = envs;
        let mut env_infos: Vec<(SymInfo, SymInfo)> = Vec::new();
        let n = envs.len();
        let mut k: usize = 0;
        assert(pair_views(env_infos@) =~= Seq::<(InfoModel, InfoModel)>::empty());
        while k < n
            invariant
                n == es.len(),
                k <= n,
                envs@ == es.skip(k as int),
                m0 == model(old(compiler)),
                orig == inv,
                es == orig.0.5@,
                forall|q: int| 0 <= q < es.len() ==> arg_ok(#[trigger] es[q].1),
                forall|q: int| 0 <= q < es.len() ==> decreases_to!(orig => #[trigger] es[q].1),
                compiler.wf(),
                compiler.sym_table.has_current(),
                compiler.current_file_path == old(compiler).current_file_path,
                compiler.sym_table.stack() == old(compiler).sym_table.stack(),
                compiler.sym_table.scopes().len() == old(compiler).sym_table.scopes().len(),
                model(compiler) == spec_envs(m0, es, k as int).0,
                spec_envs(m0, es, k as int).1 == Some(pair_views(env_infos@)),
            decreases n - k,
        {
            let (name, val) = envs.remove(0);
            assert((name, val) == es[k as int]);
            let ghost mk = model(compiler);
            let ni = match compiler.compile_text(name) {
                Ok(x) => x,
                Err(e) => {
                    return Err(e);
                },
            };
            let vi = match CompilersImpl::invocation_arg(compiler, val) {
                Ok(x) => x,
                Err(e) => {
                    proof {
                        lemma_envs_stop(m0, es, k + 1, n as int);
                    }
                    return Err(e);
                },
            };
            let ghost before = env_infos@;
            env_infos.push((ni, vi));
            assert(pair_views(env_infos@) =~= pair_views(before).push((ni@, vi@)));
            assert(es.skip(k + 1) =~= es.skip(k as int).drop_first());
            k = k + 1;
        }
        let ghost m1 = model(compiler);
        let ghost ev = pair_views(env_infos@);
        assert(spec_envs(m0, es, es.len() as int) == (m1, Some(ev)));
        // Input redirections.
        let mut inputs = inputs;
        let mut inp_infos: Vec<SymInfo> = Vec::new();
        let n = inputs.len();
        let mut k: usize = 0;
        assert(infos_model(inp_infos@) =~= Seq::<InfoModel>::empty());
        while k < n
            invariant
                n == rs.len(),
                k <= n,
                inputs@ == rs.skip(k as int),
                m0 == model(old(compiler)),
                orig == inv,
                es == orig.0.5@,
                rs == orig.0.3@,
                ev == pair_views(env_infos@),
                spec_envs(m0, es, es.len() as int) == (m1, Some(ev)),
                forall|q: int| 0 <= q < rs.len() ==> input_ok(#[trigger] rs[q]),
                forall|q: int| 0 <= q < rs.len() ==> decreases_to!(orig => #[trigger] rs[q]),
                compiler.wf(),
                compiler.sym_table.has_current(),
                compiler.current_file_path == old(compiler).current_file_path,
                compiler.sym_table.stack() == old(compiler).sym_table.stack(),
                compiler.sym_table.scopes().len() == old(compiler).sym_table.scopes().len(),
                model(compiler) == spec_inputs(m1, rs, k as int).0,
                spec_inputs(m1, rs, k as int).1 == Some(infos_model(inp_infos@)),
            decreases n - k,
        {
            let red = inputs.remove(0);
            assert(red == rs[k as int]);
            let x = match CompilersImpl::invocation_input_redirection(compiler, red) {
                Ok(x) => x,
                Err(e) => {
                    proof {
                        lemma_inputs_stop(m1, rs, k + 1, n as int);
                    }
                    return Err(e);
                },
            };
            let ghost before = inp_infos@;
            inp_infos.push(x);
            assert(infos_model(inp_infos@) =~= infos_model(before).push(x@));
            assert(rs.skip(k + 1) =~= rs.skip(k as int).drop_first());
            k = k + 1;
        }
        let ghost m2 = model(compiler);
        let ghost iv = infos_model(inp_infos@);
        assert(spec_inputs(m1, rs, rs.len() as int) == (m2, Some(iv)));
        // Target.
        let tgt = match CompilersImpl::invocation_target(compiler, target) {
            Ok(x) => x,
            Err(e) => {
                return Err(e);
            },
        };
        let ghost m3 = model(compiler);
        // Working directory.
        let cwd = match cwd_opt {
            Some(c) => match CompilersImpl::invocation_cwd(compiler, c) {
                Ok(x) => x,
                Err(e) => {
                    return Err(e);
                },
            },
            None => SymInfo::null(),
        };
        let ghost m4 = model(compiler);
        // Arguments, last first.
        let mut args = args;
        let mut arg_infos: Vec<SymInfo> = Vec::new();
        let n = args.len();
        let mut k: usize = 0;
        assert(infos_model(arg_infos@) =~= Seq::<InfoModel>::empty());
        assert(args@.subrange(0, n as int) =~= als);
        while k < n
            invariant
                n == als.len(),
                k <= n,
                args@ == als.subrange(0, n - k),
                m0 == model(old(compiler)),
                orig == inv,
                als == orig.0.6@,
                ev == pair_views(env_infos@),
                iv == infos_model(inp_infos@),
                spec_envs(m0, orig.0.5@, orig.0.5@.len() as int) == (m1, Some(ev)),
                spec_inputs(m1, orig.0.3@, orig.0.3@.len() as int) == (m2, Some(iv)),
                spec_target(m2, orig.0.1) == (m3, Some(tgt@)),
                (match orig.0.2 {
                    Some(c) => spec_cwd(m3, c),
                    None => (m3, Some(null_model())),
                }) == (m4, Some(cwd@)),
                forall|q: int| 0 <= q < als.len() ==> arg_ok(#[trigger] als[q]),
                forall|q: int| 0 <= q < als.len() ==> decreases_to!(orig => #[trigger] als[q]),
                compiler.wf(),
                compiler.sym_table.has_current(),
                compiler.current_file_path == old(compiler).current_file_path,
                compiler.sym_table.stack() == old(compiler).sym_table.stack(),
                compiler.sym_table.scopes().len() == old(compiler).sym_table.scopes().len(),
                model(compiler) == spec_args_rev(m4, als, k as int).0,
                spec_args_rev(m4, als, k as int).1 == Some(infos_model(arg_infos@)),
            decreases n - k,
        {
            let a = args.pop().unwrap();
            assert(a == als[als.len() - (k + 1)]);
            assert(args@ =~= als.subrange(0, n - (k + 1)));
            let x = match CompilersImpl::invocation_arg(compiler, a) {
                Ok(x) => x,
                Err(e) => {
                    proof {
                        lemma_args_stop(m4, als, k + 1, n as int);
                    }
                    return Err(e);
                },
            };
            let ghost before = arg_infos@;
            arg_infos.push(x);
            assert(infos_model(arg_infos@) =~= infos_model(before).push(x@));
            k = k + 1;
        }
        CompilersImpl::emit_invocation(compiler, &env_infos, &inp_infos, &tgt, &cwd, &arg_infos)
    }

    /// The code of an invocation whose parts are compiled
    /// (`invocation_emits`).
    fn emit_invocation(
        compiler: &mut Compiler,
        envs: &Vec<(SymInfo, SymInfo)>,
        inps: &Vec<SymInfo>,
        tgt: &SymInfo,
        cwd: &SymInfo,
        args: &Vec<SymInfo>,
    ) -> (r: CompileResult<SymInfo>)
        requires
            old(compiler).wf(),
            old(compiler).sym_table.has_current(),
        ensures
            final(compiler).wf(),
            final(compiler).current_file_path == old(compiler).current_file_path,
            final(compiler).sym_table.stack() == old(compiler).sym_table.stack(),
            final(compiler).sym_table.scopes().len() == old(compiler).sym_table.scopes().len(),
            ({
                let e = invocation_emits(
                    model(old(compiler)),
                    pair_views(envs@),
                    infos_model(inps@),
                    tgt@,
                    cwd@,
                    infos_model(args@),
                );
                &&& model(final(compiler)) == e.0
                &&& match e.1 {
                    Some(x) => r matches Ok(y) && y@ == x,
                    None => r is Err,
                }
            }),
    {
        let ghost m0 = model(compiler);
        let ghost ev = pair_views(envs@);
        let ghost iv = infos_model(inps@);
        let ghost av = infos_model(args@);
        let mut types: Vec<SymInfo> = Vec::new();
        match &tgt.typ {
            Typ::Address(a) => {
                types.push(a.ret_t.duplicate());
            },
            Typ::Local(_) => {
                types.push(SymInfo::typ(tgt.typ.duplicate()));
            },
            Typ::Literal(l) => {
                if l.lit_type == LitType::String || l.lit_type == LitType::Syscall {
                    types.push(SymInfo::typ(tgt.typ.duplicate()));
                } else {
                    return Err(msg_error("What invocation target is this?"));
                }
            },
        }
        let ghost ts = infos_model(types@);
        assert(retval_types(tgt@) == Some(ts)) by {
            assert(ts =~= seq![types@[0]@]);
        }
        let ret = compiler.new_local_tmp(types);
        let ghost m1 = model(compiler);
        assert(m1 == with_tmp_local(m0, ts));
        // Environment variables: each value, then its name.
        let mut k: usize = 0;
        while k < envs.len()
            invariant
                k <= envs@.len(),
                ev == pair_views(envs@),
                iv == infos_model(inps@),
                av == infos_model(args@),
                m0 == model(old(compiler)),
                retval_types(tgt@) == Some(ts),
                m1 == with_tmp_local(m0, ts),
                ret@ == tmp_local(m0, ts),
                compiler.wf(),
                compiler.sym_table.has_current(),
                compiler.current_file_path == old(compiler).current_file_path,
                compiler.sym_table.stack() == old(compiler).sym_table.stack(),
                compiler.sym_table.scopes().len() == old(compiler).sym_table.scopes().len(),
                model(compiler) == pushed_envs(m1, ev, k as int).0,
                pushed_envs(m1, ev, k as int).1,
            decreases envs@.len() - k,
        {
            assert(ev[k as int] == (envs@[k as int].0@, envs@[k as int].1@));
            match compiler.emit_from_symbol(true, &envs[k].1) {
                Ok(()) => {},
                Err(e) => {
                    proof {
                        lemma_pushed_envs_stop(m1, ev, k + 1, ev.len() as int);
                    }
                    return Err(e);
                },
            }
            match compiler.emit_from_symbol(true, &envs[k].0) {
                Ok(()) => {},
                Err(e) => {
                    proof {
                        lemma_pushed_envs_stop(m1, ev, k + 1, ev.len() as int);
                    }
                    return Err(e);
                },
            }
            k = k + 1;
        }
        let ghost m2 = model(compiler);
        let mut cnt: Vec<SymInfo> = Vec::new();
        cnt.push(SymInfo::lit_natural(envs.len()));
        assert(infos_model(cnt@) =~= seq![nat_model(envs@.len() as usize)]);
        compiler.new_local_tmp(cnt);
        compiler.emit1(Instr::PushNat(envs.len()));
        let ghost m3 = model(compiler);
        assert(m3 == emitted(
            with_tmp_local(m2, seq![nat_model(ev.len() as usize)]),
            Instr::PushNat(ev.len() as usize),
        ));
        // Input redirections.
        let mut k: usize = 0;
        while k < inps.len()
            invariant
                k <= inps@.len(),
                iv == infos_model(inps@),
                ev == pair_views(envs@),
                av == infos_model(args@),
                m0 == model(old(compiler)),
                retval_types(tgt@) == Some(ts),
                m1 == with_tmp_local(m0, ts),
                ret@ == tmp_local(m0, ts),
                pushed_envs(m1, ev, ev.len() as int) == (m2, true),
                m3 == emitted(
                    with_tmp_local(m2, seq![nat_model(ev.len() as usize)]),
                    Instr::PushNat(ev.len() as usize),
                ),
                compiler.wf(),
                compiler.sym_table.has_current(),
                compiler.current_file_path == old(compiler).current_file_path,
                compiler.sym_table.stack() == old(compiler).sym_table.stack(),
                compiler.sym_table.scopes().len() == old(compiler).sym_table.scopes().len(),
                model(compiler) == pushed_all(m3, iv, k as int).0,
                pushed_all(m3, iv, k as int).1,
            decreases inps@.len() - k,
        {
            assert(iv[k as int] == inps@[k as int]@);
            match compiler.emit_from_symbol(true, &inps[k]) {
                Ok(()) => {},
                Err(e) => {
                    proof {
                        lemma_pushed_all_stop(m3, iv, k + 1, iv.len() as int);
                    }
                    return Err(e);
                },
            }
            k = k + 1;
        }
        let ghost m4 = model(compiler);
        assert(pushed_envs(m1, ev, ev.len() as int) == (m2, true));
        let mut cnt: Vec<SymInfo> = Vec::new();
        cnt.push(SymInfo::lit_natural(inps.len()));
        assert(infos_model(cnt@) =~= seq![nat_model(inps@.len() as usize)]);
        compiler.new_local_tmp(cnt);
        compiler.emit1(Instr::PushNat(inps.len()));
        let ghost m5 = model(compiler);
        assert(m5 == emitted(
            with_tmp_local(m4, seq![nat_model(iv.len() as usize)]),
            Instr::PushNat(iv.len() as usize),
        ));
        // Target and working directory.
        match compiler.emit_from_symbol(true, tgt) {
            Ok(()) => {},
            Err(e) => {
                return Err(e);
            },
        }
        let ghost m6 = model(compiler);
        match compiler.emit_from_symbol(true, cwd) {
            Ok(()) => {},
            Err(e) => {
                return Err(e);
            },
        }
        let ghost m7 = model(compiler);
        // Arguments, and their number of cells.
        let cells = match infos_cells(args) {
            Some(c) => c,
            None => {
                return Err(msg_error("Too many argument cells"));
            },
        };
        let mut k: usize = 0;
        while k < args.len()
            invariant
                k <= args@.len(),
                av == infos_model(args@),
                ev == pair_views(envs@),
                iv == infos_model(inps@),
                m0 == model(old(compiler)),
                retval_types(tgt@) == Some(ts),
                m1 == with_tmp_local(m0, ts),
                ret@ == tmp_local(m0, ts),
                pushed_envs(m1, ev, ev.len() as int) == (m2, true),
                m3 == emitted(
                    with_tmp_local(m2, seq![nat_model(ev.len() as usize)]),
                    Instr::PushNat(ev.len() as usize),
                ),
                pushed_all(m3, iv, iv.len() as int) == (m4, true),
                m5 == emitted(
                    with_tmp_local(m4, seq![nat_model(iv.len() as usize)]),
                    Instr::PushNat(iv.len() as usize),
                ),
                pushed(m5, tgt@) == Some(m6),
                pushed(m6, cwd@) == Some(m7),
                types_size(av) <= u16::MAX,
                cells == types_size(av),
                compiler.wf(),
                compiler.sym_table.has_current(),
                compiler.current_file_path == old(compiler).current_file_path,
                compiler.sym_table.stack() == old(compiler).sym_table.stack(),
                compiler.sym_table.scopes().len() == old(compiler).sym_table.scopes().len(),
                model(compiler) == pushed_all(m7, av, k as int).0,
                pushed_all(m7, av, k as int).1,
            decreases args@.len() - k,
        {
            assert(av[k as int] == args@[k as int]@);
            match compiler.emit_from_symbol(true, &args[k]) {
                Ok(()) => {},
                Err(e) => {
                    proof {
                        lemma_pushed_all_stop(m7, av, k + 1, av.len() as int);
                    }
                    return Err(e);
                },
            }
            k = k + 1;
        }
        let ghost m8 = model(compiler);
        assert(pushed_all(m7, av, av.len() as int) == (m8, true));
        match compiler.emit_from_symbol(true, &SymInfo::lit_natural(cells as usize)) {
            Ok(()) => {},
            Err(e) => {
                return Err(e);
            },
        }
        let run = match &tgt.typ {
            Typ::Address(_) => Instr::Call(0xffff_ffff),
            Typ::Literal(l) => if l.lit_type == LitType::Syscall {
                Instr::Syscall(l.id)
            } else {
                Instr::Syscall(SYSCALL_SPAWN)
            },
            Typ::Local(_) => Instr::Syscall(SYSCALL_SPAWN),
        };
        compiler.emit1(run);
        Ok(ret)
    }

    /// `name` bound to the value of `e` (an alias of it), whose job is then
    /// released as `c` says.
    fn bound(compiler: &mut Compiler, name: &str, e: Expr, c: Cleanup) -> (r: CompileResult<SymInfo>)
        requires
            old(compiler).wf(),
            old(compiler).sym_table.has_current(),
            expr_ok(e),
        ensures
            final(compiler).wf(),
            final(compiler).sym_table.has_current(),
            final(compiler).current_file_path == old(compiler).current_file_path,
            ({
                let (m1, v) = spec_expr(model(old(compiler)), e);
                &&& model(final(compiler)) == match v {
                    Some(x) => cleaned(recorded(m1, alias_entry(m1, name@, x)), c, x),
                    None => m1,
                }
                &&& match v {
                    Some(x) => r matches Ok(y) && y@ == x,
                    None => r is Err,
                }
            }),
    {
        let sinfo = match Self::expr(compiler, e) {
            Ok(s) => s,
            Err(err) => {
                return Err(err);
            },
        };
        compiler.sym_table.alias_in_scope(&sinfo, str_to_string(name));
        clean(compiler, c, &sinfo);
        Ok(sinfo)
    }

    /// What `include path` does once the file, whose path the caller pushed
    /// with `push_file_path` and whose text it read, was parsed into `block`:
    /// the block is compiled, then that path is popped, whether the block
    /// compiled or not. Its value is the null literal.
    pub fn include_block(compiler: &mut Compiler, block: Block) -> (r: CompileResult<SymInfo>)
        requires
            old(compiler).wf(),
            old(compiler).sym_table.has_current(),
            old(compiler).paths().len() > 0,
            block_ok(block),
        ensures
            final(compiler).wf(),
            final(compiler).sym_table.has_current(),
            final(compiler).paths() == old(compiler).paths().drop_last(),
            model(final(compiler)) == spec_block(model(old(compiler)), block).0,
            match spec_block(model(old(compiler)), block).1 {
                Some(_) => r matches Ok(y) && y@ == null_model(),
                None => r is Err,
            },
    {
        let res = CompilersImpl::block(compiler, block);
        compiler.pop_file_path();
        match res {
            Ok(_) => Ok(SymInfo::null()),
            Err(err) => Err(err),
        }
    }

    /// What `include_str name path` does once the file's text has been read:
    /// the text becomes a string literal and `name` an alias of it.
    pub fn include_str_text(compiler: &mut Compiler, name: &str, text: &str) -> (r: CompileResult<
        SymInfo,
    >)
        requires
            old(compiler).wf(),
            old(compiler).sym_table.has_current(),
        ensures
            final(compiler).wf(),
            final(compiler).sym_table.has_current(),
            final(compiler).current_file_path == old(compiler).current_file_path,
            ({
                let (m1, v) = spec_text(model(old(compiler)), text@);
                &&& model(final(compiler)) == recorded(m1, alias_entry(m1, name@, v->0))
                &&& r matches Ok(y) && y@ == v->0
            }),
    {
        let sinfo = match compiler.compile_text(text) {
            Ok(s) => s,
            Err(err) => {
                return Err(err);
            },
        };
        compiler.sym_table.alias_in_scope(&sinfo, str_to_string(name));
        Ok(sinfo)
    }

    /// The end of a function definition once the statements of its body
    /// compiled: its final expression, the return of its value, the
    /// frame's release, the patching of the frame size and of the jump over
    /// the body (at `jump_instr`), and the function recorded under `name`.
    fn def_finish(compiler: &mut Compiler, name: &str, e: Expr, jump_instr: usize) -> (r:
        CompileResult<SymInfo>)
        requires
            old(compiler).wf(),
            old(compiler).sym_table.has_current(),
            expr_ok(e),
            old(compiler).sym_table.stack().len() > 0,
            0 <= current_id(old(compiler).sym_table.stack().drop_last())
                < old(compiler).sym_table.scopes().len(),
            jump_instr + 1 < old(compiler).instrs().len(),
            old(compiler).instrs()[jump_instr as int] == (Instr::Jump { addr: 0 }),
            old(compiler).instrs()[jump_instr + 1] == (Instr::Allocate { size: 0 }),
        ensures
            final(compiler).wf(),
            final(compiler).sym_table.has_current(),
            final(compiler).current_file_path == old(compiler).current_file_path,
            model(final(compiler)) == def_tail(model(old(compiler)), name@, e, jump_instr as int).0,
            match def_tail(model(old(compiler)), name@, e, jump_instr as int).1 {
                Some(x) => r matches Ok(y) && y@ == x,
                None => r is Err,
            },
    {
        let ghost m3 = model(compiler);
        let ghost res = spec_expr(m3, e);
        proof {
            lemma_expr_keeps(m3, e);
            lemma_expr_value_not_null(m3, e);
        }
        let retval = match Self::expr(compiler, e) {
            Ok(s) => s,
            Err(err) => {
                assert(def_tail(m3, name@, e, jump_instr as int) == (res.0, None::<InfoModel>));
                return Err(err);
            },
        };
        assert(model(compiler) == res.0 && res.1 == Some(retval@));
        assert(model(compiler).instrs[jump_instr as int] == m3.instrs[jump_instr as int]);
        assert(model(compiler).instrs[jump_instr + 1] == m3.instrs[jump_instr + 1]);
        assert(def_tail(m3, name@, e, jump_instr as int) == def_end(res.0, name@, retval@, jump_instr as int));
        Self::def_close(compiler, name, &retval, jump_instr)
    }

    /// What [`Self::def_finish`] does once the final expression gave `retval`.
    #[verifier::rlimit(40)]
    fn def_close(compiler: &mut Compiler, name: &str, retval: &SymInfo, jump_instr: usize) -> (r:
        CompileResult<SymInfo>)
        requires
            old(compiler).wf(),
            old(compiler).sym_table.has_current(),
            !((retval@.typ matches TypModel::Literal { lit_type, .. })
                && retval@.typ->Literal_lit_type == LitType::Null),
            old(compiler).sym_table.stack().len() > 0,
            0 <= current_id(old(compiler).sym_table.stack().drop_last())
                < old(compiler).sym_table.scopes().len(),
            jump_instr + 1 < old(compiler).instrs().len(),
            old(compiler).instrs()[jump_instr as int] == (Instr::Jump { addr: 0 }),
            old(compiler).instrs()[jump_instr + 1] == (Instr::Allocate { size: 0 }),
        ensures
            final(compiler).wf(),
            final(compiler).sym_table.has_current(),
            final(compiler).current_file_path == old(compiler).current_file_path,
            model(final(compiler)) == def_end(model(old(compiler)), name@, retval@, jump_instr as int).0,
            match def_end(model(old(compiler)), name@, retval@, jump_instr as int).1 {
                Some(x) => r matches Ok(y) && y@ == x,
                None => r is Err,
            },
    {
        let emitted_so_far = compiler.num_instrs();
        assert(jump_instr + 1 < emitted_so_far);
        let alloc_instr = jump_instr + 1;
        let frame_size = compiler.sym_table.stack_frame_size();
        match compiler.emit_from_symbol(false, retval) {
            Ok(()) => {},
            Err(err) => {
                return Err(err);
            },
        }
        compiler.sym_table.exit_scope();
        match compiler.backpatch_with(alloc_instr, frame_size) {
            Ok(()) => {},
            Err(err) => {
                return Err(err);
            },
        }
        compiler.emit1(Instr::Return(frame_size));
        let jump_target = compiler.num_instrs();
        match compiler.backpatch_with(jump_instr, jump_target) {
            Ok(()) => {},
            Err(err) => {
                return Err(err);
            },
        }
        let ninfo = compiler.sym_table.new_address(str_to_string(name), jump_instr + 1, retval);
        Ok(ninfo)
    }

    /// A statement: an expression (its job cleaned up), a `let` or `src`
    /// binding (the name becomes an alias of the value, collected or piped),
    /// a function definition, or nothing. An include, whose file the caller
    /// reads, and a template definition are answered with an error.
    #[verifier::rlimit(40)]
    pub fn item(compiler: &mut Compiler, item: Item) -> (r: CompileResult<SymInfo>)
        requires
            old(compiler).wf(),
            old(compiler).sym_table.has_current(),
            item_ok(item),
        ensures
            final(compiler).wf(),
            final(compiler).sym_table.has_current(),
            final(compiler).current_file_path == old(compiler).current_file_path,
            model(final(compiler)) == spec_item(model(old(compiler)), item).0,
            match spec_item(model(old(compiler)), item).1 {
                Some(x) => r matches Ok(y) && y@ == x,
                None => r is Err,
            },
        decreases item,
    {
        let ghost orig = item;
        let ghost m0 = model(compiler);
        match item {
            Item::Expr(e) => {
                let sinfo = match Self::expr(compiler, e) {
                    Ok(s) => s,
                    Err(err) => {
                        return Err(err);
                    },
                };
                clean(compiler, Cleanup::CleanUp, &sinfo);
                Ok(sinfo)
            },
            Item::LetStmt(LetStmt((name, e))) => Self::bound(compiler, name, e, Cleanup::Collect),
            Item::SrcStmt(SrcStmt((name, e))) => Self::bound(compiler, name, e, Cleanup::Pipe),
            Item::DefStmt(DefStmt((name, Body::Block(Block((items, e)))))) => {
                compiler.emit1(Instr::Jump { addr: 0 });
                let jump_instr = compiler.instr_id();
                compiler.emit1(Instr::Allocate { size: 0 });
                compiler.sym_table.enter_scope();
                let ghost m2 = model(compiler);
                let ghost all = items@;
                proof {
                    let d = orig->DefStmt_0;
                    let b = d.0.1->Block_0;
                    assert(decreases_to!(orig => d));
                    assert(decreases_to!(d => d.0));
                    assert(decreases_to!(d.0 => d.0.1));
                    assert(decreases_to!(d.0.1 => b));
                    assert(decreases_to!(b => b.0));
                    assert(decreases_to!(b.0 => b.0.0));
                    assert(b.0.0@ == all);
                    assert(decreases_to!(b.0.0 => b.0.0@));
                    assert forall|q: int| 0 <= q < all.len() implies decreases_to!(orig => #[trigger] all[q]) by {
                        assert(decreases_to!(b.0.0@ => b.0.0@[q]));
                    }
                    assert(m2.stack.drop_last() =~= m0.stack);
                }
                let mut items = items;
                let mut k: usize = 0;
                let n = items.len();
                while k < n
                    invariant
                        n == all.len(),
                        k <= n,
                        items@ == all.skip(k as int),
                        forall|q: int| 0 <= q < all.len() ==> item_ok(#[trigger] all[q]),
                        forall|q: int| 0 <= q < all.len() ==> decreases_to!(orig => #[trigger] all[q]),
                        compiler.wf(),
                        compiler.sym_table.has_current(),
                        compiler.current_file_path == old(compiler).current_file_path,
                        model(compiler) == spec_items(m2, all, k as int).0,
                        spec_items(m2, all, k as int).1,
                        model(compiler).stack == m2.stack,
                        model(compiler).instrs.len() >= m2.instrs.len(),
                        model(compiler).instrs.subrange(0, m2.instrs.len() as int) == m2.instrs,
                        orig == item,
                        m0 == model(old(compiler)),
                        m2.stack.len() > 0,
                        m2.instrs.len() == m0.instrs.len() + 2,
                        m2.instrs[m0.instrs.len() as int] == (Instr::Jump { addr: 0 }),
                        m2.instrs[m0.instrs.len() as int + 1] == (Instr::Allocate { size: 0 }),
                        m2.stack.drop_last() == m0.stack,
                        spec_item(m0, orig) == (if spec_items(m2, all, all.len() as int).1 {
                            def_tail(spec_items(m2, all, all.len() as int).0, name@, e, m0.instrs.len() as int)
                        } else {
                            (spec_items(m2, all, all.len() as int).0, None)
                        }),
                    decreases n - k,
                {
                    let it = items.remove(0);
                    assert(it == all[k as int]);
                    let ghost mk = model(compiler);
                    match Self::item(compiler, it) {
                        Ok(_) => {},
                        Err(err) => {
                            proof {
                                assert(spec_items(m2, all, k + 1) == (model(compiler), false));
                                lemma_items_stop(m2, all, k + 1, n as int);
                            }
                            return Err(err);
                        },
                    }
                    proof {
                        lemma_item_keeps(mk, all[k as int]);
                    }
                    assert(all.skip(k + 1) =~= all.skip(k as int).drop_first());
                    k = k + 1;
                }
                assert(all.skip(n as int).len() == 0);
                let ghost m3 = model(compiler);
                assert(spec_items(m2, all, all.len() as int) == (m3, true));
                Self::def_finish(compiler, name, e, jump_instr)
            },
            Item::Empty => Ok(SymInfo::null()),
            _ => Err(msg_error("Includes and templates are not compiled here")),
        }
    }
}

/// `m2` comes after `m`: the same stack of active scopes, and the
/// instructions of `m` followed by more.
pub open spec fn extends(m: CompilerModel, m2: CompilerModel) -> bool {
    &&& m2.stack == m.stack
    &&& m2.instrs.len() >= m.instrs.len()
    &&& m2.instrs.subrange(0, m.instrs.len() as int) == m.instrs
}

proof fn lemma_extends_trans(a: CompilerModel, b: CompilerModel, c: CompilerModel)
    requires
        extends(a, b),
        extends(b, c),
    ensures
        extends(a, c),
{
    assert(c.instrs.subrange(0, a.instrs.len() as int) =~= c.instrs.subrange(
        0,
        b.instrs.len() as int,
    ).subrange(0, a.instrs.len() as int));
}

proof fn lemma_extends_refl(m: CompilerModel)
    ensures
        extends(m, m),
{
    assert(m.instrs.subrange(0, m.instrs.len() as int) =~= m.instrs);
}

proof fn lemma_extends_emitted(m: CompilerModel, i: Instr)
    ensures
        extends(m, emitted(m, i)),
{
    assert(emitted(m, i).instrs.subrange(0, m.instrs.len() as int) =~= m.instrs);
}

proof fn lemma_extends_same_code(m: CompilerModel, m2: CompilerModel)
    requires
        m2.stack == m.stack,
        m2.instrs == m.instrs,
    ensures
        extends(m, m2),
{
    lemma_extends_refl(m);
}

proof fn lemma_pushed_keeps(m: CompilerModel, x: InfoModel)
    ensures
        pushed(m, x) matches Some(m2) ==> extends(m, m2),
{
    if let Some(ins) = symbol_instr(true, x) {
        let m1 = CompilerModel { scopes: crate::compiler::with_tmp(m.scopes, m.stack), ..m };
        lemma_extends_emitted(m1, ins);
        lemma_extends_same_code(m, m1);
        lemma_extends_trans(m, m1, emitted(m1, ins));
    }
}

proof fn lemma_cleaned_keeps(m: CompilerModel, c: Cleanup, x: InfoModel)
    ensures
        extends(m, cleaned(m, c, x)),
{
    lemma_extends_refl(m);
    match x.typ {
        TypModel::Local { fp_off, .. } => lemma_extends_emitted(m, cleanup_instr(c, fp_off)),
        _ => {},
    }
}

proof fn lemma_pushed_all_keeps(m: CompilerModel, xs: Seq<InfoModel>, n: int)
    ensures
        extends(m, pushed_all(m, xs, n).0),
    decreases n,
{
    if n <= 0 || n > xs.len() {
        lemma_extends_refl(m);
    } else {
        lemma_pushed_all_keeps(m, xs, n - 1);
        let (m1, ok) = pushed_all(m, xs, n - 1);
        if ok {
            lemma_pushed_keeps(m1, xs[n - 1]);
            if let Some(m2) = pushed(m1, xs[n - 1]) {
                lemma_extends_trans(m, m1, m2);
            }
        }
    }
}

proof fn lemma_pushed_envs_keeps(m: CompilerModel, es: Seq<(InfoModel, InfoModel)>, n: int)
    ensures
        extends(m, pushed_envs(m, es, n).0),
    decreases n,
{
    if n <= 0 || n > es.len() {
        lemma_extends_refl(m);
    } else {
        lemma_pushed_envs_keeps(m, es, n - 1);
        let (m1, ok) = pushed_envs(m, es, n - 1);
        if ok {
            lemma_pushed_keeps(m1, es[n - 1].1);
            if let Some(m2) = pushed(m1, es[n - 1].1) {
                lemma_extends_trans(m, m1, m2);
                lemma_pushed_keeps(m2, es[n - 1].0);
                if let Some(m3) = pushed(m2, es[n - 1].0) {
                    lemma_extends_trans(m, m2, m3);
                }
            }
        }
    }
}

proof fn lemma_tmp_keeps(m: CompilerModel, ts: Seq<InfoModel>)
    ensures
        extends(m, with_tmp_local(m, ts)),
{
    lemma_extends_same_code(m, with_tmp_local(m, ts));
}

proof fn lemma_emits_keeps(
    m: CompilerModel,
    envs: Seq<(InfoModel, InfoModel)>,
    inps: Seq<InfoModel>,
    tgt: InfoModel,
    cwd: InfoModel,
    args: Seq<InfoModel>,
)
    ensures
        extends(m, invocation_emits(m, envs, inps, tgt, cwd, args).0),
{
    lemma_extends_refl(m);
    if let Some(ts) = retval_types(tgt) {
        let m1 = with_tmp_local(m, ts);
        lemma_tmp_keeps(m, ts);
        lemma_pushed_envs_keeps(m1, envs, envs.len() as int);
        let (m2, ok2) = pushed_envs(m1, envs, envs.len() as int);
        lemma_extends_trans(m, m1, m2);
        if ok2 {
            let t2 = with_tmp_local(m2, seq![nat_model(envs.len() as usize)]);
            lemma_tmp_keeps(m2, seq![nat_model(envs.len() as usize)]);
            lemma_extends_emitted(t2, Instr::PushNat(envs.len() as usize));
            let m3 = emitted(t2, Instr::PushNat(envs.len() as usize));
            lemma_extends_trans(m2, t2, m3);
            lemma_extends_trans(m, m2, m3);
            lemma_pushed_all_keeps(m3, inps, inps.len() as int);
            let (m4, ok4) = pushed_all(m3, inps, inps.len() as int);
            lemma_extends_trans(m, m3, m4);
            if ok4 {
                let t4 = with_tmp_local(m4, seq![nat_model(inps.len() as usize)]);
                lemma_tmp_keeps(m4, seq![nat_model(inps.len() as usize)]);
                lemma_extends_emitted(t4, Instr::PushNat(inps.len() as usize));
                let m5 = emitted(t4, Instr::PushNat(inps.len() as usize));
                lemma_extends_trans(m4, t4, m5);
                lemma_extends_trans(m, m4, m5);
                lemma_pushed_keeps(m5, tgt);
                if let Some(m6) = pushed(m5, tgt) {
                    lemma_extends_trans(m, m5, m6);
                    lemma_pushed_keeps(m6, cwd);
                    if let Some(m7) = pushed(m6, cwd) {
                        lemma_extends_trans(m, m6, m7);
                        lemma_pushed_all_keeps(m7, args, args.len() as int);
                        let (m8, ok8) = pushed_all(m7, args, args.len() as int);
                        lemma_extends_trans(m, m7, m8);
                        lemma_pushed_keeps(m8, nat_model(types_size(args) as usize));
                        if let Some(m9) = pushed(m8, nat_model(types_size(args) as usize)) {
                            lemma_extends_trans(m, m8, m9);
                            lemma_extends_emitted(m9, run_instr(tgt));
                            lemma_extends_trans(m, m9, emitted(m9, run_instr(tgt)));
                        }
                    }
                }
            }
        }
    }
}

proof fn lemma_text_keeps(m: CompilerModel, s: Seq<char>)
    ensures
        extends(m, spec_text(m, s).0),
{
    lemma_extends_same_code(m, spec_text(m, s).0);
}

proof fn lemma_arg_keeps<'i>(m: CompilerModel, a: InvocationArg<'i>)
    ensures
        extends(m, spec_arg(m, a).0),
    decreases a, 0int,
{
    lemma_extends_refl(m);
    match a {
        InvocationArg::Opt(o) => lemma_text_keeps(m, opt_text(o)),
        InvocationArg::Ident(t) => lemma_text_keeps(m, t@),
        InvocationArg::Path(p) => lemma_text_keeps(m, path_text(p)),
        InvocationArg::String(StringLit((t,))) => lemma_text_keeps(m, unquoted(t.spec_bytes())),
        InvocationArg::Invocation(inv) => lemma_invocation_keeps(m, inv),
        _ => {},
    }
}

proof fn lemma_input_keeps<'i>(m: CompilerModel, r: RedirectInput<'i>)
    ensures
        extends(m, spec_input(m, r).0),
    decreases r, 0int,
{
    lemma_extends_refl(m);
    match r.0.0 {
        Redirect::Invocation(inv) => lemma_invocation_keeps(m, inv),
        Redirect::String(StringLit((t,))) => lemma_text_keeps(m, unquoted(t.spec_bytes())),
        _ => {},
    }
}

proof fn lemma_target_keeps<'i>(m: CompilerModel, t: InvocationTarget<'i>)
    ensures
        extends(m, spec_target(m, t).0),
    decreases t, 0int,
{
    lemma_extends_refl(m);
    match t {
        InvocationTarget::InvocationTargetSystemName(InvocationTargetSystemName((n,))) =>
            lemma_text_keeps(m, n@),
        InvocationTarget::InvocationTargetSystemPath(InvocationTargetSystemPath((p,))) =>
            lemma_text_keeps(m, path_text(p)),
        InvocationTarget::InvocationTargetInvocation(InvocationTargetInvocation((inv,))) => {
            lemma_invocation_keeps(m, *inv);
            let (m1, r) = spec_invocation(m, *inv);
            if let Some(x) = r {
                lemma_cleaned_keeps(m1, Cleanup::BufferString, x);
                lemma_extends_trans(m, m1, cleaned(m1, Cleanup::BufferString, x));
            }
        },
        _ => {},
    }
}

proof fn lemma_cwd_keeps<'i>(m: CompilerModel, c: InvocationCwd<'i>)
    ensures
        extends(m, spec_cwd(m, c).0),
    decreases c, 0int,
{
    lemma_extends_refl(m);
    match c {
        InvocationCwd::Path(p) => lemma_text_keeps(m, path_text(p)),
        InvocationCwd::BoxInvocation(inv) => lemma_invocation_keeps(m, *inv),
        _ => {},
    }
}

proof fn lemma_envs_keeps<'i>(m: CompilerModel, es: Seq<(&'i str, InvocationArg<'i>)>, n: int)
    ensures
        extends(m, spec_envs(m, es, n).0),
    decreases es, n,
{
    if n <= 0 || n > es.len() {
        lemma_extends_refl(m);
    } else {
        lemma_envs_keeps(m, es, n - 1);
        let (m1, r) = spec_envs(m, es, n - 1);
        if r is Some {
            let m2 = spec_text(m1, es[n - 1].0@).0;
            lemma_text_keeps(m1, es[n - 1].0@);
            lemma_extends_trans(m, m1, m2);
            lemma_arg_keeps(m2, es[n - 1].1);
            lemma_extends_trans(m, m2, spec_arg(m2, es[n - 1].1).0);
        }
    }
}

proof fn lemma_inputs_keeps<'i>(m: CompilerModel, rs: Seq<RedirectInput<'i>>, n: int)
    ensures
        extends(m, spec_inputs(m, rs, n).0),
    decreases rs, n,
{
    if n <= 0 || n > rs.len() {
        lemma_extends_refl(m);
    } else {
        lemma_inputs_keeps(m, rs, n - 1);
        let (m1, r) = spec_inputs(m, rs, n - 1);
        if r is Some {
            lemma_input_keeps(m1, rs[n - 1]);
            lemma_extends_trans(m, m1, spec_input(m1, rs[n - 1]).0);
        }
    }
}

proof fn lemma_args_keeps<'i>(m: CompilerModel, args: Seq<InvocationArg<'i>>, n: int)
    ensures
        extends(m, spec_args_rev(m, args, n).0),
    decreases args, n,
{
    if n <= 0 || n > args.len() {
        lemma_extends_refl(m);
    } else {
        lemma_args_keeps(m, args, n - 1);
        let (m1, r) = spec_args_rev(m, args, n - 1);
        if r is Some {
            lemma_arg_keeps(m1, args[args.len() - n]);
            lemma_extends_trans(m, m1, spec_arg(m1, args[args.len() - n]).0);
        }
    }
}

/// An invocation keeps the stack of active scopes, and only adds
/// instructions after the existing ones.
proof fn lemma_invocation_keeps<'i>(m: CompilerModel, inv: Invocation<'i>)
    ensures
        extends(m, spec_invocation(m, inv).0),
    decreases inv, 0int,
{
    lemma_envs_keeps(m, inv.0.5@, inv.0.5@.len() as int);
    let (m1, envs) = spec_envs(m, inv.0.5@, inv.0.5@.len() as int);
    if let Some(es) = envs {
        lemma_inputs_keeps(m1, inv.0.3@, inv.0.3@.len() as int);
        let (m2, inps) = spec_inputs(m1, inv.0.3@, inv.0.3@.len() as int);
        lemma_extends_trans(m, m1, m2);
        if let Some(is) = inps {
            lemma_target_keeps(m2, inv.0.1);
            let (m3, tgt) = spec_target(m2, inv.0.1);
            lemma_extends_trans(m, m2, m3);
            if let Some(t) = tgt {
                let (m4, cwd) = match inv.0.2 {
                    Some(c) => spec_cwd(m3, c),
                    None => (m3, Some(null_model())),
                };
                match inv.0.2 {
                    Some(c) => lemma_cwd_keeps(m3, c),
                    None => lemma_extends_refl(m3),
                }
                lemma_extends_trans(m, m3, m4);
                if let Some(cw) = cwd {
                    lemma_args_keeps(m4, inv.0.6@, inv.0.6@.len() as int);
                    let (m5, args) = spec_args_rev(m4, inv.0.6@, inv.0.6@.len() as int);
                    lemma_extends_trans(m, m4, m5);
                    if let Some(xs) = args {
                        lemma_emits_keeps(m5, es, is, t, cw, xs);
                        lemma_extends_trans(m, m5, invocation_emits(m5, es, is, t, cw, xs).0);
                    }
                }
            }
        }
    }
}

/// An expression keeps the stack of active scopes, and only adds
/// instructions after the existing ones.
/// The value of an invocation's code is its temporary, a local.
proof fn lemma_emits_local(
    m: CompilerModel,
    envs: Seq<(InfoModel, InfoModel)>,
    inps: Seq<InfoModel>,
    tgt: InfoModel,
    cwd: InfoModel,
    args: Seq<InfoModel>,
)
    ensures
        invocation_emits(m, envs, inps, tgt, cwd, args).1 matches Some(x) ==> (x.typ matches TypModel::Local {
            is_alias,
            ..
        } && !is_alias),
{
    if let Some(ts) = retval_types(tgt) {
        assert(tmp_local(m, ts).typ is Local);
    }
}

/// The value of an invocation is a local of its own, no alias.
proof fn lemma_invocation_local<'i>(m: CompilerModel, inv: Invocation<'i>)
    ensures
        spec_invocation(m, inv).1 matches Some(x) ==> (x.typ matches TypModel::Local {
            is_alias,
            ..
        } && !is_alias),
{
    let (m1, envs) = spec_envs(m, inv.0.5@, inv.0.5@.len() as int);
    if let Some(es) = envs {
        let (m2, inps) = spec_inputs(m1, inv.0.3@, inv.0.3@.len() as int);
        if let Some(is) = inps {
            let (m3, tgt) = spec_target(m2, inv.0.1);
            if let Some(t) = tgt {
                let (m4, cwd) = match inv.0.2 {
                    Some(c) => spec_cwd(m3, c),
                    None => (m3, Some(null_model())),
                };
                if let Some(cw) = cwd {
                    let (m5, args) = spec_args_rev(m4, inv.0.6@, inv.0.6@.len() as int);
                    if let Some(xs) = args {
                        lemma_emits_local(m5, es, is, t, cw, xs);
                    }
                }
            }
        }
    }
}

/// How a statement releases the job of the value it computes, when that
/// value is a local of its own: an expression statement cleans it up, a
/// `let` binding collects it at once, and a `src` binding pipes it, to be
/// collected later. Each adds exactly that one instruction after the code of
/// the expression, and the three instructions differ.
pub proof fn law_statement_cleanups<'i>(m: CompilerModel, name: &'i str, e: Expr<'i>)
    requires
        spec_expr(m, e).1 matches Some(x) && x.typ matches TypModel::Local { is_alias, .. }
            && !is_alias,
    ensures
        ({
            let (m1, v) = spec_expr(m, e);
            let off = v->0.typ->Local_fp_off;
            let src = spec_item(m, Item::SrcStmt(SrcStmt((name, e)))).0.instrs;
            let let_ = spec_item(m, Item::LetStmt(LetStmt((name, e)))).0.instrs;
            let ex = spec_item(m, Item::Expr(e)).0.instrs;
            &&& src == m1.instrs.push(Instr::Pipe(off))
            &&& let_ == m1.instrs.push(Instr::Collect(off))
            &&& ex == m1.instrs.push(Instr::CleanUp(off))
            &&& src.last() != let_.last() && src.last() != ex.last() && let_.last() != ex.last()
        }),
{
}

/// A `src` binding of an invocation that compiles ends with the invocation's
/// job piped, where a `let` binding of it ends with the job collected.
pub proof fn law_src_of_invocation_pipes<'i>(m: CompilerModel, name: &'i str, inv: Invocation<'i>)
    requires
        spec_invocation(m, inv).1 is Some,
    ensures
        ({
            let (m1, v) = spec_invocation(m, inv);
            let off = v->0.typ->Local_fp_off;
            &&& spec_item(m, Item::SrcStmt(SrcStmt((name, Expr::Invocation(inv))))).0.instrs
                == m1.instrs.push(Instr::Pipe(off))
            &&& spec_item(m, Item::LetStmt(LetStmt((name, Expr::Invocation(inv))))).0.instrs
                == m1.instrs.push(Instr::Collect(off))
        }),
{
    lemma_invocation_local(m, inv);
    law_statement_cleanups(m, name, Expr::Invocation(inv));
}

/// What an expression compiles into is never the null literal.
proof fn lemma_expr_value_not_null<'i>(m: CompilerModel, e: Expr<'i>)
    ensures
        spec_expr(m, e).1 matches Some(x) ==> !((x.typ matches TypModel::Literal { lit_type, .. })
            && x.typ->Literal_lit_type == LitType::Null),
{
    match e {
        Expr::Invocation(inv) => lemma_invocation_local(m, inv),
        _ => {},
    }
}

proof fn lemma_expr_keeps<'i>(m: CompilerModel, e: Expr<'i>)
    ensures
        extends(m, spec_expr(m, e).0),
{
    lemma_extends_refl(m);
    match e {
        Expr::String(StringLit((t,))) => lemma_text_keeps(m, unquoted(t.spec_bytes())),
        Expr::Invocation(inv) => lemma_invocation_keeps(m, inv),
        _ => {},
    }
}

proof fn lemma_bound_keeps<'i>(m: CompilerModel, e: Expr<'i>, name: Seq<char>, c: Cleanup)
    ensures
        ({
            let (m1, r) = spec_expr(m, e);
            match r {
                Some(x) => extends(m, cleaned(recorded(m1, alias_entry(m1, name, x)), c, x)),
                None => extends(m, m1),
            }
        }),
{
    lemma_expr_keeps(m, e);
    let (m1, r) = spec_expr(m, e);
    if let Some(x) = r {
        let m2 = recorded(m1, alias_entry(m1, name, x));
        lemma_extends_same_code(m1, m2);
        lemma_extends_trans(m, m1, m2);
        lemma_cleaned_keeps(m2, c, x);
        lemma_extends_trans(m, m2, cleaned(m2, c, x));
    }
}

/// A statement keeps the stack of active scopes as it was when it compiles,
/// and only adds or patches instructions after the existing ones.
proof fn lemma_item_keeps<'i>(m: CompilerModel, item: Item<'i>)
    ensures
        spec_item(m, item).1 is Some ==> spec_item(m, item).0.stack == m.stack,
        spec_item(m, item).0.instrs.len() >= m.instrs.len(),
        spec_item(m, item).0.instrs.subrange(0, m.instrs.len() as int) == m.instrs,
    decreases item,
{
    match item {
        Item::DefStmt(DefStmt((name, Body::Block(Block((items, e)))))) => {
            let j = m.instrs.len() as int;
            let m1 = emitted(emitted(m, Instr::Jump { addr: 0 }), Instr::Allocate { size: 0 });
            let m2 = CompilerModel {
                scopes: m1.scopes.push(Seq::empty()),
                stack: m1.stack.push(m1.scopes.len() as usize),
                ..m1
            };
            assert(m2.instrs.subrange(0, j) =~= m.instrs);
            lemma_items_keeps(m2, items@, items@.len() as int);
            let (m3, ok) = spec_items(m2, items@, items@.len() as int);
            assert(m3.instrs.subrange(0, j) =~= m3.instrs.subrange(0, m2.instrs.len() as int).subrange(
                0,
                j,
            ));
            if ok {
                lemma_expr_keeps(m3, e);
                let (m4, r) = spec_expr(m3, e);
                match r {
                    Some(ret) => {
                        let frame = frame_size(m4.scopes[current_id(m4.stack)]);
                        match symbol_instr(false, ret) {
                            Some(ins) => {
                                let m5 = emitted(m4, ins);
                                let m6 = CompilerModel { stack: m5.stack.drop_last(), ..m5 };
                                let m7 = CompilerModel {
                                    instrs: m6.instrs.update(
                                        j + 1,
                                        Instr::Allocate { size: frame as usize },
                                    ),
                                    ..m6
                                };
                                let m8 = emitted(m7, Instr::Return(frame as usize));
                                let m9 = CompilerModel {
                                    instrs: m8.instrs.update(
                                        j,
                                        Instr::Jump { addr: m8.instrs.len() as usize },
                                    ),
                                    ..m8
                                };
                                assert(m6.stack =~= m.stack);
                                assert(m9.instrs.subrange(0, j) =~= m.instrs);
                            },
                            None => {
                                assert(m4.instrs.subrange(0, j) =~= m.instrs);
                            },
                        }
                    },
                    None => {
                        assert(m4.instrs.subrange(0, j) =~= m.instrs);
                    },
                }
            }
        },
        Item::LetStmt(LetStmt((name, e))) => {
            lemma_bound_keeps(m, e, name@, Cleanup::Collect);
        },
        Item::SrcStmt(SrcStmt((name, e))) => {
            lemma_bound_keeps(m, e, name@, Cleanup::Pipe);
        },
        Item::Expr(e) => {
            lemma_expr_keeps(m, e);
            let (m1, r) = spec_expr(m, e);
            if let Some(x) = r {
                lemma_cleaned_keeps(m1, Cleanup::CleanUp, x);
                lemma_extends_trans(m, m1, cleaned(m1, Cleanup::CleanUp, x));
            }
        },
        _ => {
            assert(m.instrs.subrange(0, m.instrs.len() as int) =~= m.instrs);
        },
    }
}

/// Statements keep the stack of active scopes when they all compile, and
/// only add or patch instructions after the existing ones.
proof fn lemma_items_keeps<'i>(m: CompilerModel, items: Seq<Item<'i>>, n: int)
    ensures
        spec_items(m, items, n).1 ==> spec_items(m, items, n).0.stack == m.stack,
        spec_items(m, items, n).0.instrs.len() >= m.instrs.len(),
        spec_items(m, items, n).0.instrs.subrange(0, m.instrs.len() as int) == m.instrs,
    decreases items, n,
{
    if n <= 0 || n > items.len() {
        assert(m.instrs.subrange(0, m.instrs.len() as int) =~= m.instrs);
    } else {
        lemma_items_keeps(m, items, n - 1);
        let (m1, ok) = spec_items(m, items, n - 1);
        if ok {
            lemma_item_keeps(m1, items[n - 1]);
            let m2 = spec_item(m1, items[n - 1]).0;
            assert(m2.instrs.subrange(0, m.instrs.len() as int) =~= m2.instrs.subrange(
                0,
                m1.instrs.len() as int,
            ).subrange(0, m.instrs.len() as int));
        }
    }
}

/// Compiling a block: its statements, then its final expression, whose
/// value is the block's.
pub open spec fn spec_block<'i>(m: CompilerModel, b: Block<'i>) -> (CompilerModel, Option<InfoModel>) {
    let (m1, ok) = spec_items(m, b.0.0@, b.0.0@.len() as int);
    if ok {
        spec_expr(m1, b.0.1)
    } else {
        (m1, None)
    }
}

impl CompilersImpl {
    /// A block: its statements in order, then its final expression; fails
    /// at the first statement that fails.
    pub fn block(compiler: &mut Compiler, block: Block) -> (r: CompileResult<SymInfo>)
        requires
            old(compiler).wf(),
            old(compiler).sym_table.has_current(),
            block_ok(block),
        ensures
            final(compiler).wf(),
            final(compiler).sym_table.has_current(),
            final(compiler).current_file_path == old(compiler).current_file_path,
            model(final(compiler)) == spec_block(model(old(compiler)), block).0,
            match spec_block(model(old(compiler)), block).1 {
                Some(x) => r matches Ok(y) && y@ == x,
                None => r is Err,
            },
    {
        let ghost m0 = model(compiler);
        let ghost b0 = block;
        let Block((items, e)) = block;
        let ghost all = items@;
        let mut items = items;
        let n = items.len();
        let mut k: usize = 0;
        while k < n
            invariant
                n == all.len(),
                k <= n,
                items@ == all.skip(k as int),
                forall|q: int| 0 <= q < all.len() ==> item_ok(#[trigger] all[q]),
                compiler.wf(),
                compiler.sym_table.has_current(),
                compiler.current_file_path == old(compiler).current_file_path,
                m0 == model(old(compiler)),
                b0.0.0@ == all,
                b0.0.1 == e,
                b0 == block,
                model(compiler) == spec_items(m0, all, k as int).0,
                spec_items(m0, all, k as int).1,
            decreases n - k,
        {
            let it = items.remove(0);
            assert(it == all[k as int]);
            let ghost mk = model(compiler);
            match Self::item(compiler, it) {
                Ok(_) => {},
                Err(err) => {
                    proof {
                        assert(spec_items(m0, all, k + 1) == (model(compiler), false));
                        lemma_items_stop(m0, all, k + 1, n as int);
                    }
                    return Err(err);
                },
            }
            assert(all.skip(k + 1) =~= all.skip(k as int).drop_first());
            k = k + 1;
        }
        Self::expr(compiler, e)
    }

    /// A function body: its block.
    pub fn body(compiler: &mut Compiler, body: Body) -> (r: CompileResult<SymInfo>)
        requires
            old(compiler).wf(),
            old(compiler).sym_table.has_current(),
            body matches Body::Block(b) && block_ok(b),
        ensures
            final(compiler).wf(),
            final(compiler).sym_table.has_current(),
            final(compiler).current_file_path == old(compiler).current_file_path,
            match body {
                Body::Block(b) => {
                    &&& model(final(compiler)) == spec_block(model(old(compiler)), b).0
                    &&& match spec_block(model(old(compiler)), b).1 {
                        Some(x) => r matches Ok(y) && y@ == x,
                        None => r is Err,
                    }
                },
            },
    {
        match body {
            Body::Block(b) => Self::block(compiler, b),
        }
    }
}

impl<'i> Compile<Item<'i>> for Compiler {
    open spec fn compilable(&self, node: Item<'i>) -> bool {
        self.wf() && self.sym_table.has_current() && item_ok(node)
    }

    fn compile(&mut self, node: Item<'i>) -> (r: CompileResult<SymInfo>)
        ensures
            final(self).wf(),
            final(self).sym_table.has_current(),
            final(self).current_file_path == old(self).current_file_path,
            model(final(self)) == spec_item(model(old(self)), node).0,
            match spec_item(model(old(self)), node).1 {
                Some(x) => r matches Ok(y) && y@ == x,
                None => r is Err,
            },
    {
        CompilersImpl::item(self, node)
    }
}

impl<'i> Compile<Block<'i>> for Compiler {
    open spec fn compilable(&self, node: Block<'i>) -> bool {
        self.wf() && self.sym_table.has_current() && block_ok(node)
    }

    fn compile(&mut self, node: Block<'i>) -> (r: CompileResult<SymInfo>)
        ensures
            final(self).wf(),
            final(self).sym_table.has_current(),
            final(self).current_file_path == old(self).current_file_path,
            model(final(self)) == spec_block(model(old(self)), node).0,
            match spec_block(model(old(self)), node).1 {
                Some(x) => r matches Ok(y) && y@ == x,
                None => r is Err,
            },
    {
        CompilersImpl::block(self, node)
    }
}

// ---------------------------------------------------------------------------
// Programs that run an invocation
// ---------------------------------------------------------------------------

/// The number of stack cells that a program reserves for the temporaries
/// of its call.
pub const CALL_CTX: usize = 8;

/// Compiling a forward invocation of the function `name` (`name $args`).
pub open spec fn spec_forward<'a>(m: CompilerModel, name: &'a str) -> (
    CompilerModel,
    Option<InfoModel>,
) {
    let (m3, tgt) = spec_target(
        m,
        InvocationTarget::InvocationTargetLocal(InvocationTargetLocal((name,))),
    );
    match tgt {
        None => (m3, None),
        Some(t) => invocation_emits(m3, Seq::empty(), Seq::empty(), t, null_model(), seq![args_model()]),
    }
}

/// A program run as an invocation: a frame for the call's temporaries,
/// what `body` compiles into from there (the state and the value), and the
/// frame's release when it compiles.
pub open spec fn in_call_frame(r: (CompilerModel, Option<InfoModel>)) -> (
    CompilerModel,
    Option<InfoModel>,
) {
    match r.1 {
        Some(x) => (emitted(r.0, Instr::Return(CALL_CTX)), Some(x)),
        None => (r.0, None),
    }
}

proof fn lemma_forward<'a>(m: CompilerModel, inv: Invocation<'a>, name: &'a str)
    requires
        inv.0.1 matches InvocationTarget::InvocationTargetLocal(InvocationTargetLocal((n,))) && n
            == name,
        inv.0.2 is None,
        inv.0.3@.len() == 0,
        inv.0.5@.len() == 0,
        inv.0.6@.len() == 1,
        inv.0.6@[0] matches InvocationArg::Variable(Variable((v,))) && v@ == "args"@,
    ensures
        spec_invocation(m, inv) == spec_forward(m, name),
{
    let (m3, tgt) = spec_target(m, inv.0.1);
    assert(inv.0.1 == InvocationTarget::InvocationTargetLocal(InvocationTargetLocal((name,))));
    if let Some(t) = tgt {
        let a = spec_args_rev(m3, inv.0.6@, 1);
        assert(spec_args_rev(m3, inv.0.6@, 0) == (m3, Some(Seq::<InfoModel>::empty())));
        assert(spec_arg(m3, inv.0.6@[0]) == (m3, Some(args_model())));
        assert(Seq::<InfoModel>::empty().push(args_model()) =~= seq![args_model()]);
        assert(a == (m3, Some(seq![args_model()])));
    }
}

/// Compile `program` as an invocation block: a frame for the call's
/// temporaries, the program, the frame's release.
pub fn compile_invocation_block(cmp: &mut Compiler, program: Block) -> (r: CompileResult<SymInfo>)
    requires
        old(cmp).wf(),
        old(cmp).sym_table.has_current(),
        block_ok(program),
    ensures
        final(cmp).wf(),
        final(cmp).current_file_path == old(cmp).current_file_path,
        ({
            let e = in_call_frame(
                spec_block(emitted(model(old(cmp)), Instr::Allocate { size: CALL_CTX }), program),
            );
            &&& model(final(cmp)) == e.0
            &&& match e.1 {
                Some(x) => r matches Ok(y) && y@ == x,
                None => r is Err,
            }
        }),
{
    cmp.emit1(Instr::Allocate { size: CALL_CTX });
    let sinfo = match CompilersImpl::block(cmp, program) {
        Ok(s) => s,
        Err(e) => {
            return Err(e);
        },
    };
    cmp.emit1(Instr::Return(CALL_CTX));
    Ok(sinfo)
}

/// Compile a forward invocation of the function `func_name` (`func_name
/// $args`) as an invocation block.
pub fn compile_invocation(cmp: &mut Compiler, func_name: &str) -> (r: CompileResult<SymInfo>)
    requires
        old(cmp).wf(),
        old(cmp).sym_table.has_current(),
    ensures
        final(cmp).wf(),
        final(cmp).current_file_path == old(cmp).current_file_path,
        ({
            let e = in_call_frame(
                spec_forward(emitted(model(old(cmp)), Instr::Allocate { size: CALL_CTX }), func_name),
            );
            &&& model(final(cmp)) == e.0
            &&& match e.1 {
                Some(x) => r matches Ok(y) && y@ == x,
                None => r is Err,
            }
        }),
{
    let ghost m1 = emitted(model(cmp), Instr::Allocate { size: CALL_CTX });
    let invc = make_forward_invocation(func_name);
    proof {
        lemma_forward(m1, invc, func_name);
    }
    let program = Block((Vec::new(), Expr::Invocation(invc)));
    proof {
        assert(spec_items(m1, program.0.0@, 0) == (m1, true));
        assert(program.0.0@.len() == 0);
    }
    compile_invocation_block(cmp, program)
}

/// Compile `block` as the body of the function `func_name`, then a forward
/// invocation of it, as an invocation block.
pub fn compile_wrap_in_invocation<'i>(func_name: &'i str, block: Block<'i>, cmp: &mut Compiler) -> (r:
    CompileResult<SymInfo>)
    requires
        old(cmp).wf(),
        old(cmp).sym_table.has_current(),
        block_ok(block),
    ensures
        final(cmp).wf(),
        final(cmp).current_file_path == old(cmp).current_file_path,
        ({
            let m1 = emitted(model(old(cmp)), Instr::Allocate { size: CALL_CTX });
            let (m2, d) = spec_item(m1, Item::DefStmt(DefStmt((func_name, Body::Block(block)))));
            let e = if d is Some {
                in_call_frame(spec_forward(m2, func_name))
            } else {
                (m2, None)
            };
            &&& model(final(cmp)) == e.0
            &&& match e.1 {
                Some(x) => r matches Ok(y) && y@ == x,
                None => r is Err,
            }
        }),
{
    let ghost m1 = emitted(model(cmp), Instr::Allocate { size: CALL_CTX });
    let ghost def = Item::DefStmt(DefStmt((func_name, Body::Block(block))));
    let mut items: Vec<Item<'i>> = Vec::new();
    items.push(Item::DefStmt(DefStmt((func_name, Body::Block(block)))));
    let invc = make_forward_invocation(func_name);
    let ghost m2 = spec_item(m1, def).0;
    proof {
        lemma_forward(m2, invc, func_name);
    }
    let program = Block((items, Expr::Invocation(invc)));
    proof {
        assert(program.0.0@ =~= seq![def]);
        assert(spec_items(m1, program.0.0@, 0) == (m1, true));
        assert(program.0.0@[0] == def);
    }
    compile_invocation_block(cmp, program)
}

/// The number of stack cells that a module's program reserves for the
/// temporaries of its call.
pub const MODULE_CTX: usize = 7;

impl CompilersImpl {
    /// A module: its block becomes the body of the function
    /// `m___system_main___`, which the program, in a frame for the call's
    /// temporaries, defines and then invokes with the arguments it was given
    /// (`m___system_main___ $args`). Its value is the null literal.
    pub fn module(compiler: &mut Compiler, module: Module) -> (r: CompileResult<SymInfo>)
        requires
            old(compiler).wf(),
            old(compiler).sym_table.has_current(),
            block_ok(module.0.0),
        ensures
            final(compiler).wf(),
            final(compiler).current_file_path == old(compiler).current_file_path,
            ({
                let m1 = emitted(model(old(compiler)), Instr::Allocate { size: MODULE_CTX });
                let (m2, d) = spec_item(
                    m1,
                    Item::DefStmt(DefStmt(("m___system_main___", Body::Block(module.0.0)))),
                );
                let e = if d is Some {
                    spec_forward(m2, "m___system_main___")
                } else {
                    (m2, None)
                };
                &&& model(final(compiler)) == if e.1 is Some {
                    emitted(e.0, Instr::Return(MODULE_CTX))
                } else {
                    e.0
                }
                &&& match e.1 {
                    Some(_) => r matches Ok(y) && y@ == null_model(),
                    None => r is Err,
                }
            }),
    {
        let Module((body,)) = module;
        let main_name = "m___system_main___";
        compiler.emit1(Instr::Allocate { size: MODULE_CTX });
        let ghost m1 = model(compiler);
        let ghost def = Item::DefStmt(DefStmt((main_name, Body::Block(body))));
        let mut items: Vec<Item> = Vec::new();
        items.push(Item::DefStmt(DefStmt((main_name, Body::Block(body)))));
        let invc = make_forward_invocation(main_name);
        let ghost m2 = spec_item(m1, def).0;
        proof {
            lemma_forward(m2, invc, main_name);
        }
        let program = Block((items, Expr::Invocation(invc)));
        proof {
            assert(program.0.0@ =~= seq![def]);
            assert(spec_items(m1, program.0.0@, 0) == (m1, true));
            assert(program.0.0@[0] == def);
        }
        match CompilersImpl::block(compiler, program) {
            Ok(_) => {},
            Err(err) => {
                return Err(err);
            },
        }
        compiler.emit1(Instr::Return(MODULE_CTX));
        Ok(SymInfo::null())
    }
}

// ---------------------------------------------------------------------------
// Linking modules
// ---------------------------------------------------------------------------

/// The total number of instructions of the first `n` modules.
pub open spec fn total_instrs(mods: Seq<Compiler>, n: int) -> nat
    decreases n,
{
    if n <= 0 || n > mods.len() {
        0
    } else {
        total_instrs(mods, n - 1) + mods[n - 1].instrs().len()
    }
}

/// What linking needs of a module: a well-formed compiler with a global
/// scope, whose string ids exist and whose addresses stay within `usize`
/// once moved past all the code linked with it (`total` instructions).
pub open spec fn linkable(src: Compiler, total: nat) -> bool {
    &&& src.wf()
    &&& src.sym_table.scopes().len() > 0
    &&& forall|i: int|
        0 <= i < src.instrs().len() ==> crate::compiler::string_in(
            #[trigger] src.instrs()[i],
            src.table().len(),
        )
    &&& forall|i: int|
        0 <= i < src.instrs().len() ==> crate::compiler::moves_within(
            #[trigger] src.instrs()[i],
            total as int,
        )
    &&& forall|j: int|
        0 <= j < src.sym_table.scopes()[0].len() ==> crate::compiler::function_moves_within(
            #[trigger] src.sym_table.scopes()[0][j].1,
            total as int,
        )
}

/// The state after linking the first `n` modules into a compiler with two
/// empty scopes: each module imported in turn.
pub open spec fn link_fold(mods: Seq<Compiler>, n: int) -> CompilerModel
    decreases n,
{
    if n <= 0 || n > mods.len() {
        CompilerModel {
            instrs: Seq::empty(),
            table: Seq::empty(),
            scopes: seq![Seq::empty(), Seq::empty()],
            stack: seq![0usize, 1usize],
        }
    } else {
        let m = link_fold(mods, n - 1);
        let src = mods[n - 1];
        let base = m.instrs.len() as int;
        let scan = crate::compiler::import_scan(
            m.table,
            src.table(),
            base,
            src.instrs(),
            src.instrs().len() as int,
        );
        CompilerModel {
            instrs: m.instrs + scan.1,
            table: scan.0,
            scopes: m.scopes.update(
                1,
                m.scopes[1] + crate::compiler::imported_globals(
                    src.sym_table.scopes()[0],
                    base,
                    1,
                ),
            ),
            stack: m.stack,
        }
    }
}

proof fn lemma_import_scan_len(
    table: Seq<Seq<char>>,
    src_table: Seq<Seq<char>>,
    base: int,
    src: Seq<Instr>,
    n: int,
)
    requires
        0 <= n,
    ensures
        crate::compiler::import_scan(table, src_table, base, src, n).1.len() == n,
    decreases n,
{
    if n > 0 {
        lemma_import_scan_len(table, src_table, base, src, n - 1);
    }
}

proof fn lemma_total_monotone(mods: Seq<Compiler>, k: int, n: int)
    requires
        0 <= k <= n <= mods.len(),
    ensures
        total_instrs(mods, k) <= total_instrs(mods, n),
    decreases n - k,
{
    if k < n {
        lemma_total_monotone(mods, k, n - 1);
    }
}

/// Linking concatenates code: after the first `n` modules are linked, the
/// code is exactly as long as theirs together.
pub proof fn law_link_length(mods: Seq<Compiler>, n: int)
    requires
        0 <= n <= mods.len(),
    ensures
        link_fold(mods, n).instrs.len() == total_instrs(mods, n),
    decreases n,
{
    if n > 0 {
        law_link_length(mods, n - 1);
        let m = link_fold(mods, n - 1);
        let src = mods[n - 1];
        lemma_import_scan_len(
            m.table,
            src.table(),
            m.instrs.len() as int,
            src.instrs(),
            src.instrs().len() as int,
        );
    }
}

/// Link compiled modules into one compiler: two scopes are entered (the
/// functions of the modules are recorded in the second), then each module
/// is imported in turn.
pub fn link_modules(mods: &Vec<Compiler>) -> (r: Compiler)
    requires
        forall|i: int|
            0 <= i < mods@.len() ==> linkable(
                #[trigger] mods@[i],
                total_instrs(mods@, mods@.len() as int),
            ),
    ensures
        r.wf(),
        model(&r) == link_fold(mods@, mods@.len() as int),
        r.current_file_path@.len() == 0,
{
    let mut linked = Compiler::new();
    assert(linked.paths().len() == linked.current_file_path@.len());
    linked.sym_table.enter_scope();
    linked.sym_table.enter_scope();
    proof {
        assert(model(&linked).scopes =~= seq![Seq::<EntryModel>::empty(), Seq::<EntryModel>::empty()]);
        assert(model(&linked).stack =~= seq![0usize, 1usize]);
        assert(model(&linked).instrs =~= Seq::<Instr>::empty());
    }
    let n = mods.len();
    let mut k: usize = 0;
    while k < n
        invariant
            n == mods@.len(),
            k <= n,
            forall|i: int|
                0 <= i < mods@.len() ==> linkable(
                    #[trigger] mods@[i],
                    total_instrs(mods@, mods@.len() as int),
                ),
            linked.wf(),
            linked.current_file_path@.len() == 0,
            model(&linked) == link_fold(mods@, k as int),
            linked.instrs().len() == total_instrs(mods@, k as int),
            linked.sym_table.stack() == seq![0usize, 1usize],
            linked.sym_table.scopes().len() == 2,
        decreases n - k,
    {
        let ghost m = model(&linked);
        let ghost src = mods@[k as int];
        proof {
            lemma_total_monotone(mods@, k + 1, n as int);
            assert(linkable(src, total_instrs(mods@, n as int)));
            assert forall|i: int| 0 <= i < src.instrs().len() implies crate::compiler::moves_within(
                #[trigger] src.instrs()[i],
                linked.instrs().len() as int,
            ) by {
                assert(crate::compiler::moves_within(
                    src.instrs()[i],
                    total_instrs(mods@, n as int) as int,
                ));
            }
            assert forall|j: int|
                0 <= j < src.sym_table.scopes()[0].len() implies crate::compiler::function_moves_within(
                #[trigger] src.sym_table.scopes()[0][j].1,
                linked.instrs().len() as int,
            ) by {
                assert(crate::compiler::function_moves_within(
                    src.sym_table.scopes()[0][j].1,
                    total_instrs(mods@, n as int) as int,
                ));
            }
            assert(current_id(linked.sym_table.stack()) == 1);
        }
        crate::compiler::import(&mut linked, &mods[k]);
        proof {
            lemma_import_scan_len(
                m.table,
                src.table(),
                m.instrs.len() as int,
                src.instrs(),
                src.instrs().len() as int,
            );
            assert(model(&linked) == link_fold(mods@, k + 1));
        }
        k = k + 1;
    }
    linked
}

} // verus!
