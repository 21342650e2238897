use dusk::ast::{Block, Body, DefStmt, Expr, Item, LetStmt, Natural, SrcStmt, StringLit};
use dusk::ast::{
    AbsPath, HomePath, InvocationArg, InvocationCwd, InvocationTarget, InvocationTargetLocal, InvocationTargetSystemName,
    InvocationTargetSystemPath, LongOpt, Opt, Path, RelPath, Variable,
};
use dusk::ast::{Invocation, InvocationTargetInvocation};
use dusk::compile::{compile_invocation, compile_invocation_block, compile_wrap_in_invocation, CALL_CTX, MODULE_CTX};
use dusk::compiler::{Compile, Compiler, CompilersImpl, Instr, SYSCALL_ARG_SLICE, SYSCALL_SPAWN};
use dusk::symbol_info::Typ;
use dusk::symbol_info::LitType;

fn natural(n: &str) -> Expr {
    Expr::Natural(Natural((n,)))
}

fn string(s: &str) -> Expr {
    Expr::String(StringLit((s,)))
}

#[test]
fn function_layout() {
    let mut cmp = Compiler::new();
    cmp.init("m.dust").ok().unwrap();
    let body = Body::Block(Block((vec![Item::LetStmt(LetStmt(("x", string("\"a\""))))], natural("5"))));
    let f = CompilersImpl::item(&mut cmp, Item::DefStmt(DefStmt(("f", body)))).ok().unwrap();
    assert_eq!(f.addr().ok(), Some(1));
    assert_eq!(
        cmp.icode.instructions,
        vec![
            Instr::Jump { addr: 4 },
            Instr::Allocate { size: 0 },
            Instr::RetNat(5),
            Instr::Return(0),
        ]
    );
    assert_eq!(cmp.icode.strings, vec!["a".to_string()]);
    assert_eq!(cmp.sym_table.lookup("f").ok().unwrap().addr().ok(), Some(1));
    assert!(cmp.sym_table.lookup("x").is_err());
    assert_eq!(cmp.sym_table.scope_id(), 0);
}

#[test]
fn nested_functions() {
    let mut cmp = Compiler::new();
    cmp.init("m.dust").ok().unwrap();
    let inner = Item::DefStmt(DefStmt(("g", Body::Block(Block((vec![], string("\"s\"")))))));
    let outer = Body::Block(Block((vec![inner], natural("1"))));
    let f = cmp.compile(Item::DefStmt(DefStmt(("f", outer)))).ok().unwrap();
    assert_eq!(f.addr().ok(), Some(1));
    assert_eq!(
        cmp.icode.instructions,
        vec![
            Instr::Jump { addr: 8 },
            Instr::Allocate { size: 0 },
            Instr::Jump { addr: 6 },
            Instr::Allocate { size: 0 },
            Instr::RetStr(0),
            Instr::Return(0),
            Instr::RetNat(1),
            Instr::Return(0),
        ]
    );
    assert!(cmp.sym_table.lookup("g").is_err());
}

#[test]
fn bindings_and_failures() {
    let mut cmp = Compiler::new();
    cmp.init("m.dust").ok().unwrap();
    let v = CompilersImpl::item(&mut cmp, Item::SrcStmt(SrcStmt(("s", natural("9"))))).ok().unwrap();
    assert_eq!(v.val(), 9);
    assert_eq!(cmp.sym_table.lookup("s").ok().unwrap().val(), 9);
    assert!(CompilersImpl::item(&mut cmp, Item::Expr(natural("x9"))).is_err());
    assert!(CompilersImpl::item(&mut cmp, Item::Empty).is_ok());
    let b = CompilersImpl::block(
        &mut cmp,
        Block((vec![Item::Expr(string("r#\"q\"#"))], natural("3"))),
    )
    .ok()
    .unwrap();
    assert_eq!(b.val(), 3);
    assert_eq!(cmp.icode.strings, vec!["q".to_string()]);
    let bad = Body::Block(Block((vec![Item::Expr(natural("oops"))], natural("3"))));
    assert!(CompilersImpl::body(&mut cmp, bad).is_err());
    assert!(cmp.icode.instructions.is_empty());
}

#[test]
fn linking_two_modules() {
    let mut a = Compiler::new();
    a.init("a.dust").ok().unwrap();
    let fa = Body::Block(Block((vec![Item::LetStmt(LetStmt(("x", string("\"unused\""))))], string("\"a\""))));
    CompilersImpl::item(&mut a, Item::DefStmt(DefStmt(("f", fa)))).ok().unwrap();
    assert_eq!(a.icode.strings, vec!["unused".to_string(), "a".to_string()]);
    let mut b = Compiler::new();
    b.init("b.dust").ok().unwrap();
    let gb = Body::Block(Block((vec![], string("\"b\""))));
    CompilersImpl::item(&mut b, Item::DefStmt(DefStmt(("g", gb)))).ok().unwrap();
    assert_eq!(b.icode.instructions[2], Instr::RetStr(0));

    let linked = dusk::compile::link_modules(&vec![a, b]);
    assert_eq!(
        linked.icode.instructions,
        vec![
            Instr::Jump { addr: 4 },
            Instr::Allocate { size: 0 },
            Instr::RetStr(0),
            Instr::Return(0),
            Instr::Jump { addr: 8 },
            Instr::Allocate { size: 0 },
            Instr::RetStr(1),
            Instr::Return(0),
        ]
    );
    // Only the strings that the imported code refers to are carried over,
    // under new ids.
    assert_eq!(linked.icode.strings, vec!["a".to_string(), "b".to_string()]);
    assert_eq!(linked.sym_table.lookup("f").ok().unwrap().addr().ok(), Some(1));
    assert_eq!(linked.sym_table.lookup("g").ok().unwrap().addr().ok(), Some(5));
    assert_eq!(linked.sym_table.scope_id(), 1);
}

fn literal(info: &dusk::symbol_info::Info) -> Option<(usize, dusk::symbol_info::LitType)> {
    match &info.typ {
        dusk::symbol_info::Typ::Literal(l) => Some((l.id, l.lit_type)),
        _ => None,
    }
}

#[test]
fn invocation_arguments() {
    let mut cmp = Compiler::new();
    let o = CompilersImpl::invocation_arg(&mut cmp, InvocationArg::Opt(Opt::LongOpt(LongOpt(("--all",))))).ok().unwrap();
    assert_eq!(literal(&o), Some((0, LitType::String)));
    let s = CompilersImpl::invocation_arg(&mut cmp, InvocationArg::String(StringLit(("\"x y\"",)))).ok().unwrap();
    assert_eq!(literal(&s), Some((1, LitType::String)));
    let w = CompilersImpl::invocation_arg(&mut cmp, InvocationArg::Ident("--all")).ok().unwrap();
    assert_eq!(literal(&w), Some((0, LitType::String)));
    let p = CompilersImpl::invocation_arg(&mut cmp, InvocationArg::Path(Path::RelPath(RelPath(("./a",))))).ok().unwrap();
    assert_eq!(literal(&p), Some((2, LitType::String)));
    assert_eq!(cmp.icode.strings, vec!["--all".to_string(), "x y".to_string(), "./a".to_string()]);
    let n = CompilersImpl::invocation_arg(&mut cmp, InvocationArg::Natural(Natural(("42",)))).ok().unwrap();
    assert_eq!(literal(&n), Some((42, LitType::Natural)));
    assert!(CompilersImpl::invocation_arg(&mut cmp, InvocationArg::Natural(Natural(("4x",)))).is_err());
    let a = CompilersImpl::invocation_arg(&mut cmp, InvocationArg::Variable(Variable(("args",)))).ok().unwrap();
    assert_eq!(literal(&a), Some((0, LitType::Args)));
    assert!(cmp.icode.instructions.is_empty());
    assert_eq!(cmp.icode.strings.len(), 3);
}

#[test]
fn invocation_targets() {
    let mut cmp = Compiler::new();
    cmp.init("m.dust").ok().unwrap();
    let body = Body::Block(Block((vec![], natural("1"))));
    CompilersImpl::item(&mut cmp, Item::DefStmt(DefStmt(("f", body)))).ok().unwrap();
    let before = cmp.icode.instructions.len();
    let f = CompilersImpl::invocation_target(
        &mut cmp,
        InvocationTarget::InvocationTargetLocal(InvocationTargetLocal(("f",))),
    )
    .ok()
    .unwrap();
    assert_eq!(f.addr().ok(), Some(1));
    assert!(CompilersImpl::invocation_target(
        &mut cmp,
        InvocationTarget::InvocationTargetLocal(InvocationTargetLocal(("g",))),
    )
    .is_err());
    let ls = CompilersImpl::invocation_target(
        &mut cmp,
        InvocationTarget::InvocationTargetSystemName(InvocationTargetSystemName(("ls",))),
    )
    .ok()
    .unwrap();
    assert_eq!(literal(&ls), Some((0, LitType::String)));
    let bin = CompilersImpl::invocation_target(
        &mut cmp,
        InvocationTarget::InvocationTargetSystemPath(InvocationTargetSystemPath((Path::AbsPath(AbsPath(("/bin/ls",))),))),
    )
    .ok()
    .unwrap();
    assert_eq!(literal(&bin), Some((1, LitType::String)));
    assert_eq!(cmp.icode.strings, vec!["ls".to_string(), "/bin/ls".to_string()]);
    assert_eq!(cmp.icode.instructions.len(), before);
}

#[test]
fn invocation_working_directory() {
    let mut cmp = Compiler::new();
    let home = CompilersImpl::invocation_cwd(&mut cmp, InvocationCwd::Path(Path::HomePath(HomePath(("~/src",)))))
        .ok()
        .unwrap();
    assert_eq!(literal(&home), Some((0, LitType::String)));
    assert_eq!(cmp.icode.strings, vec!["~/src".to_string()]);
}

fn ls_with(args: Vec<InvocationArg<'static>>) -> Invocation<'static> {
    Invocation((
        vec![],
        InvocationTarget::InvocationTargetSystemName(InvocationTargetSystemName(("ls",))),
        None,
        vec![],
        vec![],
        vec![],
        args,
    ))
}

#[test]
fn invocation_of_a_command() {
    let mut cmp = Compiler::new();
    cmp.init("m.dust").ok().unwrap();
    let inv = ls_with(vec![
        InvocationArg::String(StringLit(("\"x\"",))),
        InvocationArg::Natural(Natural(("7",))),
    ]);
    let r = CompilersImpl::invocation(&mut cmp, inv).ok().unwrap();
    assert!(matches!(r.typ, Typ::Local(_)));
    assert_eq!(
        cmp.icode.instructions,
        vec![
            Instr::PushNat(0),
            Instr::PushNat(0),
            Instr::PushStr(0),
            Instr::PushNull,
            Instr::PushNat(7),
            Instr::PushStr(1),
            Instr::PushNat(2),
            Instr::Syscall(SYSCALL_SPAWN),
        ]
    );
    assert_eq!(cmp.icode.strings, vec!["ls".to_string(), "x".to_string()]);
}

#[test]
fn invocation_of_a_function_and_its_failures() {
    let mut cmp = Compiler::new();
    cmp.init("m.dust").ok().unwrap();
    let body = Body::Block(Block((vec![], natural("1"))));
    CompilersImpl::item(&mut cmp, Item::DefStmt(DefStmt(("f", body)))).ok().unwrap();
    let before = cmp.icode.instructions.len();
    let inv = Invocation((
        vec![],
        InvocationTarget::InvocationTargetLocal(InvocationTargetLocal(("f",))),
        Some(InvocationCwd::Path(Path::AbsPath(AbsPath(("/tmp",))))),
        vec![],
        vec![],
        vec![],
        vec![],
    ));
    CompilersImpl::invocation(&mut cmp, inv).ok().unwrap();
    assert_eq!(
        cmp.icode.instructions[before..].to_vec(),
        vec![
            Instr::PushNat(0),
            Instr::PushNat(0),
            Instr::PushFuncAddr(1),
            Instr::PushStr(0),
            Instr::PushNat(0),
            Instr::Call(0xffff_ffff),
        ]
    );
    // An unknown function, and a built-in call that cannot be pushed.
    let unknown = Invocation((
        vec![],
        InvocationTarget::InvocationTargetLocal(InvocationTargetLocal(("g",))),
        None,
        vec![],
        vec![],
        vec![],
        vec![],
    ));
    assert!(CompilersImpl::invocation(&mut cmp, unknown).is_err());
    let slice = CompilersImpl::invocation_target(
        &mut cmp,
        InvocationTarget::InvocationTargetLocal(InvocationTargetLocal(("__syscall-argslice",))),
    )
    .ok()
    .unwrap();
    assert_eq!(literal(&slice), Some((SYSCALL_ARG_SLICE, LitType::Syscall)));
}

#[test]
fn invocation_statement_is_cleaned_up() {
    let mut cmp = Compiler::new();
    cmp.init("m.dust").ok().unwrap();
    let inv = ls_with(vec![]);
    CompilersImpl::item(&mut cmp, Item::Expr(Expr::Invocation(inv))).ok().unwrap();
    let n = cmp.icode.instructions.len();
    assert_eq!(cmp.icode.instructions[n - 2], Instr::Syscall(SYSCALL_SPAWN));
    assert!(matches!(cmp.icode.instructions[n - 1], Instr::CleanUp(_)));
}

#[test]
fn invocation_as_target_buffers_its_output() {
    let mut cmp = Compiler::new();
    cmp.init("m.dust").ok().unwrap();
    let inner = ls_with(vec![]);
    let t = CompilersImpl::invocation_target(
        &mut cmp,
        InvocationTarget::InvocationTargetInvocation(InvocationTargetInvocation((Box::new(inner),))),
    )
    .ok()
    .unwrap();
    assert!(matches!(t.typ, Typ::Local(_)));
    assert!(matches!(cmp.icode.instructions.last(), Some(Instr::BufferString(_))));
}

#[test]
fn invocation_programs() {
    let mut cmp = Compiler::new();
    cmp.init("m.dust").ok().unwrap();
    let program = Block((vec![], Expr::Invocation(ls_with(vec![]))));
    compile_invocation_block(&mut cmp, program).ok().unwrap();
    assert_eq!(cmp.icode.instructions[0], Instr::Allocate { size: CALL_CTX });
    assert_eq!(cmp.icode.instructions.last(), Some(&Instr::Return(CALL_CTX)));

    // A forward invocation passes `$args` on, which is no value that can be
    // pushed: it fails once the frame is reserved.
    let mut c2 = Compiler::new();
    c2.init("m.dust").ok().unwrap();
    assert!(compile_invocation(&mut c2, "nothing").is_err());
    assert_eq!(c2.icode.instructions, vec![Instr::Allocate { size: CALL_CTX }]);

    let mut c3 = Compiler::new();
    c3.init("m.dust").ok().unwrap();
    let block = Block((vec![], natural("4")));
    assert!(compile_wrap_in_invocation("main", block, &mut c3).is_err());
    assert_eq!(c3.icode.instructions[0], Instr::Allocate { size: CALL_CTX });
    assert_eq!(c3.sym_table.lookup("main").ok().unwrap().addr().ok(), Some(2));
}

#[test]
fn included_text_is_a_bound_string() {
    let mut cmp = Compiler::new();
    cmp.init("m.dust").ok().unwrap();
    let s = CompilersImpl::include_str_text(&mut cmp, "notes", "line one\n").ok().unwrap();
    assert_eq!(literal(&s), Some((0, LitType::String)));
    assert_eq!(cmp.icode.strings, vec!["line one\n".to_string()]);
    assert_eq!(literal(cmp.sym_table.lookup("notes").ok().unwrap()), Some((0, LitType::String)));
    assert!(cmp.icode.instructions.is_empty());
    let item = Item::IncludeStr(dusk::ast::IncludeStr(("other", Path::AbsPath(AbsPath(("/etc/x",))))));
    assert!(CompilersImpl::item(&mut cmp, item).is_err());
}

#[test]
fn included_block_is_compiled_and_its_path_popped() {
    let mut cmp = Compiler::new();
    cmp.init("dir/m.dust").ok().unwrap();
    let pushed = cmp.push_file_path("lib.dust");
    assert_eq!(pushed, "./dir/lib.dust");
    let block = Block((vec![Item::LetStmt(LetStmt(("greeting", string("\"hi\""))))], natural("1")));
    let v = CompilersImpl::include_block(&mut cmp, block).ok().unwrap();
    assert!(literal(&v).map(|(_, t)| t == LitType::Null).unwrap_or(false));
    assert_eq!(cmp.current_file_path, vec!["./dir/m.dust".to_string()]);
    assert_eq!(cmp.icode.strings, vec!["hi".to_string()]);
    assert!(cmp.sym_table.lookup("greeting").is_ok());

    cmp.push_file_path("bad.dust");
    let bad = Block((vec![Item::Expr(natural("x1"))], natural("1")));
    assert!(CompilersImpl::include_block(&mut cmp, bad).is_err());
    assert_eq!(cmp.current_file_path, vec!["./dir/m.dust".to_string()]);
}

#[test]
fn module_defines_and_forwards_to_its_main() {
    let mut cmp = Compiler::new();
    cmp.init("m.dust").ok().unwrap();
    let module = dusk::ast::Module((Block((vec![], natural("4"))),));
    // The forward invocation passes `$args` on, which cannot be pushed.
    assert!(CompilersImpl::module(&mut cmp, module).is_err());
    assert_eq!(MODULE_CTX, 7);
    assert_eq!(
        cmp.icode.instructions[..5].to_vec(),
        vec![
            Instr::Allocate { size: MODULE_CTX },
            Instr::Jump { addr: 5 },
            Instr::Allocate { size: 0 },
            Instr::RetNat(4),
            Instr::Return(0),
        ]
    );
    assert_eq!(cmp.sym_table.lookup("m___system_main___").ok().unwrap().addr().ok(), Some(2));
}

#[test]
fn backpatch_through_a_function() {
    let mut cmp = Compiler::new();
    cmp.emit1(Instr::Jump { addr: 0 });
    cmp.emit1(Instr::PushNull);
    cmp.backpatch(0, |i| match i {
        Instr::Jump { .. } => Ok(Instr::Jump { addr: 9 }),
        other => Ok(other),
    })
    .ok()
    .unwrap();
    assert_eq!(cmp.icode.instructions[0], Instr::Jump { addr: 9 });
    assert!(cmp.backpatch(1, |_| Err(dusk::error::msg_error("no value"))).is_err());
    assert_eq!(cmp.icode.instructions[1], Instr::PushNull);
    assert!(cmp.backpatch(2, |i| Ok(i)).is_err());
    assert!(cmp.backpatch_with(1, 3).is_err());
}
