use dusk::compiler::{
    compute_include_path, decimal, import, make_forward_invocation, parse_usize, Compiler,
    CompilersImpl, Instr, Type,
};
use dusk::ast::{InvocationArg, InvocationTarget, Natural, StringLit, Variable};
use dusk::symbol_info::Info;

#[test]
fn backpatch_an_allocation() {
    let mut cmp = Compiler::new();
    cmp.emit1(Instr::Allocate { size: 0 });
    let instr_alloc = cmp.instr_id();
    assert_eq!(instr_alloc, 0);
    assert_eq!(cmp.icode.instructions[instr_alloc], Instr::Allocate { size: 0 });
    assert!(cmp.backpatch_with(instr_alloc, 4).is_ok());
    assert_eq!(cmp.icode.instructions[instr_alloc], Instr::Allocate { size: 4 });
}

#[test]
fn backpatch_refusals() {
    let mut cmp = Compiler::new();
    cmp.emit(vec![Instr::PushStr(1), Instr::Jump { addr: 0 }, Instr::PushNat(1)]);
    assert!(cmp.backpatch_with(0, 9).is_err());
    assert!(cmp.backpatch_with(3, 9).is_err());
    assert!(cmp.backpatch_with(1, 9).is_ok());
    assert!(cmp.backpatch_with(2, 7).is_ok());
    assert_eq!(
        cmp.icode.instructions,
        vec![Instr::PushStr(1), Instr::Jump { addr: 9 }, Instr::PushNat(7)]
    );
    assert_eq!(cmp.num_instrs(), 3);
}

#[test]
fn strings_are_interned() {
    let mut cmp = Compiler::new();
    assert_eq!(cmp.add_string("a"), 0);
    assert_eq!(cmp.add_string("b"), 1);
    assert_eq!(cmp.add_string("a"), 0);
    assert_eq!(cmp.icode.strings.len(), 2);
    assert_eq!(cmp.get_string_id("b"), Some(1));
    assert_eq!(cmp.get_string_id("c"), None);
}

#[test]
fn natural_numbers() {
    assert_eq!(parse_usize("42"), Some(42));
    assert_eq!(parse_usize("+7"), Some(7));
    assert_eq!(parse_usize("007"), Some(7));
    assert_eq!(parse_usize(""), None);
    assert_eq!(parse_usize("+"), None);
    assert_eq!(parse_usize("4a"), None);
    assert_eq!(parse_usize("-1"), None);
    assert_eq!(parse_usize(&usize::MAX.to_string()), Some(usize::MAX));
    assert_eq!(parse_usize(&format!("{}0", usize::MAX)), None);
}

#[test]
fn decimals() {
    assert_eq!(decimal(0), "0");
    assert_eq!(decimal(7), "7");
    assert_eq!(decimal(1234), "1234");
    assert_eq!(decimal(usize::MAX), usize::MAX.to_string());
}

#[test]
fn include_paths() {
    let mut base = String::from("dir/sub/file.dust");
    compute_include_path(&mut base, "./other.dust");
    assert_eq!(base, "dir/sub/other.dust");

    let mut base = String::from("file.dust");
    compute_include_path(&mut base, "x.dust");
    assert_eq!(base, "./x.dust");

    let mut base = String::from("a/b");
    compute_include_path(&mut base, "/abs/c");
    assert_eq!(base, "/abs/c");

    let mut cmp = Compiler::new();
    assert!(cmp.init("main.dust").is_ok());
    assert_eq!(cmp.current_file_path, vec!["./main.dust".to_string()]);
    assert_eq!(cmp.push_file_path("lib/x.dust"), "./lib/x.dust");
    assert_eq!(cmp.push_file_path("y.dust"), "./lib/y.dust");
    assert_eq!(cmp.pop_file_path(), Some("./lib/y.dust".to_string()));
}

#[test]
fn literals() {
    let mut cmp = Compiler::new();
    let s = cmp.compile_text("hello").ok().unwrap();
    assert_eq!(s.val(), 0);
    let n = cmp.compile_natural("12").ok().unwrap();
    assert_eq!(n.val(), 12);
    assert!(cmp.compile_natural("x").is_err());

    let s = CompilersImpl::string(&mut cmp, StringLit(("\"quoted\"",))).ok().unwrap();
    assert_eq!(cmp.icode.strings[s.val()], "quoted");
    let s = CompilersImpl::string(&mut cmp, StringLit(("r##\"raw\"##",))).ok().unwrap();
    assert_eq!(cmp.icode.strings[s.val()], "raw");
    let s = CompilersImpl::string(&mut cmp, StringLit(("plain",))).ok().unwrap();
    assert_eq!(cmp.icode.strings[s.val()], "plain");
    let n = CompilersImpl::natural(&mut cmp, Natural(("3",))).ok().unwrap();
    assert_eq!(n.val(), 3);
}

#[test]
fn emits_from_symbols() {
    let mut cmp = Compiler::new();
    cmp.init("m.dust").ok().unwrap();
    assert!(cmp.emit_from_symbol(true, &Info::lit_string(3)).is_ok());
    assert!(cmp.emit_from_symbol(false, &Info::lit_natural(5)).is_ok());
    assert!(cmp.emit_from_symbol(true, &Info::null()).is_ok());
    assert!(cmp.emit_from_symbol(true, &Info::syscall(1)).is_err());
    assert_eq!(
        cmp.icode.instructions,
        vec![Instr::PushStr(3), Instr::RetNat(5), Instr::PushNull]
    );
    assert_eq!(cmp.sym_table.stack_frame_size(), 2);
    assert!(cmp.sym_table.lookup("0:0").is_ok());
    assert!(cmp.sym_table.lookup("0:1").is_ok());
}

#[test]
fn functions_by_name() {
    let mut cmp = Compiler::new();
    cmp.init("m.dust").ok().unwrap();
    cmp.sym_table.new_address("f".to_string(), 7, &Info::null());
    assert_eq!(cmp.compile_funcaddr("f").ok().unwrap().addr().ok(), Some(7));
    assert!(cmp.compile_funcaddr("g").is_err());
    cmp.sym_table.new_local(vec![], "v".to_string());
    assert!(cmp.compile_funcaddr("v").is_err());
    assert_eq!(cmp.lookup_local_var("v").ok().unwrap().fp_off, 0);
}

#[test]
fn importing_a_module() {
    let mut source = Compiler::new();
    source.init("lib.dust").ok().unwrap();
    let hello = source.add_string("hello");
    source.emit(vec![Instr::PushStr(hello), Instr::Jump { addr: 1 }, Instr::RetFuncAddr(0)]);
    source.sym_table.new_address("f".to_string(), 1, &Info::null());
    source.sym_table.new_local(vec![], "v".to_string());

    let mut target = Compiler::new();
    target.sym_table.enter_scope();
    target.add_string("x");
    target.add_string("hello");
    target.emit1(Instr::Return(0));
    let info = import(&mut target, &source);
    assert_eq!(info.number_of_imported_instructions, 3);
    assert_eq!(info.number_of_imported_strings, 0);
    assert_eq!(info.number_of_imported_global_methods, 0);
    assert_eq!(
        target.icode.instructions,
        vec![Instr::Return(0), Instr::PushStr(1), Instr::Jump { addr: 2 }, Instr::RetFuncAddr(1)]
    );
    assert_eq!(target.sym_table.lookup("f").ok().unwrap().addr().ok(), Some(2));
    assert!(target.sym_table.lookup("v").is_err());

    let mut other = Compiler::new();
    other.sym_table.enter_scope();
    let info = import(&mut other, &source);
    assert_eq!(info.number_of_imported_strings, 1);
    assert_eq!(other.icode.strings, vec!["hello".to_string()]);
}

#[test]
fn forward_invocations() {
    let inv = make_forward_invocation("main");
    match &(inv.0).1 {
        InvocationTarget::InvocationTargetLocal(t) => assert_eq!((t.0).0, "main"),
        _ => panic!("not a local target"),
    }
    assert_eq!((inv.0).6.len(), 1);
    match &(inv.0).6[0] {
        InvocationArg::Variable(Variable((v,))) => assert_eq!(*v, "args"),
        _ => panic!("not $args"),
    }
    assert_eq!(Type::any(), Type::process_handle());
}

#[test]
fn natural_literal_temporaries() {
    let mut cmp = Compiler::new();
    cmp.init("m.dust").ok().unwrap();
    let t = cmp.new_natural_literal_tmp(7);
    match &t.typ {
        dusk::symbol_info::Typ::Literal(l) => {
            assert_eq!(l.id, 7);
            assert_eq!(l.lit_type, dusk::symbol_info::LitType::Natural);
        }
        other => panic!("{other:?}"),
    }
    assert_eq!(t.scope_id, 0);
    let recorded = cmp.sym_table.lookup("0:0").ok().unwrap();
    assert!(matches!(&recorded.typ, dusk::symbol_info::Typ::Literal(l) if l.id == 7));
    // A literal takes no cell of the frame.
    assert_eq!(cmp.sym_table.stack_frame_size(), 0);
    assert!(cmp.icode.instructions.is_empty());
}
