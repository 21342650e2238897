use dusk::symbol_info::{Info, Local};
use dusk::symbol_table::{
    accept, accept_name_as_local_alias, last_of_path_match, lookup_auto, lookup_auto_with_paths, Scope,
    SymbolTable,
};
use dusk::error::ErrorKind;

fn fixed_message<T>(r: Result<T, dusk::error::CompileError>) -> Option<&'static str> {
    match r {
        Err(e) => match e.kind {
            ErrorKind::Msg(m) => Some(m),
            _ => None,
        },
        Ok(_) => None,
    }
}

#[test]
fn scopes_and_lookups() {
    let mut st = SymbolTable::new();
    assert!(st.lookup("a").is_err());
    let s0 = st.enter_scope();
    assert_eq!(s0, 0);
    st.new_local(vec![], "a".to_string());
    st.new_local(vec![], "b".to_string());
    assert_eq!(st.lookup("a").ok().unwrap().fp_off().ok(), Some(0));
    assert_eq!(st.lookup("b").ok().unwrap().fp_off().ok(), Some(1));
    let s1 = st.enter_scope();
    assert_eq!(s1, 1);
    st.new_local(vec![], "a".to_string());
    assert_eq!(st.lookup("a").ok().unwrap().scope_id, 1);
    assert_eq!(st.stack_frame_size(), 1);
    st.exit_scope();
    assert_eq!(st.lookup("a").ok().unwrap().scope_id, 0);
    assert_eq!(lookup_auto(&st, "b").ok().unwrap().sym_info().fp_off().ok(), Some(1));
    st.new_address("f".to_string(), 12, &Info::null());
    assert_eq!(st.find_func_name(12), Some("f"));
    assert_eq!(st.find_func_name(13), None);
}

#[test]
fn name_patterns() {
    assert!(last_of_path_match("c", "a/b/c"));
    assert!(!last_of_path_match("c", "c"));
    assert!(!last_of_path_match("b", "a/b/c"));
    assert!(accept_name_as_local_alias("/c", "a/b/c"));
    assert!(!accept_name_as_local_alias("c", "a/b/c"));
    let mut scope = Scope::new();
    scope.insert("x/y".to_string(), Info::lit_natural(1));
    scope.insert("z/y".to_string(), Info::lit_natural(2));
    assert_eq!(accept("/y", &scope).ok().unwrap().sym_info().val(), 2);
    assert!(accept("/q", &scope).is_err());
}

#[test]
fn local_cell_offsets() {
    let local = Local {
        fp_off: 5,
        is_alias: false,
        types: vec![Info::lit_natural(0), Info::lit_string(1), Info::lit_natural(2)],
    };
    assert_eq!(local.foreach(|i| i * 10), vec![30, 40, 50]);
    let empty = Local { fp_off: 0, is_alias: false, types: vec![] };
    assert!(empty.foreach(|i| i).is_empty());
}

#[test]
fn names_found_by_information() {
    let mut table = SymbolTable::new();
    table.enter_scope();
    let a = table.new_local(vec![], "a".to_string());
    let f = table.new_address("f".to_string(), 3, &Info::null());
    let again = table.new_address("g".to_string(), 3, &Info::null());
    assert_eq!(table.lookup_name(&a).ok(), Some("a"));
    // Two symbols with the same information: the first one's name.
    assert_eq!(table.lookup_name(&f).ok(), Some("f"));
    assert_eq!(table.lookup_name(&again).ok(), Some("f"));
    assert!(table.lookup_name(&Info::lit_natural(1)).is_err());
    assert!(table.lookup_name(&Info::lit_natural(1).in_scope(9)).is_err());
    assert_eq!(table.current_scope().sym_name_from_info(&a), Some("a"));
}

#[test]
fn symbol_information_text() {
    let local = Info::local(3, vec![Info::lit_natural(1)]);
    assert_eq!(local.debug_text(), "$3 :Natural(1) @0 @0");
    let addr = Info::address(7, &Info::null()).in_scope(2);
    assert_eq!(addr.debug_text(), "*7: Null(0) @0 @2");
    assert_eq!(Info::args().debug_text(), "Args(0) @0");
    assert_eq!(Info::lit_string(12).aliased().debug_text(), "String(12) @0");
}

#[test]
fn missing_symbols_are_named_and_first_function_wins() {
    let mut st = SymbolTable::new();
    st.enter_scope();
    match st.lookup("zz") {
        Err(e) => match e.kind {
            dusk::error::ErrorKind::Message(m) => assert_eq!(m, "Symbol not found: zz"),
            _ => panic!("another kind of error"),
        },
        Ok(_) => panic!("found a symbol that was never inserted"),
    }
    st.new_address("f".to_string(), 7, &Info::null());
    st.new_address("g".to_string(), 7, &Info::null());
    // Within a scope the latest symbol comes first.
    assert_eq!(st.find_func_name(7), Some("g"));
    st.enter_scope();
    st.new_address("h".to_string(), 7, &Info::null());
    // Earlier scopes come first.
    assert_eq!(st.find_func_name(7), Some("g"));
}

#[test]
fn fixed_error_messages() {
    let mut scope = Scope::new();
    scope.insert("x/y".to_string(), Info::lit_natural(1));
    assert_eq!(fixed_message(accept("/q", &scope)), Some("not found"));
    let lit = Info::lit_string(5);
    assert_eq!(fixed_message(lit.as_local_ref()), Some("Not a local variable symbol"));
    assert_eq!(fixed_message(lit.fp_off()), Some("Not a local variable symbol"));
    assert_eq!(fixed_message(lit.as_addr_ref()), Some("Not an address symbol"));
    assert_eq!(fixed_message(lit.addr()), Some("Not an address symbol"));
    assert_eq!(Info::address(5, &Info::null()).as_addr_ref().ok().unwrap().addr, 5);
    assert_eq!(Info::local(2, vec![]).as_local_ref().ok().unwrap().fp_off, 2);
}

#[test]
fn lookup_by_last_path_component() {
    let mut st = SymbolTable::new();
    st.enter_scope();
    st.new_local(vec![], "a".to_string());
    st.new_local(vec![], "a/b".to_string());
    st.new_local(vec![], "a/b/c".to_string());
    assert_eq!(lookup_auto_with_paths(&st, "a").ok().unwrap().sym_info().fp_off().ok(), Some(0));
    assert_eq!(lookup_auto_with_paths(&st, "a/b").ok().unwrap().sym_info().fp_off().ok(), Some(1));
    assert_eq!(lookup_auto_with_paths(&st, "a/b/c").ok().unwrap().sym_info().fp_off().ok(), Some(2));
    // Found only by its last path component; the default lookup does not.
    assert_eq!(lookup_auto_with_paths(&st, "c").ok().unwrap().sym_info().fp_off().ok(), Some(2));
    assert!(lookup_auto(&st, "c").is_err());
    let inner = st.enter_scope();
    st.new_local(vec![], "a/b/c/a".to_string());
    assert_eq!(lookup_auto_with_paths(&st, "a").ok().unwrap().sym_info().scope_id, 0);
    let ca = lookup_auto_with_paths(&st, "c/a").ok().unwrap();
    assert_eq!(ca.sym_info().scope_id, inner);
    assert_eq!(ca.sym_info().fp_off().ok(), Some(0));
    assert!(lookup_auto_with_paths(&st, "zz").is_err());
}
