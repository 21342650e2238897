use dusk::ast::{
    block_of_stmts, desugar_def_params, expr_0, index_str, invoc, let_stmt, src_stmt, Block, Body,
    ConstParamType, DefParam, DefStmt, Expr, InvocationArg, Item, LetStmt, Natural, Range, Slice,
    StringLit,
};

fn expr_nat(n: &str) -> Expr {
    Expr::Natural(Natural((n,)))
}

#[test]
fn single_param_produces_one_let() {
    let body = Body::Block(Block((vec![], expr_0())));
    let params = vec![DefParam::Single("x")];

    match desugar_def_params("test", params, body) {
        Item::DefStmt(DefStmt((name, Body::Block(Block((items, _)))))) => {
            assert_eq!(name, "test");
            assert_eq!(items.len(), 1);
        }
        other => panic!("unexpected: {:?}", other),
    }
}

#[test]
fn mixed_params() {
    let body = Body::Block(Block((vec![], expr_0())));
    let params = vec![DefParam::Single("a"), DefParam::Single("b"), DefParam::Rest("rest")];

    match desugar_def_params("test", params, body) {
        Item::DefStmt(DefStmt((_, Body::Block(Block((items, _)))))) => {
            assert_eq!(items.len(), 3);
        }
        other => panic!("unexpected: {:?}", other),
    }
}

#[test]
fn preserves_existing_body() {
    let existing = vec![let_stmt("z", expr_nat("42"))];
    let body = Body::Block(Block((existing, expr_0())));
    let params = vec![DefParam::Single("x")];

    match desugar_def_params("test", params, body) {
        Item::DefStmt(DefStmt((_, Body::Block(Block((items, _)))))) => {
            assert_eq!(items.len(), 2);
        }
        other => panic!("unexpected: {:?}", other),
    }
}

#[test]
fn desugared_bindings() {
    let body = Body::Block(Block((vec![], expr_0())));
    let params = vec![
        DefParam::Single("a"),
        DefParam::Const("f"),
        DefParam::TypedConst("s", "string"),
        DefParam::Rest("rest"),
    ];
    match desugar_def_params("t", params, body) {
        Item::TemplateDef(t) => {
            assert_eq!(t.name, "t");
            assert_eq!(t.const_params.len(), 2);
            assert_eq!(t.const_params[0].name, "f");
            assert_eq!(t.const_params[0].typ, ConstParamType::Func);
            assert_eq!(t.const_params[1].typ, ConstParamType::String);
            let Body::Block(Block((items, _))) = t.body;
            assert_eq!(items.len(), 2);
            match &items[0] {
                Item::LetStmt(LetStmt((n, Expr::Slice(Slice((v, r)))))) => {
                    assert_eq!((*n, *v), ("a", "args"));
                    assert!(matches!(**r, Range::Index(InvocationArg::Natural(Natural(("0",))))));
                }
                other => panic!("unexpected: {:?}", other),
            }
            match &items[1] {
                Item::LetStmt(LetStmt((n, Expr::Slice(Slice((_, r)))))) => {
                    assert_eq!(*n, "rest");
                    match &**r {
                        Range::DoubleRange((
                            InvocationArg::Natural(Natural((i,))),
                            InvocationArg::String(StringLit((e,))),
                        )) => assert_eq!((*i, *e), ("1", "-0")),
                        other => panic!("unexpected: {:?}", other),
                    }
                }
                other => panic!("unexpected: {:?}", other),
            }
        }
        other => panic!("unexpected: {:?}", other),
    }
}

#[test]
fn def_params() {
    assert_eq!(DefParam::Rest("r").name(), "r");
    assert!(DefParam::Rest("r").is_rest());
    assert!(!DefParam::Single("r").is_rest());
    assert!(DefParam::Const("c").is_const());
    assert_eq!(DefParam::TypedConst("c", "number").const_param_type(), Some(ConstParamType::Number));
    assert_eq!(DefParam::Const("c").const_param_type(), Some(ConstParamType::Func));
    assert_eq!(DefParam::Single("c").const_param_type(), None);
    assert_eq!(index_str(0), "0");
    assert_eq!(index_str(17), "17");
    assert_eq!(index_str(31), "31");
}

#[test]
fn building_syntax() {
    let i = invoc("f");
    assert_eq!((i.0).6.len(), 0);
    let b = block_of_stmts(vec![src_stmt("s", expr_nat("1"))], let_stmt("l", expr_nat("2")));
    assert_eq!((b.0).0.len(), 2);
    assert!(matches!((b.0).1, Expr::Natural(Natural(("0",)))));
}
