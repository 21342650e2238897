use dusk::ast::{
    AbsPath, Dereference, HomePath, Invocation, InvocationArg, InvocationCwd, InvocationTarget,
    InvocationTargetDereference, InvocationTargetInvocation, InvocationTargetLocal,
    InvocationTargetSystemName, InvocationTargetSystemPath, LongOpt, Natural, Opt, Path, Range,
    Redirect, RedirectInput, RedirectOutput, RelPath, ShortOpt, Slice, StringLit, Variable, Word,
};

fn bare(target: InvocationTarget<'static>) -> Invocation<'static> {
    Invocation((vec![], target, None, vec![], vec![], vec![], vec![]))
}

#[test]
fn full_invocation_text() {
    let slice = Slice((
        "a",
        Box::new(Range::DoubleRange((
            InvocationArg::Natural(Natural(("1",))),
            InvocationArg::Natural(Natural(("2",))),
        ))),
    ));
    let inv = Invocation((
        vec!["# doc"],
        InvocationTarget::InvocationTargetSystemName(InvocationTargetSystemName(("ls",))),
        Some(InvocationCwd::Path(Path::AbsPath(AbsPath(("/tmp",))))),
        vec![RedirectInput((Redirect::Variable(Variable(("x",))),))],
        vec![RedirectOutput((Redirect::Path(Path::RelPath(RelPath(("out",)))),))],
        vec![("K", InvocationArg::Word(Word(("v",))))],
        vec![InvocationArg::Opt(Opt::ShortOpt(ShortOpt(("-l",)))), InvocationArg::Slice(slice)],
    ));
    assert_eq!(inv.to_string(), "# doc\n!ls /tmp <$x >outi K=v -l a[1; 2]");
}

#[test]
fn targets_text() {
    let local = InvocationTarget::InvocationTargetLocal(InvocationTargetLocal(("f",)));
    assert_eq!(local.to_string(), "f");
    let by_path =
        InvocationTarget::InvocationTargetSystemPath(InvocationTargetSystemPath((Path::HomePath(HomePath(("~/bin/x",))),)));
    assert_eq!(by_path.to_string(), "!~/bin/x");
    let deref = InvocationTarget::InvocationTargetDereference(InvocationTargetDereference((Dereference(("cmd",)),)));
    assert_eq!(deref.to_string(), "*cmd");
    let inner = bare(InvocationTarget::InvocationTargetLocal(InvocationTargetLocal(("g",))));
    let nested = InvocationTarget::InvocationTargetInvocation(InvocationTargetInvocation((Box::new(inner),)));
    assert_eq!(nested.to_string(), "g");
}

#[test]
fn pieces_text() {
    assert_eq!(Variable(("v",)).to_string(), "$v");
    assert_eq!(Dereference(("d",)).to_string(), "*d");
    assert_eq!(Opt::LongOpt(LongOpt(("--all",))).to_string(), "--all");
    assert_eq!(Range::Index(InvocationArg::Ident("i")).to_string(), "[i]");
    assert_eq!(Redirect::String(StringLit(("\"s\"",))).to_string(), "\"s\"");
    let cwd = InvocationCwd::BoxInvocation(Box::new(bare(InvocationTarget::InvocationTargetSystemName(
        InvocationTargetSystemName(("pwd",)),
    ))));
    assert_eq!(cwd.to_string(), "!pwd");
    let mut inv = bare(InvocationTarget::InvocationTargetLocal(InvocationTargetLocal(("f",))));
    inv.0.6.push(InvocationArg::Invocation(bare(InvocationTarget::InvocationTargetLocal(
        InvocationTargetLocal(("g",)),
    ))));
    inv.0.6.push(InvocationArg::Path(Path::RelPath(RelPath(("./x",)))));
    assert_eq!(inv.to_string(), "f g ./x");
    assert_eq!(InvocationArg::Variable(Variable(("y",))).to_string(), "$y");
}
