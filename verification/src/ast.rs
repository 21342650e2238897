//! The syntax tree of Dust programs, ways to build common pieces of it, and
//! the desugaring of named `def` parameters.
use vstd::prelude::*;
use crate::compiler::{decimal_text, digit_text};

verus! {

/// Source text.
pub type Text<'i> = &'i str;

/// A name.
pub type Ident<'i> = &'i str;

/// A whole program: one block.
#[derive(Debug)]
pub struct Module<'i>(pub (Block<'i>,));

/// A sequence of items and a final expression, the block's value.
#[derive(Debug)]
pub struct Block<'i>(pub (Vec<Item<'i>>, Expr<'i>));

/// The body of a definition.
#[derive(Debug)]
pub enum Body<'i> {
    Block(Block<'i>),
}

/// A statement.
#[derive(Debug)]
pub enum Item<'i> {
    Expr(Expr<'i>),
    LetStmt(LetStmt<'i>),
    DefStmt(DefStmt<'i>),
    SrcStmt(SrcStmt<'i>),
    Include(Include<'i>),
    IncludeStr(IncludeStr<'i>),
    TemplateDef(TemplateDef<'i>),
    Empty,
}

/// An expression.
#[derive(Debug)]
pub enum Expr<'i> {
    Invocation(Invocation<'i>),
    String(StringLit<'i>),
    Natural(Natural<'i>),
    Slice(Slice<'i>),
    Variable(Variable<'i>),
    Array(Array<'i>),
}

/// `let name = expr`: run now, collect now.
#[derive(Debug)]
pub struct LetStmt<'i>(pub (Ident<'i>, Expr<'i>));

/// `src name = expr`: run now, collect later.
#[derive(Debug)]
pub struct SrcStmt<'i>(pub (Ident<'i>, Expr<'i>));

/// `def name = body`: a function.
#[derive(Debug)]
pub struct DefStmt<'i>(pub (Ident<'i>, Body<'i>));

/// `include path`.
#[derive(Debug)]
pub struct Include<'i>(pub (Path<'i>,));

/// `include_str name path`: the text of a file, bound to `name`.
#[derive(Debug)]
pub struct IncludeStr<'i>(pub (Ident<'i>, Path<'i>));

/// An array of expressions.
#[derive(Debug)]
pub struct Array<'i>(pub (Vec<Expr<'i>>,));

/// A string literal, as written.
#[derive(Debug)]
pub struct StringLit<'i>(pub (Text<'i>,));

/// A bare word.
#[derive(Debug)]
pub struct Word<'i>(pub (Text<'i>,));

/// An absolute path.
#[derive(Debug)]
pub struct AbsPath<'i>(pub (Text<'i>,));

/// A relative path.
#[derive(Debug)]
pub struct RelPath<'i>(pub (Text<'i>,));

/// A path from the home directory.
#[derive(Debug)]
pub struct HomePath<'i>(pub (Text<'i>,));

/// A long option `--name`.
#[derive(Debug)]
pub struct LongOpt<'i>(pub (Text<'i>,));

/// A short option `-n`.
#[derive(Debug)]
pub struct ShortOpt<'i>(pub (Text<'i>,));

/// A variable `$name` (the name, without `$`).
#[derive(Debug)]
pub struct Variable<'i>(pub (Text<'i>,));

/// A dereference `*name` (the name, without `*`).
#[derive(Debug)]
pub struct Dereference<'i>(pub (Text<'i>,));

/// A natural number literal, as written.
#[derive(Debug)]
pub struct Natural<'i>(pub (Text<'i>,));

/// A slice of a variable: `$name[range]`.
#[derive(Debug)]
pub struct Slice<'i>(pub (Text<'i>, Box<Range<'i>>));

/// What a slice takes: from one index to another, or one index.
#[derive(Debug)]
pub enum Range<'i> {
    DoubleRange((InvocationArg<'i>, InvocationArg<'i>)),
    Index(InvocationArg<'i>),
}

/// A path.
#[derive(Debug)]
pub enum Path<'i> {
    AbsPath(AbsPath<'i>),
    RelPath(RelPath<'i>),
    HomePath(HomePath<'i>),
}

/// An option.
#[derive(Debug)]
pub enum Opt<'i> {
    ShortOpt(ShortOpt<'i>),
    LongOpt(LongOpt<'i>),
}

/// An argument of an invocation.
#[derive(Debug)]
pub enum InvocationArg<'i> {
    Ident(Ident<'i>),
    Opt(Opt<'i>),
    Path(Path<'i>),
    String(StringLit<'i>),
    Variable(Variable<'i>),
    Word(Word<'i>),
    Natural(Natural<'i>),
    Invocation(Invocation<'i>),
    Slice(Slice<'i>),
}

/// The directory an invocation runs in.
#[derive(Debug)]
pub enum InvocationCwd<'i> {
    Path(Path<'i>),
    Variable(Variable<'i>),
    BoxInvocation(Box<Invocation<'i>>),
}

/// Where a redirection goes to or comes from.
#[derive(Debug)]
pub enum Redirect<'i> {
    Path(Path<'i>),
    Variable(Variable<'i>),
    Dereference(Dereference<'i>),
    Invocation(Invocation<'i>),
    Slice(Slice<'i>),
    String(StringLit<'i>),
}

/// An input redirection `<x`.
#[derive(Debug)]
pub struct RedirectInput<'i>(pub (Redirect<'i>,));

/// An output redirection `>x`.
#[derive(Debug)]
pub struct RedirectOutput<'i>(pub (Redirect<'i>,));

/// A function of the program, invoked by name.
#[derive(Debug)]
pub struct InvocationTargetLocal<'i>(pub (Ident<'i>,));

/// A system command, invoked by name: `!name`.
#[derive(Debug)]
pub struct InvocationTargetSystemName<'i>(pub (Ident<'i>,));

/// A system command, invoked by path: `!path`.
#[derive(Debug)]
pub struct InvocationTargetSystemPath<'i>(pub (Path<'i>,));

/// The command that a variable holds: `*name`.
#[derive(Debug)]
pub struct InvocationTargetDereference<'i>(pub (Dereference<'i>,));

/// The command that an invocation outputs.
#[derive(Debug)]
pub struct InvocationTargetInvocation<'i>(pub (Box<Invocation<'i>>,));

/// What an invocation runs.
#[derive(Debug)]
pub enum InvocationTarget<'i> {
    InvocationTargetLocal(InvocationTargetLocal<'i>),
    InvocationTargetSystemName(InvocationTargetSystemName<'i>),
    InvocationTargetSystemPath(InvocationTargetSystemPath<'i>),
    InvocationTargetDereference(InvocationTargetDereference<'i>),
    InvocationTargetInvocation(InvocationTargetInvocation<'i>),
}

/// An invocation: doc comments, target, working directory, input and
/// output redirections, environment variables, arguments.
#[derive(Debug)]
pub struct Invocation<'i>(
    pub (
        Vec<Text<'i>>,
        InvocationTarget<'i>,
        Option<InvocationCwd<'i>>,
        Vec<RedirectInput<'i>>,
        Vec<RedirectOutput<'i>>,
        Vec<(Ident<'i>, InvocationArg<'i>)>,
        Vec<InvocationArg<'i>>,
    ),
);

/// The kind of value of a constant (compile-time) parameter.
#[derive(Debug, Clone, Copy, PartialEq, Eq, Structural)]
pub enum ConstParamType {
    Func,
    String,
    Number,
}

/// A constant parameter of a template: its name and kind.
#[derive(Debug)]
pub struct ConstParam<'i> {
    pub name: &'i str,
    pub typ: ConstParamType,
}

/// A function with constant parameters, instantiated where it is invoked.
#[derive(Debug)]
pub struct TemplateDef<'i> {
    pub name: Ident<'i>,
    pub body: Body<'i>,
    pub const_params: Vec<ConstParam<'i>>,
}

// ---------------------------------------------------------------------------
// Building pieces of syntax
// ---------------------------------------------------------------------------

/// An invocation of the function `name`, with nothing else.
pub fn invoc(name: &str) -> (r: Invocation)
    ensures
        r.0.0@.len() == 0,
        r.0.1 matches InvocationTarget::InvocationTargetLocal(InvocationTargetLocal((n,))) && n
            == name,
        r.0.2 is None,
        r.0.3@.len() == 0,
        r.0.4@.len() == 0,
        r.0.5@.len() == 0,
        r.0.6@.len() == 0,
{
    Invocation(
        (
            Vec::new(),
            InvocationTarget::InvocationTargetLocal(InvocationTargetLocal((name,))),
            None,
            Vec::new(),
            Vec::new(),
            Vec::new(),
            Vec::new(),
        ),
    )
}

/// `let name = expr`.
pub fn let_stmt<'i>(name: &'i str, expr: Expr<'i>) -> (r: Item<'i>)
    ensures
        r == Item::LetStmt(LetStmt((name, expr))),
{
    Item::LetStmt(LetStmt((name, expr)))
}

/// `src name = expr`.
pub fn src_stmt<'i>(name: &'i str, expr: Expr<'i>) -> (r: Item<'i>)
    ensures
        r == Item::SrcStmt(SrcStmt((name, expr))),
{
    Item::SrcStmt(SrcStmt((name, expr)))
}

/// The expression `0`.
pub open spec fn spec_expr_0() -> Expr<'static> {
    Expr::Natural(Natural(("0",)))
}

/// The expression `0`.
pub fn expr_0() -> (r: Expr<'static>)
    ensures
        r == spec_expr_0(),
{
    Expr::Natural(Natural(("0",)))
}

/// A block of `stmts` then `last`, whose value is `0`.
pub fn block_of_stmts<'i>(stmts: Vec<Item<'i>>, last: Item<'i>) -> (r: Block<'i>)
    ensures
        r.0.0@ == stmts@.push(last),
        r.0.1 == spec_expr_0(),
{
    let mut stmts = stmts;
    stmts.push(last);
    Block((stmts, expr_0()))
}

// ---------------------------------------------------------------------------
// Named parameters of `def`
// ---------------------------------------------------------------------------

/// A named parameter in a `def` header: `name` (the next argument),
/// `name[]` (all remaining arguments), `&name` (a compile-time function),
/// `&(name : type)` (a compile-time constant of a given type).
#[derive(Debug)]
pub enum DefParam<'i> {
    Single(&'i str),
    Rest(&'i str),
    Const(&'i str),
    TypedConst(&'i str, &'i str),
}

impl<'i> DefParam<'i> {
    /// The name of the parameter.
    pub open spec fn spec_name(&self) -> &'i str {
        match *self {
            DefParam::Single(n) => n,
            DefParam::Rest(n) => n,
            DefParam::Const(n) => n,
            DefParam::TypedConst(n, _) => n,
        }
    }

    /// Whether the parameter is a compile-time one.
    pub open spec fn spec_is_const(&self) -> bool {
        self is Const || self is TypedConst
    }

    /// A typed constant names one of the types `func`, `string`, `number`.
    pub open spec fn valid(&self) -> bool {
        match *self {
            DefParam::TypedConst(_, t) => t@ == "func"@ || t@ == "string"@ || t@ == "number"@,
            _ => true,
        }
    }

    /// The kind of a compile-time parameter: a function unless its type says
    /// otherwise.
    pub open spec fn spec_const_param_type(&self) -> Option<ConstParamType> {
        match *self {
            DefParam::Const(_) => Some(ConstParamType::Func),
            DefParam::TypedConst(_, t) => Some(
                if t@ == "func"@ {
                    ConstParamType::Func
                } else if t@ == "string"@ {
                    ConstParamType::String
                } else {
                    ConstParamType::Number
                },
            ),
            _ => None,
        }
    }

    /// The name of the parameter.
    pub fn name(&self) -> (r: &'i str)
        ensures
            r == self.spec_name(),
    {
        match self {
            DefParam::Single(n) => n,
            DefParam::Rest(n) => n,
            DefParam::Const(n) => n,
            DefParam::TypedConst(n, _) => n,
        }
    }

    /// Whether the parameter takes all remaining arguments.
    pub fn is_rest(&self) -> (r: bool)
        ensures
            r == self is Rest,
    {
        match self {
            DefParam::Rest(_) => true,
            _ => false,
        }
    }

    /// Whether the parameter is a compile-time one.
    pub fn is_const(&self) -> (r: bool)
        ensures
            r == self.spec_is_const(),
    {
        match self {
            DefParam::Const(_) | DefParam::TypedConst(_, _) => true,
            _ => false,
        }
    }

    /// The kind of a compile-time parameter; none for the others.
    pub fn const_param_type(&self) -> (r: Option<ConstParamType>)
        requires
            self.valid(),
        ensures
            r == self.spec_const_param_type(),
    {
        match self {
            DefParam::Const(_) => Some(ConstParamType::Func),
            DefParam::TypedConst(_, typ) => {
                if crate::text::str_eq(typ, "func") {
                    Some(ConstParamType::Func)
                } else if crate::text::str_eq(typ, "string") {
                    Some(ConstParamType::String)
                } else {
                    Some(ConstParamType::Number)
                }
            },
            _ => None,
        }
    }
}

/// The decimal text of a parameter position, as a static string.
pub fn index_str(i: usize) -> (r: &'static str)
    requires
        i < 32,
    ensures
        r@ == decimal_text(i as nat),
{
    if i == 0 {
        proof {
            reveal_strlit("0");
            assert("0"@ == decimal_text(0));
        }
        "0"
    } else if i == 1 {
        proof {
            reveal_strlit("1");
            assert("1"@ == decimal_text(1));
        }
        "1"
    } else if i == 2 {
        proof {
            reveal_strlit("2");
            assert("2"@ == decimal_text(2));
        }
        "2"
    } else if i == 3 {
        proof {
            reveal_strlit("3");
            assert("3"@ == decimal_text(3));
        }
        "3"
    } else if i == 4 {
        proof {
            reveal_strlit("4");
            assert("4"@ == decimal_text(4));
        }
        "4"
    } else if i == 5 {
        proof {
            reveal_strlit("5");
            assert("5"@ == decimal_text(5));
        }
        "5"
    } else if i == 6 {
        proof {
            reveal_strlit("6");
            assert("6"@ == decimal_text(6));
        }
        "6"
    } else if i == 7 {
        proof {
            reveal_strlit("7");
            assert("7"@ == decimal_text(7));
        }
        "7"
    } else if i == 8 {
        proof {
            reveal_strlit("8");
            assert("8"@ == decimal_text(8));
        }
        "8"
    } else if i == 9 {
        proof {
            reveal_strlit("9");
            assert("9"@ == decimal_text(9));
        }
        "9"
    } else if i == 10 {
        proof {
            reveal_strlit("10");
            reveal_strlit("1");
            reveal_strlit("0");
            assert(decimal_text(10) == decimal_text(1) + digit_text(0));
            assert("10"@ =~= "1"@ + "0"@);
            assert("10"@ == decimal_text(10));
        }
        "10"
    } else if i == 11 {
        proof {
            reveal_strlit("11");
            reveal_strlit("1");
            reveal_strlit("1");
            assert(decimal_text(11) == decimal_text(1) + digit_text(1));
            assert("11"@ =~= "1"@ + "1"@);
            assert("11"@ == decimal_text(11));
        }
        "11"
    } else if i == 12 {
        proof {
            reveal_strlit("12");
            reveal_strlit("1");
            reveal_strlit("2");
            assert(decimal_text(12) == decimal_text(1) + digit_text(2));
            assert("12"@ =~= "1"@ + "2"@);
            assert("12"@ == decimal_text(12));
        }
        "12"
    } else if i == 13 {
        proof {
            reveal_strlit("13");
            reveal_strlit("1");
            reveal_strlit("3");
            assert(decimal_text(13) == decimal_text(1) + digit_text(3));
            assert("13"@ =~= "1"@ + "3"@);
            assert("13"@ == decimal_text(13));
        }
        "13"
    } else if i == 14 {
        proof {
            reveal_strlit("14");
            reveal_strlit("1");
            reveal_strlit("4");
            assert(decimal_text(14) == decimal_text(1) + digit_text(4));
            assert("14"@ =~= "1"@ + "4"@);
            assert("14"@ == decimal_text(14));
        }
        "14"
    } else if i == 15 {
        proof {
            reveal_strlit("15");
            reveal_strlit("1");
            reveal_strlit("5");
            assert(decimal_text(15) == decimal_text(1) + digit_text(5));
            assert("15"@ =~= "1"@ + "5"@);
            assert("15"@ == decimal_text(15));
        }
        "15"
    } else if i == 16 {
        proof {
            reveal_strlit("16");
            reveal_strlit("1");
            reveal_strlit("6");
            assert(decimal_text(16) == decimal_text(1) + digit_text(6));
            assert("16"@ =~= "1"@ + "6"@);
            assert("16"@ == decimal_text(16));
        }
        "16"
    } else if i == 17 {
        proof {
            reveal_strlit("17");
            reveal_strlit("1");
            reveal_strlit("7");
            assert(decimal_text(17) == decimal_text(1) + digit_text(7));
            assert("17"@ =~= "1"@ + "7"@);
            assert("17"@ == decimal_text(17));
        }
        "17"
    } else if i == 18 {
        proof {
            reveal_strlit("18");
            reveal_strlit("1");
            reveal_strlit("8");
            assert(decimal_text(18) == decimal_text(1) + digit_text(8));
            assert("18"@ =~= "1"@ + "8"@);
            assert("18"@ == decimal_text(18));
        }
        "18"
    } else if i == 19 {
        proof {
            reveal_strlit("19");
            reveal_strlit("1");
            reveal_strlit("9");
            assert(decimal_text(19) == decimal_text(1) + digit_text(9));
            assert("19"@ =~= "1"@ + "9"@);
            assert("19"@ == decimal_text(19));
        }
        "19"
    } else if i == 20 {
        proof {
            reveal_strlit("20");
            reveal_strlit("2");
            reveal_strlit("0");
            assert(decimal_text(20) == decimal_text(2) + digit_text(0));
            assert("20"@ =~= "2"@ + "0"@);
            assert("20"@ == decimal_text(20));
        }
        "20"
    } else if i == 21 {
        proof {
            reveal_strlit("21");
            reveal_strlit("2");
            reveal_strlit("1");
            assert(decimal_text(21) == decimal_text(2) + digit_text(1));
            assert("21"@ =~= "2"@ + "1"@);
            assert("21"@ == decimal_text(21));
        }
        "21"
    } else if i == 22 {
        proof {
            reveal_strlit("22");
            reveal_strlit("2");
            reveal_strlit("2");
            assert(decimal_text(22) == decimal_text(2) + digit_text(2));
            assert("22"@ =~= "2"@ + "2"@);
            assert("22"@ == decimal_text(22));
        }
        "22"
    } else if i == 23 {
        proof {
            reveal_strlit("23");
            reveal_strlit("2");
            reveal_strlit("3");
            assert(decimal_text(23) == decimal_text(2) + digit_text(3));
            assert("23"@ =~= "2"@ + "3"@);
            assert("23"@ == decimal_text(23));
        }
        "23"
    } else if i == 24 {
        proof {
            reveal_strlit("24");
            reveal_strlit("2");
            reveal_strlit("4");
            assert(decimal_text(24) == decimal_text(2) + digit_text(4));
            assert("24"@ =~= "2"@ + "4"@);
            assert("24"@ == decimal_text(24));
        }
        "24"
    } else if i == 25 {
        proof {
            reveal_strlit("25");
            reveal_strlit("2");
            reveal_strlit("5");
            assert(decimal_text(25) == decimal_text(2) + digit_text(5));
            assert("25"@ =~= "2"@ + "5"@);
            assert("25"@ == decimal_text(25));
        }
        "25"
    } else if i == 26 {
        proof {
            reveal_strlit("26");
            reveal_strlit("2");
            reveal_strlit("6");
            assert(decimal_text(26) == decimal_text(2) + digit_text(6));
            assert("26"@ =~= "2"@ + "6"@);
            assert("26"@ == decimal_text(26));
        }
        "26"
    } else if i == 27 {
        proof {
            reveal_strlit("27");
            reveal_strlit("2");
            reveal_strlit("7");
            assert(decimal_text(27) == decimal_text(2) + digit_text(7));
            assert("27"@ =~= "2"@ + "7"@);
            assert("27"@ == decimal_text(27));
        }
        "27"
    } else if i == 28 {
        proof {
            reveal_strlit("28");
            reveal_strlit("2");
            reveal_strlit("8");
            assert(decimal_text(28) == decimal_text(2) + digit_text(8));
            assert("28"@ =~= "2"@ + "8"@);
            assert("28"@ == decimal_text(28));
        }
        "28"
    } else if i == 29 {
        proof {
            reveal_strlit("29");
            reveal_strlit("2");
            reveal_strlit("9");
            assert(decimal_text(29) == decimal_text(2) + digit_text(9));
            assert("29"@ =~= "2"@ + "9"@);
            assert("29"@ == decimal_text(29));
        }
        "29"
    } else if i == 30 {
        proof {
            reveal_strlit("30");
            reveal_strlit("3");
            reveal_strlit("0");
            assert(decimal_text(30) == decimal_text(3) + digit_text(0));
            assert("30"@ =~= "3"@ + "0"@);
            assert("30"@ == decimal_text(30));
        }
        "30"
    } else {
        proof {
            reveal_strlit("31");
            reveal_strlit("3");
            reveal_strlit("1");
            assert(decimal_text(31) == decimal_text(3) + digit_text(1));
            assert("31"@ =~= "3"@ + "1"@);
            assert("31"@ == decimal_text(31));
        }
        "31"
    }
}

/// The argument that is the natural number written `idx`.
fn arg_nat<'i>(idx: &'i str) -> (r: InvocationArg<'i>)
    ensures
        r == InvocationArg::Natural(Natural((idx,))),
{
    InvocationArg::Natural(Natural((idx,)))
}

/// The range of one index.
fn access_index<'i>(arg: InvocationArg<'i>) -> (r: Range<'i>)
    ensures
        r == Range::Index(arg),
{
    Range::Index(arg)
}

/// The range from `start` to the end (written with the end `-0`).
fn access_range_from<'i>(start: InvocationArg<'i>) -> (r: Range<'i>)
    ensures
        r matches Range::DoubleRange((a, InvocationArg::String(StringLit((e,))))) && a == start
            && e@ == "-0"@,
{
    Range::DoubleRange((start, InvocationArg::String(StringLit(("-0",)))))
}

/// The parameters that take arguments at run time, in order.
pub open spec fn runtime_params<'i>(ps: Seq<DefParam<'i>>) -> Seq<DefParam<'i>>
    decreases ps.len(),
{
    if ps.len() == 0 {
        Seq::empty()
    } else if ps.last().spec_is_const() {
        runtime_params(ps.drop_last())
    } else {
        runtime_params(ps.drop_last()).push(ps.last())
    }
}

/// The kind of a compile-time parameter is the one its type names: `func`
/// a function, `string` a string, `number` a number; an untyped one is a
/// function; a run-time parameter has none.
pub proof fn law_const_param_kinds<'i>(p: DefParam<'i>)
    requires
        p.valid(),
    ensures
        p matches DefParam::TypedConst(_, t) ==> {
            &&& p.spec_const_param_type() == Some(ConstParamType::Func) <==> t@ == "func"@
            &&& p.spec_const_param_type() == Some(ConstParamType::String) <==> t@ == "string"@
            &&& p.spec_const_param_type() == Some(ConstParamType::Number) <==> t@ == "number"@
        },
        p is Const ==> p.spec_const_param_type() == Some(ConstParamType::Func),
        (p is Single || p is Rest) ==> p.spec_const_param_type() is None,
{
    reveal_strlit("func");
    reveal_strlit("string");
    reveal_strlit("number");
    assert("func"@ != "string"@ && "func"@ != "number"@ && "string"@ != "number"@) by {
        assert("func"@.len() == 4 && "string"@.len() == 6 && "number"@.len() == 6);
        assert("string"@[0] != "number"@[0]);
    }
}

/// The compile-time parameters, in order, as names and kinds.
pub open spec fn const_params_of<'i>(ps: Seq<DefParam<'i>>) -> Seq<(&'i str, ConstParamType)>
    decreases ps.len(),
{
    if ps.len() == 0 {
        Seq::empty()
    } else {
        let prev = const_params_of(ps.drop_last());
        match ps.last().spec_const_param_type() {
            Some(t) => prev.push((ps.last().spec_name(), t)),
            None => prev,
        }
    }
}

/// `item` is the binding of the run-time parameter `p`, the `k`-th one:
/// `let name = $args[k]`, or `let name = $args[k;]` for a rest parameter.
pub open spec fn binds_param<'i>(item: Item<'i>, p: DefParam<'i>, k: nat) -> bool {
    match item {
        Item::LetStmt(LetStmt((n, Expr::Slice(Slice((v, range)))))) => {
            &&& n == p.spec_name()
            &&& v@ == "args"@
            &&& match *range {
                Range::Index(InvocationArg::Natural(Natural((i,)))) => p is Single && i@
                    == decimal_text(k),
                Range::DoubleRange(
                    (
                        InvocationArg::Natural(Natural((i,))),
                        InvocationArg::String(StringLit((e,))),
                    ),
                ) => p is Rest && i@ == decimal_text(k) && e@ == "-0"@,
                _ => false,
            }
        },
        _ => false,
    }
}

/// The body of a desugared `def`: a binding for each run-time parameter,
/// then the items the body had, then its final expression.
pub open spec fn desugared_body<'i>(
    body: Body<'i>,
    ps: Seq<DefParam<'i>>,
    items: Seq<Item<'i>>,
    last: Expr<'i>,
) -> bool {
    let rs = runtime_params(ps);
    match body {
        Body::Block(Block((its, e))) => {
            &&& its@.len() == rs.len() + items.len()
            &&& forall|k: int| 0 <= k < rs.len() ==> binds_param(#[trigger] its@[k], rs[k], k as nat)
            &&& its@.subrange(rs.len() as int, its@.len() as int) == items
            &&& e == last
        },
    }
}

proof fn lemma_params_prefix<'i>(ps: Seq<DefParam<'i>>, i: int)
    requires
        0 <= i < ps.len(),
    ensures
        runtime_params(ps.take(i + 1)) == if ps[i].spec_is_const() {
            runtime_params(ps.take(i))
        } else {
            runtime_params(ps.take(i)).push(ps[i])
        },
        const_params_of(ps.take(i + 1)) == match ps[i].spec_const_param_type() {
            Some(t) => const_params_of(ps.take(i)).push((ps[i].spec_name(), t)),
            None => const_params_of(ps.take(i)),
        },
{
    assert(ps.take(i + 1).drop_last() =~= ps.take(i));
    assert(ps.take(i + 1).last() == ps[i]);
}

/// Desugar a `def` with named parameters into a plain `def` (or, when some
/// parameters are compile-time ones, a template): the body gets, before
/// its own items, `let name = $args[N];` for the `N`-th run-time parameter
/// (`$args[N;]` for a rest parameter).
pub fn desugar_def_params<'i>(name: Ident<'i>, params: Vec<DefParam<'i>>, body: Body<'i>) -> (r:
    Item<'i>)
    requires
        params@.len() <= 32,
        forall|i: int| 0 <= i < params@.len() ==> (#[trigger] params@[i]).valid(),
        forall|i: int| 0 <= i < params@.len() && (#[trigger] params@[i]) is Rest ==> i
            == params@.len() - 1,
    ensures
        match body {
            Body::Block(Block((items, last))) => {
                let cps = const_params_of(params@);
                match r {
                    Item::DefStmt(DefStmt((n, b))) => cps.len() == 0 && n == name
                        && desugared_body(b, params@, items@, last),
                    Item::TemplateDef(t) => {
                        &&& cps.len() > 0
                        &&& t.name == name
                        &&& desugared_body(t.body, params@, items@, last)
                        &&& t.const_params@.len() == cps.len()
                        &&& forall|j: int|
                            0 <= j < cps.len() ==> (#[trigger] t.const_params@[j]).name
                                == cps[j].0 && t.const_params@[j].typ == cps[j].1
                    },
                    _ => false,
                }
            },
        },
{
    let Body::Block(block) = body;
    let Block((existing_items, final_expr)) = block;
    let ghost ps = params@;
    let ghost existing = existing_items@;
    let mut new_items: Vec<Item<'i>> = Vec::new();
    let mut runtime_idx: usize = 0;
    let mut i: usize = 0;
    while i < params.len()
        invariant
            ps == params@,
            ps.len() <= 32,
            forall|j: int| 0 <= j < ps.len() ==> (#[trigger] ps[j]).valid(),
            i <= ps.len(),
            runtime_idx == runtime_params(ps.take(i as int)).len(),
            runtime_idx <= i,
            new_items@.len() == runtime_idx,
            forall|k: int|
                0 <= k < runtime_idx ==> binds_param(
                    #[trigger] new_items@[k],
                    runtime_params(ps.take(i as int))[k],
                    k as nat,
                ),
        decreases ps.len() - i,
    {
        proof {
            lemma_params_prefix(ps, i as int);
        }
        let param = &params[i];
        if param.is_const() {
            i = i + 1;
            continue;
        }
        let idx = index_str(runtime_idx);
        let item = match param {
            DefParam::Single(pname) => {
                let range = access_index(arg_nat(idx));
                let_stmt(pname, Expr::Slice(Slice(("args", Box::new(range)))))
            },
            DefParam::Rest(pname) => {
                let range = access_range_from(arg_nat(idx));
                let_stmt(pname, Expr::Slice(Slice(("args", Box::new(range)))))
            },
            _ => {
                proof {
                    assert(false);
                }
                Item::Empty
            },
        };
        proof {
            assert(binds_param(item, ps[i as int], runtime_idx as nat));
        }
        new_items.push(item);
        runtime_idx = runtime_idx + 1;
        i = i + 1;
    }
    assert(ps.take(ps.len() as int) =~= ps);
    let ghost lets = new_items@;
    let mut existing_items = existing_items;
    new_items.append(&mut existing_items);
    proof {
        assert(new_items@.subrange(runtime_idx as int, new_items@.len() as int) =~= existing);
        assert forall|k: int| 0 <= k < runtime_idx implies #[trigger] new_items@[k] == lets[k] by {}
    }
    let new_body = Body::Block(Block((new_items, final_expr)));
    let mut const_params: Vec<ConstParam<'i>> = Vec::new();
    let mut j: usize = 0;
    while j < params.len()
        invariant
            ps == params@,
            forall|q: int| 0 <= q < ps.len() ==> (#[trigger] ps[q]).valid(),
            j <= ps.len(),
            const_params@.len() == const_params_of(ps.take(j as int)).len(),
            forall|q: int|
                0 <= q < const_params@.len() ==> (#[trigger] const_params@[q]).name
                    == const_params_of(ps.take(j as int))[q].0 && const_params@[q].typ
                    == const_params_of(ps.take(j as int))[q].1,
        decreases ps.len() - j,
    {
        proof {
            lemma_params_prefix(ps, j as int);
        }
        let p = &params[j];
        match p.const_param_type() {
            Some(typ) => {
                const_params.push(ConstParam { name: p.name(), typ });
            },
            None => {},
        }
        j = j + 1;
    }
    if const_params.len() == 0 {
        Item::DefStmt(DefStmt((name, new_body)))
    } else {
        Item::TemplateDef(TemplateDef { name, body: new_body, const_params })
    }
}

} // verus!
