//! What the compiler knows of a symbol: where it lives and what it is.
use crate::compiler::{decimal, decimal_text};
use crate::error::{msg_error, CompileResult};
use vstd::prelude::*;
use vstd::string::StringExecFns;

verus! {

broadcast use vstd::std_specs::vec::group_vec_axioms;

/// The information on a symbol: its type, and the scope it belongs to.
#[derive(Debug)]
pub struct Info {
    pub typ: Typ,
    pub scope_id: usize,
}

/// The type of a symbol: a stack local, a function address, or a literal.
#[derive(Debug)]
pub enum Typ {
    Local(Local),
    Address(Address),
    Literal(Literal),
}

/// A value on the stack frame, at a frame-pointer offset, made of values of
/// the given types.  An alias shares a value defined elsewhere.
#[derive(Debug)]
pub struct Local {
    pub fp_off: usize,
    pub is_alias: bool,
    pub types: Vec<Info>,
}

/// A function: its address and the information on what it returns.
#[derive(Debug)]
pub struct Address {
    pub addr: usize,
    pub ret_t: Box<Info>,
}

/// A literal: an id (of a string, a natural number, a system call, ...) and
/// what it is.
#[derive(Debug)]
pub struct Literal {
    pub id: usize,
    pub lit_type: LitType,
}

/// The kinds of literals.
#[derive(Debug, Clone, Copy, PartialEq, Eq, Structural)]
pub enum LitType {
    Natural,
    String,
    Null,
    Syscall,
    Args,
}

/// The mathematical value of a symbol type.
pub enum TypModel {
    Local { fp_off: usize, is_alias: bool, types: Seq<InfoModel> },
    Address { addr: usize, ret_t: Box<InfoModel> },
    Literal { id: usize, lit_type: LitType },
}

/// The mathematical value of the information on a symbol.
pub struct InfoModel {
    pub typ: TypModel,
    pub scope_id: usize,
}

/// The null literal, in scope 0.
pub open spec fn null_model() -> InfoModel {
    InfoModel { typ: TypModel::Literal { id: 0, lit_type: LitType::Null }, scope_id: 0 }
}

/// The value of a piece of symbol information.
pub open spec fn info_model(i: &Info) -> InfoModel
    decreases i,
{
    InfoModel { typ: typ_model(&i.typ), scope_id: i.scope_id }
}

/// The values of a sequence of symbol informations.
pub open spec fn infos_model(types: Seq<Info>) -> Seq<InfoModel>
    decreases types,
{
    Seq::new(
        types.len(),
        |k: int|
            if 0 <= k < types.len() {
                info_model(&types[k])
            } else {
                null_model()
            },
    )
}

/// The value of a symbol type.
pub open spec fn typ_model(t: &Typ) -> TypModel
    decreases t,
{
    match t {
        Typ::Local(l) => TypModel::Local {
            fp_off: l.fp_off,
            is_alias: l.is_alias,
            types: infos_model(l.types@),
        },
        Typ::Address(a) => TypModel::Address { addr: a.addr, ret_t: Box::new(info_model(&*a.ret_t)) },
        Typ::Literal(l) => TypModel::Literal { id: l.id, lit_type: l.lit_type },
    }
}

impl View for Info {
    type V = InfoModel;

    open spec fn view(&self) -> InfoModel {
        info_model(self)
    }
}

impl View for Typ {
    type V = TypModel;

    open spec fn view(&self) -> TypModel {
        typ_model(self)
    }
}

/// The number of stack cells a value of this type takes: one for a literal
/// or an address, the sum over its types for a local.
pub open spec fn typ_size(t: TypModel) -> nat
    decreases t,
{
    match t {
        TypModel::Local { types, .. } => types_size(types),
        _ => 1,
    }
}

/// The number of stack cells of a sequence of values.
pub open spec fn types_size(types: Seq<InfoModel>) -> nat
    decreases types,
{
    if types.len() == 0 {
        0
    } else {
        types_size(types.drop_last()) + typ_size(types.last().typ)
    }
}

/// The information `m`, as an alias when it is a local.
pub open spec fn aliased_model(m: InfoModel) -> InfoModel {
    match m.typ {
        TypModel::Local { fp_off, types, .. } => InfoModel {
            typ: TypModel::Local { fp_off, is_alias: true, types },
            ..m
        },
        _ => m,
    }
}

/// The value a symbol carries: the address of a function, the frame offset
/// of a local, the id of a literal.
pub open spec fn model_val(t: TypModel) -> usize {
    match t {
        TypModel::Local { fp_off, .. } => fp_off,
        TypModel::Address { addr, .. } => addr,
        TypModel::Literal { id, .. } => id,
    }
}

/// The information `m` with the value it carries set to `v`.
pub open spec fn with_val(m: InfoModel, v: usize) -> InfoModel {
    InfoModel {
        typ: match m.typ {
            TypModel::Local { is_alias, types, .. } => TypModel::Local { fp_off: v, is_alias, types },
            TypModel::Address { ret_t, .. } => TypModel::Address { addr: v, ret_t },
            TypModel::Literal { lit_type, .. } => TypModel::Literal { id: v, lit_type },
        },
        ..m
    }
}

impl Info {
    /// The null literal, in scope 0.
    pub fn null() -> (r: Self)
        ensures
            r@ == null_model(),
    {
        Info { scope_id: 0, typ: Typ::Literal(Literal { id: 0, lit_type: LitType::Null }) }
    }

    /// A symbol of type `typ`, in scope 0.
    pub fn typ(typ: Typ) -> (r: Self)
        ensures
            r@ == (InfoModel { typ: typ@, scope_id: 0 }),
    {
        Info { scope_id: 0, typ }
    }

    /// The string literal with id `id`.
    pub fn lit_string(id: usize) -> (r: Self)
        ensures
            r@ == (InfoModel { typ: TypModel::Literal { id, lit_type: LitType::String }, scope_id: 0 }),
    {
        Self::typ(Typ::lit(id, LitType::String))
    }

    /// The natural number literal `id`.
    pub fn lit_natural(id: usize) -> (r: Self)
        ensures
            r@ == (InfoModel { typ: TypModel::Literal { id, lit_type: LitType::Natural }, scope_id: 0 }),
    {
        Self::typ(Typ::natural(id))
    }

    /// The system call with id `id`.
    pub fn syscall(id: usize) -> (r: Self)
        ensures
            r@ == (InfoModel { typ: TypModel::Literal { id, lit_type: LitType::Syscall }, scope_id: 0 }),
    {
        Self::typ(Typ::lit(id, LitType::Syscall))
    }

    /// The function at address `id`, returning `ret_t`.
    pub fn address(id: usize, ret_t: &Self) -> (r: Self)
        ensures
            r@ == (InfoModel {
                typ: TypModel::Address { addr: id, ret_t: Box::new(ret_t@) },
                scope_id: 0,
            }),
    {
        Self::typ(Typ::address(id, ret_t))
    }

    /// The arguments of the running function.
    pub fn args() -> (r: Self)
        ensures
            r@ == (InfoModel { typ: TypModel::Literal { id: 0, lit_type: LitType::Args }, scope_id: 0 }),
    {
        Self::typ(Typ::args())
    }

    /// A (non-alias) local at frame offset `fp_off`, made of `types`.
    pub fn local(fp_off: usize, types: Vec<Info>) -> (r: Self)
        ensures
            r@ == (InfoModel {
                typ: TypModel::Local {
                    fp_off,
                    is_alias: false,
                    types: infos_model(types@),
                },
                scope_id: 0,
            }),
    {
        Self::typ(Typ::local(types, false, fp_off))
    }

    /// The local this symbol is.
    pub fn as_local_ref(&self) -> (r: CompileResult<&Local>)
        ensures
            match self.typ {
                Typ::Local(l) => r == Ok::<&Local, crate::error::CompileError>(&l),
                _ => r matches Err(e) && e.kind matches crate::error::ErrorKind::Msg(m) && m@
                    == "Not a local variable symbol"@,
            },
    {
        match &self.typ {
            Typ::Local(a) => Ok(a),
            _ => Err(msg_error("Not a local variable symbol")),
        }
    }

    /// The frame offset of the local this symbol is.
    pub fn fp_off(&self) -> (r: CompileResult<usize>)
        ensures
            match self@.typ {
                TypModel::Local { fp_off, .. } => r == Ok::<usize, crate::error::CompileError>(
                    fp_off,
                ),
                _ => r matches Err(e) && e.kind matches crate::error::ErrorKind::Msg(m) && m@
                    == "Not a local variable symbol"@,
            },
    {
        match self.as_local_ref() {
            Ok(l) => Ok(l.fp_off),
            Err(e) => Err(e),
        }
    }

    /// The function address this symbol is.
    pub fn as_addr_ref(&self) -> (r: CompileResult<&Address>)
        ensures
            match self.typ {
                Typ::Address(a) => r == Ok::<&Address, crate::error::CompileError>(&a),
                _ => r matches Err(e) && e.kind matches crate::error::ErrorKind::Msg(m) && m@
                    == "Not an address symbol"@,
            },
    {
        match &self.typ {
            Typ::Address(a) => Ok(a),
            _ => Err(msg_error("Not an address symbol")),
        }
    }

    /// The address of the function this symbol is.
    pub fn addr(&self) -> (r: CompileResult<usize>)
        ensures
            match self@.typ {
                TypModel::Address { addr, .. } => r == Ok::<usize, crate::error::CompileError>(
                    addr,
                ),
                _ => r matches Err(e) && e.kind matches crate::error::ErrorKind::Msg(m) && m@
                    == "Not an address symbol"@,
            },
    {
        match self.as_addr_ref() {
            Ok(a) => Ok(a.addr),
            Err(e) => Err(e),
        }
    }

    /// The value this symbol carries: an address, a frame offset or a literal id.
    pub fn val(&self) -> (r: usize)
        ensures
            r == model_val(self@.typ),
    {
        match &self.typ {
            Typ::Address(a) => a.addr,
            Typ::Local(l) => l.fp_off,
            Typ::Literal(l) => l.id,
        }
    }

    /// The value this symbol carries, to change it in place.
    pub fn val_mut(&mut self) -> (r: &mut usize)
        ensures
            *r == model_val(old(self)@.typ),
            final(self)@ == with_val(old(self)@, *final(r)),
    {
        match &mut self.typ {
            Typ::Address(a) => &mut a.addr,
            Typ::Local(l) => &mut l.fp_off,
            Typ::Literal(l) => &mut l.id,
        }
    }

    /// The default symbol (an alias local of no type, in scope 0)
    /// carrying the value `val`.
    pub fn just(val: usize) -> (r: Self)
        ensures
            r@ == (InfoModel {
                typ: TypModel::Local { fp_off: val, is_alias: true, types: Seq::empty() },
                scope_id: 0,
            }),
    {
        let mut si = Self::default();
        *si.val_mut() = val;
        proof {
            assert(si@.typ->Local_types =~= Seq::<InfoModel>::empty());
        }
        si
    }

    /// The default symbol: an alias local at offset 0, of no type, in scope 0.
    pub fn default() -> (r: Self)
        ensures
            r@ == (InfoModel {
                typ: TypModel::Local { fp_off: 0, is_alias: true, types: Seq::empty() },
                scope_id: 0,
            }),
    {
        let types: Vec<Info> = Vec::new();
        proof {
            assert(infos_model(types@) =~= Seq::<InfoModel>::empty());
        }
        let r = Info { typ: Typ::Local(Local { fp_off: 0, is_alias: true, types }), scope_id: 0 };
        proof {
            assert(r@.typ == typ_model(&r.typ));
        }
        r
    }

    /// This symbol information, in scope `scope_id`.
    pub fn in_scope(self, scope_id: usize) -> (r: Self)
        ensures
            r@ == (InfoModel { scope_id, ..self@ }),
    {
        Info { scope_id, ..self }
    }

    /// A copy of this symbol information that is an alias, when it is a
    /// local; the same otherwise.
    pub fn aliased(&self) -> (r: Self)
        ensures
            r@ == aliased_model(self@),
    {
        let mut r = self.duplicate();
        match &mut r.typ {
            Typ::Local(l) => {
                l.is_alias = true;
            },
            _ => {},
        }
        r
    }
}

/// The sizes of a prefix of a sequence of values add up to no more than the
/// whole.
pub proof fn lemma_types_size_prefix(types: Seq<InfoModel>, k: int)
    requires
        0 <= k <= types.len(),
    ensures
        types_size(types.take(k)) <= types_size(types),
        k < types.len() ==> types_size(types.take(k + 1)) == types_size(types.take(k))
            + typ_size(types[k].typ),
    decreases types.len() - k,
{
    if k < types.len() {
        assert(types.take(k + 1).drop_last() =~= types.take(k));
        lemma_types_size_prefix(types, k + 1);
    } else {
        assert(types.take(k) =~= types);
    }
}

impl Typ {
    /// The number of stack cells a value of this type takes.
    pub fn size(&self) -> (r: u16)
        requires
            typ_size(self@) <= u16::MAX,
        ensures
            r == typ_size(self@),
        decreases self,
    {
        match self {
            Typ::Literal(_) | Typ::Address(_) => 1,
            Typ::Local(local) => local.size(),
        }
    }

    /// A local at frame offset `fp_off` made of `types`.
    pub fn local(types: Vec<Info>, is_alias: bool, fp_off: usize) -> (r: Self)
        ensures
            r@ == (TypModel::Local {
                fp_off,
                is_alias,
                types: infos_model(types@),
            }),
    {
        let r = Typ::Local(Local { fp_off, is_alias, types });
        proof {
            assert(r@->Local_types =~= infos_model(types@));
        }
        r
    }

    /// An array of values of `types` (an alias local at offset 0).
    pub fn array(types: Vec<Info>) -> (r: Self)
        ensures
            r@ == (TypModel::Local {
                fp_off: 0,
                is_alias: true,
                types: infos_model(types@),
            }),
    {
        Self::local(types, true, 0)
    }

    /// The natural number literal `id`.
    pub fn natural(id: usize) -> (r: Self)
        ensures
            r@ == (TypModel::Literal { id, lit_type: LitType::Natural }),
    {
        Typ::Literal(Literal { id, lit_type: LitType::Natural })
    }

    /// The function at `addr`, returning `ret_t`.
    pub fn address(addr: usize, ret_t: &Info) -> (r: Self)
        ensures
            r@ == (TypModel::Address { addr, ret_t: Box::new(ret_t@) }),
    {
        Typ::Address(Address { addr, ret_t: Box::new(ret_t.duplicate()) })
    }

    /// The literal `id` of kind `lit_type`.
    pub fn lit(id: usize, lit_type: LitType) -> (r: Self)
        ensures
            r@ == (TypModel::Literal { id, lit_type }),
    {
        Typ::Literal(Literal { id, lit_type })
    }

    /// The arguments of the running function.
    pub fn args() -> (r: Self)
        ensures
            r@ == (TypModel::Literal { id: 0, lit_type: LitType::Args }),
    {
        Typ::Literal(Literal { id: 0, lit_type: LitType::Args })
    }

    /// A copy of this type.
    pub fn duplicate(&self) -> (r: Self)
        ensures
            r@ == self@,
        decreases self,
    {
        match self {
            Typ::Local(l) => {
                proof {
                    let t = *self;
                    assert(t->Local_0 == *l);
                    assert(decreases_to!(t => t->Local_0));
                    let ll = *l;
                    assert(decreases_to!(ll => ll.types));
                    assert(decreases_to!(ll.types => ll.types@));
                    assert forall|j: int| 0 <= j < l.types@.len() implies #[trigger] decreases_to!(
                        *self => l.types@[j]
                    ) by {
                        assert(decreases_to!(ll.types@ => ll.types@[j]));
                    }
                }
                let mut types: Vec<Info> = Vec::new();
                let mut k: usize = 0;
                while k < l.types.len()
                    invariant
                        k <= l.types@.len(),
                        types@.len() == k,
                        forall|j: int| 0 <= j < k ==> #[trigger] types@[j]@ == l.types@[j]@,
                        forall|j: int| 0 <= j < l.types@.len() ==> #[trigger] decreases_to!(
                            *self => l.types@[j]
                        ),
                    decreases l.types@.len() - k,
                {
                    types.push(l.types[k].duplicate());
                    k = k + 1;
                }
                let r = Typ::Local(Local { fp_off: l.fp_off, is_alias: l.is_alias, types });
                proof {
                    assert(r@ == typ_model(&r));
                    assert(self@ == typ_model(self));
                    assert forall|j: int| 0 <= j < types@.len() implies infos_model(types@)[j]
                        == infos_model(l.types@)[j] by {
                        assert(types@[j]@ == l.types@[j]@);
                    }
                    assert(infos_model(types@) =~= infos_model(l.types@));
                }
                r
            },
            Typ::Address(a) => Typ::Address(
                Address { addr: a.addr, ret_t: Box::new(a.ret_t.duplicate()) },
            ),
            Typ::Literal(l) => Typ::Literal(Literal { id: l.id, lit_type: l.lit_type }),
        }
    }
}

impl Info {
    /// A copy of this symbol information.
    pub fn duplicate(&self) -> (r: Self)
        ensures
            r@ == self@,
        decreases self,
    {
        Info { typ: self.typ.duplicate(), scope_id: self.scope_id }
    }
}

impl Local {
    /// The frame offset of the `j`-th of the `size` cells of a local whose
    /// last cell is at `fp_off`.
    pub open spec fn cell_offset(fp_off: usize, size: int, j: int) -> usize {
        (fp_off - (size - 1 - j)) as usize
    }

    /// Hand the frame offset of each cell of the local to `f`, from the
    /// first cell to the last (at `fp_off`), and collect what it gives.
    pub fn foreach<F: Fn(usize) -> R, R>(&self, f: F) -> (r: Vec<R>)
        requires
            types_size(infos_model(self.types@)) <= u16::MAX,
            types_size(infos_model(self.types@)) <= self.fp_off + 1,
            forall|i: usize| call_requires(f, (i,)),
        ensures
            r@.len() == types_size(infos_model(self.types@)),
            forall|j: int|
                0 <= j < r@.len() ==> call_ensures(
                    f,
                    (Self::cell_offset(self.fp_off, r@.len() as int, j),),
                    #[trigger] r@[j],
                ),
    {
        let size = self.size();
        let fp_off = self.fp_off;
        let mut r: Vec<R> = Vec::new();
        let mut j: u16 = 0;
        while j < size
            invariant
                j <= size,
                size <= fp_off + 1,
                forall|i: usize| call_requires(f, (i,)),
                r@.len() == j,
                forall|k: int|
                    0 <= k < j ==> call_ensures(
                        f,
                        (Self::cell_offset(fp_off, size as int, k),),
                        #[trigger] r@[k],
                    ),
            decreases size - j,
        {
            let i = fp_off - ((size - 1 - j) as usize);
            r.push(f(i));
            j = j + 1;
        }
        r
    }

    /// The number of stack cells the local takes: the sum over its types.
    pub fn size(&self) -> (r: u16)
        requires
            types_size(infos_model(self.types@)) <= u16::MAX,
        ensures
            r == types_size(infos_model(self.types@)),
        decreases self,
    {
        let ghost ts = infos_model(self.types@);
        let mut total: u16 = 0;
        let mut k: usize = 0;
        while k < self.types.len()
            invariant
                k <= self.types@.len(),
                ts == infos_model(self.types@),
                types_size(ts) <= u16::MAX,
                total == types_size(ts.take(k as int)),
            decreases self.types@.len() - k,
        {
            proof {
                lemma_types_size_prefix(ts, k as int);
                lemma_types_size_prefix(ts, k + 1);
            }
            let n = self.types[k].typ.size();
            total = total + n;
            k = k + 1;
        }
        proof {
            assert(ts.take(k as int) =~= ts);
        }
        total
    }
}

impl Info {
    /// Whether two pieces of symbol information are the same.
    pub fn same_as(&self, other: &Info) -> (r: bool)
        ensures
            r == (self@ == other@),
        decreases self,
    {
        self.scope_id == other.scope_id && self.typ.same_as(&other.typ)
    }
}

impl Typ {
    /// Whether two symbol types are the same.
    pub fn same_as(&self, other: &Typ) -> (r: bool)
        ensures
            r == (self@ == other@),
        decreases self,
    {
        match (self, other) {
            (Typ::Literal(a), Typ::Literal(b)) => a.id == b.id && a.lit_type == b.lit_type,
            (Typ::Address(a), Typ::Address(b)) => {
                if a.addr != b.addr {
                    return false;
                }
                let same = a.ret_t.same_as(&b.ret_t);
                proof {
                    if same {
                        assert(Box::new(info_model(&*a.ret_t)) == Box::new(info_model(&*b.ret_t)));
                    }
                }
                same
            },
            (Typ::Local(a), Typ::Local(b)) => a.same_as(b),
            _ => false,
        }
    }
}

impl Local {
    /// Whether two locals are the same.
    pub fn same_as(&self, other: &Local) -> (r: bool)
        ensures
            r == (typ_model(&Typ::Local(*self)) == typ_model(&Typ::Local(*other))),
        decreases self,
    {
        let ghost ma = infos_model(self.types@);
        let ghost mb = infos_model(other.types@);
        if self.fp_off != other.fp_off || self.is_alias != other.is_alias || self.types.len()
            != other.types.len() {
            assert(self.types.len() != other.types.len() ==> ma.len() != mb.len());
            return false;
        }
        let n = self.types.len();
        let mut k: usize = 0;
        while k < n
            invariant
                n == self.types@.len(),
                n == other.types@.len(),
                k <= n,
                ma == infos_model(self.types@),
                mb == infos_model(other.types@),
                forall|i: int| 0 <= i < k ==> #[trigger] ma[i] == mb[i],
            decreases n - k,
        {
            assert(ma[k as int] == info_model(&self.types@[k as int]));
            assert(mb[k as int] == info_model(&other.types@[k as int]));
            if !self.types[k].same_as(&other.types[k]) {
                assert(ma != mb);
                return false;
            }
            k = k + 1;
        }
        assert(ma =~= mb);
        true
    }
}

// ---------------------------------------------------------------------------
// Symbol information as text
// ---------------------------------------------------------------------------

/// The name of a kind of literal.
pub open spec fn lit_type_text(t: LitType) -> Seq<char> {
    match t {
        LitType::Natural => "Natural"@,
        LitType::String => "String"@,
        LitType::Null => "Null"@,
        LitType::Syscall => "Syscall"@,
        LitType::Args => "Args"@,
    }
}

/// Symbol information reads as its type, then `@` and its scope.
pub open spec fn info_text(m: InfoModel) -> Seq<char>
    decreases m,
{
    typ_text(m.typ) + " @"@ + decimal_text(m.scope_id as nat)
}

/// A local reads as `$offset`, ` alias` for an alias, ` :`, then its
/// types; a function as `*address: ` then what it returns; a literal as its
/// kind and, in brackets, its id.
pub open spec fn typ_text(t: TypModel) -> Seq<char>
    decreases t,
{
    match t {
        TypModel::Local { fp_off, is_alias, types } => "$"@ + decimal_text(fp_off as nat) + (if is_alias {
            " alias"@
        } else {
            Seq::empty()
        }) + " :"@ + infos_text(types),
        TypModel::Address { addr, ret_t } => "*"@ + decimal_text(addr as nat) + ": "@ + info_text(
            *ret_t,
        ),
        TypModel::Literal { id, lit_type } => lit_type_text(lit_type) + "("@ + decimal_text(
            id as nat,
        ) + ")"@,
    }
}

/// A sequence of symbol informations reads as each one in turn.
pub open spec fn infos_text(ts: Seq<InfoModel>) -> Seq<char>
    decreases ts,
{
    if ts.len() == 0 {
        Seq::empty()
    } else {
        infos_text(ts.subrange(0, ts.len() - 1)) + info_text(ts[ts.len() - 1])
    }
}

fn write_lit_type(t: LitType, out: &mut String)
    ensures
        final(out)@ == old(out)@ + lit_type_text(t),
{
    match t {
        LitType::Natural => out.append("Natural"),
        LitType::String => out.append("String"),
        LitType::Null => out.append("Null"),
        LitType::Syscall => out.append("Syscall"),
        LitType::Args => out.append("Args"),
    }
}

fn write_info(info: &Info, out: &mut String)
    ensures
        final(out)@ == old(out)@ + info_text(info@),
    decreases info,
{
    write_typ(&info.typ, out);
    out.append(" @");
    let n = decimal(info.scope_id);
    out.append(n.as_str());
    assert(out@ =~= old(out)@ + info_text(info@));
}

fn write_local_types(l: &Local, out: &mut String)
    ensures
        final(out)@ == old(out)@ + infos_text(infos_model(l.types@)),
    decreases l,
{
    let ghost before = out@;
    let ghost ms = infos_model(l.types@);
    let mut k: usize = 0;
    while k < l.types.len()
        invariant
            k <= l.types@.len(),
            ms == infos_model(l.types@),
            out@ == before + infos_text(ms.subrange(0, k as int)),
        decreases l.types@.len() - k,
    {
        assert(ms.subrange(0, k + 1).subrange(0, k as int) =~= ms.subrange(0, k as int));
        assert(ms[k as int] == info_model(&l.types@[k as int]));
        write_info(&l.types[k], out);
        k = k + 1;
    }
    assert(ms.subrange(0, ms.len() as int) =~= ms);
}

fn write_typ(t: &Typ, out: &mut String)
    ensures
        final(out)@ == old(out)@ + typ_text(t@),
    decreases t,
{
    match t {
        Typ::Local(l) => {
            out.append("$");
            let n = decimal(l.fp_off);
            out.append(n.as_str());
            if l.is_alias {
                out.append(" alias");
            }
            out.append(" :");
            write_local_types(l, out);
        },
        Typ::Address(a) => {
            out.append("*");
            let n = decimal(a.addr);
            out.append(n.as_str());
            out.append(": ");
            write_info(&a.ret_t, out);
        },
        Typ::Literal(l) => {
            write_lit_type(l.lit_type, out);
            out.append("(");
            let n = decimal(l.id);
            out.append(n.as_str());
            out.append(")");
        },
    }
    assert(out@ =~= old(out)@ + typ_text(t@));
}

impl Info {
    /// The symbol information as text, for inspection.
    pub fn debug_text(&self) -> (r: String)
        ensures
            r@ == info_text(self@),
    {
        let mut r = String::new();
        write_info(self, &mut r);
        assert(r@ =~= info_text(self@));
        r
    }
}

} // verus!
