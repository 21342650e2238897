//! Scopes of symbols, and the stack of active scopes.
use crate::error::{msg_error, CompileResult, Error, ErrorKind};
use crate::symbol_info::{Info as SymInfo, InfoModel, TypModel, aliased_model};
use crate::text::{str_eq, str_to_string};
use vstd::prelude::*;
use vstd::string::{StringExecFns, StringSliceAdditionalSpecFns};

verus! {

broadcast use vstd::std_specs::vec::group_vec_axioms;

/// A symbol: its id within its scope, and its information.
pub struct SymID {
    sym_id: usize,
    sym_info: SymInfo,
}

impl SymID {
    /// The id of the symbol within its scope.
    pub closed spec fn id(&self) -> usize {
        self.sym_id
    }

    /// The information on the symbol.
    pub closed spec fn info(&self) -> &SymInfo {
        &self.sym_info
    }

    /// The information on the symbol.
    pub fn sym_info(&self) -> (r: &SymInfo)
        ensures
            r == self.info(),
    {
        &self.sym_info
    }

    /// The information on the symbol, to change it.
    pub fn sym_info_mut(&mut self) -> (r: &mut SymInfo)
        ensures
            *r == *old(self).info(),
            *final(self).info() == *final(r),
            final(self).id() == old(self).id(),
    {
        &mut self.sym_info
    }
}

/// One entry of a scope as a value: the name and the information.
pub type EntryModel = (Seq<char>, InfoModel);

/// A scope: its symbols, in order of insertion.  A symbol's id is its
/// position; a name may be inserted again, and then refers to the latest.
pub struct Scope {
    sym_info: Vec<(String, SymID)>,
}

/// The index of the latest entry named `name` among `entries`.
pub open spec fn latest_index(entries: Seq<EntryModel>, name: Seq<char>) -> Option<int>
    decreases entries.len(),
{
    if entries.len() == 0 {
        None
    } else if entries.last().0 == name {
        Some(entries.len() - 1)
    } else {
        latest_index(entries.drop_last(), name)
    }
}

/// The latest index, when there is one, is a position of an entry with the name.
pub proof fn lemma_latest_index(entries: Seq<EntryModel>, name: Seq<char>)
    ensures
        latest_index(entries, name) matches Some(i) ==> 0 <= i < entries.len() && entries[i].0
            == name,
        latest_index(entries, name) is None ==> forall|i: int|
            0 <= i < entries.len() ==> #[trigger] entries[i].0 != name,
    decreases entries.len(),
{
    if entries.len() > 0 {
        lemma_latest_index(entries.drop_last(), name);
        if entries.last().0 != name {
            assert forall|i: int| 0 <= i < entries.len() - 1 implies #[trigger] entries[i]
                == entries.drop_last()[i] by {}
        }
    }
}

/// Whether a symbol counts towards the stack frame: a local that is not an alias.
pub open spec fn is_frame_local(m: InfoModel) -> bool {
    m.typ matches TypModel::Local { is_alias, .. } && !is_alias
}

/// The number of entries of a scope that count towards the stack frame.
pub open spec fn frame_size(entries: Seq<EntryModel>) -> nat
    decreases entries.len(),
{
    if entries.len() == 0 {
        0
    } else {
        frame_size(entries.drop_last()) + if is_frame_local(entries.last().1) {
            1nat
        } else {
            0nat
        }
    }
}

/// The position of the first entry of `entries` whose information is `m`.
pub open spec fn first_with_info(entries: Seq<EntryModel>, m: InfoModel) -> Option<int>
    decreases entries.len(),
{
    if entries.len() == 0 {
        None
    } else if entries[0].1 == m {
        Some(0)
    } else {
        match first_with_info(entries.drop_first(), m) {
            Some(i) => Some(i + 1),
            None => None,
        }
    }
}

/// The first position, when there is one, holds `m`, and none before it
/// does; when there is none, no entry holds `m`.
pub proof fn lemma_first_with_info(entries: Seq<EntryModel>, m: InfoModel)
    ensures
        first_with_info(entries, m) matches Some(i) ==> 0 <= i < entries.len() && entries[i].1 == m
            && forall|j: int| 0 <= j < i ==> #[trigger] entries[j].1 != m,
        first_with_info(entries, m) is None ==> forall|j: int|
            0 <= j < entries.len() ==> #[trigger] entries[j].1 != m,
    decreases entries.len(),
{
    if entries.len() > 0 {
        lemma_first_with_info(entries.drop_first(), m);
        assert forall|j: int| 1 <= j < entries.len() implies #[trigger] entries[j] == entries.drop_first()[j - 1] by {}
    }
}

impl Scope {
    /// The entries of the scope, in order of insertion.
    pub closed spec fn entries(&self) -> Seq<EntryModel> {
        Seq::new(self.sym_info@.len(), |i: int| (self.sym_info@[i].0@, self.sym_info@[i].1.sym_info@))
    }

    /// The ids are the positions.
    pub closed spec fn wf(&self) -> bool {
        forall|i: int| 0 <= i < self.sym_info@.len() ==> #[trigger] self.sym_info@[i].1.sym_id == i
    }

    /// An empty scope.
    pub fn new() -> (r: Self)
        ensures
            r.wf(),
            r.entries() == Seq::<EntryModel>::empty(),
    {
        let r = Scope { sym_info: Vec::new() };
        assert(r.entries() =~= Seq::<EntryModel>::empty());
        r
    }

    /// The id the next symbol will get.
    pub fn next_id(&self) -> (r: usize)
        ensures
            r == self.entries().len(),
    {
        self.sym_info.len()
    }

    /// Add a symbol; answers the id the name referred to before, if any.
    pub fn insert(&mut self, name: String, sym_info: SymInfo) -> (prev: Option<usize>)
        requires
            old(self).wf(),
        ensures
            final(self).wf(),
            final(self).entries() == old(self).entries().push((name@, sym_info@)),
            prev == match latest_index(old(self).entries(), name@) {
                Some(i) => Some(i as usize),
                None => None::<usize>,
            },
    {
        let prev = self.lookup_index(name.as_str());
        let sym_id = self.sym_info.len();
        let ghost e0 = self.entries();
        self.sym_info.push((name, SymID { sym_id, sym_info }));
        assert(self.entries() =~= e0.push((name@, sym_info@)));
        prev
    }

    /// The position of the latest entry named `name`.
    fn lookup_index(&self, name: &str) -> (r: Option<usize>)
        ensures
            r == match latest_index(self.entries(), name@) {
                Some(i) => Some(i as usize),
                None => None::<usize>,
            },
    {
        let mut k = self.sym_info.len();
        assert(self.entries().take(k as int) =~= self.entries());
        while k > 0
            invariant
                k <= self.sym_info@.len(),
                latest_index(self.entries(), name@) == latest_index(
                    self.entries().take(k as int),
                    name@,
                ),
            decreases k,
        {
            let ghost pre = self.entries().take(k as int);
            assert(pre.drop_last() =~= self.entries().take(k - 1));
            if str_eq(self.sym_info[k - 1].0.as_str(), name) {
                return Some(k - 1);
            }
            k = k - 1;
        }
        None
    }

    /// The latest symbol named `name`.
    pub fn lookup_by_name(&self, name: &str) -> (r: Option<&SymID>)
        requires
            self.wf(),
        ensures
            match latest_index(self.entries(), name@) {
                Some(i) => r matches Some(s) && s.id() == i && s.info()@ == self.entries()[i].1,
                None => r is None,
            },
    {
        proof {
            lemma_latest_index(self.entries(), name@);
        }
        match self.lookup_index(name) {
            Some(i) => {
                assert(self.sym_info@[i as int].1.sym_id == i);
                let r = &self.sym_info[i].1;
                assert(r.id() == i);
                assert(r.info()@ == self.entries()[i as int].1);
                assert(self.entries().len() == self.sym_info@.len());
                let ghost j = latest_index(self.entries(), name@)->0;
                assert(latest_index(self.entries(), name@) is Some);
                assert(0 <= j < self.sym_info@.len());
                assert(self.sym_info.len() == self.sym_info@.len());
                assert(j == i);
                Some(r)
            },
            None => None,
        }
    }

    /// The name of the symbol with the id of `sym_id`.
    pub fn sym_name(&self, sym_id: &SymID) -> (r: Option<&str>)
        ensures
            match r {
                Some(n) => 0 <= sym_id.id() < self.entries().len() && n@ == self.entries()[sym_id.id() as int].0,
                None => sym_id.id() >= self.entries().len(),
            },
    {
        if sym_id.sym_id < self.sym_info.len() {
            Some(self.sym_info[sym_id.sym_id].0.as_str())
        } else {
            None
        }
    }

    /// The name of the first symbol, in order of insertion, whose
    /// information is `info`.
    pub fn sym_name_from_info(&self, info: &SymInfo) -> (r: Option<&str>)
        ensures
            match first_with_info(self.entries(), info@) {
                Some(i) => r matches Some(n) && n@ == self.entries()[i].0,
                None => r is None,
            },
    {
        proof {
            lemma_first_with_info(self.entries(), info@);
        }
        let n = self.sym_info.len();
        let mut k: usize = 0;
        while k < n
            invariant
                n == self.sym_info@.len(),
                k <= n,
                forall|j: int| 0 <= j < k ==> #[trigger] self.entries()[j].1 != info@,
            decreases n - k,
        {
            assert(self.entries()[k as int].1 == self.sym_info@[k as int].1.sym_info@);
            if self.sym_info[k].1.sym_info.same_as(info) {
                proof {
                    lemma_first_with_info(self.entries(), info@);
                    match first_with_info(self.entries(), info@) {
                        Some(i) => {
                            if i < k {
                                assert(self.entries()[i].1 != info@);
                            }
                            if k < i {
                                assert(self.entries()[k as int].1 != info@);
                            }
                        },
                        None => {
                            assert(self.entries()[k as int].1 != info@);
                        },
                    }
                }
                return Some(self.sym_info[k].0.as_str());
            }
            k = k + 1;
        }
        proof {
            lemma_first_with_info(self.entries(), info@);
            match first_with_info(self.entries(), info@) {
                Some(i) => {
                    assert(self.entries()[i].1 != info@);
                },
                None => {},
            }
        }
        None
    }

    /// The number of symbols of the scope.
    pub fn len(&self) -> (r: usize)
        ensures
            r == self.entries().len(),
    {
        self.sym_info.len()
    }

    /// The `i`-th symbol in reverse order of insertion (the latest first).
    pub fn symbol_rev(&self, i: usize) -> (r: (&str, &SymID))
        requires
            i < self.entries().len(),
        ensures
            r.0@ == self.entries()[self.entries().len() - 1 - i].0,
            r.1.info()@ == self.entries()[self.entries().len() - 1 - i].1,
            self.wf() ==> r.1.id() == self.entries().len() - 1 - i,
    {
        let j = self.sym_info.len() - 1 - i;
        (self.sym_info[j].0.as_str(), &self.sym_info[j].1)
    }

    /// Set the information of the latest symbol.
    fn set_last_info(&mut self, info: SymInfo)
        requires
            old(self).wf(),
            old(self).entries().len() > 0,
        ensures
            final(self).wf(),
            final(self).entries() == old(self).entries().update(
                old(self).entries().len() - 1,
                (old(self).entries().last().0, info@),
            ),
    {
        let n = self.sym_info.len() - 1;
        let (name, sid) = self.sym_info.remove(n);
        let ghost e0 = old(self).entries();
        self.sym_info.push((name, SymID { sym_id: sid.sym_id, sym_info: info }));
        assert(self.entries() =~= e0.update(e0.len() - 1, (e0.last().0, info@)));
    }
}

/// Stack size requirement of a scope, according to recorded locals: each
/// local that is not an alias counts as one cell.
pub fn scope_stack_size(scope: &Scope) -> (r: usize)
    ensures
        r == frame_size(scope.entries()),
{
    let ghost es = scope.entries();
    let mut k: usize = 0;
    let mut count: usize = 0;
    while k < scope.len()
        invariant
            es == scope.entries(),
            k <= es.len(),
            count == frame_size(es.take(k as int)),
            count <= k,
        decreases es.len() - k,
    {
        assert(es.take(k + 1).drop_last() =~= es.take(k as int));
        let (_, sid) = scope.symbol_rev(scope.len() - 1 - k);
        if is_local_not_alias(sid.sym_info()) {
            count = count + 1;
        }
        k = k + 1;
    }
    assert(es.take(k as int) =~= es);
    count
}

/// Whether a symbol is a local that is not an alias.
fn is_local_not_alias(info: &SymInfo) -> (r: bool)
    ensures
        r == is_frame_local(info@),
{
    match &info.typ {
        crate::symbol_info::Typ::Local(l) => !l.is_alias,
        _ => false,
    }
}

/// A table of scopes: every scope ever entered, and the stack of the active
/// ones (the innermost last).
pub struct SymbolTable {
    scopes: Vec<Scope>,
    scope_stack: Vec<usize>,
}

/// The id of the current scope: the innermost active one, or 0 when none is.
pub open spec fn current_id(stack: Seq<usize>) -> int {
    if stack.len() > 0 {
        stack.last() as int
    } else {
        0
    }
}

/// Lookup by exact name in the active scopes, innermost first: the latest
/// symbol of that name in the first scope that has one.
pub open spec fn table_lookup(
    scopes: Seq<Seq<EntryModel>>,
    stack: Seq<usize>,
    name: Seq<char>,
) -> Option<InfoModel>
    decreases stack.len(),
{
    if stack.len() == 0 {
        None
    } else {
        let entries = scopes[stack.last() as int];
        match latest_index(entries, name) {
            Some(i) => Some(entries[i].1),
            None => table_lookup(scopes, stack.drop_last(), name),
        }
    }
}

/// Where lookup by exact name finds a symbol: the first active scope,
/// innermost first, that has one, and there the position of the latest
/// symbol of that name.
pub open spec fn table_lookup_at(
    scopes: Seq<Seq<EntryModel>>,
    stack: Seq<usize>,
    name: Seq<char>,
) -> Option<(int, int)>
    decreases stack.len(),
{
    if stack.len() == 0 {
        None
    } else {
        match latest_index(scopes[stack.last() as int], name) {
            Some(i) => Some((stack.last() as int, i)),
            None => table_lookup_at(scopes, stack.drop_last(), name),
        }
    }
}

/// The first symbol, in all scopes in order and each scope latest first,
/// that is a function at `faddr`: its scope and its index.
pub open spec fn is_func_at(m: InfoModel, faddr: usize) -> bool {
    m.typ matches TypModel::Address { addr, .. } && addr == faddr
}

impl SymbolTable {
    /// The entries of every scope, by scope id.
    pub closed spec fn scopes(&self) -> Seq<Seq<EntryModel>> {
        Seq::new(self.scopes@.len(), |i: int| self.scopes@[i].entries())
    }

    /// The stack of active scope ids, innermost last.
    pub closed spec fn stack(&self) -> Seq<usize> {
        self.scope_stack@
    }

    /// Every scope is well formed and every active id names a scope.
    pub closed spec fn wf(&self) -> bool {
        &&& forall|i: int| 0 <= i < self.scopes@.len() ==> #[trigger] self.scopes@[i].wf()
        &&& forall|i: int|
            0 <= i < self.scope_stack@.len() ==> #[trigger] self.scope_stack@[i]
                < self.scopes@.len()
    }

    /// Whether the current scope exists.
    pub open spec fn has_current(&self) -> bool {
        0 <= current_id(self.stack()) < self.scopes().len()
    }

    /// An empty table: no scope.
    pub fn new() -> (r: Self)
        ensures
            r.wf(),
            r.scopes() == Seq::<Seq<EntryModel>>::empty(),
            r.stack() == Seq::<usize>::empty(),
    {
        let r = SymbolTable { scopes: Vec::new(), scope_stack: Vec::new() };
        assert(r.scopes() =~= Seq::<Seq<EntryModel>>::empty());
        r
    }

    /// The id of the current scope (0 when none is active).
    pub fn scope_id(&self) -> (r: usize)
        ensures
            r == current_id(self.stack()),
    {
        if self.scope_stack.len() > 0 {
            self.scope_stack[self.scope_stack.len() - 1]
        } else {
            0
        }
    }

    /// The id the next scope will get.
    pub fn next_scope_id(&self) -> (r: usize)
        ensures
            r == self.scopes().len(),
    {
        self.scopes.len()
    }

    /// Enter a new, empty scope; answers its id.
    pub fn enter_scope(&mut self) -> (id: usize)
        requires
            old(self).wf(),
        ensures
            final(self).wf(),
            id == old(self).scopes().len(),
            final(self).scopes() == old(self).scopes().push(Seq::empty()),
            final(self).stack() == old(self).stack().push(id),
    {
        let id = self.scopes.len();
        let ghost s0 = self.scopes();
        self.scopes.push(Scope::new());
        self.scope_stack.push(id);
        assert(self.scopes() =~= s0.push(Seq::empty()));
        id
    }

    /// Leave the current scope: it is no longer active, and stays recorded.
    pub fn exit_scope(&mut self)
        requires
            old(self).wf(),
        ensures
            final(self).wf(),
            final(self).scopes() == old(self).scopes(),
            final(self).stack() == if old(self).stack().len() > 0 {
                old(self).stack().drop_last()
            } else {
                old(self).stack()
            },
    {
        if self.scope_stack.len() > 0 {
            self.scope_stack.pop();
        }
    }

    /// The scope with id `scope_id`, if there is one.
    pub fn get_scope(&self, scope_id: usize) -> (r: Option<&Scope>)
        ensures
            match r {
                Some(s) => scope_id < self.scopes().len() && s.entries() == self.scopes()[scope_id as int],
                None => scope_id >= self.scopes().len(),
            },
    {
        if scope_id < self.scopes.len() {
            Some(&self.scopes[scope_id])
        } else {
            None
        }
    }

    /// The name of a symbol, found by its information in its scope.
    pub fn lookup_name(&self, sinfo: &SymInfo) -> (r: CompileResult<&str>)
        ensures
            sinfo@.scope_id < self.scopes().len() ==> match first_with_info(
                self.scopes()[sinfo@.scope_id as int],
                sinfo@,
            ) {
                Some(i) => r matches Ok(n) && n@ == self.scopes()[sinfo@.scope_id as int][i].0,
                None => r is Err,
            },
            sinfo@.scope_id >= self.scopes().len() ==> r is Err,
    {
        match self.get_scope(sinfo.scope_id) {
            Some(scope) => match scope.sym_name_from_info(sinfo) {
                Some(name) => Ok(name),
                None => Err(msg_error("Name not found")),
            },
            None => Err(msg_error("No such scope")),
        }
    }

    /// The current scope.
    pub fn current_scope(&self) -> (r: &Scope)
        requires
            self.wf(),
            self.has_current(),
        ensures
            r.wf(),
            r.entries() == self.scopes()[current_id(self.stack())],
    {
        let id = self.scope_id();
        &self.scopes[id]
    }

    /// The id the next symbol of the current scope will get.
    pub fn next_symbol_id(&self) -> (r: usize)
        requires
            self.wf(),
            self.has_current(),
        ensures
            r == self.scopes()[current_id(self.stack())].len(),
    {
        self.current_scope().next_id()
    }

    /// Insert a symbol into the current scope; answers the information as
    /// recorded (with the current scope id).
    pub fn insert_to_scope(&mut self, name: String, info: SymInfo) -> (r: SymInfo)
        requires
            old(self).wf(),
            old(self).has_current(),
        ensures
            final(self).wf(),
            final(self).stack() == old(self).stack(),
            r@ == (InfoModel { scope_id: current_id(old(self).stack()) as usize, ..info@ }),
            final(self).scopes() == old(self).scopes().update(
                current_id(old(self).stack()),
                old(self).scopes()[current_id(old(self).stack())].push((name@, r@)),
            ),
    {
        let id = self.scope_id();
        let info = info.in_scope(id);
        let r = info.duplicate();
        let ghost s0 = self.scopes();
        let mut scope = self.scopes.remove(id);
        scope.insert(name, info);
        self.scopes.insert(id, scope);
        assert(self.scopes() =~= s0.update(id as int, s0[id as int].push((name@, r@))));
        r
    }

    /// Set the information of the latest symbol of the current scope.
    pub(crate) fn set_last_info(&mut self, info: SymInfo)
        requires
            old(self).wf(),
            old(self).has_current(),
            old(self).scopes()[current_id(old(self).stack())].len() > 0,
        ensures
            final(self).wf(),
            final(self).stack() == old(self).stack(),
            final(self).scopes() == old(self).scopes().update(
                current_id(old(self).stack()),
                old(self).scopes()[current_id(old(self).stack())].update(
                    old(self).scopes()[current_id(old(self).stack())].len() - 1,
                    (old(self).scopes()[current_id(old(self).stack())].last().0, info@),
                ),
            ),
    {
        let id = self.scope_id();
        let ghost s0 = self.scopes();
        let ghost e0 = s0[id as int];
        let mut scope = self.scopes.remove(id);
        scope.set_last_info(info);
        self.scopes.insert(id, scope);
        assert(self.scopes() =~= s0.update(id as int, e0.update(e0.len() - 1, (e0.last().0, info@))));
    }

    /// Record `new_name` as an alias of `info` in the current scope.
    pub fn alias_in_scope(&mut self, info: &SymInfo, new_name: String) -> (r: SymInfo)
        requires
            old(self).wf(),
            old(self).has_current(),
        ensures
            final(self).wf(),
            final(self).stack() == old(self).stack(),
            r@ == (InfoModel {
                scope_id: current_id(old(self).stack()) as usize,
                ..aliased_model(info@)
            }),
            final(self).scopes() == old(self).scopes().update(
                current_id(old(self).stack()),
                old(self).scopes()[current_id(old(self).stack())].push((new_name@, r@)),
            ),
    {
        self.insert_to_scope(new_name, info.aliased())
    }

    /// Lookup by exact name in the active scopes, innermost first.
    pub fn lookup(&self, name: &str) -> (r: CompileResult<&SymInfo>)
        requires
            self.wf(),
        ensures
            match table_lookup(self.scopes(), self.stack(), name@) {
                Some(m) => r matches Ok(x) && x@ == m,
                None => r matches Err(e) && e.kind matches ErrorKind::Message(msg) && msg@
                    == "Symbol not found: "@ + name@,
            },
    {
        let mut k = self.scope_stack.len();
        assert(self.stack().take(k as int) =~= self.stack());
        while k > 0
            invariant
                self.wf(),
                k <= self.stack().len(),
                table_lookup(self.scopes(), self.stack(), name@) == table_lookup(
                    self.scopes(),
                    self.stack().take(k as int),
                    name@,
                ),
            decreases k,
        {
            let ghost st = self.stack().take(k as int);
            assert(st.drop_last() =~= self.stack().take(k - 1));
            let id = self.scope_stack[k - 1];
            assert(self.scopes@[id as int].wf());
            match self.scopes[id].lookup_by_name(name) {
                Some(sid) => {
                    return Ok(sid.sym_info());
                },
                None => {},
            }
            k = k - 1;
        }
        let mut msg = str_to_string("Symbol not found: ");
        msg.append(name);
        Err(Error::new(ErrorKind::Message(msg)))
    }

    /// The stack size the current scope needs: one cell per local that is
    /// not an alias.
    pub fn stack_frame_size(&self) -> (r: usize)
        requires
            self.wf(),
            self.has_current(),
        ensures
            r == frame_size(self.scopes()[current_id(self.stack())]),
    {
        scope_stack_size(self.current_scope())
    }

    /// Record a function `name` at `addr` returning `ret_t` in the current scope.
    pub fn new_address(&mut self, name: String, addr: usize, ret_t: &SymInfo) -> (r: SymInfo)
        requires
            old(self).wf(),
            old(self).has_current(),
        ensures
            final(self).wf(),
            final(self).stack() == old(self).stack(),
            r@ == (InfoModel {
                typ: TypModel::Address { addr, ret_t: Box::new(ret_t@) },
                scope_id: current_id(old(self).stack()) as usize,
            }),
            final(self).scopes() == old(self).scopes().update(
                current_id(old(self).stack()),
                old(self).scopes()[current_id(old(self).stack())].push((name@, r@)),
            ),
    {
        self.insert_to_scope(name, SymInfo::address(addr, ret_t))
    }

    /// Record a local `name` made of `types` in the current scope, at the
    /// next free cell of the stack frame.
    pub fn new_local(&mut self, types: Vec<SymInfo>, name: String) -> (r: SymInfo)
        requires
            old(self).wf(),
            old(self).has_current(),
        ensures
            final(self).wf(),
            final(self).stack() == old(self).stack(),
            r@ == (InfoModel {
                typ: TypModel::Local {
                    fp_off: frame_size(old(self).scopes()[current_id(old(self).stack())]) as usize,
                    is_alias: false,
                    types: crate::symbol_info::infos_model(types@),
                },
                scope_id: current_id(old(self).stack()) as usize,
            }),
            final(self).scopes() == old(self).scopes().update(
                current_id(old(self).stack()),
                old(self).scopes()[current_id(old(self).stack())].push((name@, r@)),
            ),
    {
        let fp_off = self.stack_frame_size();
        self.insert_to_scope(name, SymInfo::local(fp_off, types))
    }

    /// Find the name of a function by its address, looking through all
    /// symbols: scopes in order, each from its latest symbol.
    pub fn find_func_name(&self, faddr: usize) -> (r: Option<&str>)
        requires
            self.wf(),
        ensures
            match r {
                Some(n) => exists|i: int, j: int|
                    0 <= i < self.scopes().len() && 0 <= j < self.scopes()[i].len()
                        && #[trigger] self.scopes()[i][j].0 == n@ && is_func_at(
                        self.scopes()[i][j].1,
                        faddr,
                    ) && (forall|a: int, b: int|
                        0 <= a < i && 0 <= b < self.scopes()[a].len() ==> !is_func_at(
                            #[trigger] self.scopes()[a][b].1,
                            faddr,
                        )) && (forall|b: int|
                        j < b < self.scopes()[i].len() ==> !is_func_at(
                            #[trigger] self.scopes()[i][b].1,
                            faddr,
                        )),
                None => forall|i: int, j: int|
                    0 <= i < self.scopes().len() && 0 <= j < self.scopes()[i].len() ==> !is_func_at(
                        #[trigger] self.scopes()[i][j].1,
                        faddr,
                    ),
            },
    {
        let mut i: usize = 0;
        while i < self.scopes.len()
            invariant
                i <= self.scopes@.len(),
                forall|a: int, j: int|
                    0 <= a < i && 0 <= j < self.scopes()[a].len() ==> !is_func_at(
                        #[trigger] self.scopes()[a][j].1,
                        faddr,
                    ),
            decreases self.scopes@.len() - i,
        {
            let scope = &self.scopes[i];
            let n = scope.len();
            let mut k: usize = 0;
            while k < n
                invariant
                    i < self.scopes@.len(),
                    scope.entries() == self.scopes()[i as int],
                    n == scope.entries().len(),
                    k <= n,
                    forall|j: int|
                        n - k <= j < n ==> !is_func_at(#[trigger] scope.entries()[j].1, faddr),
                    forall|a: int, j: int|
                        0 <= a < i && 0 <= j < self.scopes()[a].len() ==> !is_func_at(
                            #[trigger] self.scopes()[a][j].1,
                            faddr,
                        ),
                decreases n - k,
            {
                let (name, sid) = scope.symbol_rev(k);
                if is_func_named(sid.sym_info(), faddr) {
                    proof {
                        let j = n - 1 - k;
                        assert(self.scopes()[i as int][j].0 == name@);
                        assert(forall|b: int|
                            j < b < self.scopes()[i as int].len() ==> !is_func_at(
                                #[trigger] self.scopes()[i as int][b].1,
                                faddr,
                            ));
                    }
                    return Some(name);
                }
                k = k + 1;
            }
            i = i + 1;
        }
        None
    }
}

/// Whether a symbol is a function at `faddr`.
fn is_func_named(info: &SymInfo, faddr: usize) -> (r: bool)
    ensures
        r == is_func_at(info@, faddr),
{
    match &info.typ {
        crate::symbol_info::Typ::Address(a) => a.addr == faddr,
        _ => false,
    }
}

// ---------------------------------------------------------------------------
// Lookups by name pattern
// ---------------------------------------------------------------------------

/// Whether `v` ends with the bytes `w`.
pub open spec fn ends_with_bytes(v: Seq<u8>, w: Seq<u8>) -> bool {
    v.len() >= w.len() && v.subrange(v.len() - w.len(), v.len() as int) == w
}

/// `var` is accepted as a local alias of `name`: the last `name.len()` bytes
/// of `var`, preceded by at least one byte, begin with `/` and end with
/// `name` (they are `name` itself, which then begins with `/`).
pub open spec fn spec_accept_alias(name: Seq<u8>, var: Seq<u8>) -> bool {
    &&& var.len() >= name.len() + 1
    &&& name.len() >= 1
    &&& name[0] == 0x2f
    &&& ends_with_bytes(var, name)
}

/// `var` is a path whose last component is `name`: it ends with `/` and
/// then `name`.
pub open spec fn spec_last_of_path(name: Seq<u8>, var: Seq<u8>) -> bool {
    &&& var.len() >= name.len() + 1
    &&& var[var.len() - name.len() - 1] == 0x2f
    &&& ends_with_bytes(var, name)
}

/// Whether the bytes `from..` of `v` are `w` followed by nothing else.
fn bytes_end_with(v: &[u8], w: &[u8]) -> (r: bool)
    requires
        v@.len() >= w@.len(),
    ensures
        r == ends_with_bytes(v@, w@),
{
    let off = v.len() - w.len();
    let mut k: usize = 0;
    while k < w.len()
        invariant
            off + w@.len() == v@.len(),
            v@.len() <= usize::MAX,
            k <= w@.len(),
            forall|j: int| 0 <= j < k ==> v@[off + j] == w@[j],
        decreases w@.len() - k,
    {
        if v[off + k] != w[k] {
            assert(v@.subrange(off as int, v@.len() as int)[k as int] != w@[k as int]);
            return false;
        }
        k = k + 1;
    }
    assert(v@.subrange(off as int, v@.len() as int) =~= w@);
    true
}

/// Whether `var` is accepted as a local alias of `name`.
pub fn accept_name_as_local_alias(name: &str, var: &str) -> (r: bool)
    requires
        var.spec_bytes().len() >= name.spec_bytes().len() + 1 ==> vstd::utf8::is_char_boundary(
            var.spec_bytes(),
            var.spec_bytes().len() - name.spec_bytes().len(),
        ),
    ensures
        r == spec_accept_alias(name.spec_bytes(), var.spec_bytes()),
{
    let v = var.as_bytes();
    let n = name.as_bytes();
    if v.len() > n.len() {
        let start = v.len() - n.len();
        if n.len() >= 1 && v[start] == 0x2f && bytes_end_with(v, n) {
            assert(v@.subrange(start as int, v@.len() as int)[0] == n@[0]);
            return true;
        }
        proof {
            if n@.len() >= 1 && ends_with_bytes(v@, n@) {
                assert(v@.subrange(start as int, v@.len() as int)[0] == n@[0]);
            }
        }
    }
    false
}

/// Whether `var` is a path whose last component is `name`.
pub fn last_of_path_match(name: &str, var: &str) -> (r: bool)
    requires
        var.spec_bytes().len() >= name.spec_bytes().len() + 1 ==> vstd::utf8::is_char_boundary(
            var.spec_bytes(),
            var.spec_bytes().len() - name.spec_bytes().len() - 1,
        ),
    ensures
        r == spec_last_of_path(name.spec_bytes(), var.spec_bytes()),
{
    let v = var.as_bytes();
    let n = name.as_bytes();
    if v.len() > n.len() {
        let start = v.len() - n.len() - 1;
        if v[start] == 0x2f && bytes_end_with(v, n) {
            return true;
        }
    }
    false
}

/// The symbol, if `var` is accepted as a local alias of `name`.
pub fn accept_symbol<'r>(name: &str, var: &str, sym_id: &'r SymID) -> (r: Option<&'r SymID>)
    requires
        var.spec_bytes().len() >= name.spec_bytes().len() + 1 ==> vstd::utf8::is_char_boundary(
            var.spec_bytes(),
            var.spec_bytes().len() - name.spec_bytes().len(),
        ),
    ensures
        r == if spec_accept_alias(name.spec_bytes(), var.spec_bytes()) {
            Some(sym_id)
        } else {
            None
        },
{
    if accept_name_as_local_alias(name, var) {
        Some(sym_id)
    } else {
        None
    }
}

/// Whether the name of every entry of `entries` can be split where
/// `accept_name_as_local_alias` splits it.
pub open spec fn alias_splittable(entries: Seq<EntryModel>, name: Seq<u8>) -> bool {
    forall|j: int|
        0 <= j < entries.len() ==> {
            let vb = #[trigger] vstd::utf8::encode_utf8(entries[j].0);
            vb.len() >= name.len() + 1 ==> vstd::utf8::is_char_boundary(vb, vb.len() - name.len())
        }
}

/// The latest symbol of `scope` accepted as a local alias of `name`.
pub fn accept<'s>(name: &str, scope: &'s Scope) -> (r: CompileResult<&'s SymID>)
    requires
        scope.wf(),
        alias_splittable(scope.entries(), name.spec_bytes()),
    ensures
        match r {
            Ok(s) => exists|j: int|
                0 <= j < scope.entries().len() && s.id() == j && s.info()@ == scope.entries()[j].1
                    && spec_accept_alias(
                    name.spec_bytes(),
                    #[trigger] vstd::utf8::encode_utf8(scope.entries()[j].0),
                ) && forall|k: int|
                    j < k < scope.entries().len() ==> !spec_accept_alias(
                        name.spec_bytes(),
                        #[trigger] vstd::utf8::encode_utf8(scope.entries()[k].0),
                    ),
            Err(e) => (e.kind matches ErrorKind::Msg(m) && m@ == "not found"@) && forall|k: int|
                0 <= k < scope.entries().len() ==> !spec_accept_alias(
                    name.spec_bytes(),
                    #[trigger] vstd::utf8::encode_utf8(scope.entries()[k].0),
                ),
        },
{
    let n = scope.len();
    let ghost es = scope.entries();
    let mut k: usize = 0;
    while k < n
        invariant
            es == scope.entries(),
            n == es.len(),
            k <= n,
            scope.wf(),
            alias_splittable(es, name.spec_bytes()),
            forall|j: int|
                n - k <= j < n ==> !spec_accept_alias(
                    name.spec_bytes(),
                    #[trigger] vstd::utf8::encode_utf8(es[j].0),
                ),
        decreases n - k,
    {
        let (var, sid) = scope.symbol_rev(k);
        let ghost j = n - 1 - k;
        assert(var.spec_bytes() == vstd::utf8::encode_utf8(es[j].0));
        match accept_symbol(name, var, sid) {
            Some(x) => {
                return Ok(x);
            },
            None => {},
        }
        k = k + 1;
    }
    Err(msg_error("not found"))
}

/// The identity on a matcher.
pub fn matcher<T>(x: T) -> (r: T)
    ensures
        r == x,
{
    x
}

/// The main entry-point for automatic name lookups: the latest symbol of
/// exactly that name in the first active scope, innermost first, that has one.
pub fn lookup_auto<'a>(table: &'a SymbolTable, name: &str) -> (r: CompileResult<&'a SymID>)
    requires
        table.wf(),
    ensures
        match table_lookup(table.scopes(), table.stack(), name@) {
            Some(m) => r matches Ok(s) && s.info()@ == m,
            None => r is Err,
        },
        table_lookup_at(table.scopes(), table.stack(), name@) matches Some((sc, i)) ==> r matches Ok(
            s,
        ) && s.id() == i && s.info()@ == table.scopes()[sc][i].1,
{
    let mut k = table.scope_stack.len();
    assert(table.stack().take(k as int) =~= table.stack());
    while k > 0
        invariant
            table.wf(),
            k <= table.stack().len(),
            table_lookup(table.scopes(), table.stack(), name@) == table_lookup(
                table.scopes(),
                table.stack().take(k as int),
                name@,
            ),
            table_lookup_at(table.scopes(), table.stack(), name@) == table_lookup_at(
                table.scopes(),
                table.stack().take(k as int),
                name@,
            ),
        decreases k,
    {
        let ghost st = table.stack().take(k as int);
        assert(st.drop_last() =~= table.stack().take(k - 1));
        let id = table.scope_stack[k - 1];
        assert(table.scopes@[id as int].wf());
        match table.scopes[id].lookup_by_name(name) {
            Some(sid) => {
                return Ok(sid);
            },
            None => {},
        }
        k = k - 1;
    }
    Err(msg_error("lookup-default-auto"))
}

/// The position of the latest entry of `es` whose name is a path whose last
/// component is `name`.
pub open spec fn latest_path_index(es: Seq<EntryModel>, name: Seq<u8>) -> Option<int>
    decreases es.len(),
{
    if es.len() == 0 {
        None
    } else if spec_last_of_path(name, vstd::utf8::encode_utf8(es.last().0)) {
        Some(es.len() - 1)
    } else {
        latest_path_index(es.drop_last(), name)
    }
}

/// Where lookup by last path component finds a symbol: the first active
/// scope, innermost first, that has one, and there the position of the
/// latest such symbol.
pub open spec fn table_path_lookup_at(
    scopes: Seq<Seq<EntryModel>>,
    stack: Seq<usize>,
    name: Seq<u8>,
) -> Option<(int, int)>
    decreases stack.len(),
{
    if stack.len() == 0 {
        None
    } else {
        match latest_path_index(scopes[stack.last() as int], name) {
            Some(i) => Some((stack.last() as int, i)),
            None => table_path_lookup_at(scopes, stack.drop_last(), name),
        }
    }
}

/// Whether every name in `entries` long enough to end in `/name` can be cut
/// just before that `/`.
pub open spec fn path_splittable(entries: Seq<EntryModel>, name: Seq<u8>) -> bool {
    forall|j: int|
        0 <= j < entries.len() ==> {
            let vb = #[trigger] vstd::utf8::encode_utf8(entries[j].0);
            vb.len() >= name.len() + 1 ==> vstd::utf8::is_char_boundary(
                vb,
                vb.len() - name.len() - 1,
            )
        }
}

/// Lookup by exact name finds nothing exactly where it finds no position.
proof fn lemma_lookup_at_agrees(scopes: Seq<Seq<EntryModel>>, stack: Seq<usize>, name: Seq<char>)
    ensures
        table_lookup(scopes, stack, name) is None <==> table_lookup_at(scopes, stack, name) is None,
    decreases stack.len(),
{
    if stack.len() > 0 {
        lemma_lookup_at_agrees(scopes, stack.drop_last(), name);
    }
}

impl Scope {
    /// The latest symbol whose name is a path whose last component is `name`.
    pub fn latest_path_match(&self, name: &str) -> (r: Option<&SymID>)
        requires
            self.wf(),
            path_splittable(self.entries(), name.spec_bytes()),
        ensures
            match latest_path_index(self.entries(), name.spec_bytes()) {
                Some(i) => r matches Some(s) && s.id() == i && s.info()@ == self.entries()[i].1,
                None => r is None,
            },
    {
        let n = self.len();
        let ghost es = self.entries();
        let ghost nb = name.spec_bytes();
        let mut k: usize = 0;
        assert(es.take(n as int) =~= es);
        while k < n
            invariant
                es == self.entries(),
                nb == name.spec_bytes(),
                n == es.len(),
                k <= n,
                self.wf(),
                path_splittable(es, nb),
                latest_path_index(es, nb) == latest_path_index(es.take(n - k), nb),
            decreases n - k,
        {
            let (var, sid) = self.symbol_rev(k);
            let ghost j = n - 1 - k;
            let ghost t = es.take(n - k);
            assert(var.spec_bytes() == vstd::utf8::encode_utf8(es[j].0));
            assert(t.last() == es[j]);
            assert(t.drop_last() =~= es.take(n - k - 1));
            if last_of_path_match(name, var) {
                return Some(sid);
            }
            k = k + 1;
        }
        None
    }
}

/// The automatic name lookup with the lookup by last path component after
/// it: the symbol that [`lookup_auto`] finds; when it finds none, the latest
/// symbol whose name is a path ending in `/name` in the first active scope,
/// innermost first, that has one.
pub fn lookup_auto_with_paths<'a>(table: &'a SymbolTable, name: &str) -> (r: CompileResult<
    &'a SymID,
>)
    requires
        table.wf(),
        table_lookup_at(table.scopes(), table.stack(), name@) is None ==> forall|k: int|
            0 <= k < table.stack().len() ==> path_splittable(
                #[trigger] table.scopes()[table.stack()[k] as int],
                name.spec_bytes(),
            ),
    ensures
        match table_lookup_at(table.scopes(), table.stack(), name@) {
            Some((sc, i)) => r matches Ok(s) && s.id() == i && s.info()@ == table.scopes()[sc][i].1,
            None => match table_path_lookup_at(table.scopes(), table.stack(), name.spec_bytes()) {
                Some((sc, i)) => r matches Ok(s) && s.id() == i && s.info()@
                    == table.scopes()[sc][i].1,
                None => r is Err,
            },
        },
{
    proof {
        lemma_lookup_at_agrees(table.scopes(), table.stack(), name@);
    }
    match lookup_auto(table, name) {
        Ok(s) => {
            return Ok(s);
        },
        Err(_) => {},
    }
    let ghost nb = name.spec_bytes();
    let mut k = table.scope_stack.len();
    assert(table.stack().take(k as int) =~= table.stack());
    while k > 0
        invariant
            table.wf(),
            nb == name.spec_bytes(),
            k <= table.stack().len(),
            table_lookup_at(table.scopes(), table.stack(), name@) is None,
            forall|q: int|
                0 <= q < table.stack().len() ==> path_splittable(
                    #[trigger] table.scopes()[table.stack()[q] as int],
                    nb,
                ),
            table_path_lookup_at(table.scopes(), table.stack(), nb) == table_path_lookup_at(
                table.scopes(),
                table.stack().take(k as int),
                nb,
            ),
        decreases k,
    {
        let ghost st = table.stack().take(k as int);
        assert(st.drop_last() =~= table.stack().take(k - 1));
        let id = table.scope_stack[k - 1];
        assert(table.scopes@[id as int].wf());
        assert(table.scopes()[table.stack()[k - 1] as int] == table.scopes@[id as int].entries());
        assert(st.last() == id);
        match table.scopes[id].latest_path_match(name) {
            Some(sid) => {
                return Ok(sid);
            },
            None => {},
        }
        k = k - 1;
    }
    Err(msg_error("not found (match-symbol)"))
}

// ---------------------------------------------------------------------------
// Laws of the symbol table
// ---------------------------------------------------------------------------

/// A symbol just inserted into the current scope is what a lookup of its
/// name finds, as long as a scope is active.
pub proof fn law_lookup_after_insert(
    scopes: Seq<Seq<EntryModel>>,
    stack: Seq<usize>,
    name: Seq<char>,
    m: InfoModel,
)
    requires
        stack.len() > 0,
        0 <= current_id(stack) < scopes.len(),
    ensures
        table_lookup(
            scopes.update(current_id(stack), scopes[current_id(stack)].push((name, m))),
            stack,
            name,
        ) == Some(m),
{
    let after = scopes.update(current_id(stack), scopes[current_id(stack)].push((name, m)));
    assert(after[stack.last() as int].last() == (name, m));
}

/// Inserting a symbol does not change what a lookup of another name finds.
pub proof fn law_insert_keeps_other_names(
    scopes: Seq<Seq<EntryModel>>,
    stack: Seq<usize>,
    id: int,
    name: Seq<char>,
    m: InfoModel,
    other: Seq<char>,
)
    requires
        0 <= id < scopes.len(),
        other != name,
        forall|i: int| 0 <= i < stack.len() ==> #[trigger] stack[i] < scopes.len(),
    ensures
        table_lookup(scopes.update(id, scopes[id].push((name, m))), stack, other)
            == table_lookup(scopes, stack, other),
    decreases stack.len(),
{
    let after = scopes.update(id, scopes[id].push((name, m)));
    if stack.len() > 0 {
        let top = stack.last() as int;
        if top == id {
            assert(after[top].drop_last() =~= scopes[top]);
            lemma_latest_index(scopes[top], other);
            match latest_index(scopes[top], other) {
                Some(i) => {
                    assert(after[top][i] == scopes[top][i]);
                },
                None => {},
            }
        }
        law_insert_keeps_other_names(scopes, stack.drop_last(), id, name, m, other);
    }
}

/// A scope that is not active does not change what a lookup finds: in
/// particular, entering a scope and leaving it again leaves every lookup as
/// it was.
pub proof fn law_enter_exit_keeps_lookups(
    scopes: Seq<Seq<EntryModel>>,
    stack: Seq<usize>,
    name: Seq<char>,
)
    requires
        forall|i: int| 0 <= i < stack.len() ==> #[trigger] stack[i] < scopes.len(),
    ensures
        table_lookup(scopes.push(Seq::empty()), stack, name) == table_lookup(scopes, stack, name),
    decreases stack.len(),
{
    if stack.len() > 0 {
        assert(scopes.push(Seq::empty())[stack.last() as int] == scopes[stack.last() as int]);
        law_enter_exit_keeps_lookups(scopes, stack.drop_last(), name);
    }
}

/// Entering a new scope does not change what a lookup finds: the new scope
/// is empty, and the outer ones are searched next.
pub proof fn law_enter_keeps_lookups(
    scopes: Seq<Seq<EntryModel>>,
    stack: Seq<usize>,
    name: Seq<char>,
)
    requires
        scopes.len() <= usize::MAX,
        forall|i: int| 0 <= i < stack.len() ==> #[trigger] stack[i] < scopes.len(),
    ensures
        table_lookup(scopes.push(Seq::empty()), stack.push(scopes.len() as usize), name)
            == table_lookup(scopes, stack, name),
{
    let st = stack.push(scopes.len() as usize);
    assert(st.drop_last() =~= stack);
    assert(scopes.push(Seq::empty())[st.last() as int] == Seq::<EntryModel>::empty());
    assert(latest_index(Seq::<EntryModel>::empty(), name) is None);
    law_enter_exit_keeps_lookups(scopes, stack, name);
}

/// A value that names a symbol.
pub trait ToName: Sized {
    /// The name.
    fn to_name(self) -> String;
}

impl ToName for String {
    fn to_name(self) -> (r: String)
        ensures
            r@ == self@,
    {
        self
    }
}

impl<'a> ToName for &'a str {
    fn to_name(self) -> (r: String)
        ensures
            r@ == self@,
    {
        str_to_string(self)
    }
}

/// A value that gives the information on a symbol.
pub trait ToSymInfo {
    /// The information, as a value of its own.
    fn to_sym_info(&self) -> SymInfo;
}

impl ToSymInfo for SymInfo {
    fn to_sym_info(&self) -> (r: SymInfo)
        ensures
            r@ == self@,
    {
        self.duplicate()
    }
}

/// A scope that can be changed.
pub trait ScopeMut {}

impl ScopeMut for Scope {}

/// Matching a name against a piece of data.
pub trait Match {
    /// What is matched.
    type T;
    /// What a match gives.
    type U;

    /// Match `name` against `data`.
    fn apply(&self, name: &str, data: Self::T) -> Self::U;
}

} // verus!
