//! The compiler's state: the code it emits (instructions and a table of
//! string literals), its symbol table and the stack of files it compiles;
//! and what it does to them: emit, patch, intern strings, resolve include
//! paths, and link compiled modules together.
use crate::error::{msg_error, CompileResult};
use crate::symbol_info::{Info as SymInfo, InfoModel, LitType, TypModel, Typ, Literal};
use crate::symbol_table::{SymbolTable, EntryModel, current_id, frame_size, table_lookup};
use crate::text::{str_eq, str_to_string};
use crate::ast;
use vstd::prelude::*;
use vstd::string::StringExecFns;
use vstd::string::StringSliceAdditionalSpecFns;

verus! {

broadcast use vstd::std_specs::vec::group_vec_axioms;

// ---------------------------------------------------------------------------
// Instructions and code
// ---------------------------------------------------------------------------

/// An instruction of the Dust virtual machine.
#[derive(Debug, Clone, Copy, PartialEq, Eq, Structural)]
pub enum Instr {
    /// Push the string literal with this id.
    PushStr(usize),
    /// Return the string literal with this id.
    RetStr(usize),
    /// Push a natural number.
    PushNat(usize),
    /// Return a natural number.
    RetNat(usize),
    /// Push the address of a function.
    PushFuncAddr(usize),
    /// Return the address of a function.
    RetFuncAddr(usize),
    /// Push a copy of the local at this frame offset.
    PushLocal(usize),
    /// Return the local at this frame offset.
    RetLocal(usize),
    /// Push the null value.
    PushNull,
    /// Jump to an instruction.
    Jump { addr: usize },
    /// Allocate a stack frame of this size.
    Allocate { size: usize },
    /// Return from a function whose frame has this size.
    Return(usize),
    /// Call the function at an address.
    Call(usize),
    /// Perform the system call with this id.
    Syscall(usize),
    /// Release the job in the local at this frame offset.
    CleanUp(usize),
    /// Wait for the job in the local at this frame offset and collect its output.
    Collect(usize),
    /// Turn the job in the local at this frame offset into a pipe.
    Pipe(usize),
    /// Buffer the output of the job in the local at this frame offset as a string.
    BufferString(usize),
}

/// The system call that starts a process, or runs the job that a local or
/// a string names.
pub const SYSCALL_SPAWN: usize = 0;

/// The system call that slices the arguments of the running function.
pub const SYSCALL_ARG_SLICE: usize = 1;

/// The system call that runs a built-in command.
pub const SYSCALL_BUILTIN: usize = 2;

/// Compiled code: instructions, and the string literals they refer to by
/// id (a string's id is its position in the table).
#[derive(Debug)]
pub struct ICode {
    pub instructions: Vec<Instr>,
    pub strings: Vec<String>,
}

/// The strings of a table, as character sequences.
pub open spec fn strings_view(v: Seq<String>) -> Seq<Seq<char>> {
    v.map_values(|s: String| s@)
}

/// No string occurs twice in the table.
pub open spec fn no_duplicates(t: Seq<Seq<char>>) -> bool {
    forall|i: int, j: int| 0 <= i < j < t.len() ==> #[trigger] t[i] != #[trigger] t[j]
}

/// The id of the string `s` in the table `t`: its position, if it is there.
pub open spec fn string_id(t: Seq<Seq<char>>, s: Seq<char>) -> Option<int> {
    if exists|i: int| 0 <= i < t.len() && t[i] == s {
        Some(choose|i: int| 0 <= i < t.len() && t[i] == s)
    } else {
        None
    }
}

/// The id of a string, when there is one, is a position of that string.
pub proof fn lemma_string_id(t: Seq<Seq<char>>, s: Seq<char>)
    ensures
        string_id(t, s) matches Some(i) ==> 0 <= i < t.len() && t[i] == s,
        string_id(t, s) is None ==> forall|i: int| 0 <= i < t.len() ==> t[i] != s,
{
}

/// The table after interning `s`: unchanged when `s` is there, with `s`
/// added at the end otherwise.
pub open spec fn interned(t: Seq<Seq<char>>, s: Seq<char>) -> Seq<Seq<char>> {
    if string_id(t, s) is Some {
        t
    } else {
        t.push(s)
    }
}

/// The id `s` has once interned in `t`.
pub open spec fn interned_id(t: Seq<Seq<char>>, s: Seq<char>) -> int {
    match string_id(t, s) {
        Some(i) => i,
        None => t.len() as int,
    }
}

impl ICode {
    /// The string table, as character sequences.
    pub open spec fn table(&self) -> Seq<Seq<char>> {
        strings_view(self.strings@)
    }

    /// No string occurs twice in the table.
    pub open spec fn wf(&self) -> bool {
        no_duplicates(self.table())
    }

    /// Empty code.
    pub fn new() -> (r: Self)
        ensures
            r.wf(),
            r.instructions@ == Seq::<Instr>::empty(),
            r.table() == Seq::<Seq<char>>::empty(),
    {
        let r = ICode { instructions: Vec::new(), strings: Vec::new() };
        assert(r.table() =~= Seq::<Seq<char>>::empty());
        r
    }
}

/// Interning a string gives back, afterwards, the id it was given: the
/// string is found at that id, and interning it again changes nothing.
pub proof fn law_intern_then_lookup(t: Seq<Seq<char>>, s: Seq<char>)
    requires
        no_duplicates(t),
    ensures
        string_id(interned(t, s), s) == Some(interned_id(t, s)),
        interned(interned(t, s), s) == interned(t, s),
        interned_id(interned(t, s), s) == interned_id(t, s),
{
    lemma_string_id(t, s);
    let t2 = interned(t, s);
    lemma_string_id(t2, s);
    match string_id(t, s) {
        Some(i) => {
            let c = choose|j: int| 0 <= j < t2.len() && t2[j] == s;
            if c != i {
                if c < i {
                    assert(t[c] != t[i]);
                } else {
                    assert(t[i] != t[c]);
                }
            }
        },
        None => {
            assert(t2[t.len() as int] == s);
            let c = choose|j: int| 0 <= j < t2.len() && t2[j] == s;
            if c < t.len() {
                assert(t2[c] == t[c]);
            }
        },
    }
}

/// The id of the string `s` in the table `strings`, if it is there.
pub fn get_string_id(strings: &Vec<String>, s: &str) -> (r: Option<usize>)
    requires
        no_duplicates(strings_view(strings@)),
    ensures
        match string_id(strings_view(strings@), s@) {
            Some(i) => r matches Some(j) && j == i,
            None => r is None,
        },
{
    let ghost t = strings_view(strings@);
    let mut i: usize = 0;
    while i < strings.len()
        invariant
            t == strings_view(strings@),
            no_duplicates(t),
            i <= strings@.len(),
            forall|j: int| 0 <= j < i ==> t[j] != s@,
        decreases strings@.len() - i,
    {
        assert(t[i as int] == strings@[i as int]@);
        if str_eq(strings[i].as_str(), s) {
            assert(string_id(t, s@) == Some(i as int)) by {
                let c = choose|j: int| 0 <= j < t.len() && t[j] == s@;
                assert(0 <= c < t.len() && t[c] == s@);
                if c != i as int {
                    if c < i {
                        assert(t[c] != s@);
                    } else {
                        assert(t[i as int] != t[c]);
                    }
                }
            }
            return Some(i);
        }
        i = i + 1;
    }
    None
}

/// Intern the string `s` in the table `strings`: its id, adding it at the
/// end when it is not there yet.
pub fn add_string(strings: &mut Vec<String>, s: &str) -> (id: usize)
    requires
        no_duplicates(strings_view(old(strings)@)),
    ensures
        no_duplicates(strings_view(final(strings)@)),
        strings_view(final(strings)@) == interned(strings_view(old(strings)@), s@),
        id == interned_id(strings_view(old(strings)@), s@),
{
    proof {
        lemma_string_id(strings_view(strings@), s@);
    }
    let ghost t0 = strings_view(strings@);
    match get_string_id(strings, s) {
        Some(id) => {
            id
        },
        None => {
            let id = strings.len();
            let ghost t0 = strings_view(strings@);
            assert(t0.len() == strings@.len());
            strings.push(str_to_string(s));
            proof {
                assert(strings_view(strings@) =~= t0.push(s@));
                assert forall|i: int, j: int|
                    0 <= i < j < t0.len() + 1 implies #[trigger] t0.push(s@)[i] != #[trigger] t0.push(
                    s@,
                )[j] by {
                    if j == t0.len() {
                        assert(t0[i] != s@);
                    }
                }
            }
            id
        },
    }
}

/// Append `instrs` to `instructions`; answers how many were appended.
pub fn instrs_emit(instructions: &mut Vec<Instr>, instrs: Vec<Instr>) -> (n: usize)
    ensures
        final(instructions)@ == old(instructions)@ + instrs@,
        n == instrs@.len(),
{
    let mut instrs = instrs;
    let ghost add = instrs@;
    let ghost start = instructions@;
    let mut k: usize = 0;
    let n = instrs.len();
    while k < n
        invariant
            n == add.len(),
            instrs@ == add,
            k <= n,
            instructions@ == start + add.take(k as int),
        decreases n - k,
    {
        instructions.push(instrs[k]);
        assert(add.take(k + 1) =~= add.take(k as int).push(add[k as int]));
        k = k + 1;
    }
    assert(add.take(n as int) =~= add);
    n
}

// ---------------------------------------------------------------------------
// Numbers as text
// ---------------------------------------------------------------------------

/// The decimal digit `d`, as text.
pub open spec fn digit_text(d: int) -> Seq<char> {
    if d == 0 {
        "0"@
    } else if d == 1 {
        "1"@
    } else if d == 2 {
        "2"@
    } else if d == 3 {
        "3"@
    } else if d == 4 {
        "4"@
    } else if d == 5 {
        "5"@
    } else if d == 6 {
        "6"@
    } else if d == 7 {
        "7"@
    } else if d == 8 {
        "8"@
    } else {
        "9"@
    }
}

/// The decimal notation of `n`.
pub open spec fn decimal_text(n: nat) -> Seq<char>
    decreases n,
{
    if n < 10 {
        digit_text(n as int)
    } else {
        decimal_text(n / 10) + digit_text((n % 10) as int)
    }
}

fn digit_str(d: usize) -> (r: &'static str)
    requires
        d < 10,
    ensures
        r@ == digit_text(d as int),
{
    if d == 0 {
        "0"
    } else if d == 1 {
        "1"
    } else if d == 2 {
        "2"
    } else if d == 3 {
        "3"
    } else if d == 4 {
        "4"
    } else if d == 5 {
        "5"
    } else if d == 6 {
        "6"
    } else if d == 7 {
        "7"
    } else if d == 8 {
        "8"
    } else {
        "9"
    }
}

/// The decimal notation of `n`.
pub fn decimal(n: usize) -> (r: String)
    ensures
        r@ == decimal_text(n as nat),
    decreases n,
{
    if n < 10 {
        String::from_str(digit_str(n))
    } else {
        let mut s = decimal(n / 10);
        s.append(digit_str(n % 10));
        s
    }
}

/// Whether `c` is an ASCII decimal digit.
pub open spec fn is_digit_char(c: char) -> bool {
    '0' <= c <= '9'
}

/// The value of the decimal digits `s`.
pub open spec fn digits_value(s: Seq<char>) -> nat
    decreases s.len(),
{
    if s.len() == 0 {
        0
    } else {
        digits_value(s.drop_last()) * 10 + ((s.last() as u32 - '0' as u32) as nat)
    }
}

/// The text `s` without a leading `+`.
pub open spec fn unsigned_part(s: Seq<char>) -> Seq<char> {
    if s.len() > 0 && s[0] == '+' {
        s.subrange(1, s.len() as int)
    } else {
        s
    }
}

/// The digits of a natural number as written: an optional `+`, then at
/// least one decimal digit.
pub open spec fn natural_digits(s: Seq<char>) -> Option<Seq<char>> {
    let d = unsigned_part(s);
    if d.len() > 0 && forall|i: int| 0 <= i < d.len() ==> is_digit_char(#[trigger] d[i]) {
        Some(d)
    } else {
        None
    }
}

/// The natural number written `s`, if it is one and fits in a `usize`.
pub open spec fn spec_parse_usize(s: Seq<char>) -> Option<usize> {
    match natural_digits(s) {
        Some(d) => if digits_value(d) <= usize::MAX {
            Some(digits_value(d) as usize)
        } else {
            None
        },
        None => None,
    }
}

/// A prefix of digits is worth no more than the whole.
proof fn lemma_digits_value_prefix(d: Seq<char>, k: int)
    requires
        0 <= k <= d.len(),
        forall|i: int| 0 <= i < d.len() ==> is_digit_char(#[trigger] d[i]),
    ensures
        digits_value(d.take(k)) <= digits_value(d),
    decreases d.len() - k,
{
    if k < d.len() {
        lemma_digits_value_prefix(d, k + 1);
        assert(d.take(k + 1).drop_last() =~= d.take(k));
    } else {
        assert(d.take(k) =~= d);
    }
}

/// The natural number written `text` (an optional `+`, then decimal
/// digits), if it is one and fits in a `usize`.
pub fn parse_usize(text: &str) -> (r: Option<usize>)
    ensures
        r == spec_parse_usize(text@),
{
    let cs = crate::text::str_chars(text);
    let ghost s = text@;
    let mut k: usize = 0;
    if cs.len() > 0 && cs[0] == '+' {
        k = 1;
    }
    let ghost d = unsigned_part(s);
    assert(d =~= s.subrange(k as int, s.len() as int));
    if k >= cs.len() {
        return None;
    }
    let start = k;
    let mut value: usize = 0;
    while k < cs.len()
        invariant
            cs@ == s,
            s == text@,
            d == s.subrange(start as int, s.len() as int),
            d == unsigned_part(s),
            start < s.len(),
            start <= k <= s.len(),
            forall|i: int| 0 <= i < k - start ==> is_digit_char(#[trigger] d[i]),
            value == digits_value(d.take(k - start)),
        decreases s.len() - k,
    {
        let c = cs[k];
        assert(c == d[k - start]);
        if !('0' <= c && c <= '9') {
            assert(!is_digit_char(d[k - start]));
            assert(natural_digits(s) is None);
            return None;
        }
        let digit = (c as u32 - '0' as u32) as usize;
        assert(d.take(k - start + 1).drop_last() =~= d.take(k - start));
        if value > (usize::MAX - digit) / 10 {
            proof {
                assert(value * 10 + digit > usize::MAX) by (nonlinear_arith)
                    requires
                        value > (usize::MAX - digit) / 10,
                        digit <= 9,
                ;
                assert(d.take(k - start + 1).last() == c);
                assert(digits_value(d.take(k - start + 1)) == value * 10 + digit);
                if forall|i: int| 0 <= i < d.len() ==> is_digit_char(#[trigger] d[i]) {
                    lemma_digits_value_prefix(d, k - start + 1);
                    assert(natural_digits(s) == Some(d));
                }
            }
            return None;
        }
        value = value * 10 + digit;
        k = k + 1;
    }
    assert(d.take(k - start) =~= d);
    Some(value)
}

// ---------------------------------------------------------------------------
// The compiler
// ---------------------------------------------------------------------------

/// How the value of a job is released when a statement is done with it.
#[derive(Debug, Clone, Copy, PartialEq, Eq, Structural)]
pub enum Cleanup {
    CleanUp,
    Collect,
    Pipe,
    BufferString,
}

/// The instruction that releases, as `c` says, the job at frame offset `off`.
pub open spec fn cleanup_instr(c: Cleanup, off: usize) -> Instr {
    match c {
        Cleanup::CleanUp => Instr::CleanUp(off),
        Cleanup::Collect => Instr::Collect(off),
        Cleanup::Pipe => Instr::Pipe(off),
        Cleanup::BufferString => Instr::BufferString(off),
    }
}

/// A compiler: the code emitted so far, its symbol table, and the paths of
/// the files being compiled (the innermost last).
pub struct Compiler {
    pub icode: ICode,
    pub sym_table: SymbolTable,
    pub current_file_path: Vec<String>,
}

impl Compiler {
    /// The instructions emitted so far.
    pub open spec fn instrs(&self) -> Seq<Instr> {
        self.icode.instructions@
    }

    /// The string table.
    pub open spec fn table(&self) -> Seq<Seq<char>> {
        self.icode.table()
    }

    /// The paths of the files being compiled.
    pub open spec fn paths(&self) -> Seq<Seq<char>> {
        strings_view(self.current_file_path@)
    }

    /// The string table has no duplicates and the symbol table is well formed.
    pub open spec fn wf(&self) -> bool {
        self.icode.wf() && self.sym_table.wf()
    }

    /// A compiler with no code, no scope and no file.
    pub fn new() -> (r: Self)
        ensures
            r.wf(),
            r.instrs() == Seq::<Instr>::empty(),
            r.table() == Seq::<Seq<char>>::empty(),
            r.sym_table.scopes() == Seq::<Seq<EntryModel>>::empty(),
            r.sym_table.stack() == Seq::<usize>::empty(),
            r.paths() == Seq::<Seq<char>>::empty(),
    {
        let r = Compiler { icode: ICode::new(), sym_table: SymbolTable::new(), current_file_path: Vec::new() };
        assert(r.paths() =~= Seq::<Seq<char>>::empty());
        r
    }

    /// The id of the last instruction emitted.
    pub fn instr_id(&self) -> (r: usize)
        requires
            self.instrs().len() > 0,
        ensures
            r == self.instrs().len() - 1,
    {
        self.icode.instructions.len() - 1
    }

    /// The number of instructions emitted.
    pub fn num_instrs(&self) -> (r: usize)
        ensures
            r == self.instrs().len(),
    {
        self.icode.instructions.len()
    }

    /// Emit a single instruction.
    pub fn emit1(&mut self, instr: Instr)
        ensures
            final(self).instrs() == old(self).instrs().push(instr),
            final(self).icode.strings == old(self).icode.strings,
            final(self).sym_table == old(self).sym_table,
            final(self).current_file_path == old(self).current_file_path,
    {
        self.icode.instructions.push(instr);
    }

    /// Emit the given instructions, in order.
    pub fn emit(&mut self, instrs: Vec<Instr>)
        ensures
            final(self).instrs() == old(self).instrs() + instrs@,
            final(self).icode.strings == old(self).icode.strings,
            final(self).sym_table == old(self).sym_table,
            final(self).current_file_path == old(self).current_file_path,
    {
        instrs_emit(&mut self.icode.instructions, instrs);
    }

    /// The id of the string `s`, if it was added.
    pub fn get_string_id(&self, s: &str) -> (r: Option<usize>)
        requires
            self.wf(),
        ensures
            match string_id(self.table(), s@) {
                Some(i) => r matches Some(j) && j == i,
                None => r is None,
            },
    {
        get_string_id(&self.icode.strings, s)
    }

    /// Add the literal string `s` to the string table; answers its id.
    pub fn add_string(&mut self, s: &str) -> (id: usize)
        requires
            old(self).wf(),
        ensures
            final(self).wf(),
            final(self).table() == interned(old(self).table(), s@),
            id == interned_id(old(self).table(), s@),
            final(self).instrs() == old(self).instrs(),
            final(self).sym_table == old(self).sym_table,
            final(self).current_file_path == old(self).current_file_path,
    {
        add_string(&mut self.icode.strings, s)
    }

    /// Patch the instruction `instr_id` with `block`, which is given the
    /// instruction and answers its replacement or an error, that is then
    /// answered unchanged. Fails when there is no such instruction.
    pub fn backpatch<B: FnOnce(Instr) -> CompileResult<Instr>>(&mut self, instr_id: usize, block: B) -> (r:
        CompileResult<()>)
        requires
            instr_id < old(self).instrs().len() ==> block.requires(
                (old(self).instrs()[instr_id as int],),
            ),
        ensures
            final(self).icode.strings == old(self).icode.strings,
            final(self).sym_table == old(self).sym_table,
            final(self).current_file_path == old(self).current_file_path,
            if instr_id < old(self).instrs().len() {
                exists|res: CompileResult<Instr>|
                    #[trigger] block.ensures((old(self).instrs()[instr_id as int],), res) && match res {
                        Ok(p) => r is Ok && final(self).instrs() == old(self).instrs().update(
                            instr_id as int,
                            p,
                        ),
                        Err(e) => r == Err::<(), crate::error::CompileError>(e)
                            && final(self).instrs() == old(self).instrs(),
                    }
            } else {
                r is Err && final(self).instrs() == old(self).instrs()
            },
    {
        if instr_id >= self.icode.instructions.len() {
            return Err(msg_error("No instruction to patch"));
        }
        let cur = self.icode.instructions[instr_id];
        let res = block(cur);
        match res {
            Ok(p) => {
                self.icode.instructions.set(instr_id, p);
                Ok(())
            },
            Err(e) => Err(e),
        }
    }

    /// Set the value of the instruction `instr_id` to `val`: the number it
    /// pushes, the size it allocates, or the address it jumps to.  Fails on
    /// any other instruction, and when there is no such instruction.
    pub fn backpatch_with(&mut self, instr_id: usize, val: usize) -> (r: CompileResult<()>)
        ensures
            final(self).icode.strings == old(self).icode.strings,
            final(self).sym_table == old(self).sym_table,
            final(self).current_file_path == old(self).current_file_path,
            match patched(old(self).instrs(), instr_id as int, val) {
                Some(p) => r is Ok && final(self).instrs() == old(self).instrs().update(
                    instr_id as int,
                    p,
                ),
                None => r is Err && final(self).instrs() == old(self).instrs(),
            },
    {
        if instr_id >= self.icode.instructions.len() {
            return Err(msg_error("No instruction to patch"));
        }
        let new_instr = match self.icode.instructions[instr_id] {
            Instr::PushNat(_) => Instr::PushNat(val),
            Instr::Allocate { .. } => Instr::Allocate { size: val },
            Instr::Jump { .. } => Instr::Jump { addr: val },
            _ => {
                return Err(msg_error("Not a single usize value instruction"));
            },
        };
        self.icode.instructions.set(instr_id, new_instr);
        Ok(())
    }

    /// Add `text` as a string literal; answers the literal.
    pub fn compile_text(&mut self, text: &str) -> (r: CompileResult<SymInfo>)
        requires
            old(self).wf(),
        ensures
            final(self).wf(),
            final(self).table() == interned(old(self).table(), text@),
            final(self).instrs() == old(self).instrs(),
            final(self).sym_table == old(self).sym_table,
            final(self).current_file_path == old(self).current_file_path,
            r matches Ok(x) && x@ == (InfoModel {
                typ: TypModel::Literal {
                    id: interned_id(old(self).table(), text@) as usize,
                    lit_type: LitType::String,
                },
                scope_id: 0,
            }),
    {
        let strid = self.add_string(text);
        Ok(SymInfo::lit_string(strid))
    }

    /// The natural number literal written `text`; fails when `text` is not a
    /// natural number that fits in a `usize`.
    pub fn compile_natural(&self, text: &str) -> (r: CompileResult<SymInfo>)
        ensures
            match spec_parse_usize(text@) {
                Some(n) => r matches Ok(x) && x@ == (InfoModel {
                    typ: TypModel::Literal { id: n, lit_type: LitType::Natural },
                    scope_id: 0,
                }),
                None => r matches Err(e) && e.kind == crate::error::ErrorKind::ParseInt,
            },
    {
        match parse_usize(text) {
            Some(n) => Ok(SymInfo::lit_natural(n)),
            None => Err(crate::error::Error::new(crate::error::ErrorKind::ParseInt)),
        }
    }

    /// The function named `name`; fails when the name is unknown or is not
    /// a function.
    pub fn compile_funcaddr(&self, name: &str) -> (r: CompileResult<SymInfo>)
        requires
            self.wf(),
        ensures
            match table_lookup(self.sym_table.scopes(), self.sym_table.stack(), name@) {
                Some(m) => if m.typ is Address {
                    r matches Ok(x) && x@ == m
                } else {
                    r is Err
                },
                None => r is Err,
            },
    {
        let sinfo = match self.sym_table.lookup(name) {
            Ok(s) => s,
            Err(e) => {
                return Err(e);
            },
        };
        match &sinfo.typ {
            Typ::Address(_) => Ok(sinfo.duplicate()),
            _ => Err(msg_error("Not a function address")),
        }
    }
}

/// The instruction `i` of `instrs` with its value set to `val`, when it is
/// one that carries a single number.
pub open spec fn patched(instrs: Seq<Instr>, i: int, val: usize) -> Option<Instr> {
    if 0 <= i < instrs.len() {
        match instrs[i] {
            Instr::PushNat(_) => Some(Instr::PushNat(val)),
            Instr::Allocate { .. } => Some(Instr::Allocate { size: val }),
            Instr::Jump { .. } => Some(Instr::Jump { addr: val }),
            _ => None,
        }
    } else {
        None
    }
}

/// The name of the next temporary of the current scope: the scope id and
/// the id the symbol will get, as `scope:id`.
pub open spec fn tmp_name(scopes: Seq<Seq<EntryModel>>, stack: Seq<usize>) -> Seq<char> {
    decimal_text(current_id(stack) as nat) + ":"@ + decimal_text(
        scopes[current_id(stack)].len(),
    )
}

/// The next temporary of the current scope: a local of no type at the next
/// free cell of the frame.
pub open spec fn tmp_model(scopes: Seq<Seq<EntryModel>>, stack: Seq<usize>) -> InfoModel {
    InfoModel {
        typ: TypModel::Local {
            fp_off: frame_size(scopes[current_id(stack)]) as usize,
            is_alias: false,
            types: Seq::empty(),
        },
        scope_id: current_id(stack) as usize,
    }
}

/// The scopes once the next temporary is recorded in the current scope.
pub open spec fn with_tmp(scopes: Seq<Seq<EntryModel>>, stack: Seq<usize>) -> Seq<
    Seq<EntryModel>,
> {
    scopes.update(
        current_id(stack),
        scopes[current_id(stack)].push((tmp_name(scopes, stack), tmp_model(scopes, stack))),
    )
}

/// The instruction that pushes (or, for `push == false`, returns) the value
/// of the symbol `m`; none for a symbol that has no such instruction.
pub open spec fn symbol_instr(push: bool, m: InfoModel) -> Option<Instr> {
    match m.typ {
        TypModel::Address { addr, .. } => Some(
            if push {
                Instr::PushFuncAddr(addr)
            } else {
                Instr::RetFuncAddr(addr)
            },
        ),
        TypModel::Local { fp_off, .. } => Some(
            if push {
                Instr::PushLocal(fp_off)
            } else {
                Instr::RetLocal(fp_off)
            },
        ),
        TypModel::Literal { id, lit_type } => match lit_type {
            LitType::String => Some(
                if push {
                    Instr::PushStr(id)
                } else {
                    Instr::RetStr(id)
                },
            ),
            LitType::Natural => Some(
                if push {
                    Instr::PushNat(id)
                } else {
                    Instr::RetNat(id)
                },
            ),
            LitType::Null => if push {
                Some(Instr::PushNull)
            } else {
                None
            },
            _ => None,
        },
    }
}

impl Compiler {
    /// Record a new temporary local of the given types in the current scope,
    /// at the next free cell of the frame.
    pub fn new_local_tmp(&mut self, types: Vec<SymInfo>) -> (r: SymInfo)
        requires
            old(self).wf(),
            old(self).sym_table.has_current(),
        ensures
            final(self).wf(),
            final(self).instrs() == old(self).instrs(),
            final(self).icode.strings == old(self).icode.strings,
            final(self).current_file_path == old(self).current_file_path,
            final(self).sym_table.stack() == old(self).sym_table.stack(),
            r@ == (InfoModel {
                typ: TypModel::Local {
                    fp_off: frame_size(
                        old(self).sym_table.scopes()[current_id(old(self).sym_table.stack())],
                    ) as usize,
                    is_alias: false,
                    types: crate::symbol_info::infos_model(types@),
                },
                scope_id: current_id(old(self).sym_table.stack()) as usize,
            }),
            final(self).sym_table.scopes() == old(self).sym_table.scopes().update(
                current_id(old(self).sym_table.stack()),
                old(self).sym_table.scopes()[current_id(old(self).sym_table.stack())].push(
                    (tmp_name(old(self).sym_table.scopes(), old(self).sym_table.stack()), r@),
                ),
            ),
    {
        let mut name = decimal(self.sym_table.scope_id());
        name.append(":");
        let id = decimal(self.sym_table.next_symbol_id());
        name.append(id.as_str());
        self.sym_table.new_local(types, name)
    }

    /// Record a new temporary in the current scope that stands for the
    /// natural number literal `value`.
    pub fn new_natural_literal_tmp(&mut self, value: usize) -> (r: SymInfo)
        requires
            old(self).wf(),
            old(self).sym_table.has_current(),
        ensures
            final(self).wf(),
            final(self).instrs() == old(self).instrs(),
            final(self).icode.strings == old(self).icode.strings,
            final(self).current_file_path == old(self).current_file_path,
            final(self).sym_table.stack() == old(self).sym_table.stack(),
            r@ == (InfoModel {
                typ: TypModel::Literal { id: value, lit_type: LitType::Natural },
                scope_id: current_id(old(self).sym_table.stack()) as usize,
            }),
            final(self).sym_table.scopes() == old(self).sym_table.scopes().update(
                current_id(old(self).sym_table.stack()),
                old(self).sym_table.scopes()[current_id(old(self).sym_table.stack())].push(
                    (tmp_name(old(self).sym_table.scopes(), old(self).sym_table.stack()), r@),
                ),
            ),
    {
        let ghost s0 = self.sym_table.scopes();
        let ghost st = self.sym_table.stack();
        let mut types: Vec<SymInfo> = Vec::new();
        types.push(SymInfo::lit_natural(value));
        let tmp = self.new_local_tmp(types);
        let r = SymInfo { typ: Typ::natural(value), scope_id: tmp.scope_id };
        self.sym_table.set_last_info(r.duplicate());
        proof {
            let cur = current_id(st);
            let e0 = s0[cur];
            assert(e0.push((tmp_name(s0, st), tmp@)).update(e0.len() as int, (tmp_name(s0, st), r@))
                =~= e0.push((tmp_name(s0, st), r@)));
        }
        r
    }

    /// Emit the instruction that pushes the value of `sinfo` (recording a
    /// temporary for it) or, when `push_or_retval` is false, returns it.
    /// Fails on a symbol that has no such instruction.
    pub fn emit_from_symbol(&mut self, push_or_retval: bool, sinfo: &SymInfo) -> (r: CompileResult<
        (),
    >)
        requires
            old(self).wf(),
            old(self).sym_table.has_current(),
            !push_or_retval ==> !((sinfo@.typ matches TypModel::Literal { lit_type, .. })
                && sinfo@.typ->Literal_lit_type == LitType::Null),
        ensures
            final(self).wf(),
            final(self).icode.strings == old(self).icode.strings,
            final(self).current_file_path == old(self).current_file_path,
            final(self).sym_table.stack() == old(self).sym_table.stack(),
            match symbol_instr(push_or_retval, sinfo@) {
                Some(ins) => {
                    &&& r is Ok
                    &&& final(self).instrs() == old(self).instrs().push(ins)
                    &&& final(self).sym_table.scopes() == if push_or_retval {
                        with_tmp(old(self).sym_table.scopes(), old(self).sym_table.stack())
                    } else {
                        old(self).sym_table.scopes()
                    }
                },
                None => r is Err && final(self).instrs() == old(self).instrs()
                    && final(self).sym_table.scopes() == old(self).sym_table.scopes(),
            },
    {
        let instr = match &sinfo.typ {
            Typ::Address(a) => if push_or_retval {
                Instr::PushFuncAddr(a.addr)
            } else {
                Instr::RetFuncAddr(a.addr)
            },
            Typ::Local(l) => if push_or_retval {
                Instr::PushLocal(l.fp_off)
            } else {
                Instr::RetLocal(l.fp_off)
            },
            Typ::Literal(l) => match l.lit_type {
                LitType::String => if push_or_retval {
                    Instr::PushStr(l.id)
                } else {
                    Instr::RetStr(l.id)
                },
                LitType::Natural => if push_or_retval {
                    Instr::PushNat(l.id)
                } else {
                    Instr::RetNat(l.id)
                },
                LitType::Null => Instr::PushNull,
                _ => {
                    return Err(msg_error("Cannot emit a value of this symbol"));
                },
            },
        };
        if push_or_retval {
            let tmp = self.new_local_tmp(Vec::new());
            proof {
                assert(crate::symbol_info::infos_model(Seq::<SymInfo>::empty()) =~= Seq::<
                    InfoModel,
                >::empty());
            }
        }
        self.emit1(instr);
        Ok(())
    }

    /// Emit the instruction that releases, as `clns` says, the job held by
    /// the local `sinfo`; nothing for a literal.
    pub fn emit_cleanup(&mut self, clns: Cleanup, sinfo: &SymInfo) -> (r: CompileResult<()>)
        requires
            sinfo@.typ is Literal || (sinfo@.typ matches TypModel::Local { is_alias, .. }
                && !is_alias),
        ensures
            r is Ok,
            final(self).icode.strings == old(self).icode.strings,
            final(self).sym_table == old(self).sym_table,
            final(self).current_file_path == old(self).current_file_path,
            final(self).instrs() == match sinfo@.typ {
                TypModel::Local { fp_off, .. } => old(self).instrs().push(cleanup_instr(clns, fp_off)),
                _ => old(self).instrs(),
            },
    {
        match &sinfo.typ {
            Typ::Local(l) => {
                let instr = match clns {
                    Cleanup::CleanUp => Instr::CleanUp(l.fp_off),
                    Cleanup::Collect => Instr::Collect(l.fp_off),
                    Cleanup::Pipe => Instr::Pipe(l.fp_off),
                    Cleanup::BufferString => Instr::BufferString(l.fp_off),
                };
                self.emit1(instr);
            },
            _ => {},
        }
        Ok(())
    }

    /// The local variable `name`, which must be in the current scope.
    pub fn lookup_local_var(&self, name: &str) -> (r: CompileResult<&crate::symbol_info::Local>)
        requires
            self.wf(),
        ensures
            match table_lookup(self.sym_table.scopes(), self.sym_table.stack(), name@) {
                Some(m) => if m.scope_id == current_id(self.sym_table.stack()) && m.typ is Local {
                    r matches Ok(l) && (TypModel::Local {
                        fp_off: l.fp_off,
                        is_alias: l.is_alias,
                        types: crate::symbol_info::infos_model(l.types@),
                    }) == m.typ
                } else {
                    r is Err
                },
                None => r is Err,
            },
    {
        let sinfo = match self.sym_table.lookup(name) {
            Ok(s) => s,
            Err(e) => {
                return Err(e);
            },
        };
        if sinfo.scope_id != self.sym_table.scope_id() {
            return Err(msg_error("Symbol is in a different scope"));
        }
        sinfo.as_local_ref()
    }
}

// ---------------------------------------------------------------------------
// Include paths
// ---------------------------------------------------------------------------

/// The position of the last `/` in `s`, if there is one.
pub open spec fn last_slash(s: Seq<char>) -> Option<int>
    decreases s.len(),
{
    if s.len() == 0 {
        None
    } else if s.last() == '/' {
        Some(s.len() - 1)
    } else {
        last_slash(s.drop_last())
    }
}

/// The path of the file `path` included from the file `base`: an absolute
/// path as it is; otherwise relative to the directory of `base` (the part up
/// to its last `/`, or `./` when it has none), without a leading `./`.
pub open spec fn spec_include_path(base: Seq<char>, path: Seq<char>) -> Seq<char> {
    if path.len() > 0 && path[0] == '/' {
        path
    } else {
        let rest = if path.len() >= 2 && path[0] == '.' && path[1] == '/' {
            path.subrange(2, path.len() as int)
        } else {
            path
        };
        match last_slash(base) {
            Some(l) => base.subrange(0, l + 1) + rest,
            None => seq!['.', '/'] + rest,
        }
    }
}

/// Calls `String::from_iter` on the characters of `chars`, which std
/// documents as the string made of those characters, in order.
#[verifier::external_body]
fn string_from_chars(chars: Vec<char>) -> (r: String)
    ensures
        r@ == chars@,
{
    String::from_iter(chars)
}

proof fn lemma_last_slash(s: Seq<char>)
    ensures
        last_slash(s) matches Some(l) ==> 0 <= l < s.len() && s[l] == '/' && forall|j: int|
            l < j < s.len() ==> s[j] != '/',
        last_slash(s) is None ==> forall|j: int| 0 <= j < s.len() ==> s[j] != '/',
    decreases s.len(),
{
    if s.len() > 0 {
        lemma_last_slash(s.drop_last());
        assert forall|j: int| 0 <= j < s.len() - 1 implies s[j] == s.drop_last()[j] by {}
    }
}

/// Replace `base`, the path of the including file, by the path of the
/// included file `path`.
pub fn compute_include_path(base: &mut String, path: &str)
    ensures
        final(base)@ == spec_include_path(old(base)@, path@),
{
    let pc = crate::text::str_chars(path);
    if pc.len() > 0 && pc[0] == '/' {
        *base = str_to_string(path);
        return;
    }
    let bc = crate::text::str_chars(base.as_str());
    let ghost b = bc@;
    proof {
        lemma_last_slash(b);
    }
    let mut k = bc.len();
    while k > 0 && bc[k - 1] != '/'
        invariant
            bc@ == b,
            k <= b.len(),
            forall|j: int| k <= j < b.len() ==> b[j] != '/',
        decreases k,
    {
        k = k - 1;
    }
    let mut out: Vec<char> = Vec::new();
    if k > 0 {
        let mut j: usize = 0;
        while j < k
            invariant
                bc@ == b,
                k <= b.len(),
                j <= k,
                out@ == b.subrange(0, j as int),
            decreases k - j,
        {
            out.push(bc[j]);
            assert(b.subrange(0, j + 1) =~= b.subrange(0, j as int).push(b[j as int]));
            j = j + 1;
        }
    } else {
        out.push('.');
        out.push('/');
    }
    let ghost prefix = out@;
    let start: usize = if pc.len() >= 2 && pc[0] == '.' && pc[1] == '/' {
        2
    } else {
        0
    };
    let mut j = start;
    while j < pc.len()
        invariant
            start <= j <= pc@.len(),
            out@ == prefix + pc@.subrange(start as int, j as int),
        decreases pc@.len() - j,
    {
        out.push(pc[j]);
        assert(pc@.subrange(start as int, j + 1) =~= pc@.subrange(start as int, j as int).push(
            pc@[j as int],
        ));
        j = j + 1;
    }
    proof {
        if k > 0 {
            assert(b[k - 1] == '/');
            assert(last_slash(b) == Some(k - 1));
        } else {
            assert(last_slash(b) is None);
            assert(prefix =~= seq!['.', '/']);
        }
        if start == 0 {
            assert(pc@.subrange(0, pc@.len() as int) =~= pc@);
        }
    }
    *base = string_from_chars(out);
}

impl Compiler {
    /// Enter the file `path`, included from the current file (if any): push
    /// its path, computed from the current one; answers that path.
    pub fn push_file_path(&mut self, path: &str) -> (r: String)
        ensures
            r@ == spec_include_path(
                if old(self).paths().len() > 0 {
                    old(self).paths().last()
                } else {
                    Seq::empty()
                },
                path@,
            ),
            final(self).paths() == old(self).paths().push(r@),
            final(self).icode == old(self).icode,
            final(self).sym_table == old(self).sym_table,
    {
        let mut base = if self.current_file_path.len() > 0 {
            let last = self.current_file_path.len() - 1;
            str_to_string(self.current_file_path[last].as_str())
        } else {
            String::new()
        };
        compute_include_path(&mut base, path);
        let r = str_to_string(base.as_str());
        let ghost p0 = self.paths();
        self.current_file_path.push(base);
        assert(self.paths() =~= p0.push(r@));
        r
    }

    /// Leave the current file: pop its path.
    pub fn pop_file_path(&mut self) -> (r: Option<String>)
        ensures
            match r {
                Some(p) => old(self).paths().len() > 0 && p@ == old(self).paths().last()
                    && final(self).paths() == old(self).paths().drop_last(),
                None => old(self).paths().len() == 0 && final(self).paths() == old(self).paths(),
            },
            final(self).icode == old(self).icode,
            final(self).sym_table == old(self).sym_table,
    {
        let ghost p0 = self.paths();
        let r = self.current_file_path.pop();
        proof {
            if r is Some {
                assert(self.paths() =~= p0.drop_last());
            }
        }
        r
    }

    /// Start compiling the file `file_path`: enter its scope and its path.
    pub fn init(&mut self, file_path: &str) -> (r: CompileResult<()>)
        requires
            old(self).wf(),
        ensures
            r is Ok,
            final(self).wf(),
            final(self).icode == old(self).icode,
            final(self).sym_table.scopes() == old(self).sym_table.scopes().push(Seq::empty()),
            final(self).sym_table.stack() == old(self).sym_table.stack().push(
                old(self).sym_table.scopes().len() as usize,
            ),
            final(self).paths() == old(self).paths().push(
                spec_include_path(
                    if old(self).paths().len() > 0 {
                        old(self).paths().last()
                    } else {
                        Seq::empty()
                    },
                    file_path@,
                ),
            ),
    {
        self.sym_table.enter_scope();
        self.push_file_path(file_path);
        Ok(())
    }
}

// ---------------------------------------------------------------------------
// Linking
// ---------------------------------------------------------------------------

/// What an import brought in.
#[derive(Debug)]
pub struct Info {
    pub number_of_imported_global_methods: usize,
    pub number_of_imported_strings: usize,
    pub number_of_imported_instructions: usize,
}

/// Whether the instruction refers to a string by id.
pub open spec fn string_of(ins: Instr) -> Option<usize> {
    match ins {
        Instr::PushStr(id) => Some(id),
        Instr::RetStr(id) => Some(id),
        _ => None,
    }
}

/// Whether the instruction refers to an instruction by address.
pub open spec fn address_of(ins: Instr) -> Option<usize> {
    match ins {
        Instr::PushFuncAddr(a) => Some(a),
        Instr::RetFuncAddr(a) => Some(a),
        Instr::Jump { addr } => Some(addr),
        _ => None,
    }
}

/// The instruction moved `base` instructions further and with its string
/// id set to `id`.
pub open spec fn relocated(ins: Instr, base: int, id: int) -> Instr {
    match ins {
        Instr::PushStr(_) => Instr::PushStr(id as usize),
        Instr::RetStr(_) => Instr::RetStr(id as usize),
        Instr::PushFuncAddr(a) => Instr::PushFuncAddr((a + base) as usize),
        Instr::RetFuncAddr(a) => Instr::RetFuncAddr((a + base) as usize),
        Instr::Jump { addr } => Instr::Jump { addr: (addr + base) as usize },
        _ => ins,
    }
}

/// Importing the first `n` instructions of `src` (whose strings are in
/// `src_table`) into code with the string table `table` and `base`
/// instructions: the new string table, the translated instructions, and how
/// many strings were added.  A string is interned, in the order the
/// instructions refer to it; an address moves by `base`.
pub open spec fn import_scan(
    table: Seq<Seq<char>>,
    src_table: Seq<Seq<char>>,
    base: int,
    src: Seq<Instr>,
    n: int,
) -> (Seq<Seq<char>>, Seq<Instr>, nat)
    decreases n,
{
    if n <= 0 {
        (table, Seq::empty(), 0)
    } else {
        let (t, out, c) = import_scan(table, src_table, base, src, n - 1);
        let ins = src[n - 1];
        match string_of(ins) {
            Some(id) => {
                let s = src_table[id as int];
                (
                    interned(t, s),
                    out.push(relocated(ins, base, interned_id(t, s))),
                    c + if string_id(t, s) is None {
                        1nat
                    } else {
                        0nat
                    },
                )
            },
            None => (t, out.push(relocated(ins, base, 0)), c),
        }
    }
}

/// The functions of a global scope, latest first, as recorded by an import
/// into the scope `cur` of code `base` instructions long.
pub open spec fn imported_globals(entries: Seq<EntryModel>, base: int, cur: usize) -> Seq<
    EntryModel,
>
    decreases entries.len(),
{
    if entries.len() == 0 {
        Seq::empty()
    } else {
        let (name, m) = entries.last();
        let head = match m.typ {
            TypModel::Address { addr, ret_t } => seq![
                (
                    name,
                    InfoModel {
                        typ: TypModel::Address { addr: (addr + base) as usize, ret_t },
                        scope_id: cur,
                    },
                ),
            ],
            _ => Seq::empty(),
        };
        head + imported_globals(entries.drop_last(), base, cur)
    }
}

/// What an import of `source` into `target` needs: a global scope in the
/// source, string ids that exist, and addresses that stay within `usize`
/// once moved past the target's code.
pub open spec fn importable(target: &Compiler, source: &Compiler) -> bool {
    let base = target.instrs().len();
    &&& target.wf()
    &&& source.wf()
    &&& target.sym_table.has_current()
    &&& source.sym_table.scopes().len() > 0
    &&& forall|i: int|
        0 <= i < source.instrs().len() ==> string_in(#[trigger] source.instrs()[i], source.table().len())
    &&& forall|i: int|
        0 <= i < source.instrs().len() ==> moves_within(#[trigger] source.instrs()[i], base as int)
    &&& forall|j: int|
        0 <= j < source.sym_table.scopes()[0].len() ==> function_moves_within(
            #[trigger] source.sym_table.scopes()[0][j].1,
            base as int,
        )
}

/// The string the instruction refers to, if any, is in a table of `len`
/// strings.
pub open spec fn string_in(ins: Instr, len: nat) -> bool {
    match string_of(ins) {
        Some(id) => id < len,
        None => true,
    }
}

/// The address the instruction refers to, if any, stays within `usize`
/// once moved by `base`.
pub open spec fn moves_within(ins: Instr, base: int) -> bool {
    match address_of(ins) {
        Some(a) => a + base <= usize::MAX,
        None => true,
    }
}

/// The function the symbol is, if it is one, stays within `usize` once
/// moved by `base`.
pub open spec fn function_moves_within(m: InfoModel, base: int) -> bool {
    match m.typ {
        TypModel::Address { addr, .. } => addr + base <= usize::MAX,
        _ => true,
    }
}

proof fn lemma_imported_globals_prefix(entries: Seq<EntryModel>, base: int, cur: usize, k: int)
    requires
        0 <= k < entries.len(),
    ensures
        imported_globals(entries.subrange(entries.len() - 1 - k, entries.len() as int), base, cur)
            == imported_globals(
            entries.subrange(entries.len() - k, entries.len() as int),
            base,
            cur,
        ) + imported_globals(
            entries.subrange(entries.len() - 1 - k, entries.len() - k),
            base,
            cur,
        ),
    decreases k,
{
    let n = entries.len() as int;
    let whole = entries.subrange(n - 1 - k, n);
    let top = entries.subrange(n - k, n);
    let one = entries.subrange(n - 1 - k, n - k);
    if k == 0 {
        assert(top =~= Seq::<EntryModel>::empty());
        assert(whole =~= one);
    } else {
        lemma_imported_globals_prefix(entries, base, cur, k - 1);
        assert(whole.drop_last() =~= entries.subrange(n - 1 - k, n - 1));
        assert(top.drop_last() =~= entries.subrange(n - k, n - 1));
        let e2 = entries.drop_last();
        lemma_imported_globals_prefix(e2, base, cur, k - 1);
        assert(e2.subrange(e2.len() - 1 - (k - 1), e2.len() as int) =~= entries.subrange(
            n - 1 - k,
            n - 1,
        ));
        assert(e2.subrange(e2.len() - (k - 1), e2.len() as int) =~= entries.subrange(n - k, n - 1));
        assert(e2.subrange(e2.len() - 1 - (k - 1), e2.len() - (k - 1)) =~= one);
        assert(whole.last() == top.last());
    }
}

/// Import the compiled module `source` into `target`: its instructions are
/// appended (their strings interned in the target's table, their addresses
/// moved past the target's code), and the functions of its global scope are
/// recorded in the target's current scope.
pub fn import(target: &mut Compiler, source: &Compiler) -> (r: Info)
    requires
        importable(old(target), source),
    ensures
        final(target).wf(),
        final(target).current_file_path == old(target).current_file_path,
        final(target).sym_table.stack() == old(target).sym_table.stack(),
        ({
            let base = old(target).instrs().len() as int;
            let scan = import_scan(
                old(target).table(),
                source.table(),
                base,
                source.instrs(),
                source.instrs().len() as int,
            );
            let cur = current_id(old(target).sym_table.stack());
            &&& final(target).instrs() == old(target).instrs() + scan.1
            &&& final(target).table() == scan.0
            &&& r.number_of_imported_strings == scan.2
            &&& r.number_of_imported_instructions == source.instrs().len()
            &&& r.number_of_imported_global_methods == 0
            &&& final(target).sym_table.scopes() == old(target).sym_table.scopes().update(
                cur,
                old(target).sym_table.scopes()[cur] + imported_globals(
                    source.sym_table.scopes()[0],
                    base,
                    cur as usize,
                ),
            )
        }),
{
    let instrs = target.num_instrs();
    let ghost base = instrs as int;
    let ghost t0 = target.table();
    let ghost src_table = source.table();
    let ghost src = source.instrs();
    let ghost i0 = target.instrs();
    let mut number_of_imported_strings: usize = 0;
    let n = source.icode.instructions.len();
    let mut k: usize = 0;
    while k < n
        invariant
            importable(old(target), source),
            base == old(target).instrs().len(),
            instrs == base,
            t0 == old(target).table(),
            i0 == old(target).instrs(),
            src_table == source.table(),
            src == source.instrs(),
            n == src.len(),
            k <= n,
            target.wf(),
            target.sym_table == old(target).sym_table,
            target.current_file_path == old(target).current_file_path,
            target.table() == import_scan(t0, src_table, base, src, k as int).0,
            target.instrs() == i0 + import_scan(t0, src_table, base, src, k as int).1,
            number_of_imported_strings == import_scan(t0, src_table, base, src, k as int).2,
            number_of_imported_strings <= k,
        decreases n - k,
    {
        let ins = source.icode.instructions[k];
        assert(ins == src[k as int]);
        let ghost before = import_scan(t0, src_table, base, src, k as int);
        let translated = match ins {
            Instr::PushStr(id) | Instr::RetStr(id) => {
                assert(string_of(src[k as int]) == Some(id));
                assert(string_in(src[k as int], src_table.len()));
                assert(source.icode.strings@[id as int]@ == src_table[id as int]);
                let sstring = source.icode.strings[id].as_str();
                proof {
                    lemma_string_id(target.table(), sstring@);
                }
                let new_id = match target.get_string_id(sstring) {
                    Some(i) => i,
                    None => {
                        number_of_imported_strings = number_of_imported_strings + 1;
                        target.add_string(sstring)
                    },
                };
                match ins {
                    Instr::PushStr(_) => Instr::PushStr(new_id),
                    _ => Instr::RetStr(new_id),
                }
            },
            Instr::PushFuncAddr(a) => {
                assert(address_of(src[k as int]) == Some(a));
                assert(moves_within(src[k as int], base));
                Instr::PushFuncAddr(a + instrs)
            },
            Instr::RetFuncAddr(a) => {
                assert(address_of(src[k as int]) == Some(a));
                assert(moves_within(src[k as int], base));
                Instr::RetFuncAddr(a + instrs)
            },
            Instr::Jump { addr } => {
                assert(address_of(src[k as int]) == Some(addr));
                assert(moves_within(src[k as int], base));
                Instr::Jump { addr: addr + instrs }
            },
            other => other,
        };
        target.emit1(translated);
        k = k + 1;
    }
    let scope = match source.sym_table.get_scope(0) {
        Some(s) => s,
        None => {
            proof {
                assert(false);
            }
            return Info {
                number_of_imported_strings,
                number_of_imported_instructions: n,
                number_of_imported_global_methods: 0,
            };
        },
    };
    let ghost es = scope.entries();
    let ghost cur = current_id(target.sym_table.stack());
    let ghost sc0 = target.sym_table.scopes();
    let m = scope.len();
    let mut j: usize = 0;
    assert(es.subrange(m - 0, m as int) =~= Seq::<EntryModel>::empty());
    assert(sc0[cur] + Seq::<EntryModel>::empty() =~= sc0[cur]);
    assert(sc0.update(cur, sc0[cur]) =~= sc0);
    while j < m
        invariant
            importable(old(target), source),
            es == source.sym_table.scopes()[0],
            es == scope.entries(),
            m == es.len(),
            j <= m,
            instrs == old(target).instrs().len(),
            cur == current_id(old(target).sym_table.stack()),
            sc0 == old(target).sym_table.scopes(),
            target.wf(),
            target.sym_table.has_current(),
            target.sym_table.stack() == old(target).sym_table.stack(),
            target.current_file_path == old(target).current_file_path,
            target.instrs() == i0 + import_scan(t0, src_table, base, src, n as int).1,
            target.table() == import_scan(t0, src_table, base, src, n as int).0,
            target.sym_table.scopes() == sc0.update(
                cur,
                sc0[cur] + imported_globals(es.subrange(m - j, m as int), instrs as int, cur as usize),
            ),
        decreases m - j,
    {
        let (name, sid) = scope.symbol_rev(j);
        let info = sid.sym_info();
        proof {
            lemma_imported_globals_prefix(es, instrs as int, cur as usize, j as int);
            let one = es.subrange(m - 1 - j, m - j);
            assert(one.last() == es[m - 1 - j]);
            assert(one.drop_last() =~= Seq::<EntryModel>::empty());
        }
        let ghost sc1 = target.sym_table.scopes();
        match &info.typ {
            Typ::Address(a) => {
                assert(function_moves_within(es[m - 1 - j].1, instrs as int));
                target.sym_table.new_address(str_to_string(name), a.addr + instrs, &*a.ret_t);
                proof {
                    let one = es.subrange(m - 1 - j, m - j);
                    let g_new = imported_globals(one, instrs as int, cur as usize);
                    let g_old = imported_globals(
                        es.subrange(m - j, m as int),
                        instrs as int,
                        cur as usize,
                    );
                    assert(one.drop_last() =~= Seq::<EntryModel>::empty());
                    assert(imported_globals(one.drop_last(), instrs as int, cur as usize)
                        =~= Seq::<EntryModel>::empty());
                    assert(one.last() == es[m - 1 - j]);
                    assert(g_new.len() == 1);
                    assert(sc1[cur].push(target.sym_table.scopes()[cur].last()) =~= target.sym_table.scopes()[cur]);
                    assert(sc0[cur] + (g_old + g_new) =~= (sc0[cur] + g_old).push(g_new[0]));
                    assert(target.sym_table.scopes() =~= sc0.update(
                        cur,
                        sc0[cur] + imported_globals(
                            es.subrange(m - (j + 1), m as int),
                            instrs as int,
                            cur as usize,
                        ),
                    ));
                }
            },
            _ => {
                proof {
                    let one = es.subrange(m - 1 - j, m - j);
                    let g_new = imported_globals(one, instrs as int, cur as usize);
                    assert(one.drop_last() =~= Seq::<EntryModel>::empty());
                    assert(imported_globals(one.drop_last(), instrs as int, cur as usize)
                        =~= Seq::<EntryModel>::empty());
                    assert(one.last() == es[m - 1 - j]);
                    assert(g_new =~= Seq::<EntryModel>::empty());
                    let g_old = imported_globals(
                        es.subrange(m - j, m as int),
                        instrs as int,
                        cur as usize,
                    );
                    assert(g_old + g_new =~= g_old);
                }
            },
        }
        j = j + 1;
    }
    assert(es.subrange(m - m, m as int) =~= es);
    Info {
        number_of_imported_strings,
        number_of_imported_instructions: n,
        number_of_imported_global_methods: 0,
    }
}

// ---------------------------------------------------------------------------
// Static types, string lookups, includes
// ---------------------------------------------------------------------------

/// A static type (of which there is, for now, only one value).
#[derive(Debug, Clone, Copy, PartialEq, Eq, Structural)]
pub struct Type {}

impl Type {
    /// The type of any value.
    pub fn any() -> (r: Self)
        ensures
            r == (Type {}),
    {
        Type {}
    }

    /// The type of a process handle.
    pub fn process_handle() -> (r: Self)
        ensures
            r == (Type {}),
    {
        Type {}
    }
}

/// Looking up strings in compiled code.
pub trait VmICodeRef {
    /// The string table.
    spec fn string_table(&self) -> Seq<Seq<char>>;

    /// The id of the string `s`, if it is in the table.
    fn get_string_id(&self, s: &str) -> (r: Option<usize>)
        requires
            no_duplicates(self.string_table()),
        ensures
            match string_id(self.string_table(), s@) {
                Some(i) => r matches Some(j) && j == i,
                None => r is None,
            },
    ;
}

impl VmICodeRef for ICode {
    open spec fn string_table(&self) -> Seq<Seq<char>> {
        self.table()
    }

    fn get_string_id(&self, s: &str) -> (r: Option<usize>) {
        get_string_id(&self.strings, s)
    }
}

/// Including files into the program being compiled.
pub trait IncludeExt: Sized {
    /// Whether a file is being included: the compiler is well formed, has a
    /// current scope and a current file.
    spec fn including(&self) -> bool;

    /// Bind `ident` to the text `input` of the included file, whose path
    /// was entered with `push_file_path`: the text becomes a string literal
    /// and the file is left.
    fn include_text(&mut self, ident: &str, input: &str) -> CompileResult<SymInfo>
        requires
            old(self).including(),
    ;
}

impl IncludeExt for Compiler {
    open spec fn including(&self) -> bool {
        self.wf() && self.sym_table.has_current() && self.paths().len() > 0
    }

    fn include_text(&mut self, ident: &str, input: &str) -> (r: CompileResult<SymInfo>)
        ensures
            final(self).wf(),
            final(self).instrs() == old(self).instrs(),
            final(self).table() == interned(old(self).table(), input@),
            final(self).paths() == old(self).paths().drop_last(),
            r matches Ok(x) && x@ == (InfoModel {
                typ: TypModel::Literal {
                    id: interned_id(old(self).table(), input@) as usize,
                    lit_type: LitType::String,
                },
                scope_id: 0,
            }),
            final(self).sym_table.stack() == old(self).sym_table.stack(),
            final(self).sym_table.scopes() == old(self).sym_table.scopes().update(
                current_id(old(self).sym_table.stack()),
                old(self).sym_table.scopes()[current_id(old(self).sym_table.stack())].push(
                    (
                        ident@,
                        InfoModel {
                            scope_id: current_id(old(self).sym_table.stack()) as usize,
                            ..crate::symbol_info::aliased_model(
                                (InfoModel {
                                    typ: TypModel::Literal {
                                        id: interned_id(old(self).table(), input@) as usize,
                                        lit_type: LitType::String,
                                    },
                                    scope_id: 0,
                                }),
                            )
                        },
                    ),
                ),
            ),
    {
        let compiled = self.compile_text(input);
        self.pop_file_path();
        let sinfo = match compiled {
            Ok(s) => s,
            Err(e) => {
                return Err(e);
            },
        };
        self.sym_table.alias_in_scope(&sinfo, str_to_string(ident));
        Ok(sinfo)
    }
}

// ---------------------------------------------------------------------------
// Compiling literals
// ---------------------------------------------------------------------------

/// The number of `#` bytes of `b` from `i` on, before anything else.
pub open spec fn hashes_from(b: Seq<u8>, i: int) -> nat
    decreases b.len() - i,
{
    if 0 <= i < b.len() && b[i] == 0x23 {
        1 + hashes_from(b, i + 1)
    } else {
        0
    }
}

/// The bytes of a string literal's text within it: inside `r#"…"#` (with
/// as many `#` on each side), inside `"…"`, or all of it.
pub open spec fn unquoted_span(b: Seq<u8>) -> (int, int) {
    if b.len() > 0 && b[0] == 0x72 {
        let h = hashes_from(b, 1) as int;
        (1 + h + 1, b.len() - 1 - h)
    } else if b.len() > 0 && b[0] == 0x22 {
        (1, b.len() - 1)
    } else {
        (0, b.len() as int)
    }
}

/// Whether the text of a string literal can be cut out of it: its span is
/// in order, within it, and on character boundaries.
pub open spec fn unquotable(b: Seq<u8>) -> bool {
    let (s, e) = unquoted_span(b);
    &&& 0 <= s <= e <= b.len()
    &&& vstd::utf8::is_char_boundary(b, s)
    &&& vstd::utf8::is_char_boundary(b, e)
}

/// The characters of the text of a string literal.
pub open spec fn unquoted(b: Seq<u8>) -> Seq<char> {
    let (s, e) = unquoted_span(b);
    vstd::utf8::decode_utf8(b.subrange(s, e))
}

/// The compilers of the pieces of a program.
pub struct CompilersImpl;

impl CompilersImpl {
    /// A natural number literal.
    pub fn natural(compiler: &mut Compiler, n: ast::Natural) -> (r: CompileResult<SymInfo>)
        ensures
            *final(compiler) == *old(compiler),
            match spec_parse_usize(n.0.0@) {
                Some(v) => r matches Ok(x) && x@ == (InfoModel {
                    typ: TypModel::Literal { id: v, lit_type: LitType::Natural },
                    scope_id: 0,
                }),
                None => r is Err,
            },
    {
        compiler.compile_natural(n.0.0)
    }

    /// A string literal: its text, without quotes, becomes a string literal.
    pub fn string(compiler: &mut Compiler, s: ast::StringLit) -> (r: CompileResult<SymInfo>)
        requires
            old(compiler).wf(),
            unquotable(s.0.0.spec_bytes()),
        ensures
            final(compiler).wf(),
            final(compiler).table() == interned(old(compiler).table(), unquoted(s.0.0.spec_bytes())),
            final(compiler).instrs() == old(compiler).instrs(),
            final(compiler).sym_table == old(compiler).sym_table,
            final(compiler).current_file_path == old(compiler).current_file_path,
            r matches Ok(x) && x@ == (InfoModel {
                typ: TypModel::Literal {
                    id: interned_id(old(compiler).table(), unquoted(s.0.0.spec_bytes())) as usize,
                    lit_type: LitType::String,
                },
                scope_id: 0,
            }),
    {
        let text = s.0.0;
        let b = text.as_bytes();
        let ghost bb = b@;
        let n = b.len();
        let (start, end) = if n > 0 && b[0] == 0x72 {
            let mut h: usize = 0;
            while 1 + h < n && b[1 + h] == 0x23
                invariant
                    bb == b@,
                    n == bb.len(),
                    1 + h <= n,
                    hashes_from(bb, 1) == h + hashes_from(bb, 1 + h),
                decreases n - h,
            {
                h = h + 1;
            }
            proof {
                assert(hashes_from(bb, 1 + h) == 0);
            }
            (1 + h + 1, n - 1 - h)
        } else if n > 0 && b[0] == 0x22 {
            (1, n - 1)
        } else {
            (0, n)
        };
        let t = crate::lexer::str_slice(text, start, end);
        proof {
            vstd::utf8::encode_utf8_decode_utf8(t@);
        }
        compiler.compile_text(t)
    }

    /// A path: its text becomes a string literal.
    pub fn path(compiler: &mut Compiler, path: ast::Path) -> (r: CompileResult<SymInfo>)
        requires
            old(compiler).wf(),
        ensures
            final(compiler).wf(),
            final(compiler).instrs() == old(compiler).instrs(),
            final(compiler).sym_table == old(compiler).sym_table,
            final(compiler).current_file_path == old(compiler).current_file_path,
            ({
                let p = match path {
                    ast::Path::AbsPath(ast::AbsPath((p,))) => p,
                    ast::Path::RelPath(ast::RelPath((p,))) => p,
                    ast::Path::HomePath(ast::HomePath((p,))) => p,
                };
                &&& final(compiler).table() == interned(old(compiler).table(), p@)
                &&& r matches Ok(x) && x@ == (InfoModel {
                    typ: TypModel::Literal {
                        id: interned_id(old(compiler).table(), p@) as usize,
                        lit_type: LitType::String,
                    },
                    scope_id: 0,
                })
            }),
    {
        let p = match path {
            ast::Path::AbsPath(ast::AbsPath((p,))) => p,
            ast::Path::RelPath(ast::RelPath((p,))) => p,
            ast::Path::HomePath(ast::HomePath((p,))) => p,
        };
        compiler.compile_text(p)
    }

    /// An option: its text becomes a string literal.
    pub fn invocation_option(compiler: &mut Compiler, opt: ast::Opt) -> (r: CompileResult<SymInfo>)
        requires
            old(compiler).wf(),
        ensures
            final(compiler).wf(),
            final(compiler).instrs() == old(compiler).instrs(),
            final(compiler).sym_table == old(compiler).sym_table,
            final(compiler).current_file_path == old(compiler).current_file_path,
            ({
                let a = match opt {
                    ast::Opt::LongOpt(ast::LongOpt((a,))) => a,
                    ast::Opt::ShortOpt(ast::ShortOpt((a,))) => a,
                };
                &&& final(compiler).table() == interned(old(compiler).table(), a@)
                &&& r matches Ok(x) && x@ == (InfoModel {
                    typ: TypModel::Literal {
                        id: interned_id(old(compiler).table(), a@) as usize,
                        lit_type: LitType::String,
                    },
                    scope_id: 0,
                })
            }),
    {
        let a = match opt {
            ast::Opt::LongOpt(ast::LongOpt((a,))) => a,
            ast::Opt::ShortOpt(ast::ShortOpt((a,))) => a,
        };
        compiler.compile_text(a)
    }
}

/// Compiling a piece of a program into a symbol.
pub trait Compile<T>: Sized {
    /// Whether the piece can be compiled by this compiler.
    spec fn compilable(&self, node: T) -> bool;

    /// Compile the piece.
    fn compile(&mut self, node: T) -> CompileResult<SymInfo>
        requires
            old(self).compilable(node),
    ;
}

impl<'i> Compile<ast::Natural<'i>> for Compiler {
    open spec fn compilable(&self, node: ast::Natural<'i>) -> bool {
        true
    }

    fn compile(&mut self, node: ast::Natural<'i>) -> (r: CompileResult<SymInfo>)
        ensures
            *final(self) == *old(self),
            match spec_parse_usize(node.0.0@) {
                Some(v) => r matches Ok(x) && x@ == (InfoModel {
                    typ: TypModel::Literal { id: v, lit_type: LitType::Natural },
                    scope_id: 0,
                }),
                None => r is Err,
            },
    {
        CompilersImpl::natural(self, node)
    }
}

impl<'i> Compile<ast::StringLit<'i>> for Compiler {
    open spec fn compilable(&self, node: ast::StringLit<'i>) -> bool {
        self.wf() && unquotable(node.0.0.spec_bytes())
    }

    fn compile(&mut self, node: ast::StringLit<'i>) -> (r: CompileResult<SymInfo>)
        ensures
            final(self).wf(),
            final(self).table() == interned(old(self).table(), unquoted(node.0.0.spec_bytes())),
            final(self).instrs() == old(self).instrs(),
            final(self).sym_table == old(self).sym_table,
            final(self).current_file_path == old(self).current_file_path,
            r matches Ok(x) && x@ == (InfoModel {
                typ: TypModel::Literal {
                    id: interned_id(old(self).table(), unquoted(node.0.0.spec_bytes())) as usize,
                    lit_type: LitType::String,
                },
                scope_id: 0,
            }),
    {
        CompilersImpl::string(self, node)
    }
}

impl<'i> Compile<ast::Path<'i>> for Compiler {
    open spec fn compilable(&self, node: ast::Path<'i>) -> bool {
        self.wf()
    }

    fn compile(&mut self, node: ast::Path<'i>) -> (r: CompileResult<SymInfo>)
        ensures
            final(self).wf(),
            final(self).instrs() == old(self).instrs(),
            final(self).sym_table == old(self).sym_table,
            final(self).current_file_path == old(self).current_file_path,
            ({
                let p = match node {
                    ast::Path::AbsPath(ast::AbsPath((p,))) => p,
                    ast::Path::RelPath(ast::RelPath((p,))) => p,
                    ast::Path::HomePath(ast::HomePath((p,))) => p,
                };
                &&& final(self).table() == interned(old(self).table(), p@)
                &&& r matches Ok(x) && x@ == (InfoModel {
                    typ: TypModel::Literal {
                        id: interned_id(old(self).table(), p@) as usize,
                        lit_type: LitType::String,
                    },
                    scope_id: 0,
                })
            }),
    {
        CompilersImpl::path(self, node)
    }
}

impl<'i> Compile<ast::Opt<'i>> for Compiler {
    open spec fn compilable(&self, node: ast::Opt<'i>) -> bool {
        self.wf()
    }

    fn compile(&mut self, node: ast::Opt<'i>) -> (r: CompileResult<SymInfo>)
        ensures
            final(self).wf(),
            final(self).instrs() == old(self).instrs(),
            final(self).sym_table == old(self).sym_table,
            final(self).current_file_path == old(self).current_file_path,
            ({
                let a = match node {
                    ast::Opt::LongOpt(ast::LongOpt((a,))) => a,
                    ast::Opt::ShortOpt(ast::ShortOpt((a,))) => a,
                };
                &&& final(self).table() == interned(old(self).table(), a@)
                &&& r matches Ok(x) && x@ == (InfoModel {
                    typ: TypModel::Literal {
                        id: interned_id(old(self).table(), a@) as usize,
                        lit_type: LitType::String,
                    },
                    scope_id: 0,
                })
            }),
    {
        CompilersImpl::invocation_option(self, node)
    }
}

/// An invocation of the function `func_name` with the arguments of the
/// running function (`func_name $args`).
pub fn make_forward_invocation<'a>(func_name: &'a str) -> (r: ast::Invocation<'a>)
    ensures
        r.0.0@.len() == 0,
        r.0.1 matches ast::InvocationTarget::InvocationTargetLocal(
            ast::InvocationTargetLocal((n,)),
        ) && n == func_name,
        r.0.2 is None,
        r.0.3@.len() == 0,
        r.0.4@.len() == 0,
        r.0.5@.len() == 0,
        r.0.6@.len() == 1,
        r.0.6@[0] matches ast::InvocationArg::Variable(ast::Variable((v,))) && v@ == "args"@,
{
    let mut args: Vec<ast::InvocationArg<'a>> = Vec::new();
    args.push(ast::InvocationArg::Variable(ast::Variable(("args",))));
    ast::Invocation(
        (
            Vec::new(),
            ast::InvocationTarget::InvocationTargetLocal(ast::InvocationTargetLocal((func_name,))),
            None,
            Vec::new(),
            Vec::new(),
            Vec::new(),
            args,
        ),
    )
}

} // verus!
