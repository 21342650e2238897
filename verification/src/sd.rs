//! Symbol information as bytes: a symbol is its type then its scope; a
//! type is a code (0 for a local, 1 for a function, 2 for a literal) then
//! its fields; a kind of literal is one code byte.
use vstd::prelude::*;
use crate::sd2::{be64, from_be64, lemma_be64_roundtrip, push_be64, read_be64, ReadError, ReadIn, WriteOut};
use crate::symbol_info::{
    Address, Info, InfoModel, LitType, Literal, Local, Typ, TypModel, infos_model, info_model,
};

verus! {

broadcast use vstd::std_specs::vec::group_vec_axioms;

/// The code of a kind of literal.
pub open spec fn lit_code(t: LitType) -> u8 {
    match t {
        LitType::Null => 0,
        LitType::String => 1,
        LitType::Natural => 2,
        LitType::Syscall => 3,
        LitType::Args => 4,
    }
}

/// The kind of literal of a code, if it is one.
pub open spec fn lit_of_code(c: u8) -> Option<LitType> {
    if c == 0 {
        Some(LitType::Null)
    } else if c == 1 {
        Some(LitType::String)
    } else if c == 2 {
        Some(LitType::Natural)
    } else if c == 3 {
        Some(LitType::Syscall)
    } else if c == 4 {
        Some(LitType::Args)
    } else {
        None
    }
}

/// The byte of a flag: 0 for true.
pub open spec fn flag_byte(b: bool) -> u8 {
    if b {
        0
    } else {
        1
    }
}

/// The bytes of a symbol: its type, then its scope.
pub open spec fn info_encoding(m: InfoModel) -> Seq<u8>
    decreases m,
{
    typ_encoding(m.typ) + be64(m.scope_id as u64)
}

/// The bytes of a symbol type: its code, then its fields in order.
pub open spec fn typ_encoding(t: TypModel) -> Seq<u8>
    decreases t,
{
    match t {
        TypModel::Local { fp_off, is_alias, types } => seq![0u8] + be64(fp_off as u64) + seq![
            flag_byte(is_alias),
        ] + be64(types.len() as u64) + infos_encoding(types),
        TypModel::Address { addr, ret_t } => seq![1u8] + be64(addr as u64) + info_encoding(*ret_t),
        TypModel::Literal { id, lit_type } => seq![2u8, lit_code(lit_type)] + be64(id as u64),
    }
}

/// The bytes of symbols, one after the other.
pub open spec fn infos_encoding(ts: Seq<InfoModel>) -> Seq<u8>
    decreases ts,
{
    if ts.len() == 0 {
        Seq::empty()
    } else {
        info_encoding(ts[0]) + infos_encoding(ts.subrange(1, ts.len() as int))
    }
}

/// The number in the eight bytes of `b` from `at` on, when they are there
/// and it fits in a `usize`.
pub open spec fn usize_at(b: Seq<u8>, at: int) -> Option<usize> {
    if 0 <= at && at + 8 <= b.len() && from_be64(b.subrange(at, b.len() as int)) <= usize::MAX {
        Some(from_be64(b.subrange(at, b.len() as int)) as usize)
    } else {
        None
    }
}

/// The symbol at the start of `b`, and how many bytes it takes.
pub open spec fn info_decoding(b: Seq<u8>) -> Option<(InfoModel, nat)>
    decreases b.len(), 0nat,
{
    if b.len() == 0 {
        None
    } else if b[0] == 0 {
        match (usize_at(b, 1), usize_at(b, 10)) {
            (Some(fp_off), Some(count)) => match infos_decoding(
                b.subrange(18, b.len() as int),
                count as nat,
            ) {
                Some((types, n)) => match usize_at(b, 18 + n as int) {
                    Some(scope_id) => Some(
                        (
                            InfoModel {
                                typ: TypModel::Local { fp_off, is_alias: b[9] == 0, types },
                                scope_id,
                            },
                            18 + n + 8,
                        ),
                    ),
                    None => None,
                },
                None => None,
            },
            _ => None,
        }
    } else if b[0] == 1 {
        match usize_at(b, 1) {
            Some(addr) => if b.len() >= 9 {
                match info_decoding(b.subrange(9, b.len() as int)) {
                    Some((ret, n)) => match usize_at(b, 9 + n as int) {
                        Some(scope_id) => Some(
                            (
                                InfoModel {
                                    typ: TypModel::Address { addr, ret_t: Box::new(ret) },
                                    scope_id,
                                },
                                9 + n + 8,
                            ),
                        ),
                        None => None,
                    },
                    None => None,
                }
            } else {
                None
            },
            None => None,
        }
    } else if b[0] == 2 && b.len() >= 2 {
        match (lit_of_code(b[1]), usize_at(b, 2), usize_at(b, 10)) {
            (Some(lit_type), Some(id), Some(scope_id)) => Some(
                (InfoModel { typ: TypModel::Literal { id, lit_type }, scope_id }, 18),
            ),
            _ => None,
        }
    } else {
        None
    }
}

/// `count` symbols one after the other at the start of `b`, and how many
/// bytes they take.
pub open spec fn infos_decoding(b: Seq<u8>, count: nat) -> Option<(Seq<InfoModel>, nat)>
    decreases b.len(), 1nat, count,
{
    if count == 0 {
        Some((Seq::empty(), 0))
    } else {
        match info_decoding(b) {
            Some((v, m)) => if 0 < m <= b.len() {
                match infos_decoding(b.subrange(m as int, b.len() as int), (count - 1) as nat) {
                    Some((vs, n)) => Some((seq![v] + vs, m + n)),
                    None => None,
                }
            } else {
                None
            },
            None => None,
        }
    }
}

proof fn lemma_infos_encoding_push(a: Seq<InfoModel>, x: InfoModel)
    ensures
        infos_encoding(a.push(x)) == infos_encoding(a) + info_encoding(x),
    decreases a.len(),
{
    if a.len() == 0 {
        assert(a.push(x).subrange(1, 1) =~= Seq::<InfoModel>::empty());
        assert(infos_encoding(a.push(x).subrange(1, 1)) == Seq::<u8>::empty());
        assert(a.push(x)[0] == x);
        assert(infos_encoding(a.push(x)) =~= info_encoding(x));
    } else {
        assert(a.push(x).subrange(1, a.len() as int + 1) =~= a.subrange(1, a.len() as int).push(x));
        lemma_infos_encoding_push(a.subrange(1, a.len() as int), x);
        assert(infos_encoding(a.push(x)) =~= infos_encoding(a) + info_encoding(x));
    }
}

fn write_info(info: &Info, dst: &mut Vec<u8>)
    ensures
        final(dst)@ == old(dst)@ + info_encoding(info@),
    decreases info,
{
    write_typ(&info.typ, dst);
    push_be64(dst, info.scope_id as u64);
    assert(dst@ =~= old(dst)@ + info_encoding(info@));
}

fn write_local(l: &Local, dst: &mut Vec<u8>)
    ensures
        final(dst)@ == old(dst)@ + typ_encoding(TypModel::Local {
            fp_off: l.fp_off,
            is_alias: l.is_alias,
            types: infos_model(l.types@),
        }),
    decreases l,
{
    let ghost d0 = dst@;
    let ghost ms = infos_model(l.types@);
    dst.push(0u8);
    push_be64(dst, l.fp_off as u64);
    dst.push(if l.is_alias { 0u8 } else { 1u8 });
    push_be64(dst, l.types.len() as u64);
    let ghost d1 = dst@;
    let mut k: usize = 0;
    while k < l.types.len()
        invariant
            k <= l.types@.len(),
            ms == infos_model(l.types@),
            dst@ == d1 + infos_encoding(ms.take(k as int)),
        decreases l.types@.len() - k,
    {
        proof {
            assert(ms.take(k + 1) =~= ms.take(k as int).push(ms[k as int]));
            lemma_infos_encoding_push(ms.take(k as int), ms[k as int]);
            assert(ms[k as int] == info_model(&l.types@[k as int]));
        }
        write_info(&l.types[k], dst);
        k = k + 1;
    }
    assert(ms.take(ms.len() as int) =~= ms);
    assert(dst@ =~= d0 + typ_encoding(TypModel::Local {
        fp_off: l.fp_off,
        is_alias: l.is_alias,
        types: ms,
    }));
}

fn write_typ(t: &Typ, dst: &mut Vec<u8>)
    ensures
        final(dst)@ == old(dst)@ + typ_encoding(t@),
    decreases t,
{
    match t {
        Typ::Local(l) => write_local(l, dst),
        Typ::Address(a) => {
            dst.push(1u8);
            push_be64(dst, a.addr as u64);
            write_info(&a.ret_t, dst);
        },
        Typ::Literal(l) => {
            dst.push(2u8);
            let code: u8 = match l.lit_type {
                LitType::Null => 0,
                LitType::String => 1,
                LitType::Natural => 2,
                LitType::Syscall => 3,
                LitType::Args => 4,
            };
            dst.push(code);
            push_be64(dst, l.id as u64);
        },
    }
    assert(dst@ =~= old(dst)@ + typ_encoding(t@));
}

impl WriteOut for Info {
    open spec fn encoding(v: InfoModel) -> Seq<u8> {
        info_encoding(v)
    }

    fn write_out(&self, dst: &mut Vec<u8>) {
        write_info(self, dst);
    }
}

proof fn lemma_usize_at_shift(s: Seq<u8>, pos: int, off: int)
    requires
        0 <= pos <= s.len(),
        0 <= off,
    ensures
        usize_at(s.subrange(pos, s.len() as int), off) == usize_at(s, pos + off),
{
    let b = s.subrange(pos, s.len() as int);
    if off + 8 <= b.len() {
        assert(b.subrange(off, b.len() as int) =~= s.subrange(pos + off, s.len() as int));
    }
}

fn usize_in(inp: &[u8], at: usize) -> (r: Option<usize>)
    ensures
        r == usize_at(inp@, at as int),
{
    if at > inp.len() || inp.len() - at < 8 {
        return None;
    }
    let v = read_be64(inp, at);
    if v > usize::MAX as u64 {
        None
    } else {
        Some(v as usize)
    }
}

fn read_info(inp: &[u8], pos: usize) -> (r: Result<(Info, usize), ReadError>)
    requires
        pos <= inp@.len(),
    ensures
        match info_decoding(inp@.subrange(pos as int, inp@.len() as int)) {
            Some((m, n)) => r matches Ok((x, p)) && x@ == m && p == pos + n,
            None => r is Err,
        },
    decreases inp@.len() - pos, 0int, 1int,
{
    let ghost b = inp@.subrange(pos as int, inp@.len() as int);
    if pos == inp.len() {
        return Err(ReadError::UnexpectedEof);
    }
    let code = inp[pos];
    assert(b[0] == code);
    if code == 0 {
        read_local(inp, pos)
    } else if code == 1 {
        read_address(inp, pos)
    } else if code == 2 {
        read_literal(inp, pos)
    } else {
        Err(ReadError::UnexpectedEof)
    }
}

fn read_local(inp: &[u8], pos: usize) -> (r: Result<(Info, usize), ReadError>)
    requires
        pos < inp@.len(),
        inp@[pos as int] == 0,
    ensures
        match info_decoding(inp@.subrange(pos as int, inp@.len() as int)) {
            Some((m, n)) => r matches Ok((x, p)) && x@ == m && p == pos + n,
            None => r is Err,
        },
    decreases inp@.len() - pos, 0int, 0int,
{
    let ghost b = inp@.subrange(pos as int, inp@.len() as int);
    assert(b[0] == 0);
    if inp.len() - pos < 18 {
        return Err(ReadError::UnexpectedEof);
    }
    proof {
        lemma_usize_at_shift(inp@, pos as int, 1);
        lemma_usize_at_shift(inp@, pos as int, 10);
    }
    let fp_off = match usize_in(inp, pos + 1) {
        Some(v) => v,
        None => {
            return Err(ReadError::UnexpectedEof);
        },
    };
    let count = match usize_in(inp, pos + 10) {
        Some(v) => v,
        None => {
            return Err(ReadError::UnexpectedEof);
        },
    };
    let is_alias = inp[pos + 9] == 0;
    assert(b[9] == inp@[pos + 9]);
    assert(b.subrange(18, b.len() as int) =~= inp@.subrange(pos + 18, inp@.len() as int));
    let (types, p) = match read_infos(inp, pos + 18, count) {
        Ok(x) => x,
        Err(e) => {
            return Err(e);
        },
    };
    proof {
        lemma_usize_at_shift(inp@, pos as int, p - pos);
    }
    let scope_id = match usize_in(inp, p) {
        Some(v) => v,
        None => {
            return Err(ReadError::UnexpectedEof);
        },
    };
    let info = Info { typ: Typ::Local(Local { fp_off, is_alias, types }), scope_id };
    Ok((info, p + 8))
}

fn read_address(inp: &[u8], pos: usize) -> (r: Result<(Info, usize), ReadError>)
    requires
        pos < inp@.len(),
        inp@[pos as int] == 1,
    ensures
        match info_decoding(inp@.subrange(pos as int, inp@.len() as int)) {
            Some((m, n)) => r matches Ok((x, p)) && x@ == m && p == pos + n,
            None => r is Err,
        },
    decreases inp@.len() - pos, 0int, 0int,
{
    let ghost b = inp@.subrange(pos as int, inp@.len() as int);
    assert(b[0] == 1);
    if inp.len() - pos < 9 {
        return Err(ReadError::UnexpectedEof);
    }
    proof {
        lemma_usize_at_shift(inp@, pos as int, 1);
    }
    let addr = match usize_in(inp, pos + 1) {
        Some(v) => v,
        None => {
            return Err(ReadError::UnexpectedEof);
        },
    };
    assert(b.subrange(9, b.len() as int) =~= inp@.subrange(pos + 9, inp@.len() as int));
    let (ret, p) = match read_info(inp, pos + 9) {
        Ok(x) => x,
        Err(e) => {
            return Err(e);
        },
    };
    proof {
        lemma_usize_at_shift(inp@, pos as int, p - pos);
    }
    let scope_id = match usize_in(inp, p) {
        Some(v) => v,
        None => {
            return Err(ReadError::UnexpectedEof);
        },
    };
    let info = Info { typ: Typ::Address(Address { addr, ret_t: Box::new(ret) }), scope_id };
    Ok((info, p + 8))
}

fn read_literal(inp: &[u8], pos: usize) -> (r: Result<(Info, usize), ReadError>)
    requires
        pos < inp@.len(),
        inp@[pos as int] == 2,
    ensures
        match info_decoding(inp@.subrange(pos as int, inp@.len() as int)) {
            Some((m, n)) => r matches Ok((x, p)) && x@ == m && p == pos + n,
            None => r is Err,
        },
{
    let ghost b = inp@.subrange(pos as int, inp@.len() as int);
    assert(b[0] == 2);
    if inp.len() - pos < 18 {
        return Err(ReadError::UnexpectedEof);
    }
    proof {
        lemma_usize_at_shift(inp@, pos as int, 2);
        lemma_usize_at_shift(inp@, pos as int, 10);
    }
    let c = inp[pos + 1];
    assert(b[1] == c);
    let lit_type = if c == 0 {
        LitType::Null
    } else if c == 1 {
        LitType::String
    } else if c == 2 {
        LitType::Natural
    } else if c == 3 {
        LitType::Syscall
    } else if c == 4 {
        LitType::Args
    } else {
        return Err(ReadError::UnexpectedEof);
    };
    let id = match usize_in(inp, pos + 2) {
        Some(v) => v,
        None => {
            return Err(ReadError::UnexpectedEof);
        },
    };
    let scope_id = match usize_in(inp, pos + 10) {
        Some(v) => v,
        None => {
            return Err(ReadError::UnexpectedEof);
        },
    };
    Ok((Info { typ: Typ::Literal(Literal { id, lit_type }), scope_id }, pos + 18))
}

fn read_infos(inp: &[u8], pos: usize, count: usize) -> (r: Result<(Vec<Info>, usize), ReadError>)
    requires
        pos <= inp@.len(),
    ensures
        match infos_decoding(inp@.subrange(pos as int, inp@.len() as int), count as nat) {
            Some((ms, n)) => r matches Ok((xs, p)) && infos_model(xs@) == ms && p == pos + n,
            None => r is Err,
        },
    decreases inp@.len() - pos, 1int, 0int,
{
    let ghost b0 = inp@.subrange(pos as int, inp@.len() as int);
    let mut items: Vec<Info> = Vec::new();
    let mut p = pos;
    let mut k: usize = 0;
    assert(infos_model(items@) =~= Seq::<InfoModel>::empty());
    while k < count
        invariant
            pos <= p <= inp@.len(),
            k <= count,
            b0 == inp@.subrange(pos as int, inp@.len() as int),
            infos_decoding(b0, count as nat) == match infos_decoding(
                inp@.subrange(p as int, inp@.len() as int),
                (count - k) as nat,
            ) {
                Some((vs, n)) => Some((infos_model(items@) + vs, ((p - pos) + n) as nat)),
                None => None,
            },
        decreases count - k,
    {
        let ghost sp = inp@.subrange(p as int, inp@.len() as int);
        let (x, q) = match read_info(inp, p) {
            Ok(v) => v,
            Err(e) => {
                return Err(e);
            },
        };
        if q <= p || q > inp.len() {
            return Err(ReadError::UnexpectedEof);
        }
        assert(sp.subrange((q - p) as int, sp.len() as int) =~= inp@.subrange(q as int, inp@.len() as int));
        let ghost before = items@;
        items.push(x);
        proof {
            assert(infos_model(items@) =~= infos_model(before).push(x@));
            match infos_decoding(inp@.subrange(q as int, inp@.len() as int), (count - k - 1) as nat) {
                Some((vs, n)) => {
                    assert(infos_model(before) + (seq![x@] + vs) =~= infos_model(items@) + vs);
                },
                None => {},
            }
        }
        p = q;
        k = k + 1;
    }
    assert(infos_model(items@) + Seq::<InfoModel>::empty() =~= infos_model(items@));
    Ok((items, p))
}

impl ReadIn for Info {
    open spec fn decoding(bytes: Seq<u8>) -> Option<(InfoModel, nat)> {
        info_decoding(bytes)
    }

    fn read_in(inp: &[u8], pos: usize) -> (r: Result<(Info, usize), ReadError>) {
        read_info(inp, pos)
    }
}

/// Every sequence of types in the symbol has a length that fits in a
/// `usize`, as it does for symbol information held in memory.
pub open spec fn info_fits(m: InfoModel) -> bool
    decreases m,
{
    match m.typ {
        TypModel::Local { types, .. } => types.len() <= usize::MAX && infos_fit(types),
        TypModel::Address { ret_t, .. } => info_fits(*ret_t),
        TypModel::Literal { .. } => true,
    }
}

/// Every symbol of the sequence fits.
pub open spec fn infos_fit(ts: Seq<InfoModel>) -> bool
    decreases ts,
{
    ts.len() == 0 || (info_fits(ts[0]) && infos_fit(ts.subrange(1, ts.len() as int)))
}

proof fn lemma_usize_roundtrip(x: usize, pre: Seq<u8>, rest: Seq<u8>)
    ensures
        usize_at(pre + be64(x as u64) + rest, pre.len() as int) == Some(x),
{
    let all = pre + be64(x as u64) + rest;
    lemma_be64_roundtrip(x as u64, rest);
    assert(all.subrange(pre.len() as int, all.len() as int) =~= be64(x as u64) + rest);
}

/// Reading back a symbol written out gives it again, whatever follows.
pub proof fn law_info_roundtrip(m: InfoModel, rest: Seq<u8>)
    requires
        info_fits(m),
    ensures
        <Info as ReadIn>::decoding(<Info as WriteOut>::encoding(m) + rest) == Some(
            (m, <Info as WriteOut>::encoding(m).len()),
        ),
    decreases m, 1int,
{
    match m.typ {
        TypModel::Local { .. } => lemma_local_roundtrip(m, rest),
        TypModel::Address { .. } => lemma_address_roundtrip(m, rest),
        TypModel::Literal { .. } => lemma_literal_roundtrip(m, rest),
    }
}

#[verifier::rlimit(60)]
proof fn lemma_local_roundtrip(m: InfoModel, rest: Seq<u8>)
    requires
        info_fits(m),
        m.typ is Local,
    ensures
        info_decoding(info_encoding(m) + rest) == Some((m, info_encoding(m).len())),
    decreases m, 0int,
{
    let all = info_encoding(m) + rest;
    let sc = be64(m.scope_id as u64);
    match m.typ {
        TypModel::Local { fp_off, is_alias, types } => {
            let ie = infos_encoding(types);
            let f = seq![flag_byte(is_alias)];
            let lb = be64(types.len() as u64);
            let head = seq![0u8] + be64(fp_off as u64) + f + lb;
            assert(head.len() == 18);
            assert(all =~= head + ie + sc + rest);
            assert(all[0] == 0u8);
            assert(all[9] == flag_byte(is_alias));
            lemma_usize_roundtrip(fp_off, seq![0u8], f + lb + ie + sc + rest);
            assert(all =~= seq![0u8] + be64(fp_off as u64) + (f + lb + ie + sc + rest));
            lemma_usize_roundtrip(types.len() as usize, seq![0u8] + be64(fp_off as u64) + f, ie + sc + rest);
            assert(all =~= seq![0u8] + be64(fp_off as u64) + f + be64((types.len() as usize) as u64)
                + (ie + sc + rest));
            lemma_infos_roundtrip(types, sc + rest);
            assert(all.subrange(18, all.len() as int) =~= ie + (sc + rest));
            lemma_usize_roundtrip(m.scope_id, head + ie, rest);
            assert(all =~= head + ie + sc + rest);
        },
        _ => {},
    }
}

proof fn lemma_address_roundtrip(m: InfoModel, rest: Seq<u8>)
    requires
        info_fits(m),
        m.typ is Address,
    ensures
        info_decoding(info_encoding(m) + rest) == Some((m, info_encoding(m).len())),
    decreases m, 0int,
{
    let all = info_encoding(m) + rest;
    let sc = be64(m.scope_id as u64);
    match m.typ {
        TypModel::Address { addr, ret_t } => {
            let re = info_encoding(*ret_t);
            let head = seq![1u8] + be64(addr as u64);
            assert(all =~= head + re + sc + rest);
            assert(all[0] == 1u8);
            lemma_usize_roundtrip(addr, seq![1u8], re + sc + rest);
            assert(all =~= seq![1u8] + be64(addr as u64) + (re + sc + rest));
            law_info_roundtrip(*ret_t, sc + rest);
            assert(all.subrange(9, all.len() as int) =~= re + (sc + rest));
            lemma_usize_roundtrip(m.scope_id, head + re, rest);
            assert(all =~= head + re + sc + rest);
        },
        _ => {},
    }
}

proof fn lemma_literal_roundtrip(m: InfoModel, rest: Seq<u8>)
    requires
        m.typ is Literal,
    ensures
        info_decoding(info_encoding(m) + rest) == Some((m, info_encoding(m).len())),
{
    let all = info_encoding(m) + rest;
    let sc = be64(m.scope_id as u64);
    match m.typ {
        TypModel::Literal { id, lit_type } => {
            let head = seq![2u8, lit_code(lit_type)];
            assert(all =~= head + be64(id as u64) + sc + rest);
            assert(all[0] == 2u8);
            assert(all[1] == lit_code(lit_type));
            lemma_usize_roundtrip(id, head, sc + rest);
            assert(all =~= head + be64(id as u64) + (sc + rest));
            lemma_usize_roundtrip(m.scope_id, head + be64(id as u64), rest);
            assert(all =~= head + be64(id as u64) + sc + rest);
        },
        _ => {},
    }
}

proof fn lemma_infos_roundtrip(ts: Seq<InfoModel>, rest: Seq<u8>)
    requires
        infos_fit(ts),
    ensures
        infos_decoding(infos_encoding(ts) + rest, ts.len()) == Some((ts, infos_encoding(ts).len())),
    decreases ts, 0int,
{
    if ts.len() > 0 {
        let tail = ts.subrange(1, ts.len() as int);
        let e0 = info_encoding(ts[0]);
        let et = infos_encoding(tail);
        let all = infos_encoding(ts) + rest;
        assert(all =~= e0 + (et + rest));
        law_info_roundtrip(ts[0], et + rest);
        assert(e0.len() > 0) by {
            assert(info_encoding(ts[0]).len() == typ_encoding(ts[0].typ).len() + 8);
        }
        lemma_infos_roundtrip(tail, rest);
        assert(all.subrange(e0.len() as int, all.len() as int) =~= et + rest);
        assert(seq![ts[0]] + tail =~= ts);
    }
}

} // verus!
