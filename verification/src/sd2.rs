//! A binary format for compiled code: values are written out as bytes and
//! read back in.  Integers are big-endian (a `usize` takes 8 bytes), a
//! `bool` is one byte (0 for true, 1 for false), a string is its length
//! in bytes then its UTF-8 bytes, a vector its length then its items, a
//! pair its first value then its second.
use vstd::prelude::*;
use vstd::string::StringSliceAdditionalSpecFns;

verus! {

broadcast use vstd::std_specs::vec::group_vec_axioms;

/// Why bytes could not be read back.
#[derive(Debug, Clone, Copy, PartialEq, Eq, Structural)]
pub enum ReadError {
    /// The bytes end before the value does.
    UnexpectedEof,
    /// The bytes of a string are not UTF-8.
    Utf8,
}

/// A value that can be written out as bytes.
pub trait WriteOut: View {
    /// The bytes a value is written as.
    spec fn encoding(v: Self::V) -> Seq<u8>;

    /// Append the bytes of this value to `dst`.
    fn write_out(&self, dst: &mut Vec<u8>)
        ensures
            final(dst)@ == old(dst)@ + Self::encoding(self@),
    ;
}

/// A value that can be read back from bytes.
pub trait ReadIn: Sized + View {
    /// The value at the start of `bytes`, and how many bytes it takes.
    spec fn decoding(bytes: Seq<u8>) -> Option<(Self::V, nat)>;

    /// Read a value from `inp` at `pos`; answers it and the position after it.
    fn read_in(inp: &[u8], pos: usize) -> (r: Result<(Self, usize), ReadError>)
        requires
            pos <= inp@.len(),
        ensures
            match Self::decoding(inp@.subrange(pos as int, inp@.len() as int)) {
                Some((v, n)) => r matches Ok((x, p)) && x@ == v && p == pos + n,
                None => r is Err,
            },
    ;
}

/// Write `code`, then `value`.
pub fn write_with_code<C: WriteOut, T: WriteOut>(value: &T, code: &C, dst: &mut Vec<u8>)
    ensures
        final(dst)@ == old(dst)@ + C::encoding(code@) + T::encoding(value@),
{
    code.write_out(dst);
    value.write_out(dst);
}

// ---------------------------------------------------------------------------
// Integers
// ---------------------------------------------------------------------------

/// The big-endian bytes of a 16-bit number.
pub open spec fn be16(v: u16) -> Seq<u8> {
    seq![(v >> 8u16) as u8, (v & 0xffu16) as u8]
}

/// The 16-bit number of two big-endian bytes.
pub open spec fn from_be16(a: u8, b: u8) -> u16 {
    ((a as u16) << 8u16) | (b as u16)
}

/// The big-endian bytes of a 64-bit number.
pub open spec fn be64(v: u64) -> Seq<u8> {
    seq![
        (v >> 56u64) as u8,
        ((v >> 48u64) & 0xffu64) as u8,
        ((v >> 40u64) & 0xffu64) as u8,
        ((v >> 32u64) & 0xffu64) as u8,
        ((v >> 24u64) & 0xffu64) as u8,
        ((v >> 16u64) & 0xffu64) as u8,
        ((v >> 8u64) & 0xffu64) as u8,
        (v & 0xffu64) as u8,
    ]
}

/// The 64-bit number of eight big-endian bytes.
pub open spec fn from_be64(b: Seq<u8>) -> u64 {
    ((b[0] as u64) << 56u64) | ((b[1] as u64) << 48u64) | ((b[2] as u64) << 40u64) | ((
    b[3] as u64) << 32u64) | ((b[4] as u64) << 24u64) | ((b[5] as u64) << 16u64) | ((b[6] as u64)
        << 8u64) | (b[7] as u64)
}

impl WriteOut for u8 {
    open spec fn encoding(v: u8) -> Seq<u8> {
        seq![v]
    }

    fn write_out(&self, dst: &mut Vec<u8>) {
        dst.push(*self);
    }
}

impl ReadIn for u8 {
    open spec fn decoding(bytes: Seq<u8>) -> Option<(u8, nat)> {
        if bytes.len() >= 1 {
            Some((bytes[0], 1))
        } else {
            None
        }
    }

    fn read_in(inp: &[u8], pos: usize) -> (r: Result<(u8, usize), ReadError>) {
        if pos < inp.len() {
            Ok((inp[pos], pos + 1))
        } else {
            Err(ReadError::UnexpectedEof)
        }
    }
}

impl WriteOut for u16 {
    open spec fn encoding(v: u16) -> Seq<u8> {
        be16(v)
    }

    fn write_out(&self, dst: &mut Vec<u8>) {
        let v = *self;
        let ghost d0 = dst@;
        dst.push((v >> 8u16) as u8);
        dst.push((v & 0xffu16) as u8);
        assert(dst@ =~= d0 + be16(v));
    }
}

impl ReadIn for u16 {
    open spec fn decoding(bytes: Seq<u8>) -> Option<(u16, nat)> {
        if bytes.len() >= 2 {
            Some((from_be16(bytes[0], bytes[1]), 2))
        } else {
            None
        }
    }

    fn read_in(inp: &[u8], pos: usize) -> (r: Result<(u16, usize), ReadError>) {
        if inp.len() - pos >= 2 {
            let a = inp[pos];
            let b = inp[pos + 1];
            assert(inp@.subrange(pos as int, inp@.len() as int)[1] == b);
            Ok((((a as u16) << 8u16) | (b as u16), pos + 2))
        } else {
            Err(ReadError::UnexpectedEof)
        }
    }
}

pub(crate) fn push_be64(dst: &mut Vec<u8>, v: u64)
    ensures
        final(dst)@ == old(dst)@ + be64(v),
{
    let ghost d0 = dst@;
    dst.push((v >> 56u64) as u8);
    dst.push(((v >> 48u64) & 0xffu64) as u8);
    dst.push(((v >> 40u64) & 0xffu64) as u8);
    dst.push(((v >> 32u64) & 0xffu64) as u8);
    dst.push(((v >> 24u64) & 0xffu64) as u8);
    dst.push(((v >> 16u64) & 0xffu64) as u8);
    dst.push(((v >> 8u64) & 0xffu64) as u8);
    dst.push((v & 0xffu64) as u8);
    assert(dst@ =~= d0 + be64(v));
}

pub(crate) fn read_be64(inp: &[u8], pos: usize) -> (r: u64)
    requires
        pos + 8 <= inp@.len(),
    ensures
        r == from_be64(inp@.subrange(pos as int, inp@.len() as int)),
{
    let ghost b = inp@.subrange(pos as int, inp@.len() as int);
    assert(b[0] == inp@[pos as int] && b[1] == inp@[pos + 1] && b[2] == inp@[pos + 2] && b[3]
        == inp@[pos + 3] && b[4] == inp@[pos + 4] && b[5] == inp@[pos + 5] && b[6] == inp@[pos + 6]
        && b[7] == inp@[pos + 7]);
    ((inp[pos] as u64) << 56u64) | ((inp[pos + 1] as u64) << 48u64) | ((inp[pos + 2] as u64)
        << 40u64) | ((inp[pos + 3] as u64) << 32u64) | ((inp[pos + 4] as u64) << 24u64) | ((inp[pos
        + 5] as u64) << 16u64) | ((inp[pos + 6] as u64) << 8u64) | (inp[pos + 7] as u64)
}

impl WriteOut for usize {
    open spec fn encoding(v: usize) -> Seq<u8> {
        be64(v as u64)
    }

    fn write_out(&self, dst: &mut Vec<u8>) {
        push_be64(dst, *self as u64);
    }
}

impl ReadIn for usize {
    open spec fn decoding(bytes: Seq<u8>) -> Option<(usize, nat)> {
        if bytes.len() >= 8 && from_be64(bytes) <= usize::MAX {
            Some((from_be64(bytes) as usize, 8))
        } else {
            None
        }
    }

    fn read_in(inp: &[u8], pos: usize) -> (r: Result<(usize, usize), ReadError>) {
        if inp.len() - pos < 8 {
            return Err(ReadError::UnexpectedEof);
        }
        let v = read_be64(inp, pos);
        if v > usize::MAX as u64 {
            return Err(ReadError::UnexpectedEof);
        }
        Ok((v as usize, pos + 8))
    }
}

impl WriteOut for bool {
    open spec fn encoding(v: bool) -> Seq<u8> {
        seq![
            if v {
                0u8
            } else {
                1u8
            },
        ]
    }

    fn write_out(&self, dst: &mut Vec<u8>) {
        dst.push(
            if *self {
                0u8
            } else {
                1u8
            },
        );
    }
}

impl ReadIn for bool {
    open spec fn decoding(bytes: Seq<u8>) -> Option<(bool, nat)> {
        if bytes.len() >= 1 {
            Some((bytes[0] == 0, 1))
        } else {
            None
        }
    }

    fn read_in(inp: &[u8], pos: usize) -> (r: Result<(bool, usize), ReadError>) {
        if pos < inp.len() {
            Ok((inp[pos] == 0u8, pos + 1))
        } else {
            Err(ReadError::UnexpectedEof)
        }
    }
}

// ---------------------------------------------------------------------------
// Strings
// ---------------------------------------------------------------------------

impl WriteOut for String {
    open spec fn encoding(v: Seq<char>) -> Seq<u8> {
        be64(vstd::utf8::encode_utf8(v).len() as u64) + vstd::utf8::encode_utf8(v)
    }

    fn write_out(&self, dst: &mut Vec<u8>) {
        let bytes = self.as_str().as_bytes();
        let n = bytes.len();
        push_be64(dst, n as u64);
        let ghost d1 = dst@;
        let mut k: usize = 0;
        while k < n
            invariant
                n == bytes@.len(),
                k <= n,
                dst@ == d1 + bytes@.take(k as int),
            decreases n - k,
        {
            dst.push(bytes[k]);
            assert(bytes@.take(k + 1) =~= bytes@.take(k as int).push(bytes@[k as int]));
            k = k + 1;
        }
        assert(bytes@.take(n as int) =~= bytes@);
    }
}

/// Calls `String::from_utf8` on `bytes`, which std documents as the string
/// with those bytes when they are UTF-8, and an error otherwise.
#[verifier::external_body]
pub(crate) fn string_from_utf8(bytes: Vec<u8>) -> (r: Option<String>)
    ensures
        match r {
            Some(s) => vstd::utf8::encode_utf8(s@) == bytes@,
            None => !vstd::utf8::valid_utf8(bytes@),
        },
{
    String::from_utf8(bytes).ok()
}

impl ReadIn for String {
    open spec fn decoding(bytes: Seq<u8>) -> Option<(Seq<char>, nat)> {
        if bytes.len() >= 8 {
            let n = from_be64(bytes) as int;
            let body = bytes.subrange(8, bytes.len() as int);
            if n <= body.len() && vstd::utf8::valid_utf8(body.take(n)) {
                Some((vstd::utf8::decode_utf8(body.take(n)), (8 + n) as nat))
            } else {
                None
            }
        } else {
            None
        }
    }

    fn read_in(inp: &[u8], pos: usize) -> (r: Result<(String, usize), ReadError>) {
        let ghost b = inp@.subrange(pos as int, inp@.len() as int);
        if inp.len() - pos < 8 {
            return Err(ReadError::UnexpectedEof);
        }
        let n64 = read_be64(inp, pos);
        let start = pos + 8;
        if n64 > (inp.len() - start) as u64 {
            return Err(ReadError::UnexpectedEof);
        }
        let n = n64 as usize;
        let mut bytes: Vec<u8> = Vec::new();
        let mut k: usize = 0;
        while k < n
            invariant
                start == pos + 8,
                start + n <= inp@.len(),
                k <= n,
                bytes@ == inp@.subrange(start as int, start + k),
            decreases n - k,
        {
            bytes.push(inp[start + k]);
            assert(inp@.subrange(start as int, start + k + 1) =~= inp@.subrange(
                start as int,
                start + k,
            ).push(inp@[start + k]));
            k = k + 1;
        }
        assert(bytes@ =~= b.subrange(8, b.len() as int).take(n as int));
        match string_from_utf8(bytes) {
            Some(s) => {
                proof {
                    vstd::utf8::encode_utf8_decode_utf8(s@);
                    vstd::utf8::encode_utf8_valid_utf8(s@);
                }
                Ok((s, start + n))
            },
            None => Err(ReadError::Utf8),
        }
    }
}

// ---------------------------------------------------------------------------
// Laws
// ---------------------------------------------------------------------------

/// Reading back a `u16` written out gives it again, whatever follows.
pub proof fn law_u16_roundtrip(v: u16, rest: Seq<u8>)
    ensures
        <u16 as ReadIn>::decoding(<u16 as WriteOut>::encoding(v) + rest) == Some((v, 2nat)),
{
    let b = be16(v) + rest;
    assert(b[0] == (v >> 8u16) as u8 && b[1] == (v & 0xffu16) as u8);
    assert(from_be16((v >> 8u16) as u8, (v & 0xffu16) as u8) == v) by (bit_vector);
}

/// The bytes of a 64-bit number give it back.
pub proof fn lemma_be64_roundtrip(v: u64, rest: Seq<u8>)
    ensures
        from_be64(be64(v) + rest) == v,
        (be64(v) + rest).len() == 8 + rest.len(),
{
    let b = be64(v) + rest;
    assert(b[0] == (v >> 56u64) as u8);
    assert(b[1] == ((v >> 48u64) & 0xffu64) as u8);
    assert(b[2] == ((v >> 40u64) & 0xffu64) as u8);
    assert(b[3] == ((v >> 32u64) & 0xffu64) as u8);
    assert(b[4] == ((v >> 24u64) & 0xffu64) as u8);
    assert(b[5] == ((v >> 16u64) & 0xffu64) as u8);
    assert(b[6] == ((v >> 8u64) & 0xffu64) as u8);
    assert(b[7] == (v & 0xffu64) as u8);
    assert(((((v >> 56u64) as u8) as u64) << 56u64) | (((((v >> 48u64) & 0xffu64) as u8) as u64)
        << 48u64) | (((((v >> 40u64) & 0xffu64) as u8) as u64) << 40u64) | (((((v >> 32u64)
        & 0xffu64) as u8) as u64) << 32u64) | (((((v >> 24u64) & 0xffu64) as u8) as u64) << 24u64)
        | (((((v >> 16u64) & 0xffu64) as u8) as u64) << 16u64) | (((((v >> 8u64) & 0xffu64) as u8)
        as u64) << 8u64) | (((v & 0xffu64) as u8) as u64) == v) by (bit_vector);
}

/// Reading back a `usize` written out gives it again, whatever follows.
pub proof fn law_usize_roundtrip(v: usize, rest: Seq<u8>)
    ensures
        <usize as ReadIn>::decoding(<usize as WriteOut>::encoding(v) + rest) == Some((v, 8nat)),
{
    lemma_be64_roundtrip(v as u64, rest);
}

/// Reading back a `bool` written out gives it again, whatever follows.
pub proof fn law_bool_roundtrip(v: bool, rest: Seq<u8>)
    ensures
        <bool as ReadIn>::decoding(<bool as WriteOut>::encoding(v) + rest) == Some((v, 1nat)),
{
    assert((<bool as WriteOut>::encoding(v) + rest)[0] == if v {
        0u8
    } else {
        1u8
    });
}

/// Reading back a string written out gives it again, whatever follows.
pub proof fn law_string_roundtrip(v: Seq<char>, rest: Seq<u8>)
    requires
        vstd::utf8::encode_utf8(v).len() <= u64::MAX,
    ensures
        <String as ReadIn>::decoding(<String as WriteOut>::encoding(v) + rest) == Some(
            (v, (8 + vstd::utf8::encode_utf8(v).len()) as nat),
        ),
{
    let e = vstd::utf8::encode_utf8(v);
    let n = e.len();
    let all = be64(n as u64) + e + rest;
    assert(<String as WriteOut>::encoding(v) + rest == all);
    lemma_be64_roundtrip(n as u64, e + rest);
    assert(be64(n as u64) + (e + rest) =~= all);
    let body = all.subrange(8, all.len() as int);
    assert(body =~= e + rest);
    assert(body.take(n as int) =~= e);
    vstd::utf8::encode_utf8_valid_utf8(v);
    vstd::utf8::encode_utf8_decode_utf8(v);
}

// ---------------------------------------------------------------------------
// Compound values
// ---------------------------------------------------------------------------

/// The bytes of a sequence of values, one after the other.
pub open spec fn items_encoding<T: WriteOut>(v: Seq<T>) -> Seq<u8>
    decreases v.len(),
{
    if v.len() == 0 {
        Seq::empty()
    } else {
        items_encoding(v.drop_last()) + T::encoding(v.last()@)
    }
}

impl<T: WriteOut> WriteOut for Vec<T> {
    open spec fn encoding(v: Seq<T>) -> Seq<u8> {
        be64(v.len() as u64) + items_encoding(v)
    }

    fn write_out(&self, dst: &mut Vec<u8>) {
        let n = self.len();
        push_be64(dst, n as u64);
        let ghost d1 = dst@;
        let mut k: usize = 0;
        while k < n
            invariant
                n == self@.len(),
                k <= n,
                dst@ == d1 + items_encoding(self@.take(k as int)),
            decreases n - k,
        {
            assert(self@.take(k + 1).drop_last() =~= self@.take(k as int));
            self[k].write_out(dst);
            assert(dst@ =~= d1 + items_encoding(self@.take(k + 1)));
            k = k + 1;
        }
        assert(self@.take(n as int) =~= self@);
    }
}

/// `count` values read one after the other from the start of `bytes`: what
/// they are, and how many bytes they take.
pub open spec fn items_decoding<T: ReadIn>(bytes: Seq<u8>, count: nat) -> Option<(Seq<T::V>, nat)>
    decreases count,
{
    if count == 0 {
        Some((Seq::empty(), 0))
    } else {
        match items_decoding::<T>(bytes, (count - 1) as nat) {
            Some((vs, n)) => if n <= bytes.len() {
                match T::decoding(bytes.subrange(n as int, bytes.len() as int)) {
                    Some((v, m)) => if n + m <= bytes.len() {
                        Some((vs.push(v), n + m))
                    } else {
                        None
                    },
                    None => None,
                }
            } else {
                None
            },
            None => None,
        }
    }
}

/// A vector read from the start of `bytes`: its length, then its items.
pub open spec fn vec_decoding<T: ReadIn>(bytes: Seq<u8>) -> Option<(Seq<T::V>, nat)> {
    match <usize as ReadIn>::decoding(bytes) {
        Some((len, _)) => match items_decoding::<T>(
            bytes.subrange(8, bytes.len() as int),
            len as nat,
        ) {
            Some((vs, n)) => Some((vs, 8 + n)),
            None => None,
        },
        None => None,
    }
}

/// What values of a vector are.
pub open spec fn views<T: View>(v: Seq<T>) -> Seq<T::V> {
    v.map_values(|t: T| t@)
}

proof fn lemma_items_decoding_fails<T: ReadIn>(bytes: Seq<u8>, k: nat, m: nat)
    requires
        k <= m,
        items_decoding::<T>(bytes, k) is None,
    ensures
        items_decoding::<T>(bytes, m) is None,
    decreases m - k,
{
    if k < m {
        lemma_items_decoding_fails::<T>(bytes, k, (m - 1) as nat);
    }
}

/// Read a vector: its length, then that many items.
pub fn read_vec<T: ReadIn>(inp: &[u8], pos: usize) -> (r: Result<(Vec<T>, usize), ReadError>)
    requires
        pos <= inp@.len(),
    ensures
        match vec_decoding::<T>(inp@.subrange(pos as int, inp@.len() as int)) {
            Some((vs, n)) => r matches Ok((x, p)) && views(x@) == vs && p == pos + n,
            None => r is Err,
        },
{
    let ghost b = inp@.subrange(pos as int, inp@.len() as int);
    let (len, p0) = match usize::read_in(inp, pos) {
        Ok(x) => x,
        Err(e) => {
            return Err(e);
        },
    };
    let ghost body = b.subrange(8, b.len() as int);
    assert(body =~= inp@.subrange(p0 as int, inp@.len() as int));
    let mut items: Vec<T> = Vec::new();
    let mut p = p0;
    let mut k: usize = 0;
    while k < len
        invariant
            pos <= p0 <= p <= inp@.len(),
            k <= len,
            b == inp@.subrange(pos as int, inp@.len() as int),
            <usize as ReadIn>::decoding(b) == Some((len, 8nat)),
            p0 == pos + 8,
            body == b.subrange(8, b.len() as int),
            body == inp@.subrange(p0 as int, inp@.len() as int),
            items_decoding::<T>(body, k as nat) == Some((views(items@), (p - p0) as nat)),
        ensures
            items_decoding::<T>(body, len as nat) == Some((views(items@), (p - p0) as nat)),
        decreases len - k,
    {
        assert(body.subrange(p - p0, body.len() as int) =~= inp@.subrange(p as int, inp@.len() as int));
        let (x, q) = match T::read_in(inp, p) {
            Ok(x) => x,
            Err(e) => {
                proof {
                    lemma_items_decoding_fails::<T>(body, (k + 1) as nat, len as nat);
                }
                return Err(e);
            },
        };
        if q > inp.len() {
            proof {
                lemma_items_decoding_fails::<T>(body, (k + 1) as nat, len as nat);
            }
            return Err(ReadError::UnexpectedEof);
        }
        let ghost before = items@;
        items.push(x);
        assert(views(items@) =~= views(before).push(x@));
        p = q;
        k = k + 1;
    }
    Ok((items, p))
}

proof fn lemma_items_encoding_prefix<T: WriteOut>(v: Seq<T>, k: int)
    requires
        0 <= k <= v.len(),
    ensures
        items_encoding(v.take(k)).len() <= items_encoding(v).len(),
        items_encoding(v).subrange(0, items_encoding(v.take(k)).len() as int) =~= items_encoding(
            v.take(k),
        ),
    decreases v.len(),
{
    if k < v.len() {
        lemma_items_encoding_prefix(v.drop_last(), k);
        assert(v.drop_last().take(k) =~= v.take(k));
    } else {
        assert(v.take(k) =~= v);
    }
}

proof fn lemma_items_roundtrip<T: ReadIn + WriteOut>(v: Seq<T>, rest: Seq<u8>, k: int)
    requires
        0 <= k <= v.len(),
        forall|i: int, r: Seq<u8>|
            0 <= i < v.len() ==> #[trigger] T::decoding(T::encoding(v[i]@) + r) == Some(
                (v[i]@, T::encoding(v[i]@).len()),
            ),
    ensures
        items_decoding::<T>(items_encoding(v) + rest, k as nat) == Some(
            (views(v.take(k)), items_encoding(v.take(k)).len()),
        ),
    decreases k,
{
    let body = items_encoding(v) + rest;
    if k == 0 {
        assert(views(v.take(0)) =~= Seq::<T::V>::empty());
    } else {
        lemma_items_roundtrip(v, rest, k - 1);
        let j = k - 1;
        let n = items_encoding(v.take(j)).len();
        lemma_items_encoding_prefix(v, k);
        assert(v.take(k).drop_last() =~= v.take(j));
        assert(v.take(k).last() == v[j]);
        let ek = T::encoding(v[j]@);
        let pre = items_encoding(v.take(k));
        assert(pre == items_encoding(v.take(j)) + ek);
        assert(body.subrange(0, pre.len() as int) =~= pre);
        assert(body.subrange(n as int, (n + ek.len()) as int) =~= ek) by {
            assert(pre.subrange(n as int, (n + ek.len()) as int) =~= ek);
            assert(body.subrange(n as int, (n + ek.len()) as int) =~= body.subrange(
                0,
                pre.len() as int,
            ).subrange(n as int, (n + ek.len()) as int));
        }
        let tail = body.subrange((n + ek.len()) as int, body.len() as int);
        assert(body.subrange(n as int, body.len() as int) =~= body.subrange(
            n as int,
            (n + ek.len()) as int,
        ) + tail);
        assert(body.subrange(n as int, body.len() as int) =~= ek + tail);
        assert(T::decoding(ek + tail) == Some((v[j]@, ek.len())));
        assert(views(v.take(k)) =~= views(v.take(j)).push(v[j]@));
    }
}

/// Reading back a vector written out gives values equal to its items,
/// whatever follows, when that holds of each item.
pub proof fn law_vec_roundtrip<T: ReadIn + WriteOut>(v: Seq<T>, rest: Seq<u8>)
    requires
        v.len() <= usize::MAX,
        forall|i: int, r: Seq<u8>|
            0 <= i < v.len() ==> #[trigger] T::decoding(T::encoding(v[i]@) + r) == Some(
                (v[i]@, T::encoding(v[i]@).len()),
            ),
    ensures
        vec_decoding::<T>(<Vec<T> as WriteOut>::encoding(v) + rest) == Some(
            (views(v), <Vec<T> as WriteOut>::encoding(v).len()),
        ),
{
    let e = items_encoding(v);
    let all = be64(v.len() as u64) + e + rest;
    assert(<Vec<T> as WriteOut>::encoding(v) + rest == all);
    lemma_be64_roundtrip(v.len() as u64, e + rest);
    assert(be64(v.len() as u64) + (e + rest) =~= all);
    let body = all.subrange(8, all.len() as int);
    assert(body =~= e + rest);
    lemma_items_roundtrip(v, rest, v.len() as int);
    assert(v.take(v.len() as int) =~= v);
}

impl<A: WriteOut, B: WriteOut> WriteOut for (A, B) {
    open spec fn encoding(v: (A::V, B::V)) -> Seq<u8> {
        A::encoding(v.0) + B::encoding(v.1)
    }

    fn write_out(&self, dst: &mut Vec<u8>) {
        let ghost d0 = dst@;
        self.0.write_out(dst);
        self.1.write_out(dst);
        assert(dst@ =~= d0 + (A::encoding(self.0@) + B::encoding(self.1@)));
    }
}

impl<A: ReadIn, B: ReadIn> ReadIn for (A, B) {
    open spec fn decoding(bytes: Seq<u8>) -> Option<((A::V, B::V), nat)> {
        match A::decoding(bytes) {
            Some((a, n)) => if n <= bytes.len() {
                match B::decoding(bytes.subrange(n as int, bytes.len() as int)) {
                    Some((b, m)) => Some(((a, b), n + m)),
                    None => None,
                }
            } else {
                None
            },
            None => None,
        }
    }

    fn read_in(inp: &[u8], pos: usize) -> (r: Result<((A, B), usize), ReadError>) {
        let (a, p) = match A::read_in(inp, pos) {
            Ok(x) => x,
            Err(e) => {
                return Err(e);
            },
        };
        if p > inp.len() {
            return Err(ReadError::UnexpectedEof);
        }
        proof {
            let b = inp@.subrange(pos as int, inp@.len() as int);
            let n = (p - pos) as int;
            assert(b.subrange(n, b.len() as int) =~= inp@.subrange(p as int, inp@.len() as int));
        }
        let (b, q) = match B::read_in(inp, p) {
            Ok(x) => x,
            Err(e) => {
                return Err(e);
            },
        };
        Ok(((a, b), q))
    }
}

impl<T: WriteOut> WriteOut for Box<T> {
    open spec fn encoding(v: T::V) -> Seq<u8> {
        T::encoding(v)
    }

    fn write_out(&self, dst: &mut Vec<u8>) {
        (**self).write_out(dst);
    }
}

impl<T: ReadIn> ReadIn for Box<T> {
    open spec fn decoding(bytes: Seq<u8>) -> Option<(T::V, nat)> {
        T::decoding(bytes)
    }

    fn read_in(inp: &[u8], pos: usize) -> (r: Result<(Box<T>, usize), ReadError>) {
        match T::read_in(inp, pos) {
            Ok((x, p)) => Ok((Box::new(x), p)),
            Err(e) => Err(e),
        }
    }
}

/// Reading back a pair written out gives it again, whatever follows, when
/// that holds of each of its parts.
pub proof fn law_pair_roundtrip<A: ReadIn + WriteOut, B: ReadIn + WriteOut>(
    a: <A as View>::V,
    b: <B as View>::V,
    rest: Seq<u8>,
)
    requires
        forall|r: Seq<u8>| #[trigger] A::decoding(A::encoding(a) + r) == Some((a, A::encoding(a).len())),
        forall|r: Seq<u8>| #[trigger] B::decoding(B::encoding(b) + r) == Some((b, B::encoding(b).len())),
    ensures
        <(A, B) as ReadIn>::decoding(<(A, B) as WriteOut>::encoding((a, b)) + rest) == Some(
            ((a, b), A::encoding(a).len() + B::encoding(b).len()),
        ),
{
    let ea = A::encoding(a);
    let eb = B::encoding(b);
    let all = ea + eb + rest;
    assert(all =~= ea + (eb + rest));
    assert(A::decoding(ea + (eb + rest)) == Some((a, ea.len())));
    assert(all.subrange(ea.len() as int, all.len() as int) =~= eb + rest);
    assert(B::decoding(eb + rest) == Some((b, eb.len())));
}

} // verus!
