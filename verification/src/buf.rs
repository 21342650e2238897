//! A buffer of text segments, and small helpers on values and collections.
use vstd::prelude::*;

verus! {

broadcast use vstd::std_specs::vec::group_vec_axioms;

/// A sequence of text segments, added one after the other.
#[derive(Debug)]
pub struct StringBuf {
    seg: Vec<String>,
}

impl View for StringBuf {
    type V = Seq<Seq<char>>;

    closed spec fn view(&self) -> Seq<Seq<char>> {
        self.seg@.map_values(|s: String| s@)
    }
}

impl StringBuf {
    /// An empty buffer.
    pub fn new() -> (r: Self)
        ensures
            r@ == Seq::<Seq<char>>::empty(),
    {
        let r = StringBuf { seg: Vec::new() };
        assert(r@ =~= Seq::<Seq<char>>::empty());
        r
    }

    /// Add the segment `s`.
    pub fn add(&mut self, s: &str)
        ensures
            final(self)@ == old(self)@.push(s@),
    {
        let ghost v0 = self@;
        self.seg.push(crate::text::str_to_string(s));
        assert(self@ =~= v0.push(s@));
    }

    /// The number of segments.
    pub fn len(&self) -> (r: usize)
        ensures
            r == self@.len(),
    {
        self.seg.len()
    }

    /// The segment `i`, if there is one.
    pub fn seg(&self, i: usize) -> (r: Option<&str>)
        ensures
            match r {
                Some(s) => i < self@.len() && s@ == self@[i as int],
                None => i >= self@.len(),
            },
    {
        if i < self.seg.len() {
            Some(self.seg[i].as_str())
        } else {
            None
        }
    }

    /// `v`, followed by all the segments, in order.
    pub fn seg_vec_in<'s>(&'s self, v: Vec<&'s str>) -> (r: Vec<&'s str>)
        ensures
            r@.len() == v@.len() + self@.len(),
            r@.take(v@.len() as int) == v@,
            forall|j: int| 0 <= j < self@.len() ==> (#[trigger] r@[v@.len() + j])@ == self@[j],
    {
        let ghost v0 = v@;
        let mut out = v;
        let n = self.len();
        let mut i: usize = 0;
        loop
            invariant
                v0 == v@,
                n == self@.len(),
                i <= self@.len(),
                out@.len() == v0.len() + i,
                out@.take(v0.len() as int) == v0,
                forall|j: int| 0 <= j < i ==> (#[trigger] out@[v0.len() + j])@ == self@[j],
            decreases self@.len() - i,
        {
            match self.seg(i) {
                Some(s) => {
                    let ghost before = out@;
                    out.push(s);
                    assert(out@.take(v0.len() as int) =~= before.take(v0.len() as int));
                },
                None => {
                    return out;
                },
            }
            i = i + 1;
        }
    }

    /// An iterator over the segments, from the first.
    pub fn iter(&self) -> (r: StringBufIterator<'_>)
        ensures
            r.source == self,
            r.counter == 0,
    {
        StringBufIterator { source: self, counter: 0 }
    }
}

/// The segments of a buffer `b` after `add` was called with each of `texts`, in order.
pub open spec fn after_adds(b: Seq<Seq<char>>, texts: Seq<Seq<char>>) -> Seq<Seq<char>>
    decreases texts.len(),
{
    if texts.len() == 0 {
        b
    } else {
        after_adds(b, texts.drop_last()).push(texts.last())
    }
}

/// Starting from an empty buffer, `n` calls of `add` give a buffer of `n` segments, and
/// segment `i` is the text of the `i`-th call, even where that text is empty.
pub proof fn law_adds_count_and_order(texts: Seq<Seq<char>>)
    ensures
        after_adds(Seq::<Seq<char>>::empty(), texts).len() == texts.len(),
        forall|i: int|
            0 <= i < texts.len() ==> #[trigger] after_adds(Seq::<Seq<char>>::empty(), texts)[i]
                == texts[i],
    decreases texts.len(),
{
    if texts.len() > 0 {
        law_adds_count_and_order(texts.drop_last());
        assert(after_adds(Seq::<Seq<char>>::empty(), texts) =~= texts) by {
            assert(texts.drop_last().push(texts.last()) =~= texts);
            assert(after_adds(Seq::<Seq<char>>::empty(), texts.drop_last()) =~= texts.drop_last());
        }
    }
}

/// Goes through the segments of a buffer, in order.
pub struct StringBufIterator<'s> {
    pub source: &'s StringBuf,
    pub counter: usize,
}

impl<'s> StringBufIterator<'s> {
    /// The next segment, if any; the position moves on either way.
    pub fn next(&mut self) -> (r: Option<&'s str>)
        requires
            old(self).counter < usize::MAX,
        ensures
            final(self).source == old(self).source,
            final(self).counter == old(self).counter + 1,
            match r {
                Some(s) => old(self).counter < old(self).source@.len() && s@
                    == old(self).source@[old(self).counter as int],
                None => old(self).counter >= old(self).source@.len(),
            },
    {
        let c = self.counter;
        self.counter = c + 1;
        self.source.seg(c)
    }
}

// ---------------------------------------------------------------------------
// Small helpers
// ---------------------------------------------------------------------------

/// Taking the value out of a place, leaving the empty value behind.
pub trait MemTake: Sized {
    /// The value, with the empty one left in its place.
    fn mem_take(&mut self) -> Self;
}

impl MemTake for String {
    fn mem_take(&mut self) -> (r: Self)
        ensures
            r@ == old(self)@,
            final(self)@ == Seq::<char>::empty(),
    {
        let mut r = String::new();
        std::mem::swap(self, &mut r);
        r
    }
}

impl<T> MemTake for Vec<T> {
    fn mem_take(&mut self) -> (r: Self)
        ensures
            r@ == old(self)@,
            final(self)@ == Seq::<T>::empty(),
    {
        let mut r = Vec::new();
        std::mem::swap(self, &mut r);
        r
    }
}

/// Looking at the value of an option on its way through.
pub trait OptionInspect<T>: Sized {
    /// The value looked at, if any.
    spec fn inspected(self) -> Option<T>;

    /// This option unchanged, after `f` has looked at its value (if any).
    fn inspct<F: FnOnce(&T)>(self, f: F) -> (r: Self)
        requires
            forall|v: T| self.inspected() == Some(v) ==> f.requires((&v,)),
        ensures
            r == self,
    ;
}

impl<T> OptionInspect<T> for Option<T> {
    open spec fn inspected(self) -> Option<T> {
        self
    }

    fn inspct<F: FnOnce(&T)>(self, f: F) -> (r: Self) {
        match self {
            Some(v) => {
                f(&v);
                Some(v)
            },
            None => None,
        }
    }
}

/// Rearranging the items of a vector.
pub trait Recollect: Sized {
    /// The items.
    type Item;

    /// The items, in order, as a vector.
    fn to_vec(self) -> Vec<Self::Item>;

    /// The items, in reverse order, as a vector.
    fn rereverse(self) -> Vec<Self::Item>;

    /// The items, in reverse order.
    fn reversed(self) -> Self;

    /// The items without the last one.
    fn poped(self) -> Self;
}

impl<T> Recollect for Vec<T> {
    type Item = T;

    fn to_vec(self) -> (r: Vec<T>)
        ensures
            r@ == self@,
    {
        self
    }

    fn rereverse(self) -> (r: Vec<T>)
        ensures
            r@ == self@.reverse(),
    {
        self.reversed()
    }

    fn reversed(self) -> (r: Self)
        ensures
            r@ == self@.reverse(),
    {
        let mut v = self;
        let ghost s = v@;
        let n = v.len();
        let mut out: Vec<T> = Vec::new();
        while v.len() > 0
            invariant
                v@ == s.take(v@.len() as int),
                v@.len() <= s.len(),
                out@ == s.reverse().take(s.len() - v@.len()),
            decreases v@.len(),
        {
            let k = v.len();
            let x = v.pop().unwrap();
            assert(s.reverse().take(s.len() - k + 1) =~= s.reverse().take(s.len() - k).push(x));
            out.push(x);
            assert(v@ =~= s.take(k - 1));
        }
        assert(out@ =~= s.reverse());
        out
    }

    fn poped(self) -> (r: Self)
        ensures
            r@ == if self@.len() > 0 {
                self@.drop_last()
            } else {
                self@
            },
    {
        let mut v = self;
        v.pop();
        v
    }
}

/// A value that can be turned into bytes.
pub trait Byteable: Sized {
    /// Its bytes.
    fn into_bytes(self) -> Vec<u8>;
}

impl Byteable for Vec<u8> {
    fn into_bytes(self) -> (r: Vec<u8>)
        ensures
            r@ == self@,
    {
        self
    }
}

impl Byteable for String {
    fn into_bytes(self) -> (r: Vec<u8>)
        ensures
            r@ == vstd::utf8::encode_utf8(self@),
    {
        let b = self.as_str().as_bytes();
        let mut r: Vec<u8> = Vec::new();
        let mut k: usize = 0;
        while k < b.len()
            invariant
                k <= b@.len(),
                r@ == b@.take(k as int),
            decreases b@.len() - k,
        {
            r.push(b[k]);
            assert(b@.take(k + 1) =~= b@.take(k as int).push(b@[k as int]));
            k = k + 1;
        }
        assert(b@.take(b@.len() as int) =~= b@);
        r
    }
}

} // verus!
