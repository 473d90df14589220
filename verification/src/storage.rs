//! The memory that a writer stages its bytes in.

use crate::bytes::{
    heads, heads_fit, joined, lemma_joined_take, lemma_repeated_add, lemma_repeated_len, payload,
    repeated, views,
};
use vstd::prelude::*;

verus! {

/// What `buf` holds after `src` was copied over it, from index `at` on.
pub open spec fn overlaid(buf: Seq<u8>, at: int, src: Seq<u8>) -> Seq<u8> {
    buf.take(at) + src + buf.skip(at + src.len())
}

/// Copies `src` into `buf`, from index `at` on.
pub fn copy_at(buf: &mut [u8], at: usize, src: &[u8])
    requires
        at + src@.len() <= old(buf)@.len(),
    ensures
        final(buf)@ == overlaid(old(buf)@, at as int, src@),
{
    let len: usize = buf.len();
    let mut i: usize = 0;
    while i < src.len()
        invariant
            i <= src@.len(),
            at + src@.len() <= len,
            len == old(buf)@.len(),
            buf@ == overlaid(old(buf)@, at as int, src@.take(i as int)),
        decreases src@.len() - i,
    {
        buf[at + i] = src[i];
        i += 1;
    }
}

/// Moves `buf[from..end]` to the start of `buf`.
pub fn copy_down(buf: &mut [u8], from: usize, end: usize)
    requires
        from <= end <= old(buf)@.len(),
    ensures
        final(buf)@ == overlaid(old(buf)@, 0, old(buf)@.subrange(from as int, end as int)),
{
    let count: usize = end - from;
    let mut i: usize = 0;
    while i < count
        invariant
            i <= count,
            count == end - from,
            from <= end <= old(buf)@.len(),
            buf@ == overlaid(old(buf)@, 0, old(buf)@.subrange(from as int, from + i)),
        decreases count - i,
    {
        let b: u8 = buf[from + i];
        buf[i] = b;
        i += 1;
    }
}

/// Copies what `data` and `splat` ask for into `buf`, from index `at` on, and says where
/// it ends.
pub fn copy_payload(buf: &mut [u8], at: usize, data: &[&[u8]], splat: usize) -> (end: usize)
    requires
        data@.len() > 0,
        at + payload(views(data@), splat as nat).len() <= old(buf)@.len(),
    ensures
        final(buf)@ == overlaid(old(buf)@, at as int, payload(views(data@), splat as nat)),
        end == at + payload(views(data@), splat as nat).len(),
{
    let len: usize = buf.len();
    let ghost parts = views(data@);
    let ghost firsts = heads(parts);
    let last: usize = data.len() - 1;
    let mut cursor: usize = at;
    let mut i: usize = 0;
    while i < last
        invariant
            parts == views(data@),
            firsts == heads(parts),
            last == data@.len() - 1,
            i <= last,
            len == old(buf)@.len(),
            at + joined(firsts).len() <= len,
            cursor == at + joined(firsts.take(i as int)).len(),
            cursor <= len,
            buf@ == overlaid(old(buf)@, at as int, joined(firsts.take(i as int))),
        decreases last - i,
    {
        let segment: &[u8] = data[i];
        proof {
            lemma_joined_take(firsts, i as int);
        }
        copy_at(buf, cursor, segment);
        cursor += segment.len();
        i += 1;
    }
    assert(firsts.take(last as int) =~= firsts);
    let unit: &[u8] = data[last];
    let ghost front = joined(firsts);
    if unit.is_empty() {
        proof {
            lemma_repeated_len(unit@, splat as nat);
            assert(unit@.len() * splat == 0) by (nonlinear_arith)
                requires
                    unit@.len() == 0,
            ;
        }
        return cursor;
    }
    let mut k: usize = 0;
    while k < splat
        invariant
            k <= splat,
            len == old(buf)@.len(),
            at + (front + repeated(unit@, splat as nat)).len() <= len,
            cursor == at + (front + repeated(unit@, k as nat)).len(),
            cursor <= len,
            buf@ == overlaid(old(buf)@, at as int, front + repeated(unit@, k as nat)),
        decreases splat - k,
    {
        proof {
            lemma_repeated_add(unit@, (k + 1) as nat, (splat - k - 1) as nat);
        }
        copy_at(buf, cursor, unit);
        cursor += unit.len();
        k += 1;
    }
    cursor
}

/// How many bytes `data` and `splat` ask for, if that is a `usize`.
pub fn payload_len(data: &[&[u8]], splat: usize) -> (r: Option<usize>)
    requires
        data@.len() > 0,
        heads_fit(views(data@)),
    ensures
        match r {
            Some(n) => n == payload(views(data@), splat as nat).len(),
            None => payload(views(data@), splat as nat).len() > usize::MAX,
        },
{
    let ghost parts = views(data@);
    let ghost firsts = heads(parts);
    let last: usize = data.len() - 1;
    let mut required: usize = 0;
    let mut i: usize = 0;
    while i < last
        invariant
            parts == views(data@),
            firsts == heads(parts),
            last == data@.len() - 1,
            i <= last,
            joined(firsts).len() <= usize::MAX,
            required == joined(firsts.take(i as int)).len(),
        decreases last - i,
    {
        proof {
            lemma_joined_take(firsts, i as int);
        }
        required += data[i].len();
        i += 1;
    }
    assert(firsts.take(last as int) =~= firsts);
    let unit: &[u8] = data[last];
    proof {
        lemma_repeated_len(unit@, splat as nat);
    }
    match unit.len().checked_mul(splat) {
        Some(rest) => required.checked_add(rest),
        None => None,
    }
}

/// Memory of a fixed length, lent by the caller or held by the writer itself.
pub enum Storage<'buf> {
    Borrowed(&'buf mut [u8]),
    Owned(Vec<u8>),
}

impl<'buf> Storage<'buf> {
    /// What the memory holds.
    pub open spec fn bytes(&self) -> Seq<u8> {
        match self {
            Storage::Borrowed(slice) => slice@,
            Storage::Owned(vec) => vec@,
        }
    }

    /// What was lent, if the memory is.
    pub open spec fn loan(&self) -> Option<&'buf mut [u8]> {
        match self {
            Storage::Borrowed(slice) => Some(*slice),
            Storage::Owned(_) => None,
        }
    }

    pub fn as_slice(&self) -> (r: &[u8])
        ensures
            r@ == self.bytes(),
    {
        match self {
            Storage::Borrowed(slice) => &**slice,
            Storage::Owned(vec) => vec.as_slice(),
        }
    }

    pub fn as_mut_slice(&mut self) -> (r: &mut [u8])
        ensures
            r@ == old(self).bytes(),
            final(self).bytes() == final(r)@,
            final(self).loan() is Some == old(self).loan() is Some,
            old(self).loan() is Some ==> final(final(self).loan()->0)@ == final(
                old(self).loan()->0
            )@,
    {
        match self {
            Storage::Borrowed(slice) => &mut **slice,
            Storage::Owned(vec) => vec.as_mut_slice(),
        }
    }
}

} // verus!
