//! Where bytes end up: the writers that a sink can be made of.

use crate::bytes::{foremost, joined, lemma_joined_take, views};
use crate::error::Error;
use vstd::prelude::*;

verus! {

/// A destination for bytes, which may take only some of what it is offered.
///
/// An implementation says in the specification functions what it holds and how it
/// behaves. The defaults promise nothing, and one that takes any byte has to say what
/// [`Write::written`] is.
pub trait Write: Sized {
    /// Every byte that the writer has taken so far.
    open spec fn written(&self) -> Seq<u8> {
        arbitrary()
    }

    /// Whether every byte taken so far has also been passed on by [`Write::sync`],
    /// to wherever this writer puts its bytes.
    open spec fn settled(&self) -> bool {
        false
    }

    /// Whether the writer, as long as it reports no error, gets on: it answers an
    /// offer of bytes by taking none of them only finitely often in a row.
    open spec fn steady(&self) -> bool {
        false
    }

    /// For a steady writer, a bound on how often in a row it will now take nothing.
    open spec fn stalls(&self) -> nat {
        0
    }

    /// Whether the writer never reports an error.
    open spec fn infallible(&self) -> bool {
        false
    }

    /// Takes some first part of `buf` and says how long it is. On an error nothing
    /// was taken.
    fn write(&mut self, buf: &[u8]) -> (r: Result<usize, Error>)
        ensures
            match r {
                Ok(n) => n <= buf@.len() && final(self).written() == old(self).written()
                    + buf@.take(n as int),
                Err(_) => final(self).written() == old(self).written(),
            },
            old(self).infallible() ==> r is Ok && final(self).infallible(),
            old(self).steady() ==> final(self).steady(),
            old(self).steady() && r is Ok && r->Ok_0 == 0 && buf@.len() > 0
                ==> final(self).stalls() < old(self).stalls(),
    ;

    /// Like [`Write::write`], of all the slices one after the other. Unless the writer
    /// has a better way, it is offered the first slice that is not empty.
    fn write_vectored(&mut self, bufs: &[&[u8]]) -> (r: Result<usize, Error>)
        ensures
            match r {
                Ok(n) => n <= joined(views(bufs@)).len() && final(self).written() == old(
                    self,
                ).written() + joined(views(bufs@)).take(n as int),
                Err(_) => final(self).written() == old(self).written(),
            },
            old(self).infallible() ==> r is Ok && final(self).infallible(),
            old(self).steady() ==> final(self).steady(),
            old(self).steady() && r is Ok && r->Ok_0 == 0 && joined(views(bufs@)).len() > 0
                ==> final(self).stalls() < old(self).stalls(),
        default_ensures
            exists|o: &mut Self, buf: &[u8]|
                {
                    &&& *o == *old(self)
                    &&& foremost(views(bufs@), buf@)
                    &&& forall|i: int|
                        {
                            &&& 0 <= i < bufs@.len()
                            &&& (#[trigger] bufs@[i])@.len() > 0
                            &&& forall|j: int| 0 <= j < i ==> (#[trigger] bufs@[j])@.len() == 0
                        } ==> buf@ == bufs@[i]@
                    &&& #[trigger] call_ensures(Self::write, (o, buf), r)
                    &&& *final(self) == *final(o)
                },
    {
        let buf = first_nonempty(bufs);
        self.write(buf)
    }

    /// Passes on whatever has been taken and not yet put where it belongs.
    fn sync(&mut self) -> (r: Result<(), Error>)
        ensures
            final(self).written() == old(self).written(),
            r is Ok ==> final(self).settled(),
            old(self).infallible() ==> r is Ok && final(self).infallible(),
            old(self).steady() ==> final(self).steady(),
    ;
}

/// The first slice that is not empty, or an empty one if they all are.
pub fn first_nonempty<'a>(bufs: &[&'a [u8]]) -> (r: &'a [u8])
    ensures
        r@.is_prefix_of(joined(views(bufs@))),
        r@.len() == 0 <==> joined(views(bufs@)).len() == 0,
        foremost(views(bufs@), r@),
        forall|i: int|
            {
                &&& 0 <= i < bufs@.len()
                &&& (#[trigger] bufs@[i])@.len() > 0
                &&& forall|j: int| 0 <= j < i ==> (#[trigger] bufs@[j])@.len() == 0
            } ==> r@ == bufs@[i]@,
{
    let ghost parts = views(bufs@);
    let mut i: usize = 0;
    while i < bufs.len()
        invariant
            parts == views(bufs@),
            i <= bufs@.len(),
            joined(parts.take(i as int)).len() == 0,
            forall|j: int| 0 <= j < i ==> (#[trigger] parts[j]).len() == 0,
            forall|j: int| 0 <= j < i ==> (#[trigger] bufs@[j])@.len() == 0,
        decreases bufs@.len() - i,
    {
        proof {
            lemma_joined_take(parts, i as int);
        }
        let buf: &'a [u8] = bufs[i];
        if !buf.is_empty() {
            assert(parts[i as int] == buf@);
            return buf;
        }
        i += 1;
    }
    assert(parts.take(bufs@.len() as int) =~= parts);
    &[]
}

/// A vector takes every byte at once, by growing, and never fails.
impl Write for Vec<u8> {
    open spec fn written(&self) -> Seq<u8> {
        self@
    }

    open spec fn settled(&self) -> bool {
        true
    }

    open spec fn steady(&self) -> bool {
        true
    }

    open spec fn stalls(&self) -> nat {
        0
    }

    open spec fn infallible(&self) -> bool {
        true
    }

    fn write(&mut self, buf: &[u8]) -> (r: Result<usize, Error>)
        ensures
            r == Ok::<usize, Error>(buf.len()),
            final(self)@ == old(self)@ + buf@,
    {
        self.extend_from_slice(buf);
        Ok(buf.len())
    }

    fn write_vectored(&mut self, bufs: &[&[u8]]) -> (r: Result<usize, Error>)
        ensures
            r is Ok && r->Ok_0 == joined(views(bufs@)).len(),
            final(self)@ == old(self)@ + joined(views(bufs@)),
    {
        let ghost parts = views(bufs@);
        let before: usize = self.len();
        let mut i: usize = 0;
        while i < bufs.len()
            invariant
                parts == views(bufs@),
                i <= bufs@.len(),
                before == old(self)@.len(),
                self@ == old(self)@ + joined(parts.take(i as int)),
            decreases bufs@.len() - i,
        {
            self.extend_from_slice(bufs[i]);
            proof {
                lemma_joined_take(parts, i as int);
            }
            i += 1;
        }
        assert(parts.take(bufs@.len() as int) =~= parts);
        Ok(self.len() - before)
    }

    fn sync(&mut self) -> (r: Result<(), Error>)
        ensures
            r is Ok,
            *final(self) == *old(self),
    {
        Ok(())
    }
}

} // verus!
