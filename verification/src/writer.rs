//! The buffered writer.

use crate::bytes::{
    heads_fit, lemma_payload_none, lemma_payload_single, lemma_payload_splat, payload, repeated,
    views,
};
use crate::error::Error;
use crate::sink::{conserved, goes_on, nearer, Sink};
use crate::storage::{copy_down, copy_payload, overlaid, payload_len, Storage};
use crate::text::{decimal, push_decimal};
use vstd::arithmetic::mul::lemma_mul_is_distributive_add_other_way;
use vstd::prelude::*;

verus! {

/// A buffered writer. Its methods work on the buffer and turn to the sink behind it
/// only when the buffer cannot hold what is written.
pub struct Writer<'buf, S> {
    storage: Storage<'buf>,
    end: usize,
    backend: Option<Box<S>>,
}

/// `Vec::capacity`: how many elements the vector has room for, which is no less than it
/// holds. Beyond that the allocator decides.
#[verifier::external_body]
pub fn vec_capacity(vec: &Vec<u8>) -> (r: usize)
    ensures
        r >= vec@.len(),
{
    vec.capacity()
}

impl<'buf, S> Writer<'buf, S> {
    /// All of the buffer's memory, staged or not.
    pub closed spec fn memory(&self) -> Seq<u8> {
        self.storage.bytes()
    }

    /// The memory that the caller lent, if the buffer is on such memory.
    pub closed spec fn loan(&self) -> Option<&'buf mut [u8]> {
        self.storage.loan()
    }

    /// How many bytes are staged.
    pub closed spec fn used(&self) -> nat {
        self.end as nat
    }

    /// The sink, unless it has been taken out.
    pub closed spec fn backend(&self) -> Option<S> {
        match self.backend {
            Some(backend) => Some(*backend),
            None => None,
        }
    }

    /// The bytes that were written and have not reached the sink.
    pub open spec fn staged(&self) -> Seq<u8> {
        self.memory().take(self.used() as int)
    }

    /// What is staged lies within the buffer.
    pub open spec fn wf(&self) -> bool {
        self.used() <= self.memory().len() <= usize::MAX
    }

    /// Whether the two hold the same bytes, staged and not, whatever sinks they have.
    pub open spec fn same_buffer(&self, other: Self) -> bool {
        &&& self.memory() == other.memory()
        &&& self.used() == other.used()
        &&& self.loan() == other.loan()
    }

    /// How many of `n` bytes are left when the first of them are the staged ones.
    pub open spec fn beyond(&self, n: nat) -> nat {
        if n > self.used() {
            (n - self.used()) as nat
        } else {
            0
        }
    }

    /// Whether `after` is the writer without its first `n` staged bytes, the others
    /// moved to the front of the buffer.
    pub open spec fn consumed(&self, n: nat, after: Self) -> bool {
        &&& after.backend() == self.backend()
        &&& if n < self.used() {
            &&& after.used() == self.used() - n
            &&& after.memory() == overlaid(self.memory(), 0, self.staged().skip(n as int))
        } else {
            &&& after.used() == 0
            &&& after.memory() == self.memory()
        }
    }

    /// What a sink makes of the answer that it got when it offered the staged bytes and
    /// then others: on an error nothing changes, else the staged bytes that were taken
    /// leave the buffer, and the result is how many of the others were taken.
    pub open spec fn settled(
        &self,
        answer: Result<usize, Error>,
        after: Self,
        r: Result<usize, Error>,
    ) -> bool {
        match answer {
            Ok(n) => self.consumed(n as nat, after) && r is Ok && r->Ok_0 == self.beyond(n as nat),
            Err(_) => after == *self && r == answer,
        }
    }

    /// A writer on `buf`, with nothing staged.
    pub fn from_uninit_slice(buf: &'buf mut [u8], backend: Box<S>) -> (w: Self)
        ensures
            w.wf(),
            w.memory() == old(buf)@,
            w.loan() is Some,
            final(w.loan()->0)@ == final(buf)@,
            w.used() == 0,
            w.backend() == Some(*backend),
    {
        assert(buf@.len() == buf.len());
        Writer { storage: Storage::Borrowed(buf), end: 0, backend: Some(backend) }
    }

    /// A writer on `buf`, with nothing staged.
    pub fn from_slice(buf: &'buf mut [u8], backend: Box<S>) -> (w: Self)
        ensures
            w.wf(),
            w.memory() == old(buf)@,
            w.loan() is Some,
            final(w.loan()->0)@ == final(buf)@,
            w.used() == 0,
            w.backend() == Some(*backend),
    {
        Self::from_uninit_slice(buf, backend)
    }

    /// A writer on memory of its own, `capacity` bytes of it, with nothing staged.
    pub fn with_capacity(capacity: usize, backend: Box<S>) -> (w: Self)
        ensures
            w.wf(),
            w.memory().len() == capacity,
            w.loan() is None,
            w.used() == 0,
            w.backend() == Some(*backend),
    {
        Writer { storage: Storage::Owned(vec![0u8; capacity]), end: 0, backend: Some(backend) }
    }

    /// A writer with as much memory as `buf` has to spare: its capacity, whatever the
    /// allocator made of that, without what it holds. `buf` keeps what it holds.
    pub fn from_vector(buf: &'buf mut Vec<u8>, backend: Box<S>) -> (w: Self)
        ensures
            w.wf(),
            exists|c: usize| #[trigger]
                call_ensures(vec_capacity, (&*old(buf),), c) && w.memory().len() == c - old(
                    buf,
                )@.len(),
            w.loan() is None,
            w.used() == 0,
            w.backend() == Some(*backend),
            *final(buf) == *old(buf),
    {
        let spare: usize = vec_capacity(buf) - buf.len();
        Self::with_capacity(spare, backend)
    }

    /// Once the writer is gone, the memory that was lent to it holds what it left there.
    pub proof fn lemma_returned(self)
        requires
            has_resolved(self),
            self.loan() is Some,
        ensures
            final(self.loan()->0)@ == self.memory(),
    {
    }

    /// How many bytes the buffer can stage.
    pub fn capacity(&self) -> (r: usize)
        requires
            self.wf(),
        ensures
            r == self.memory().len(),
    {
        self.storage.as_slice().len()
    }

    /// How many more bytes the buffer can stage.
    pub fn unused_len(&self) -> (r: usize)
        requires
            self.wf(),
        ensures
            r == self.memory().len() - self.used(),
    {
        self.capacity() - self.end
    }

    /// How many bytes are staged.
    pub fn staged_len(&self) -> (r: usize)
        ensures
            r == self.used(),
    {
        self.end
    }

    pub(crate) fn buf_slice(&self) -> (r: &[u8])
        ensures
            r@ == self.memory(),
    {
        self.storage.as_slice()
    }

    /// The staged bytes.
    pub fn filled(&self) -> (r: &[u8])
        requires
            self.wf(),
        ensures
            r@ == self.staged(),
    {
        vstd::slice::slice_subrange(self.buf_slice(), 0, self.end)
    }

    /// The writer's capacity and how much of it is staged, as text for a programmer.
    pub fn debug_string(&self) -> (r: String)
        requires
            self.wf(),
        ensures
            r@ == "Writer { capacity: "@ + decimal(self.memory().len()) + ", end: "@ + decimal(
                self.used(),
            ) + " }"@,
    {
        let mut text = String::new();
        text.append("Writer { capacity: ");
        push_decimal(&mut text, self.capacity());
        text.append(", end: ");
        push_decimal(&mut text, self.end);
        text.append(" }");
        text
    }

    /// Hands the staged bytes to `f`.
    pub fn with_filled<R>(&self, f: impl FnOnce(&[u8]) -> R) -> (r: R)
        requires
            self.wf(),
            forall|s: &[u8]| s@ == self.staged() ==> #[trigger] f.requires((s,)),
        ensures
            exists|s: &[u8]| s@ == self.staged() && #[trigger] f.ensures((s,), r),
    {
        f(self.filled())
    }

    /// Hands the part of the buffer that is not staged to `f`, which writes to it from
    /// its start and says how many bytes it wrote there: these are then staged.
    pub fn with_unfilled<R>(&mut self, f: impl FnOnce(&mut [u8]) -> (R, usize)) -> (r: R)
        requires
            old(self).wf(),
            forall|tail: &mut [u8]|
                tail@ == old(self).memory().skip(old(self).used() as int) ==> #[trigger] f.requires(
                    (tail,),
                ),
            forall|tail: &mut [u8], out: (R, usize)|
                tail@ == old(self).memory().skip(old(self).used() as int) && #[trigger] f.ensures(
                    (tail,),
                    out,
                ) ==> out.1 <= tail@.len() == final(tail)@.len(),
        ensures
            final(self).wf(),
            final(self).loan() is Some == old(self).loan() is Some,
            old(self).loan() is Some ==> final(final(self).loan()->0)@ == final(
                old(self).loan()->0
            )@,
            final(self).backend() == old(self).backend(),
            exists|tail: &mut [u8], n: usize|
                {
                    &&& tail@ == old(self).memory().skip(old(self).used() as int)
                    &&& #[trigger] f.ensures((tail,), (r, n))
                    &&& final(self).memory() == old(self).staged() + final(tail)@
                    &&& final(self).used() == old(self).used() + n
                },
    {
        let end: usize = self.end;
        let buf = self.storage.as_mut_slice();
        let (_, tail) = buf.split_at_mut(end);
        let (r, n) = f(tail);
        self.end = end + n;
        r
    }

    /// Drops the first `n` staged bytes and moves the others to the front of the
    /// buffer. Where fewer than `n` are staged they all go, and the result is how many
    /// more than these `n` stands for.
    pub fn consume(&mut self, n: usize) -> (r: usize)
        requires
            old(self).wf(),
        ensures
            final(self).wf(),
            final(self).loan() is Some == old(self).loan() is Some,
            old(self).loan() is Some ==> final(final(self).loan()->0)@ == final(
                old(self).loan()->0
            )@,
            old(self).consumed(n as nat, *final(self)),
            r == old(self).beyond(n as nat),
    {
        let end: usize = self.end;
        if n < end {
            let remain: usize = end - n;
            copy_down(self.storage.as_mut_slice(), n, end);
            self.end = remain;
            assert(old(self).memory().subrange(n as int, end as int) =~= old(self).staged().skip(
                n as int,
            ));
            0
        } else {
            let overflow: usize = n - end;
            self.end = 0;
            overflow
        }
    }

    /// Takes from the buffer what was taken of it according to `answer`, the answer that
    /// a sink got when it offered the staged bytes and then others.
    pub fn settle(&mut self, answer: Result<usize, Error>) -> (r: Result<usize, Error>)
        requires
            old(self).wf(),
        ensures
            final(self).wf(),
            final(self).loan() is Some == old(self).loan() is Some,
            old(self).loan() is Some ==> final(final(self).loan()->0)@ == final(
                old(self).loan()->0
            )@,
            old(self).settled(answer, *final(self), r),
            answer is Err ==> r == answer && *final(self) == *old(self),
            answer is Ok ==> r is Ok,
    {
        match answer {
            Ok(wrote) => Ok(self.consume(wrote)),
            Err(e) => Err(e),
        }
    }

    /// Takes the sink out of the writer, hands both to `f`, and puts the sink back.
    pub fn with_backend<R>(&mut self, f: impl FnOnce(&mut S, &mut Self) -> R) -> (r: R)
        requires
            old(self).backend() is Some,
            forall|b: &mut S, w: &mut Self|
                *b == old(self).backend()->0 && w.same_buffer(*old(self)) && w.backend() is None
                    ==> #[trigger] f.requires((b, w)),
        ensures
            exists|b: &mut S, w: &mut Self|
                {
                    &&& *b == old(self).backend()->0
                    &&& w.same_buffer(*old(self))
                    &&& w.backend() is None
                    &&& #[trigger] f.ensures((b, w), r)
                    &&& final(self).same_buffer(*final(w))
                    &&& final(self).backend() == Some(*final(b))
                },
    {
        let mut backend = self.backend.take().expect("backend already taken");
        let b = &mut *backend;
        let out = f(b, self);
        self.backend = Some(backend);
        out
    }

    /// The sink, unless it has been taken out.
    pub fn backend_as(&self) -> (r: Option<&S>)
        ensures
            match r {
                Some(backend) => self.backend() == Some(*backend),
                None => self.backend() is None,
            },
    {
        match &self.backend {
            Some(backend) => Some(&**backend),
            None => None,
        }
    }

    /// The sink, to be changed, unless it has been taken out.
    pub fn backend_as_mut(&mut self) -> (r: Option<&mut S>)
        ensures
            final(self).same_buffer(*old(self)),
            match r {
                Some(backend) => old(self).backend() == Some(*backend) && final(self).backend()
                    == Some(*final(backend)),
                None => old(self).backend() is None && final(self).backend() is None,
            },
    {
        match &mut self.backend {
            Some(backend) => Some(&mut **backend),
            None => None,
        }
    }
}

impl<'buf, S: Sink> Writer<'buf, S> {
    /// Whether the writer has its sink, and everything is in order.
    pub open spec fn ready(&self) -> bool {
        self.wf() && self.backend() is Some && self.backend()->0.ready()
    }

    /// Every byte that was ever given to the writer or to its sink, in order.
    pub open spec fn total(&self) -> Seq<u8> {
        self.backend()->0.received() + self.staged()
    }

    /// How many times bytes in the buffer or in the sink are still to be moved on,
    /// counting each byte each time.
    pub open spec fn held(&self) -> nat {
        self.used() * (1 + S::hops()) + self.backend()->0.held()
    }

    /// Writes every segment of `data` but the last once, then the last one `splat`
    /// times. Copies all of it into the buffer if it fits, else drains what is staged
    /// and it through the sink. Says how many bytes are dealt with.
    pub fn write_vec_splat(&mut self, data: &[&[u8]], splat: usize) -> (r: Result<usize, Error>)
        requires
            old(self).wf(),
            heads_fit(views(data@)),
            payload(views(data@), splat as nat).len() > old(self).memory().len() - old(self).used()
                ==> old(self).ready(),
        ensures
            final(self).wf(),
            old(self).ready() ==> final(self).ready(),
            final(self).memory().len() == old(self).memory().len(),
            final(self).loan() is Some == old(self).loan() is Some,
            old(self).loan() is Some ==> final(final(self).loan()->0)@ == final(
                old(self).loan()->0
            )@,
            ({
                let asked = payload(views(data@), splat as nat);
                asked.len() <= old(self).memory().len() - old(self).used() ==> {
                    &&& r is Ok && r->Ok_0 == asked.len()
                    &&& final(self).backend() == old(self).backend()
                    &&& final(self).used() == old(self).used() + asked.len()
                    &&& final(self).memory() == overlaid(
                        old(self).memory(),
                        old(self).used() as int,
                        asked,
                    )
                }
            }),
            payload(views(data@), splat as nat).len() > old(self).memory().len() - old(self).used()
                ==> exists|b: &mut S, w: &mut Writer<'buf, S>|
                {
                    &&& *b == old(self).backend()->0
                    &&& w.same_buffer(*old(self))
                    &&& w.backend() is None
                    &&& #[trigger] call_ensures(S::drain, (b, w, data, splat), r)
                    &&& final(self).same_buffer(*final(w))
                    &&& final(self).backend() == Some(*final(b))
                },
            payload(views(data@), splat as nat).len() == 0 ==> *final(self) == *old(self),
            conserved(
                old(self).total(),
                final(self).total(),
                payload(views(data@), splat as nat),
                r,
            ),
            final(self).backend()->0.ledger() == old(self).backend()->0.ledger(),
            final(self).backend()->0.received().len() >= old(self).backend()->0.received().len(),
            old(self).backend()->0.infallible() ==> r is Ok && final(
                self
            ).backend()->0.infallible(),
            old(self).backend()->0.flush_infallible() ==> final(
                self
            ).backend()->0.flush_infallible(),
            old(self).backend()->0.steady() ==> final(self).backend()->0.steady(),
            old(self).backend()->0.steady() && r is Ok ==> {
                &&& final(self).held() <= old(self).held() + r->Ok_0 * (1 + S::hops())
                &&& r->Ok_0 == 0 && payload(views(data@), splat as nat).len() > 0 ==> nearer(
                    (old(self).held(), old(self).backend()->0.stalls()),
                    (final(self).held(), final(self).backend()->0.stalls()),
                )
            },
    {
        let ghost asked = payload(views(data@), splat as nat);
        let ghost cost = 1 + S::hops();
        if data.is_empty() {
            proof {
                lemma_payload_none(splat as nat);
                assert(0 * cost == 0);
            }
            return Ok(0);
        }
        let required = payload_len(data, splat);
        if let Some(n) = required {
            if n == 0 {
                assert(0 * cost == 0);
                assert(self.total() + asked.take(0) =~= self.total());
                return Ok(0);
            }
            if n <= self.unused_len() {
                let end = copy_payload(self.storage.as_mut_slice(), self.end, data, splat);
                self.end = end;
                proof {
                    assert(asked.take(n as int) =~= asked);
                    assert(self.total() =~= old(self).total() + asked);
                    lemma_mul_is_distributive_add_other_way(
                        cost as int,
                        old(self).used() as int,
                        n as int,
                    );
                }
                return Ok(n);
            }
        }
        let mut backend = self.backend.take().expect("backend already taken");
        let b = &mut *backend;
        let r = b.drain(self, data, splat);
        self.backend = Some(backend);
        proof {
            if old(self).backend()->0.steady() && r is Ok {
                let n = r->Ok_0 as int;
                let moved = self.backend()->0.received().len() - old(
                    self
                ).backend()->0.received().len();
                assert(old(self).total().len() + n == self.total().len());
                let before = old(self).used() as int;
                let hops = S::hops() as int;
                assert((before + n - moved) * (1 + hops) + moved * hops == before * (1 + hops) + n
                    * (1 + hops) - moved) by (nonlinear_arith);
            }
        }
        r
    }

    /// Writes some first part of `bytes`, all of it if it fits in the buffer, and says
    /// how many bytes are dealt with.
    pub fn write(&mut self, bytes: &[u8]) -> (r: Result<usize, Error>)
        requires
            old(self).wf(),
            bytes@.len() > old(self).memory().len() - old(self).used() ==> old(self).ready(),
        ensures
            final(self).wf(),
            old(self).ready() ==> final(self).ready(),
            final(self).memory().len() == old(self).memory().len(),
            final(self).loan() is Some == old(self).loan() is Some,
            old(self).loan() is Some ==> final(final(self).loan()->0)@ == final(
                old(self).loan()->0
            )@,
            bytes@.len() <= old(self).memory().len() - old(self).used() ==> {
                &&& r is Ok && r->Ok_0 == bytes@.len()
                &&& final(self).backend() == old(self).backend()
                &&& final(self).used() == old(self).used() + bytes@.len()
                &&& final(self).memory() == overlaid(
                    old(self).memory(),
                    old(self).used() as int,
                    bytes@,
                )
            },
            bytes@.len() > old(self).memory().len() - old(self).used() ==> exists|
                b: &mut S,
                w: &mut Writer<'buf, S>,
                data: &[&[u8]],
            |
                {
                    &&& *b == old(self).backend()->0
                    &&& w.same_buffer(*old(self))
                    &&& w.backend() is None
                    &&& views(data@) == seq![bytes@]
                    &&& #[trigger] call_ensures(S::drain, (b, w, data, 1usize), r)
                    &&& final(self).same_buffer(*final(w))
                    &&& final(self).backend() == Some(*final(b))
                },
            conserved(old(self).total(), final(self).total(), bytes@, r),
            final(self).backend()->0.ledger() == old(self).backend()->0.ledger(),
            final(self).backend()->0.received().len() >= old(self).backend()->0.received().len(),
            old(self).backend()->0.infallible() ==> r is Ok && final(
                self
            ).backend()->0.infallible(),
            old(self).backend()->0.flush_infallible() ==> final(
                self
            ).backend()->0.flush_infallible(),
            old(self).backend()->0.steady() ==> final(self).backend()->0.steady(),
            old(self).backend()->0.steady() && r is Ok ==> {
                &&& final(self).held() <= old(self).held() + r->Ok_0 * (1 + S::hops())
                &&& r->Ok_0 == 0 && bytes@.len() > 0 ==> nearer(
                    (old(self).held(), old(self).backend()->0.stalls()),
                    (final(self).held(), final(self).backend()->0.stalls()),
                )
            },
    {
        let data: [&[u8]; 1] = [bytes];
        proof {
            lemma_payload_single(bytes@);
        }
        self.write_vec_splat(data.as_slice(), 1)
    }

    /// Writes all of `bytes`: writes what is left of it again and again until nothing is,
    /// or a write reports an error. The states between these writes form a chain.
    pub fn write_all(&mut self, bytes: &[u8]) -> (r: Result<(), Error>)
        requires
            old(self).wf(),
            bytes@.len() > old(self).memory().len() - old(self).used() ==> {
                &&& old(self).ready()
                &&& old(self).backend()->0.steady()
            },
        ensures
            final(self).wf(),
            old(self).ready() ==> final(self).ready(),
            final(self).memory().len() == old(self).memory().len(),
            final(self).loan() is Some == old(self).loan() is Some,
            old(self).loan() is Some ==> final(final(self).loan()->0)@ == final(
                old(self).loan()->0
            )@,
            exists|states: Seq<Self>, done: Seq<int>|
                #![trigger states.last(), done.last()]
                {
                    &&& states.len() > 0 && states[0] == *old(self)
                    &&& done.len() == states.len() && done[0] == 0
                    &&& forall|i: int| #[trigger]
                        goes_on(i, states.len()) ==> 0 <= done[i] < bytes@.len() && exists|
                            w: &mut Self,
                            rest: &[u8],
                            n: usize,
                        |
                            {
                                &&& *w == states[i]
                                &&& rest@ == bytes@.skip(done[i])
                                &&& #[trigger] call_ensures(
                                    Self::write,
                                    (w, rest),
                                    Ok::<usize, Error>(n),
                                )
                                &&& *final(w) == states[i + 1]
                                &&& done[i + 1] == done[i] + n
                            }
                    &&& match r {
                        Ok(()) => done.last() == bytes@.len() && *final(self) == states.last(),
                        Err(e) => 0 <= done.last() < bytes@.len() && exists|
                            w: &mut Self,
                            rest: &[u8],
                        |
                            {
                                &&& *w == states.last()
                                &&& rest@ == bytes@.skip(done.last())
                                &&& #[trigger] call_ensures(
                                    Self::write,
                                    (w, rest),
                                    Err::<usize, Error>(e),
                                )
                                &&& *final(self) == *final(w)
                            },
                    }
                },
            bytes@.len() > 0 ==> exists|w: &mut Self, rest: &[u8], answer: Result<usize, Error>|
                {
                    &&& *w == *old(self)
                    &&& rest@ == bytes@
                    &&& #[trigger] call_ensures(Self::write, (w, rest), answer)
                    &&& match answer {
                        Ok(n) => n == bytes@.len() ==> r is Ok && *final(self) == *final(w),
                        Err(e) => r == Err::<(), Error>(e) && *final(self) == *final(w),
                    }
                },
            r is Ok ==> final(self).total() == old(self).total() + bytes@,
            r is Err ==> exists|m: int|
                0 <= m < bytes@.len() && final(self).total() == old(self).total()
                    + #[trigger] bytes@.take(m),
            bytes@.len() <= old(self).memory().len() - old(self).used() ==> {
                &&& r is Ok
                &&& final(self).backend() == old(self).backend()
                &&& final(self).used() == old(self).used() + bytes@.len()
                &&& final(self).memory() == overlaid(
                    old(self).memory(),
                    old(self).used() as int,
                    bytes@,
                )
            },
            final(self).backend()->0.ledger() == old(self).backend()->0.ledger(),
            final(self).backend()->0.received().len() >= old(self).backend()->0.received().len(),
            old(self).backend()->0.infallible() ==> r is Ok && final(
                self
            ).backend()->0.infallible(),
            old(self).backend()->0.flush_infallible() ==> final(
                self
            ).backend()->0.flush_infallible(),
            old(self).backend()->0.steady() ==> final(self).backend()->0.steady(),
    {
        let ghost all = bytes@;
        let ghost mut states = seq![*self];
        let ghost mut counts = seq![0int];
        let mut done: usize = 0;
        while done < bytes.len()
            invariant
                all == bytes@,
                done <= all.len(),
                states.len() > 0,
                counts.len() == states.len(),
                states[0] == *old(self),
                counts[0] == 0,
                states.last() == *self,
                counts.last() == done,
                forall|i: int| #[trigger]
                    goes_on(i, states.len()) ==> 0 <= counts[i] < bytes@.len() && exists|
                        w: &mut Self,
                        rest: &[u8],
                        n: usize,
                    |
                        {
                            &&& *w == states[i]
                            &&& rest@ == bytes@.skip(counts[i])
                            &&& #[trigger] call_ensures(
                                Self::write,
                                (w, rest),
                                Ok::<usize, Error>(n),
                            )
                            &&& *final(w) == states[i + 1]
                            &&& counts[i + 1] == counts[i] + n
                        },
                self.wf(),
                old(self).ready() ==> self.ready(),
                self.memory().len() == old(self).memory().len(),
                self.loan() is Some == old(self).loan() is Some,
                old(self).loan() is Some ==> final(self.loan()->0)@ == final(old(self).loan()->0)@,
                self.total() == old(self).total() + all.take(done as int),
                all.len() <= old(self).memory().len() - old(self).used() && done == 0 ==> *self
                    == *old(self),
                all.len() <= old(self).memory().len() - old(self).used() && done > 0 ==> {
                    &&& done == all.len()
                    &&& self.backend() == old(self).backend()
                    &&& self.used() == old(self).used() + all.len()
                    &&& self.memory() == overlaid(old(self).memory(), old(self).used() as int, all)
                },
                self.backend()->0.ledger() == old(self).backend()->0.ledger(),
                self.backend()->0.received().len() >= old(self).backend()->0.received().len(),
                old(self).backend()->0.infallible() ==> self.backend()->0.infallible(),
                old(self).backend()->0.flush_infallible() ==> self.backend()->0.flush_infallible(),
                old(self).backend()->0.steady() ==> self.backend()->0.steady(),
                all.len() > old(self).memory().len() - old(self).used() ==> {
                    &&& old(self).ready()
                    &&& old(self).backend()->0.steady()
                },
            decreases all.len() - done, self.held(), self.backend()->0.stalls(),
        {
            let rest: &[u8] = vstd::slice::slice_subrange(bytes, done, bytes.len());
            let ghost before = (states, counts);
            match self.write(rest) {
                Ok(n) => {
                    done += n;
                    proof {
                        states = states.push(*self);
                        counts = counts.push(done as int);
                        assert forall|i: int| #[trigger] goes_on(i, states.len()) implies 0
                            <= counts[i] < bytes@.len() && exists|
                            w: &mut Self,
                            rest: &[u8],
                            n: usize,
                        |
                            {
                                &&& *w == states[i]
                                &&& rest@ == bytes@.skip(counts[i])
                                &&& #[trigger] call_ensures(
                                    Self::write,
                                    (w, rest),
                                    Ok::<usize, Error>(n),
                                )
                                &&& *final(w) == states[i + 1]
                                &&& counts[i + 1] == counts[i] + n
                            } by {
                            if goes_on(i, before.0.len()) {
                                assert(states[i] == before.0[i]);
                                assert(states[i + 1] == before.0[i + 1]);
                            } else {
                                assert(states[i] == before.0.last() && states[i + 1] == *self);
                            }
                        }
                    }
                },
                Err(e) => {
                    assert(goes_on(0, states.len()) || states.len() == 1);
                    assert(goes_on(1, states.len()) || states.len() <= 2);
                    return Err(e);
                },
            }
        }
        assert(states.last() == *self && counts.last() == bytes@.len());
        assert(goes_on(0, states.len()) || states.len() == 1);
        assert(goes_on(1, states.len()) || states.len() <= 2);
        Ok(())
    }

    /// Writes `unit` over and over, `count` times, unless the sink takes less: it is
    /// asked once and not again.
    pub fn splat_all(&mut self, unit: &[u8], count: usize) -> (r: Result<(), Error>)
        requires
            old(self).wf(),
            repeated(unit@, count as nat).len() > old(self).memory().len() - old(self).used()
                ==> old(self).ready(),
        ensures
            final(self).wf(),
            old(self).ready() ==> final(self).ready(),
            final(self).memory().len() == old(self).memory().len(),
            final(self).loan() is Some == old(self).loan() is Some,
            old(self).loan() is Some ==> final(final(self).loan()->0)@ == final(
                old(self).loan()->0
            )@,
            repeated(unit@, count as nat).len() <= old(self).memory().len() - old(self).used() ==> {
                &&& r is Ok
                &&& final(self).backend() == old(self).backend()
                &&& final(self).used() == old(self).used() + repeated(unit@, count as nat).len()
                &&& final(self).memory() == overlaid(
                    old(self).memory(),
                    old(self).used() as int,
                    repeated(unit@, count as nat),
                )
            },
            repeated(unit@, count as nat).len() > old(self).memory().len() - old(self).used()
                ==> exists|
                b: &mut S,
                w: &mut Writer<'buf, S>,
                data: &[&[u8]],
                answer: Result<usize, Error>,
            |
                {
                    &&& *b == old(self).backend()->0
                    &&& w.same_buffer(*old(self))
                    &&& w.backend() is None
                    &&& views(data@) == seq![unit@]
                    &&& #[trigger] call_ensures(S::drain, (b, w, data, count), answer)
                    &&& final(self).same_buffer(*final(w))
                    &&& final(self).backend() == Some(*final(b))
                    &&& match answer {
                        Ok(_) => r is Ok,
                        Err(e) => r == Err::<(), Error>(e),
                    }
                },
            exists|n: int|
                {
                    &&& 0 <= n <= repeated(unit@, count as nat).len()
                    &&& final(self).total() == old(self).total() + #[trigger] repeated(
                        unit@,
                        count as nat,
                    ).take(n)
                    &&& r is Err ==> n == 0
                },
            final(self).backend()->0.ledger() == old(self).backend()->0.ledger(),
            final(self).backend()->0.received().len() >= old(self).backend()->0.received().len(),
            old(self).backend()->0.infallible() ==> r is Ok && final(
                self
            ).backend()->0.infallible(),
            old(self).backend()->0.flush_infallible() ==> final(
                self
            ).backend()->0.flush_infallible(),
            old(self).backend()->0.steady() ==> final(self).backend()->0.steady(),
    {
        if count == 0 {
            proof {
                let none = repeated(unit@, 0);
                assert(self.total() + none.take(0) =~= self.total());
            }
            return Ok(());
        }
        let data: [&[u8]; 1] = [unit];
        proof {
            lemma_payload_splat(unit@, count as nat);
        }
        match self.write_vec_splat(data.as_slice(), count) {
            Ok(_) => Ok(()),
            Err(e) => {
                assert(old(self).total() + repeated(unit@, count as nat).take(0) =~= old(
                    self
                ).total());
                Err(e)
            },
        }
    }

    /// Lets the sink receive everything that is staged, and pass on what it has.
    pub fn flush(&mut self) -> (r: Result<(), Error>)
        requires
            old(self).ready(),
            S::patient() ==> old(self).backend()->0.steady(),
        ensures
            final(self).ready(),
            final(self).memory().len() == old(self).memory().len(),
            final(self).loan() is Some == old(self).loan() is Some,
            old(self).loan() is Some ==> final(final(self).loan()->0)@ == final(
                old(self).loan()->0
            )@,
            exists|b: &mut S, w: &mut Writer<'buf, S>|
                {
                    &&& *b == old(self).backend()->0
                    &&& w.same_buffer(*old(self))
                    &&& w.backend() is None
                    &&& #[trigger] call_ensures(S::flush, (b, w), r)
                    &&& final(self).same_buffer(*final(w))
                    &&& final(self).backend() == Some(*final(b))
                },
            final(self).total() == old(self).total(),
            r is Ok ==> final(self).used() == 0 && final(self).backend()->0.received() == old(
                self
            ).total(),
            final(self).backend()->0.ledger() == old(self).backend()->0.ledger(),
            final(self).backend()->0.received().len() >= old(self).backend()->0.received().len(),
            old(self).backend()->0.infallible() ==> final(self).backend()->0.infallible(),
            S::patient() && old(self).backend()->0.infallible() && old(
                self
            ).backend()->0.flush_infallible() ==> r is Ok,
            old(self).backend()->0.flush_infallible() ==> final(
                self
            ).backend()->0.flush_infallible(),
            old(self).backend()->0.steady() ==> final(self).backend()->0.steady(),
    {
        let mut backend = self.backend.take().expect("backend already taken");
        let b = &mut *backend;
        let r = b.flush(self);
        self.backend = Some(backend);
        r
    }
}

/// What stays staged, once the first `n` bytes are consumed.
pub proof fn lemma_consumed_staged<'buf, S>(before: Writer<'buf, S>, n: nat, after: Writer<'buf, S>)
    requires
        before.wf(),
        before.consumed(n, after),
    ensures
        after.memory().len() == before.memory().len(),
        after.staged() == before.staged().skip(if n < before.used() {
            n as int
        } else {
            before.used() as int
        }),
{
}

} // verus!
