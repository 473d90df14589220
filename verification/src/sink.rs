//! What lies behind a writer's buffer.

use crate::bytes::{
    copies, gathered, heads, heads_fit, lemma_gathered_staged, lemma_joined_gathered,
    lemma_payload_splat, nonempty, payload, views,
};
use crate::error::Error;
use crate::write::Write;
use crate::writer::{lemma_consumed_staged, Writer};
use vstd::prelude::*;

verus! {

/// The account that a sink keeps of its own, of the bytes it receives: `seed`, then
/// every byte received from position `mark` on.
#[verifier::ext_equal]
pub struct Ledger {
    pub seed: Seq<u8>,
    pub mark: nat,
}

impl Ledger {
    /// The account of a sink that has kept it from its first byte on.
    pub open spec fn from_start() -> Ledger {
        Ledger { seed: Seq::empty(), mark: 0 }
    }

    /// What the account amounts to, once the sink has received `received`.
    pub open spec fn balance(self, received: Seq<u8>) -> Seq<u8> {
        self.seed + received.skip(self.mark as int)
    }
}

/// What a write makes of all the bytes that writer and sink have been given: on
/// success some first part of what was asked for is added at their end, and the result
/// says how long it is; on an error nothing is.
pub open spec fn conserved(
    before: Seq<u8>,
    after: Seq<u8>,
    asked: Seq<u8>,
    r: Result<usize, Error>,
) -> bool {
    match r {
        Ok(n) => n <= asked.len() && after == before + asked.take(n as int),
        Err(_) => after == before,
    }
}

/// Whether less is still to be moved on, or as much, with fewer delays ahead.
pub open spec fn nearer(before: (nat, nat), after: (nat, nat)) -> bool {
    after.0 < before.0 || after.0 == before.0 && after.1 < before.1
}

/// Whether a chain of `count` states, each made of the one before it by one call, goes on
/// from the state with index `i`.
pub open spec fn goes_on(i: int, count: nat) -> bool {
    0 <= i && i + 1 < count
}

/// The other side of a [`Writer`]: what it hands its bytes to when the buffer is full.
///
/// An implementation says in the specification functions what it holds and how it
/// behaves. The defaults promise nothing, and one that takes any byte has to say what
/// [`Sink::received`] is.
pub trait Sink: Sized {
    /// Whether the sink can be drained into and flushed.
    open spec fn ready(&self) -> bool {
        true
    }

    /// Every byte that the sink has received so far.
    open spec fn received(&self) -> Seq<u8> {
        arbitrary()
    }

    /// The account that the sink keeps of these bytes. Neither a drain nor a flush
    /// changes it.
    open spec fn ledger(&self) -> Ledger {
        Ledger::from_start()
    }

    /// Whether the sink, as long as it reports no error, gets on: however often it is
    /// drained into, it does not leave everything as it was for ever.
    open spec fn steady(&self) -> bool {
        false
    }

    /// How many times bytes that the sink has received are still to be moved on
    /// within it, counting each byte each time.
    open spec fn held(&self) -> nat {
        0
    }

    /// How often a byte is moved on within the sink, at most.
    open spec fn hops() -> nat {
        0
    }

    /// For a steady sink, a bound on how often in a row a drain will now move nothing.
    open spec fn stalls(&self) -> nat {
        0
    }

    /// Whether no drain ever reports an error.
    open spec fn infallible(&self) -> bool {
        false
    }

    /// Whether what a flush does when nothing is staged any more never reports an error.
    open spec fn flush_infallible(&self) -> bool {
        false
    }

    /// Whether a flush waits until nothing is staged, however often it has to drain. One
    /// that does not wait drains once and reports the bytes that are left.
    open spec fn patient() -> bool {
        true
    }

    /// Whether a drain can be given no segments at all.
    open spec fn takes_no_segments() -> bool {
        false
    }

    /// Receives some first part of what is staged in `w` and of what `data` and `splat`
    /// ask for, in this order, and takes the former out of the buffer. Says how many
    /// bytes of the latter are dealt with.
    fn drain(&mut self, w: &mut Writer<'_, Self>, data: &[&[u8]], splat: usize) -> (r: Result<
        usize,
        Error,
    >)
        requires
            old(self).ready(),
            old(w).wf(),
            data@.len() > 0 || Self::takes_no_segments(),
            heads_fit(views(data@)),
        ensures
            final(self).ready(),
            final(w).wf(),
            final(w).backend() == old(w).backend(),
            final(w).memory().len() == old(w).memory().len(),
            final(w).loan() is Some == old(w).loan() is Some,
            old(w).loan() is Some ==> final(final(w).loan()->0)@ == final(
                old(w).loan()->0
            )@,
            final(self).ledger() == old(self).ledger(),
            final(self).received().len() >= old(self).received().len(),
            conserved(
                old(self).received() + old(w).staged(),
                final(self).received() + final(w).staged(),
                payload(views(data@), splat as nat),
                r,
            ),
            old(self).infallible() ==> r is Ok && final(self).infallible(),
            old(self).flush_infallible() ==> final(self).flush_infallible(),
            old(self).steady() ==> final(self).steady(),
            old(self).steady() && r is Ok ==> {
                let moved = final(self).received().len() - old(self).received().len();
                let asked = payload(views(data@), splat as nat);
                &&& final(self).held() <= old(self).held() + moved * Self::hops()
                &&& moved == 0 && r->Ok_0 == 0 && old(w).used() + asked.len() > 0 ==> nearer(
                    (old(self).held(), old(self).stalls()),
                    (final(self).held(), final(self).stalls()),
                )
            },
    ;

    /// Whether a flush waits until nothing is staged.
    fn is_patient() -> (r: bool)
        ensures
            r == Self::patient(),
    ;

    /// Receives everything that is staged in `w`, and passes on what the sink itself
    /// has not passed on yet. Unless the sink has more to do, it is drained into and no
    /// more.
    fn flush(&mut self, w: &mut Writer<'_, Self>) -> (r: Result<(), Error>)
        requires
            old(self).ready(),
            Self::patient() ==> old(self).steady(),
            old(w).wf(),
        ensures
            final(self).ready(),
            final(w).wf(),
            final(w).backend() == old(w).backend(),
            final(w).memory().len() == old(w).memory().len(),
            final(w).loan() is Some == old(w).loan() is Some,
            old(w).loan() is Some ==> final(final(w).loan()->0)@ == final(
                old(w).loan()->0
            )@,
            final(self).ledger() == old(self).ledger(),
            final(self).received().len() >= old(self).received().len(),
            final(self).received() + final(w).staged() == old(self).received() + old(w).staged(),
            r is Ok ==> final(w).used() == 0,
            Self::patient() && old(self).infallible() && old(self).flush_infallible() ==> r is Ok,
            old(self).infallible() ==> final(self).infallible(),
            old(self).flush_infallible() ==> final(self).flush_infallible(),
            old(self).steady() ==> final(self).steady(),
        default_ensures
            Self::patient() ==> exists|b: &mut Self, v: &mut Writer<'_, Self>|
                {
                    &&& *b == *old(self) && *v == *old(w)
                    &&& #[trigger] call_ensures(Self::flush_staged, (b, v), r)
                    &&& *final(self) == *final(b) && *final(w) == *final(v)
                },
            !Self::patient() ==> exists|b: &mut Self, v: &mut Writer<'_, Self>|
                {
                    &&& *b == *old(self) && *v == *old(w)
                    &&& #[trigger] call_ensures(Self::flush_once, (b, v), r)
                    &&& *final(self) == *final(b) && *final(w) == *final(v)
                },
    {
        if Self::is_patient() {
            self.flush_staged(w)
        } else {
            self.flush_once(w)
        }
    }

    /// Drains what is staged in `w` once, and reports it if that leaves bytes staged.
    fn flush_once<'w>(&mut self, w: &mut Writer<'w, Self>) -> (r: Result<(), Error>)
        requires
            old(self).ready(),
            old(w).wf(),
        ensures
            final(self).ready(),
            final(w).wf(),
            final(w).backend() == old(w).backend(),
            final(w).memory().len() == old(w).memory().len(),
            final(w).loan() is Some == old(w).loan() is Some,
            old(w).loan() is Some ==> final(final(w).loan()->0)@ == final(
                old(w).loan()->0
            )@,
            final(self).ledger() == old(self).ledger(),
            final(self).received().len() >= old(self).received().len(),
            final(self).received() + final(w).staged() == old(self).received() + old(w).staged(),
            old(self).infallible() ==> final(self).infallible(),
            old(self).flush_infallible() ==> final(self).flush_infallible(),
            old(self).steady() ==> final(self).steady(),
            old(w).used() == 0 ==> {
                &&& r is Ok
                &&& *final(self) == *old(self)
                &&& *final(w) == *old(w)
            },
            old(w).used() > 0 ==> exists|
                b: &mut Self,
                v: &mut Writer<'w, Self>,
                data: &[&[u8]],
                answer: Result<usize, Error>,
            |
                {
                    &&& *b == *old(self) && *v == *old(w)
                    &&& views(data@) == seq![Seq::<u8>::empty()]
                    &&& #[trigger] call_ensures(Self::drain, (b, v, data, 0usize), answer)
                    &&& *final(self) == *final(b) && *final(w) == *final(v)
                    &&& match answer {
                        Ok(_) => r == if final(w).used() > 0 {
                            Err::<(), Error>(Error::WriteZero)
                        } else {
                            Ok::<(), Error>(())
                        },
                        Err(e) => r == Err::<(), Error>(e),
                    }
                },
    {
        if w.staged_len() == 0 {
            return Ok(());
        }
        let none: &[u8] = &[];
        let data: [&[u8]; 1] = [none];
        proof {
            assert(none@ =~= Seq::<u8>::empty());
            assert(views(data@) =~= seq![none@]);
            lemma_payload_splat(none@, 0);
        }
        match self.drain(w, data.as_slice(), 0) {
            Ok(_) => if w.staged_len() != 0 {
                Err(Error::WriteZero)
            } else {
                Ok(())
            },
            Err(e) => Err(e),
        }
    }

    /// Drains what is staged in `w` until nothing is, or a drain reports an error. The
    /// states between these drains form a chain.
    fn flush_staged<'w>(&mut self, w: &mut Writer<'w, Self>) -> (r: Result<(), Error>)
        requires
            old(self).ready(),
            old(self).steady(),
            old(w).wf(),
        ensures
            final(self).ready(),
            final(w).wf(),
            final(w).backend() == old(w).backend(),
            final(w).memory().len() == old(w).memory().len(),
            final(w).loan() is Some == old(w).loan() is Some,
            old(w).loan() is Some ==> final(final(w).loan()->0)@ == final(
                old(w).loan()->0
            )@,
            final(self).ledger() == old(self).ledger(),
            final(self).received().len() >= old(self).received().len(),
            final(self).received() + final(w).staged() == old(self).received() + old(w).staged(),
            r is Ok ==> final(w).used() == 0,
            exists|sinks: Seq<Self>, writers: Seq<Writer<'w, Self>>|
                #![trigger sinks.last(), writers.last()]
                {
                    &&& sinks.len() > 0 && sinks[0] == *old(self)
                    &&& writers.len() == sinks.len() && writers[0] == *old(w)
                    &&& forall|i: int| #[trigger]
                        goes_on(i, sinks.len()) ==> writers[i].used() > 0 && exists|
                            b: &mut Self,
                            v: &mut Writer<'w, Self>,
                            data: &[&[u8]],
                            n: usize,
                        |
                            {
                                &&& *b == sinks[i] && *v == writers[i]
                                &&& views(data@) == seq![Seq::<u8>::empty()]
                                &&& #[trigger] call_ensures(
                                    Self::drain,
                                    (b, v, data, 0usize),
                                    Ok::<usize, Error>(n),
                                )
                                &&& *final(b) == sinks[i + 1] && *final(v) == writers[i + 1]
                            }
                    &&& match r {
                        Ok(()) => {
                            &&& writers.last().used() == 0
                            &&& *final(self) == sinks.last() && *final(w) == writers.last()
                        },
                        Err(e) => writers.last().used() > 0 && exists|
                            b: &mut Self,
                            v: &mut Writer<'w, Self>,
                            data: &[&[u8]],
                        |
                            {
                                &&& *b == sinks.last() && *v == writers.last()
                                &&& views(data@) == seq![Seq::<u8>::empty()]
                                &&& #[trigger] call_ensures(
                                    Self::drain,
                                    (b, v, data, 0usize),
                                    Err::<usize, Error>(e),
                                )
                                &&& *final(self) == *final(b) && *final(w) == *final(v)
                            },
                    }
                },
            old(w).used() == 0 ==> {
                &&& r is Ok
                &&& *final(self) == *old(self)
                &&& *final(w) == *old(w)
            },
            old(w).used() > 0 ==> exists|
                b: &mut Self,
                v: &mut Writer<'w, Self>,
                data: &[&[u8]],
                answer: Result<usize, Error>,
            |
                {
                    &&& *b == *old(self) && *v == *old(w)
                    &&& views(data@) == seq![Seq::<u8>::empty()]
                    &&& #[trigger] call_ensures(Self::drain, (b, v, data, 0usize), answer)
                    &&& answer is Err || final(v).used() == 0 ==> {
                        &&& r == match answer {
                            Ok(_) => Ok::<(), Error>(()),
                            Err(e) => Err::<(), Error>(e),
                        }
                        &&& *final(self) == *final(b)
                        &&& *final(w) == *final(v)
                    }
                },
            old(self).infallible() ==> r is Ok && final(self).infallible(),
            old(self).flush_infallible() ==> final(self).flush_infallible(),
            final(self).steady(),
    {
        let ghost mut sinks = seq![*self];
        let ghost mut writers = seq![*w];
        let none: &[u8] = &[];
        let data: [&[u8]; 1] = [none];
        proof {
            assert(none@ =~= Seq::<u8>::empty());
            assert(views(data@) =~= seq![none@]);
            lemma_payload_splat(none@, 0);
        }
        while w.staged_len() != 0
            invariant
                heads_fit(views(data@)),
                views(data@) == seq![Seq::<u8>::empty()],
                payload(views(data@), 0).len() == 0,
                self.ready(),
                self.steady(),
                w.wf(),
                w.backend() == old(w).backend(),
                w.memory().len() == old(w).memory().len(),
                w.loan() is Some == old(w).loan() is Some,
                old(w).loan() is Some ==> final(w.loan()->0)@ == final(old(w).loan()->0)@,
                self.ledger() == old(self).ledger(),
                self.received().len() >= old(self).received().len(),
                self.received() + w.staged() == old(self).received() + old(w).staged(),
                old(self).infallible() ==> self.infallible(),
                old(self).flush_infallible() ==> self.flush_infallible(),
                sinks.len() > 0,
                writers.len() == sinks.len(),
                sinks[0] == *old(self),
                writers[0] == *old(w),
                sinks.last() == *self,
                writers.last() == *w,
                forall|i: int| #[trigger]
                    goes_on(i, sinks.len()) ==> writers[i].used() > 0 && exists|
                        b: &mut Self,
                        v: &mut Writer<'w, Self>,
                        data: &[&[u8]],
                        n: usize,
                    |
                        {
                            &&& *b == sinks[i] && *v == writers[i]
                            &&& views(data@) == seq![Seq::<u8>::empty()]
                            &&& #[trigger] call_ensures(
                                Self::drain,
                                (b, v, data, 0usize),
                                Ok::<usize, Error>(n),
                            )
                            &&& *final(b) == sinks[i + 1] && *final(v) == writers[i + 1]
                        },
            decreases w.used(), self.held(), self.stalls(),
        {
            let ghost before = (sinks, writers);
            if let Err(e) = self.drain(w, data.as_slice(), 0) {
                assert(goes_on(0, sinks.len()) || sinks.len() == 1);
                assert(goes_on(1, sinks.len()) || sinks.len() <= 2);
                return Err(e);
            }
            proof {
                sinks = sinks.push(*self);
                writers = writers.push(*w);
                assert forall|i: int| #[trigger] goes_on(i, sinks.len()) implies goes_on(
                    i,
                    before.0.len(),
                ) || sinks[i] == before.0.last() && writers[i] == before.1.last() by {
                }
            }
        }
        assert(sinks.last() == *self && writers.last() == *w);
        assert(goes_on(0, sinks.len()) || sinks.len() == 1);
        assert(goes_on(1, sinks.len()) || sinks.len() <= 2);
        Ok(())
    }
}

/// The slices for one vectored write of the staged bytes and of what `data` and `splat`
/// ask for.
pub fn gather<'a>(staged: &'a [u8], data: &[&'a [u8]], splat: usize) -> (r: Vec<&'a [u8]>)
    requires
        data@.len() > 0,
    ensures
        views(r@) == gathered(staged@, views(data@), splat as nat),
{
    let ghost parts = views(data@);
    let ghost first = nonempty(seq![staged@]);
    let mut slices: Vec<&'a [u8]> = Vec::new();
    if !staged.is_empty() {
        slices.push(staged);
    }
    assert(nonempty(seq![staged@].drop_last()) =~= Seq::<Seq<u8>>::empty());
    let last: usize = data.len() - 1;
    let mut i: usize = 0;
    while i < last
        invariant
            parts == views(data@),
            last == data@.len() - 1,
            i <= last,
            heads(parts).len() == last,
            views(slices@) == first + nonempty(heads(parts).take(i as int)),
        decreases last - i,
    {
        let segment: &'a [u8] = data[i];
        let ghost sofar = slices@;
        if !segment.is_empty() {
            slices.push(segment);
            assert(views(slices@) =~= views(sofar).push(segment@));
        }
        proof {
            let longer = heads(parts).take(i + 1);
            assert(longer.drop_last() =~= heads(parts).take(i as int));
        }
        i += 1;
    }
    assert(heads(parts).take(last as int) =~= heads(parts));
    let unit: &'a [u8] = data[last];
    let ghost before = views(slices@);
    let mut k: usize = 0;
    while k < splat
        invariant
            k <= splat,
            views(slices@) == before + copies(unit@, k as nat),
        decreases splat - k,
    {
        let ghost sofar = slices@;
        slices.push(unit);
        assert(views(slices@) =~= views(sofar).push(unit@));
        k += 1;
    }
    slices
}

/// Drains into a writer: offers it the staged bytes and what `data` and `splat` ask for,
/// in one vectored write, and takes from the buffer what the writer took of it.
pub fn drain_into<W: Write, S>(
    out: &mut W,
    w: &mut Writer<'_, S>,
    data: &[&[u8]],
    splat: usize,
) -> (r: Result<usize, Error>)
    requires
        old(w).wf(),
        data@.len() > 0,
    ensures
        final(w).wf(),
        final(w).backend() == old(w).backend(),
        final(w).memory().len() == old(w).memory().len(),
        final(w).loan() is Some == old(w).loan() is Some,
        old(w).loan() is Some ==> final(final(w).loan()->0)@ == final(
            old(w).loan()->0
        )@,
        gathered(old(w).staged(), views(data@), splat as nat).len() == 0 ==> {
            &&& r is Ok && r->Ok_0 == 0
            &&& *final(out) == *old(out)
            &&& *final(w) == *old(w)
        },
        gathered(old(w).staged(), views(data@), splat as nat).len() > 0 ==> exists|
            o: &mut W,
            bufs: &[&[u8]],
            answer: Result<usize, Error>,
        |
            {
                &&& *o == *old(out)
                &&& views(bufs@) == gathered(old(w).staged(), views(data@), splat as nat)
                &&& #[trigger] call_ensures(W::write_vectored, (o, bufs), answer)
                &&& *final(out) == *final(o)
                &&& old(w).settled(answer, *final(w), r)
                &&& match answer {
                    Ok(n) => r is Ok && r->Ok_0 == if n > old(w).used() {
                        n - old(w).used()
                    } else {
                        0
                    },
                    Err(e) => r == Err::<usize, Error>(e) && *final(w) == *old(w),
                }
            },
        final(out).written().len() >= old(out).written().len(),
        conserved(
            old(out).written() + old(w).staged(),
            final(out).written() + final(w).staged(),
            payload(views(data@), splat as nat),
            r,
        ),
        old(out).infallible() ==> r is Ok && final(out).infallible(),
        old(out).steady() ==> final(out).steady(),
        old(out).steady() && r is Ok && r->Ok_0 == 0 && final(out).written().len() == old(
            out
        ).written().len() && old(w).used() + payload(views(data@), splat as nat).len() > 0
            ==> final(out).stalls() < old(out).stalls(),
{
    let ghost asked = payload(views(data@), splat as nat);
    proof {
        lemma_joined_gathered(w.staged(), views(data@), splat as nat);
    }
    let slices = gather(w.filled(), data, splat);
    if slices.is_empty() {
        return Ok(0);
    }
    let answer = out.write_vectored(slices.as_slice());
    let ghost answered = answer;
    let r = w.settle(answer);
    proof {
        if let Ok(n) = answered {
            lemma_consumed_staged(*old(w), n as nat, *w);
            let all = old(w).staged() + asked;
            assert(old(out).written() + all.take(n as int) + w.staged() =~= old(out).written()
                + old(w).staged() + asked.take(old(w).beyond(n as nat) as int));
        }
    }
    r
}

/// Any writer is a sink: what it receives it writes at once.
impl<T: Write> Sink for T {
    open spec fn ready(&self) -> bool {
        true
    }

    open spec fn received(&self) -> Seq<u8> {
        self.written()
    }

    open spec fn ledger(&self) -> Ledger {
        Ledger::from_start()
    }

    open spec fn steady(&self) -> bool {
        Write::steady(self)
    }

    open spec fn held(&self) -> nat {
        0
    }

    open spec fn hops() -> nat {
        0
    }

    open spec fn stalls(&self) -> nat {
        Write::stalls(self)
    }

    open spec fn infallible(&self) -> bool {
        Write::infallible(self)
    }

    open spec fn flush_infallible(&self) -> bool {
        Write::infallible(self)
    }

    open spec fn patient() -> bool {
        true
    }

    open spec fn takes_no_segments() -> bool {
        false
    }

    fn is_patient() -> (r: bool) {
        true
    }

    fn drain(&mut self, w: &mut Writer<'_, Self>, data: &[&[u8]], splat: usize) -> (r: Result<
        usize,
        Error,
    >)
        ensures
            gathered(old(w).staged(), views(data@), splat as nat).len() == 0 ==> {
                &&& r is Ok && r->Ok_0 == 0
                &&& *final(self) == *old(self)
                &&& *final(w) == *old(w)
            },
            gathered(old(w).staged(), views(data@), splat as nat).len() > 0 ==> exists|
                o: &mut Self,
                bufs: &[&[u8]],
                answer: Result<usize, Error>,
            |
                {
                    &&& *o == *old(self)
                    &&& views(bufs@) == gathered(old(w).staged(), views(data@), splat as nat)
                    &&& #[trigger] call_ensures(T::write_vectored, (o, bufs), answer)
                    &&& *final(self) == *final(o)
                    &&& old(w).settled(answer, *final(w), r)
                    &&& match answer {
                        Ok(n) => r is Ok && r->Ok_0 == if n > old(w).used() {
                            n - old(w).used()
                        } else {
                            0
                        },
                        Err(e) => r == Err::<usize, Error>(e) && *final(w) == *old(w),
                    }
                },
    {
        assert(!<T as Sink>::takes_no_segments());
        let r = drain_into(self, w, data, splat);
        proof {
            let moved = Sink::received(self).len() - Sink::received(old(self)).len();
            let hops = <T as Sink>::hops();
            assert(moved * hops == 0) by (nonlinear_arith)
                requires
                    hops == 0,
            ;
            assert(Sink::held(self) == 0 && Sink::held(old(self)) == 0);
            assert(Sink::stalls(old(self)) == Write::stalls(old(self)));
        }
        r
    }

    fn flush<'w>(&mut self, w: &mut Writer<'w, Self>) -> (r: Result<(), Error>)
        ensures
            r is Ok ==> final(self).settled(),
            exists|outs: Seq<Self>, writers: Seq<Writer<'w, Self>>|
                #![trigger outs.last(), writers.last()]
                {
                    &&& outs.len() > 0 && outs[0] == *old(self)
                    &&& writers.len() == outs.len() && writers[0] == *old(w)
                    &&& forall|i: int| #[trigger]
                        goes_on(i, outs.len()) ==> writers[i].used() > 0 && exists|
                            o: &mut Self,
                            bufs: &[&[u8]],
                            n: usize,
                        |
                            {
                                &&& *o == outs[i]
                                &&& views(bufs@) == seq![writers[i].staged()]
                                &&& #[trigger] call_ensures(
                                    T::write_vectored,
                                    (o, bufs),
                                    Ok::<usize, Error>(n),
                                )
                                &&& *final(o) == outs[i + 1]
                                &&& writers[i].consumed(n as nat, writers[i + 1])
                            }
                    &&& *final(w) == writers.last()
                    &&& if writers.last().used() == 0 {
                        exists|o: &mut Self|
                            {
                                &&& *o == outs.last()
                                &&& #[trigger] call_ensures(T::sync, (o,), r)
                                &&& *final(self) == *final(o)
                            }
                    } else {
                        exists|o: &mut Self, bufs: &[&[u8]], answer: Result<usize, Error>|
                            {
                                &&& *o == outs.last()
                                &&& views(bufs@) == seq![writers.last().staged()]
                                &&& #[trigger] call_ensures(T::write_vectored, (o, bufs), answer)
                                &&& answer is Err && r == Err::<(), Error>(answer->Err_0)
                                &&& *final(self) == *final(o)
                            }
                    }
                },
            old(w).used() > 0 ==> exists|
                o: &mut Self,
                bufs: &[&[u8]],
                answer: Result<usize, Error>,
            |
                {
                    &&& *o == *old(self)
                    &&& views(bufs@) == seq![old(w).staged()]
                    &&& #[trigger] call_ensures(T::write_vectored, (o, bufs), answer)
                    &&& match answer {
                        Ok(n) => n >= old(w).used() ==> old(w).consumed(n as nat, *final(w))
                            && exists|p: &mut Self|
                            {
                                &&& *p == *final(o)
                                &&& #[trigger] call_ensures(T::sync, (p,), r)
                                &&& *final(self) == *final(p)
                            },
                        Err(e) => {
                            &&& r == Err::<(), Error>(e)
                            &&& *final(self) == *final(o)
                            &&& *final(w) == *old(w)
                        },
                    }
                },
            old(w).used() == 0 ==> *final(w) == *old(w) && exists|o: &mut Self|
                {
                    &&& *o == *old(self)
                    &&& #[trigger] call_ensures(T::sync, (o,), r)
                    &&& *final(self) == *final(o)
                },
    {
        proof {
            assert forall|staged: Seq<u8>| staged.len() > 0 implies #[trigger] gathered(
                staged,
                seq![Seq::<u8>::empty()],
                0,
            ) == seq![staged] by {
                lemma_gathered_staged(staged);
            }
        }
        match self.flush_staged(w) {
            Ok(()) => self.sync(),
            Err(e) => Err(e),
        }
    }
}

} // verus!
