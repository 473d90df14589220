//! What sinks pass on: laws on what a writer behind the buffer is offered, and on what is
//! made of its answers.

use crate::bytes::{gathered, views};
use crate::error::Error;
use crate::meaning::{law_gathered, law_payload, law_repeated_len};
use crate::sink::{gather, goes_on, Sink};
use crate::sinks::WriteDrain;
use crate::write::{first_nonempty, Write};
use crate::writer::{lemma_consumed_staged, Writer};
use vstd::prelude::*;

verus! {

/// Whether the slices hold the parts, one each, in their order.
pub open spec fn hold(bufs: &[&[u8]], parts: Seq<Seq<u8>>) -> bool {
    bufs@.len() == parts.len() && forall|k: int|
        0 <= k < parts.len() ==> #[trigger] bufs@[k]@ == parts[k]
}

/// Slices hold the parts exactly if there are as many and each is byte for byte the same.
pub proof fn law_hold(bufs: &[&[u8]], parts: Seq<Seq<u8>>)
    ensures
        hold(bufs, parts) <==> {
            &&& bufs@.len() == parts.len()
            &&& forall|k: int, i: int|
                0 <= k < parts.len() && 0 <= i < parts[k].len() ==> #[trigger] bufs@[k]@[i]
                    == parts[k][i]
            &&& forall|k: int| 0 <= k < parts.len() ==> (#[trigger] bufs@[k])@.len()
                == parts[k].len()
        },
{
    if bufs@.len() == parts.len() && (forall|k: int, i: int|
        0 <= k < parts.len() && 0 <= i < parts[k].len() ==> #[trigger] bufs@[k]@[i] == parts[k][i])
        && (forall|k: int| 0 <= k < parts.len() ==> (#[trigger] bufs@[k])@.len()
        == parts[k].len()) {
        assert forall|k: int| 0 <= k < parts.len() implies #[trigger] bufs@[k]@ == parts[k] by {
            assert(bufs@[k]@ =~= parts[k]);
        }
    }
}

proof fn lemma_views_hold()
    ensures
        forall|bufs: &[&[u8]], parts: Seq<Seq<u8>>|
            views(bufs@) == parts ==> #[trigger] hold(bufs, parts),
{
    assert forall|bufs: &[&[u8]], parts: Seq<Seq<u8>>| views(bufs@) == parts implies (
    #[trigger] hold(bufs, parts)) by {
        assert forall|k: int| 0 <= k < parts.len() implies #[trigger] bufs@[k]@ == parts[k] by {
            assert(views(bufs@)[k] == bufs@[k]@);
        }
    }
}

proof fn lemma_offer(
    staged: Seq<u8>,
    data: &[&[u8]],
    splat: usize,
    front: Seq<Seq<u8>>,
    last: Seq<u8>,
)
    requires
        data@.len() == front.len() + 1,
        forall|i: int| 0 <= i < front.len() ==> #[trigger] front[i] == data@[i]@,
        last == data@[front.len() as int]@,
    ensures
        gathered(staged, views(data@), splat as nat) == (if staged.len() > 0 {
            seq![staged]
        } else {
            Seq::empty()
        }) + front.filter(|part: Seq<u8>| part.len() > 0) + Seq::new(splat as nat, |i: int| last),
{
    assert(views(data@) =~= front.push(last));
    law_gathered(staged, front, last, splat as nat);
    reveal_with_fuel(Seq::<_>::filter, 2);
    assert(seq![staged].drop_last() =~= Seq::<Seq<u8>>::empty());
    assert(seq![staged].filter(|part: Seq<u8>| part.len() > 0) =~= if staged.len() > 0 {
        seq![staged]
    } else {
        Seq::empty()
    });
}

/// The first slice that is not empty is handed out whole.
pub proof fn law_first_nonempty(bufs: &[&[u8]], r: &[u8], i: int)
    requires
        call_ensures(first_nonempty, (bufs,), r),
        0 <= i < bufs@.len(),
        bufs@[i]@.len() > 0,
        forall|j: int| 0 <= j < i ==> (#[trigger] bufs@[j])@.len() == 0,
    ensures
        r@ == bufs@[i]@,
        r@.len() == bufs@[i]@.len(),
{
    crate::meaning::law_foremost(views(bufs@), i, r@);
}

/// Where all slices are empty, an empty one is handed out.
pub proof fn law_first_nonempty_of_empty_slices(bufs: &[&[u8]], r: &[u8])
    requires
        call_ensures(first_nonempty, (bufs,), r),
        forall|j: int| 0 <= j < bufs@.len() ==> (#[trigger] bufs@[j])@.len() == 0,
    ensures
        r@.len() == 0,
{
    assert forall|j: int| 0 <= j < views(bufs@).len() implies (#[trigger] views(bufs@)[j]).len()
        == 0 by {
        assert(bufs@[j]@.len() == 0);
    }
    crate::meaning::law_foremost_of_empty_parts(views(bufs@), r@);
}

/// A writer as a sink is offered what is staged, then the segments, then the repetition, in
/// one vectored write. What it takes of the staged bytes leaves the buffer, what it takes
/// beyond them is counted, and its error is handed on as it is.
pub proof fn law_drain_into_a_writer<'w, T: Write>(
    sink: T,
    before: Writer<'w, T>,
    data: &[&[u8]],
    splat: usize,
    front: Seq<Seq<u8>>,
    last: Seq<u8>,
    r: Result<usize, Error>,
    sink_after: T,
    after: Writer<'w, T>,
    shown: &[u8],
    capacity: usize,
    shown_after: &[u8],
    capacity_after: usize,
)
    requires
        before.wf(),
        data@.len() == front.len() + 1,
        forall|i: int| 0 <= i < front.len() ==> #[trigger] front[i] == data@[i]@,
        last == data@[front.len() as int]@,
        call_ensures(Writer::<'w, T>::filled, (&before,), shown),
        call_ensures(Writer::<'w, T>::capacity, (&before,), capacity),
        exists|b: &mut T, v: &mut Writer<'w, T>|
            {
                &&& *b == sink && *v == before
                &&& #[trigger] call_ensures(<T as Sink>::drain, (b, v, data, splat), r)
                &&& *final(b) == sink_after && *final(v) == after
            },
        call_ensures(Writer::<'w, T>::filled, (&after,), shown_after),
        call_ensures(Writer::<'w, T>::capacity, (&after,), capacity_after),
    ensures
        capacity_after == capacity,
        after.backend() == before.backend(),
        ({
            let offer = (if shown@.len() > 0 {
                seq![shown@]
            } else {
                Seq::empty()
            }) + front.filter(|part: Seq<u8>| part.len() > 0) + Seq::new(
                splat as nat,
                |i: int| last,
            );
            if offer.len() == 0 {
                r is Ok && r->Ok_0 == 0 && sink_after == sink && shown_after@ == shown@
            } else {
                exists|o: &mut T, bufs: &[&[u8]], answer: Result<usize, Error>|
                    {
                        &&& *o == sink
                        &&& hold(bufs, offer)
                        &&& #[trigger] call_ensures(T::write_vectored, (o, bufs), answer)
                        &&& sink_after == *final(o)
                        &&& match answer {
                            Err(e) => r == Err::<usize, Error>(e) && shown_after@ == shown@,
                            Ok(n) => r is Ok && if n <= shown@.len() {
                                r->Ok_0 == 0 && shown_after@ == shown@.skip(n as int)
                            } else {
                                r->Ok_0 == n - shown@.len() && shown_after@ == Seq::<u8>::empty()
                            },
                        }
                    }
            }
        }),
{
    lemma_offer(shown@, data, splat, front, last);
    assert forall|n: nat| #[trigger] before.consumed(n, after) implies after.staged()
        == before.staged().skip(if n < before.used() {
        n as int
    } else {
        before.used() as int
    }) by {
        lemma_consumed_staged(before, n, after);
    }
}

/// The same of a writer that is wrapped.
pub proof fn law_drain_into_a_wrapped_writer<'w, W: Write>(
    sink: WriteDrain<W>,
    before: Writer<'w, WriteDrain<W>>,
    data: &[&[u8]],
    splat: usize,
    front: Seq<Seq<u8>>,
    last: Seq<u8>,
    r: Result<usize, Error>,
    sink_after: WriteDrain<W>,
    after: Writer<'w, WriteDrain<W>>,
    shown: &[u8],
    capacity: usize,
    shown_after: &[u8],
    capacity_after: usize,
)
    requires
        before.wf(),
        data@.len() == front.len() + 1,
        forall|i: int| 0 <= i < front.len() ==> #[trigger] front[i] == data@[i]@,
        last == data@[front.len() as int]@,
        call_ensures(Writer::<'w, WriteDrain<W>>::filled, (&before,), shown),
        call_ensures(Writer::<'w, WriteDrain<W>>::capacity, (&before,), capacity),
        exists|b: &mut WriteDrain<W>, v: &mut Writer<'w, WriteDrain<W>>|
            {
                &&& *b == sink && *v == before
                &&& #[trigger] call_ensures(<WriteDrain<W> as Sink>::drain, (b, v, data, splat), r)
                &&& *final(b) == sink_after && *final(v) == after
            },
        call_ensures(Writer::<'w, WriteDrain<W>>::filled, (&after,), shown_after),
        call_ensures(Writer::<'w, WriteDrain<W>>::capacity, (&after,), capacity_after),
    ensures
        capacity_after == capacity,
        after.backend() == before.backend(),
        ({
            let offer = (if shown@.len() > 0 {
                seq![shown@]
            } else {
                Seq::empty()
            }) + front.filter(|part: Seq<u8>| part.len() > 0) + Seq::new(
                splat as nat,
                |i: int| last,
            );
            if offer.len() == 0 {
                r is Ok && r->Ok_0 == 0 && sink_after == sink && shown_after@ == shown@
            } else {
                exists|o: &mut W, bufs: &[&[u8]], answer: Result<usize, Error>|
                    {
                        &&& *o == *sink.out
                        &&& hold(bufs, offer)
                        &&& #[trigger] call_ensures(W::write_vectored, (o, bufs), answer)
                        &&& *sink_after.out == *final(o)
                        &&& match answer {
                            Err(e) => r == Err::<usize, Error>(e) && shown_after@ == shown@,
                            Ok(n) => r is Ok && if n <= shown@.len() {
                                r->Ok_0 == 0 && shown_after@ == shown@.skip(n as int)
                            } else {
                                r->Ok_0 == n - shown@.len() && shown_after@ == Seq::<u8>::empty()
                            },
                        }
                    }
            }
        }),
{
    lemma_offer(shown@, data, splat, front, last);
    assert forall|n: nat| #[trigger] before.consumed(n, after) implies after.staged()
        == before.staged().skip(if n < before.used() {
        n as int
    } else {
        before.used() as int
    }) by {
        lemma_consumed_staged(before, n, after);
    }
}

/// A chain goes on from every state but the last.
pub proof fn law_goes_on(i: int, count: nat)
    ensures
        goes_on(i, count) <==> 0 <= i < count - 1,
{
}

/// Consuming keeps a writer in order, however often.
pub proof fn lemma_chain_wf<'w, S>(writers: Seq<Writer<'w, S>>, k: int)
    requires
        0 <= k < writers.len(),
        writers[0].wf(),
        forall|i: int| #[trigger]
            goes_on(i, writers.len()) ==> exists|n: nat| #[trigger]
                writers[i].consumed(n, writers[i + 1]),
    ensures
        writers[k].wf(),
    decreases k,
{
    if k > 0 {
        lemma_chain_wf(writers, k - 1);
        assert(goes_on(k - 1, writers.len()));
        let n = choose|n: nat| #[trigger] writers[k - 1].consumed(n, writers[k - 1 + 1]);
        lemma_consumed_staged(writers[k - 1], n, writers[k]);
    }
}

/// A flush of a writer offers it what is still shown, again and again. What it takes is no
/// longer shown. Once nothing is, the writer is synced, and its answer is the result. An
/// error of a write ends it at once and is the result.
pub proof fn law_flush_of_a_writer<'w, T: Write>(
    out: T,
    before: Writer<'w, T>,
    r: Result<(), Error>,
    out_after: T,
    after: Writer<'w, T>,
    shown: &[u8],
    shown_after: &[u8],
)
    requires
        before.wf(),
        call_ensures(Writer::<'w, T>::filled, (&before,), shown),
        exists|b: &mut T, v: &mut Writer<'w, T>|
            {
                &&& *b == out && *v == before
                &&& #[trigger] call_ensures(<T as Sink>::flush, (b, v), r)
                &&& *final(b) == out_after && *final(v) == after
            },
        call_ensures(Writer::<'w, T>::filled, (&after,), shown_after),
    ensures
        exists|outs: Seq<T>, texts: Seq<Seq<u8>>|
            #![trigger outs.last(), texts.last()]
            {
                &&& outs.len() > 0 && outs[0] == out
                &&& texts.len() == outs.len() && texts[0] == shown@
                &&& forall|i: int| #[trigger]
                    goes_on(i, outs.len()) ==> texts[i].len() > 0 && exists|
                        o: &mut T,
                        bufs: &[&[u8]],
                        n: usize,
                    |
                        {
                            &&& *o == outs[i]
                            &&& hold(bufs, seq![texts[i]])
                            &&& #[trigger] call_ensures(
                                T::write_vectored,
                                (o, bufs),
                                Ok::<usize, Error>(n),
                            )
                            &&& *final(o) == outs[i + 1]
                            &&& n <= texts[i].len() && texts[i + 1] == texts[i].skip(n as int)
                        }
                &&& shown_after@ == texts.last()
                &&& if texts.last().len() == 0 {
                    exists|o: &mut T|
                        {
                            &&& *o == outs.last()
                            &&& #[trigger] call_ensures(T::sync, (o,), r)
                            &&& *final(o) == out_after
                        }
                } else {
                    exists|o: &mut T, bufs: &[&[u8]], e: Error|
                        {
                            &&& *o == outs.last()
                            &&& hold(bufs, seq![texts.last()])
                            &&& #[trigger] call_ensures(
                                T::write_vectored,
                                (o, bufs),
                                Err::<usize, Error>(e),
                            )
                            &&& *final(o) == out_after
                            &&& r == Err::<(), Error>(e)
                        }
                }
            },
{
    let (outs, writers) = choose|outs: Seq<T>, writers: Seq<Writer<'w, T>>|
        #![trigger outs.last(), writers.last()]
        {
            &&& outs.len() > 0 && outs[0] == out
            &&& writers.len() == outs.len() && writers[0] == before
            &&& forall|i: int| #[trigger]
                goes_on(i, outs.len()) ==> writers[i].used() > 0 && exists|
                    o: &mut T,
                    bufs: &[&[u8]],
                    n: usize,
                |
                    {
                        &&& *o == outs[i]
                        &&& views(bufs@) == seq![writers[i].staged()]
                        &&& #[trigger] call_ensures(
                            T::write_vectored,
                            (o, bufs),
                            Ok::<usize, Error>(n),
                        )
                        &&& *final(o) == outs[i + 1]
                        &&& writers[i].consumed(n as nat, writers[i + 1])
                    }
            &&& after == writers.last()
            &&& if writers.last().used() == 0 {
                exists|o: &mut T|
                    {
                        &&& *o == outs.last()
                        &&& #[trigger] call_ensures(T::sync, (o,), r)
                        &&& out_after == *final(o)
                    }
            } else {
                exists|o: &mut T, bufs: &[&[u8]], answer: Result<usize, Error>|
                    {
                        &&& *o == outs.last()
                        &&& views(bufs@) == seq![writers.last().staged()]
                        &&& #[trigger] call_ensures(T::write_vectored, (o, bufs), answer)
                        &&& answer is Err && r == Err::<(), Error>(answer->Err_0)
                        &&& out_after == *final(o)
                    }
            }
        };
    let texts = Seq::new(writers.len(), |i: int| writers[i].staged());
    assert forall|i: int| #[trigger] goes_on(i, writers.len()) implies exists|n: nat| #[trigger]
        writers[i].consumed(n, writers[i + 1]) by {
        assert(goes_on(i, outs.len()));
    }
    lemma_views_hold();
    assert forall|i: int| #[trigger] goes_on(i, outs.len()) implies texts[i].len() > 0 && exists|
        o: &mut T,
        bufs: &[&[u8]],
        n: usize,
    |
        {
            &&& *o == outs[i]
            &&& hold(bufs, seq![texts[i]])
            &&& #[trigger] call_ensures(T::write_vectored, (o, bufs), Ok::<usize, Error>(n))
            &&& *final(o) == outs[i + 1]
            &&& n <= texts[i].len() && texts[i + 1] == texts[i].skip(n as int)
        } by {
        lemma_chain_wf(writers, i);
        let (o, bufs, n) = choose|o: &mut T, bufs: &[&[u8]], n: usize|
            {
                &&& *o == outs[i]
                &&& views(bufs@) == seq![writers[i].staged()]
                &&& #[trigger] call_ensures(T::write_vectored, (o, bufs), Ok::<usize, Error>(n))
                &&& *final(o) == outs[i + 1]
                &&& writers[i].consumed(n as nat, writers[i + 1])
            };
        lemma_consumed_staged(writers[i], n as nat, writers[i + 1]);
        crate::meaning::law_joined(Seq::empty(), texts[i], Seq::empty());
        assert(call_ensures(T::write_vectored, (o, bufs), Ok::<usize, Error>(n)));
        assert(hold(bufs, seq![texts[i]]));
    }
    lemma_chain_wf(writers, writers.len() - 1);
    assert(texts.last() == writers.last().staged());
    assert(outs.last() == outs.last());
}

/// A flush of a wrapped writer offers it what is shown once. If that leaves bytes, it says
/// so. Else the writer is synced, and its answer is the result. An error of the write is
/// the result. Where nothing is shown, the writer is synced and no more.
pub proof fn law_flush_of_a_wrapped_writer<'w, W: Write>(
    sink: WriteDrain<W>,
    before: Writer<'w, WriteDrain<W>>,
    r: Result<(), Error>,
    sink_after: WriteDrain<W>,
    after: Writer<'w, WriteDrain<W>>,
    shown: &[u8],
    shown_after: &[u8],
)
    requires
        before.wf(),
        call_ensures(Writer::<'w, WriteDrain<W>>::filled, (&before,), shown),
        exists|b: &mut WriteDrain<W>, v: &mut Writer<'w, WriteDrain<W>>|
            {
                &&& *b == sink && *v == before
                &&& #[trigger] call_ensures(<WriteDrain<W> as Sink>::flush, (b, v), r)
                &&& *final(b) == sink_after && *final(v) == after
            },
        call_ensures(Writer::<'w, WriteDrain<W>>::filled, (&after,), shown_after),
    ensures
        after.backend() == before.backend(),
        shown@.len() == 0 ==> shown_after@.len() == 0 && exists|p: &mut W|
            {
                &&& *p == *sink.out
                &&& #[trigger] call_ensures(W::sync, (p,), r)
                &&& *final(p) == *sink_after.out
            },
        shown@.len() > 0 ==> exists|o: &mut W, bufs: &[&[u8]], answer: Result<usize, Error>|
            {
                &&& *o == *sink.out
                &&& hold(bufs, seq![shown@])
                &&& #[trigger] call_ensures(W::write_vectored, (o, bufs), answer)
                &&& match answer {
                    Err(e) => {
                        &&& r == Err::<(), Error>(e)
                        &&& shown_after@ == shown@
                        &&& *final(o) == *sink_after.out
                    },
                    Ok(n) => if n < shown@.len() {
                        &&& r == Err::<(), Error>(Error::WriteZero)
                        &&& shown_after@ == shown@.skip(n as int)
                        &&& *final(o) == *sink_after.out
                    } else {
                        &&& shown_after@.len() == 0
                        &&& exists|p: &mut W|
                            {
                                &&& *p == *final(o)
                                &&& #[trigger] call_ensures(W::sync, (p,), r)
                                &&& *final(p) == *sink_after.out
                            }
                    },
                }
            },
{
    lemma_views_hold();
    assert forall|n: nat| #[trigger] before.consumed(n, after) implies after.staged()
        == before.staged().skip(if n < before.used() {
        n as int
    } else {
        before.used() as int
    }) by {
        lemma_consumed_staged(before, n, after);
    }
}

proof fn lemma_offer_one(staged: Seq<u8>, last: Seq<u8>, splat: nat)
    ensures
        gathered(staged, seq![last], splat) == (if staged.len() > 0 {
            seq![staged]
        } else {
            Seq::empty()
        }) + Seq::new(splat, |i: int| last),
{
    let front = Seq::<Seq<u8>>::empty();
    law_gathered(staged, front, last, splat);
    reveal_with_fuel(Seq::<_>::filter, 2);
    assert(front.push(last) =~= seq![last]);
    assert(front.filter(|part: Seq<u8>| part.len() > 0) =~= front);
    assert(seq![staged].drop_last() =~= Seq::<Seq<u8>>::empty());
    assert(gathered(staged, seq![last], splat) =~= (if staged.len() > 0 {
        seq![staged]
    } else {
        Seq::empty()
    }) + Seq::new(splat, |i: int| last));
}

/// Bytes that do not fit are offered behind what is shown, and what is made of the answer
/// is the result.
pub proof fn law_write_passed_on<'w, T: Write>(
    before: Writer<'w, T>,
    bytes: &[u8],
    r: Result<usize, Error>,
    after: Writer<'w, T>,
    shown: &[u8],
    room: usize,
    sink: &T,
    shown_after: &[u8],
    sink_after: &T,
)
    requires
        before.wf(),
        call_ensures(Writer::<'w, T>::filled, (&before,), shown),
        call_ensures(Writer::<'w, T>::unused_len, (&before,), room),
        call_ensures(Writer::<'w, T>::backend_as, (&before,), Some(sink)),
        exists|w: &mut Writer<'w, T>|
            {
                &&& *w == before
                &&& #[trigger] call_ensures(Writer::<'w, T>::write, (w, bytes), r)
                &&& *final(w) == after
            },
        call_ensures(Writer::<'w, T>::filled, (&after,), shown_after),
        call_ensures(Writer::<'w, T>::backend_as, (&after,), Some(sink_after)),
        bytes@.len() > room,
    ensures
        ({
            let offer = (if shown@.len() > 0 {
                seq![shown@]
            } else {
                Seq::empty()
            }) + Seq::new(1, |i: int| bytes@);
            exists|o: &mut T, bufs: &[&[u8]], answer: Result<usize, Error>|
                {
                    &&& *o == *sink
                    &&& hold(bufs, offer)
                    &&& #[trigger] call_ensures(T::write_vectored, (o, bufs), answer)
                    &&& *final(o) == *sink_after
                    &&& match answer {
                        Err(e) => r == Err::<usize, Error>(e) && shown_after@ == shown@,
                        Ok(n) => r is Ok && if n <= shown@.len() {
                            r->Ok_0 == 0 && shown_after@ == shown@.skip(n as int)
                        } else {
                            r->Ok_0 == n - shown@.len() && shown_after@ == Seq::<u8>::empty()
                        },
                    }
                }
        }),
{
    lemma_offer_one(shown@, bytes@, 1);
    lemma_views_hold();
    assert forall|v: Writer<'w, T>, w: Writer<'w, T>, n: nat|
        v.wf() && #[trigger] v.consumed(n, w) implies w.staged() == v.staged().skip(
        if n < v.used() {
            n as int
        } else {
            v.used() as int
        },
    ) by {
        lemma_consumed_staged(v, n, w);
    }
}

/// The same through a wrapped writer.
pub proof fn law_write_passed_on_to_a_wrapped_writer<'w, W: Write>(
    before: Writer<'w, WriteDrain<W>>,
    bytes: &[u8],
    r: Result<usize, Error>,
    after: Writer<'w, WriteDrain<W>>,
    shown: &[u8],
    room: usize,
    sink: &WriteDrain<W>,
    shown_after: &[u8],
    sink_after: &WriteDrain<W>,
)
    requires
        before.wf(),
        call_ensures(Writer::<'w, WriteDrain<W>>::filled, (&before,), shown),
        call_ensures(Writer::<'w, WriteDrain<W>>::unused_len, (&before,), room),
        call_ensures(Writer::<'w, WriteDrain<W>>::backend_as, (&before,), Some(sink)),
        exists|w: &mut Writer<'w, WriteDrain<W>>|
            {
                &&& *w == before
                &&& #[trigger] call_ensures(Writer::<'w, WriteDrain<W>>::write, (w, bytes), r)
                &&& *final(w) == after
            },
        call_ensures(Writer::<'w, WriteDrain<W>>::filled, (&after,), shown_after),
        call_ensures(Writer::<'w, WriteDrain<W>>::backend_as, (&after,), Some(sink_after)),
        bytes@.len() > room,
    ensures
        ({
            let offer = (if shown@.len() > 0 {
                seq![shown@]
            } else {
                Seq::empty()
            }) + Seq::new(1, |i: int| bytes@);
            exists|o: &mut W, bufs: &[&[u8]], answer: Result<usize, Error>|
                {
                    &&& *o == *sink.out
                    &&& hold(bufs, offer)
                    &&& #[trigger] call_ensures(W::write_vectored, (o, bufs), answer)
                    &&& *final(o) == *sink_after.out
                    &&& match answer {
                        Err(e) => r == Err::<usize, Error>(e) && shown_after@ == shown@,
                        Ok(n) => r is Ok && if n <= shown@.len() {
                            r->Ok_0 == 0 && shown_after@ == shown@.skip(n as int)
                        } else {
                            r->Ok_0 == n - shown@.len() && shown_after@ == Seq::<u8>::empty()
                        },
                    }
                }
        }),
{
    lemma_offer_one(shown@, bytes@, 1);
    lemma_views_hold();
    assert forall|v: Writer<'w, WriteDrain<W>>, w: Writer<'w, WriteDrain<W>>, n: nat|
        v.wf() && #[trigger] v.consumed(n, w) implies w.staged() == v.staged().skip(
        if n < v.used() {
            n as int
        } else {
            v.used() as int
        },
    ) by {
        lemma_consumed_staged(v, n, w);
    }
}

/// The same of a gathered write.
pub proof fn law_write_vec_splat_passed_on<'w, T: Write>(
    before: Writer<'w, T>,
    data: &[&[u8]],
    splat: usize,
    front: Seq<Seq<u8>>,
    last: Seq<u8>,
    r: Result<usize, Error>,
    after: Writer<'w, T>,
    shown: &[u8],
    room: usize,
    sink: &T,
    shown_after: &[u8],
    sink_after: &T,
)
    requires
        before.wf(),
        call_ensures(Writer::<'w, T>::filled, (&before,), shown),
        call_ensures(Writer::<'w, T>::unused_len, (&before,), room),
        call_ensures(Writer::<'w, T>::backend_as, (&before,), Some(sink)),
        exists|w: &mut Writer<'w, T>|
            {
                &&& *w == before
                &&& #[trigger] call_ensures(Writer::<'w, T>::write_vec_splat, (w, data, splat), r)
                &&& *final(w) == after
            },
        call_ensures(Writer::<'w, T>::filled, (&after,), shown_after),
        call_ensures(Writer::<'w, T>::backend_as, (&after,), Some(sink_after)),
        data@.len() == front.len() + 1,
        forall|i: int| 0 <= i < front.len() ==> #[trigger] front[i] == data@[i]@,
        last == data@[front.len() as int]@,
        front.flatten().len() + last.len() * splat > room,
    ensures
        ({
            let offer = (if shown@.len() > 0 {
                seq![shown@]
            } else {
                Seq::empty()
            }) + front.filter(|part: Seq<u8>| part.len() > 0) + Seq::new(
                splat as nat,
                |i: int| last,
            );
            exists|o: &mut T, bufs: &[&[u8]], answer: Result<usize, Error>|
                {
                    &&& *o == *sink
                    &&& hold(bufs, offer)
                    &&& #[trigger] call_ensures(T::write_vectored, (o, bufs), answer)
                    &&& *final(o) == *sink_after
                    &&& match answer {
                        Err(e) => r == Err::<usize, Error>(e) && shown_after@ == shown@,
                        Ok(n) => r is Ok && if n <= shown@.len() {
                            r->Ok_0 == 0 && shown_after@ == shown@.skip(n as int)
                        } else {
                            r->Ok_0 == n - shown@.len() && shown_after@ == Seq::<u8>::empty()
                        },
                    }
                }
        }),
{
    lemma_offer(shown@, data, splat, front, last);
    assert(views(data@) =~= front.push(last));
    law_payload(front, last, splat as nat);
    law_repeated_len(last, splat as nat);
    crate::bytes::lemma_joined_gathered(shown@, views(data@), splat as nat);
    lemma_views_hold();
    assert forall|v: Writer<'w, T>, w: Writer<'w, T>, n: nat|
        v.wf() && #[trigger] v.consumed(n, w) implies w.staged() == v.staged().skip(
        if n < v.used() {
            n as int
        } else {
            v.used() as int
        },
    ) by {
        lemma_consumed_staged(v, n, w);
    }
}

/// The same through a wrapped writer.
pub proof fn law_write_vec_splat_passed_on_to_a_wrapped_writer<'w, W: Write>(
    before: Writer<'w, WriteDrain<W>>,
    data: &[&[u8]],
    splat: usize,
    front: Seq<Seq<u8>>,
    last: Seq<u8>,
    r: Result<usize, Error>,
    after: Writer<'w, WriteDrain<W>>,
    shown: &[u8],
    room: usize,
    sink: &WriteDrain<W>,
    shown_after: &[u8],
    sink_after: &WriteDrain<W>,
)
    requires
        before.wf(),
        call_ensures(Writer::<'w, WriteDrain<W>>::filled, (&before,), shown),
        call_ensures(Writer::<'w, WriteDrain<W>>::unused_len, (&before,), room),
        call_ensures(Writer::<'w, WriteDrain<W>>::backend_as, (&before,), Some(sink)),
        exists|w: &mut Writer<'w, WriteDrain<W>>|
            {
                &&& *w == before
                &&& #[trigger] call_ensures(
                    Writer::<'w, WriteDrain<W>>::write_vec_splat,
                    (w, data, splat),
                    r,
                )
                &&& *final(w) == after
            },
        call_ensures(Writer::<'w, WriteDrain<W>>::filled, (&after,), shown_after),
        call_ensures(Writer::<'w, WriteDrain<W>>::backend_as, (&after,), Some(sink_after)),
        data@.len() == front.len() + 1,
        forall|i: int| 0 <= i < front.len() ==> #[trigger] front[i] == data@[i]@,
        last == data@[front.len() as int]@,
        front.flatten().len() + last.len() * splat > room,
    ensures
        ({
            let offer = (if shown@.len() > 0 {
                seq![shown@]
            } else {
                Seq::empty()
            }) + front.filter(|part: Seq<u8>| part.len() > 0) + Seq::new(
                splat as nat,
                |i: int| last,
            );
            exists|o: &mut W, bufs: &[&[u8]], answer: Result<usize, Error>|
                {
                    &&& *o == *sink.out
                    &&& hold(bufs, offer)
                    &&& #[trigger] call_ensures(W::write_vectored, (o, bufs), answer)
                    &&& *final(o) == *sink_after.out
                    &&& match answer {
                        Err(e) => r == Err::<usize, Error>(e) && shown_after@ == shown@,
                        Ok(n) => r is Ok && if n <= shown@.len() {
                            r->Ok_0 == 0 && shown_after@ == shown@.skip(n as int)
                        } else {
                            r->Ok_0 == n - shown@.len() && shown_after@ == Seq::<u8>::empty()
                        },
                    }
                }
        }),
{
    lemma_offer(shown@, data, splat, front, last);
    assert(views(data@) =~= front.push(last));
    law_payload(front, last, splat as nat);
    law_repeated_len(last, splat as nat);
    crate::bytes::lemma_joined_gathered(shown@, views(data@), splat as nat);
    lemma_views_hold();
    assert forall|v: Writer<'w, WriteDrain<W>>, w: Writer<'w, WriteDrain<W>>, n: nat|
        v.wf() && #[trigger] v.consumed(n, w) implies w.staged() == v.staged().skip(
        if n < v.used() {
            n as int
        } else {
            v.used() as int
        },
    ) by {
        lemma_consumed_staged(v, n, w);
    }
}

/// The same of a repetition, of which the result says only whether there was an error.
pub proof fn law_splat_all_passed_on<'w, T: Write>(
    before: Writer<'w, T>,
    unit: &[u8],
    count: usize,
    r: Result<(), Error>,
    after: Writer<'w, T>,
    shown: &[u8],
    room: usize,
    sink: &T,
    shown_after: &[u8],
    sink_after: &T,
)
    requires
        before.wf(),
        call_ensures(Writer::<'w, T>::filled, (&before,), shown),
        call_ensures(Writer::<'w, T>::unused_len, (&before,), room),
        call_ensures(Writer::<'w, T>::backend_as, (&before,), Some(sink)),
        exists|w: &mut Writer<'w, T>|
            {
                &&& *w == before
                &&& #[trigger] call_ensures(Writer::<'w, T>::splat_all, (w, unit, count), r)
                &&& *final(w) == after
            },
        call_ensures(Writer::<'w, T>::filled, (&after,), shown_after),
        call_ensures(Writer::<'w, T>::backend_as, (&after,), Some(sink_after)),
        unit@.len() * count > room,
    ensures
        ({
            let offer = (if shown@.len() > 0 {
                seq![shown@]
            } else {
                Seq::empty()
            }) + Seq::new(count as nat, |i: int| unit@);
            exists|o: &mut T, bufs: &[&[u8]], answer: Result<usize, Error>|
                {
                    &&& *o == *sink
                    &&& hold(bufs, offer)
                    &&& #[trigger] call_ensures(T::write_vectored, (o, bufs), answer)
                    &&& *final(o) == *sink_after
                    &&& match answer {
                        Err(e) => r == Err::<(), Error>(e) && shown_after@ == shown@,
                        Ok(n) => r is Ok && shown_after@ == if n <= shown@.len() {
                            shown@.skip(n as int)
                        } else {
                            Seq::empty()
                        },
                    }
                }
        }),
{
    lemma_offer_one(shown@, unit@, count as nat);
    law_repeated_len(unit@, count as nat);
    lemma_views_hold();
    assert forall|v: Writer<'w, T>, w: Writer<'w, T>, n: nat|
        v.wf() && #[trigger] v.consumed(n, w) implies w.staged() == v.staged().skip(
        if n < v.used() {
            n as int
        } else {
            v.used() as int
        },
    ) by {
        lemma_consumed_staged(v, n, w);
    }
}

/// The same through a wrapped writer.
pub proof fn law_splat_all_passed_on_to_a_wrapped_writer<'w, W: Write>(
    before: Writer<'w, WriteDrain<W>>,
    unit: &[u8],
    count: usize,
    r: Result<(), Error>,
    after: Writer<'w, WriteDrain<W>>,
    shown: &[u8],
    room: usize,
    sink: &WriteDrain<W>,
    shown_after: &[u8],
    sink_after: &WriteDrain<W>,
)
    requires
        before.wf(),
        call_ensures(Writer::<'w, WriteDrain<W>>::filled, (&before,), shown),
        call_ensures(Writer::<'w, WriteDrain<W>>::unused_len, (&before,), room),
        call_ensures(Writer::<'w, WriteDrain<W>>::backend_as, (&before,), Some(sink)),
        exists|w: &mut Writer<'w, WriteDrain<W>>|
            {
                &&& *w == before
                &&& #[trigger] call_ensures(
                    Writer::<'w, WriteDrain<W>>::splat_all,
                    (w, unit, count),
                    r,
                )
                &&& *final(w) == after
            },
        call_ensures(Writer::<'w, WriteDrain<W>>::filled, (&after,), shown_after),
        call_ensures(Writer::<'w, WriteDrain<W>>::backend_as, (&after,), Some(sink_after)),
        unit@.len() * count > room,
    ensures
        ({
            let offer = (if shown@.len() > 0 {
                seq![shown@]
            } else {
                Seq::empty()
            }) + Seq::new(count as nat, |i: int| unit@);
            exists|o: &mut W, bufs: &[&[u8]], answer: Result<usize, Error>|
                {
                    &&& *o == *sink.out
                    &&& hold(bufs, offer)
                    &&& #[trigger] call_ensures(W::write_vectored, (o, bufs), answer)
                    &&& *final(o) == *sink_after.out
                    &&& match answer {
                        Err(e) => r == Err::<(), Error>(e) && shown_after@ == shown@,
                        Ok(n) => r is Ok && shown_after@ == if n <= shown@.len() {
                            shown@.skip(n as int)
                        } else {
                            Seq::empty()
                        },
                    }
                }
        }),
{
    lemma_offer_one(shown@, unit@, count as nat);
    law_repeated_len(unit@, count as nat);
    lemma_views_hold();
    assert forall|v: Writer<'w, WriteDrain<W>>, w: Writer<'w, WriteDrain<W>>, n: nat|
        v.wf() && #[trigger] v.consumed(n, w) implies w.staged() == v.staged().skip(
        if n < v.used() {
            n as int
        } else {
            v.used() as int
        },
    ) by {
        lemma_consumed_staged(v, n, w);
    }
}

/// `write_all` of bytes that do not fit offers them behind what is shown. An error ends it
/// and is the result, the very one; an answer that takes all is the end of it.
pub proof fn law_write_all_passed_on<'w, T: Write>(
    before: Writer<'w, T>,
    bytes: &[u8],
    r: Result<(), Error>,
    after: Writer<'w, T>,
    shown: &[u8],
    room: usize,
    sink: &T,
    shown_after: &[u8],
    sink_after: &T,
)
    requires
        before.wf(),
        call_ensures(Writer::<'w, T>::filled, (&before,), shown),
        call_ensures(Writer::<'w, T>::unused_len, (&before,), room),
        call_ensures(Writer::<'w, T>::backend_as, (&before,), Some(sink)),
        exists|w: &mut Writer<'w, T>|
            {
                &&& *w == before
                &&& #[trigger] call_ensures(Writer::<'w, T>::write_all, (w, bytes), r)
                &&& *final(w) == after
            },
        call_ensures(Writer::<'w, T>::filled, (&after,), shown_after),
        call_ensures(Writer::<'w, T>::backend_as, (&after,), Some(sink_after)),
        bytes@.len() > room,
    ensures
        ({
            let offer = (if shown@.len() > 0 {
                seq![shown@]
            } else {
                Seq::empty()
            }) + Seq::new(1, |i: int| bytes@);
            exists|o: &mut T, bufs: &[&[u8]], answer: Result<usize, Error>|
                {
                    &&& *o == *sink
                    &&& hold(bufs, offer)
                    &&& #[trigger] call_ensures(T::write_vectored, (o, bufs), answer)
                    &&& match answer {
                        Err(e) => {
                            &&& r == Err::<(), Error>(e)
                            &&& shown_after@ == shown@
                            &&& *final(o) == *sink_after
                        },
                        Ok(n) => n == shown@.len() + bytes@.len() ==> {
                            &&& r is Ok
                            &&& shown_after@ == Seq::<u8>::empty()
                            &&& *final(o) == *sink_after
                        },
                    }
                }
        }),
{
    lemma_offer_one(shown@, bytes@, 1);
    lemma_views_hold();
    assert forall|v: Writer<'w, T>, w: Writer<'w, T>, n: nat|
        v.wf() && #[trigger] v.consumed(n, w) implies w.staged() == v.staged().skip(
        if n < v.used() {
            n as int
        } else {
            v.used() as int
        },
    ) by {
        lemma_consumed_staged(v, n, w);
    }
}

/// The same through a wrapped writer.
pub proof fn law_write_all_passed_on_to_a_wrapped_writer<'w, W: Write>(
    before: Writer<'w, WriteDrain<W>>,
    bytes: &[u8],
    r: Result<(), Error>,
    after: Writer<'w, WriteDrain<W>>,
    shown: &[u8],
    room: usize,
    sink: &WriteDrain<W>,
    shown_after: &[u8],
    sink_after: &WriteDrain<W>,
)
    requires
        before.wf(),
        call_ensures(Writer::<'w, WriteDrain<W>>::filled, (&before,), shown),
        call_ensures(Writer::<'w, WriteDrain<W>>::unused_len, (&before,), room),
        call_ensures(Writer::<'w, WriteDrain<W>>::backend_as, (&before,), Some(sink)),
        exists|w: &mut Writer<'w, WriteDrain<W>>|
            {
                &&& *w == before
                &&& #[trigger] call_ensures(Writer::<'w, WriteDrain<W>>::write_all, (w, bytes), r)
                &&& *final(w) == after
            },
        call_ensures(Writer::<'w, WriteDrain<W>>::filled, (&after,), shown_after),
        call_ensures(Writer::<'w, WriteDrain<W>>::backend_as, (&after,), Some(sink_after)),
        bytes@.len() > room,
    ensures
        ({
            let offer = (if shown@.len() > 0 {
                seq![shown@]
            } else {
                Seq::empty()
            }) + Seq::new(1, |i: int| bytes@);
            exists|o: &mut W, bufs: &[&[u8]], answer: Result<usize, Error>|
                {
                    &&& *o == *sink.out
                    &&& hold(bufs, offer)
                    &&& #[trigger] call_ensures(W::write_vectored, (o, bufs), answer)
                    &&& match answer {
                        Err(e) => {
                            &&& r == Err::<(), Error>(e)
                            &&& shown_after@ == shown@
                            &&& *final(o) == *sink_after.out
                        },
                        Ok(n) => n == shown@.len() + bytes@.len() ==> {
                            &&& r is Ok
                            &&& shown_after@ == Seq::<u8>::empty()
                            &&& *final(o) == *sink_after.out
                        },
                    }
                }
        }),
{
    lemma_offer_one(shown@, bytes@, 1);
    lemma_views_hold();
    assert forall|v: Writer<'w, WriteDrain<W>>, w: Writer<'w, WriteDrain<W>>, n: nat|
        v.wf() && #[trigger] v.consumed(n, w) implies w.staged() == v.staged().skip(
        if n < v.used() {
            n as int
        } else {
            v.used() as int
        },
    ) by {
        lemma_consumed_staged(v, n, w);
    }
}

/// `write_all` reports no error but one that the writer reported.
pub proof fn law_write_all_makes_up_no_error<'w, T: Write>(
    before: Writer<'w, T>,
    bytes: &[u8],
    e: Error,
    after: Writer<'w, T>,
)
    requires
        exists|w: &mut Writer<'w, T>|
            {
                &&& *w == before
                &&& #[trigger] call_ensures(
                    Writer::<'w, T>::write_all,
                    (w, bytes),
                    Err::<(), Error>(e),
                )
                &&& *final(w) == after
            },
    ensures
        exists|o: &mut T, bufs: &[&[u8]]| #[trigger]
            call_ensures(T::write_vectored, (o, bufs), Err::<usize, Error>(e)),
{
}

/// `write_all` is writes in turn, each of what the ones before left of the bytes.
pub proof fn law_write_all_is_writes_in_turn<'w, S: Sink>(
    before: Writer<'w, S>,
    bytes: &[u8],
    r: Result<(), Error>,
    after: Writer<'w, S>,
)
    requires
        exists|w: &mut Writer<'w, S>|
            {
                &&& *w == before
                &&& #[trigger] call_ensures(Writer::<'w, S>::write_all, (w, bytes), r)
                &&& *final(w) == after
            },
    ensures
        exists|states: Seq<Writer<'w, S>>, done: Seq<int>|
            #![trigger states.last(), done.last()]
            {
                &&& states.len() > 0 && states[0] == before
                &&& done.len() == states.len() && done[0] == 0
                &&& forall|i: int| #[trigger]
                    goes_on(i, states.len()) ==> 0 <= done[i] < bytes@.len() && exists|
                        w: &mut Writer<'w, S>,
                        rest: &[u8],
                        n: usize,
                    |
                        {
                            &&& *w == states[i]
                            &&& rest@ == bytes@.skip(done[i])
                            &&& #[trigger] call_ensures(
                                Writer::<'w, S>::write,
                                (w, rest),
                                Ok::<usize, Error>(n),
                            )
                            &&& *final(w) == states[i + 1]
                            &&& done[i + 1] == done[i] + n
                        }
                &&& match r {
                    Ok(()) => done.last() == bytes@.len() && after == states.last(),
                    Err(e) => 0 <= done.last() < bytes@.len() && exists|
                        w: &mut Writer<'w, S>,
                        rest: &[u8],
                    |
                        {
                            &&& *w == states.last()
                            &&& rest@ == bytes@.skip(done.last())
                            &&& #[trigger] call_ensures(
                                Writer::<'w, S>::write,
                                (w, rest),
                                Err::<usize, Error>(e),
                            )
                            &&& after == *final(w)
                        },
                }
            },
{
}

/// A write that does not fit is one drain of the sink, with just these bytes, once.
pub proof fn law_write_is_one_drain<'w, S: Sink>(
    before: Writer<'w, S>,
    bytes: &[u8],
    r: Result<usize, Error>,
    after: Writer<'w, S>,
    shown: &[u8],
    room: usize,
    sink: &S,
    shown_after: &[u8],
    sink_after: &S,
)
    requires
        before.wf(),
        call_ensures(Writer::<'w, S>::filled, (&before,), shown),
        call_ensures(Writer::<'w, S>::unused_len, (&before,), room),
        call_ensures(Writer::<'w, S>::backend_as, (&before,), Some(sink)),
        exists|w: &mut Writer<'w, S>|
            {
                &&& *w == before
                &&& #[trigger] call_ensures(Writer::<'w, S>::write, (w, bytes), r)
                &&& *final(w) == after
            },
        call_ensures(Writer::<'w, S>::filled, (&after,), shown_after),
        call_ensures(Writer::<'w, S>::backend_as, (&after,), Some(sink_after)),
        bytes@.len() > room,
    ensures
        exists|b: &mut S, v: &mut Writer<'w, S>, data: &[&[u8]]|
            {
                &&& *b == *sink
                &&& v.staged() == shown@
                &&& v.memory() == before.memory()
                &&& hold(data, seq![bytes@])
                &&& #[trigger] call_ensures(S::drain, (b, v, data, 1usize), r)
                &&& *final(b) == *sink_after
                &&& final(v).staged() == shown_after@
                &&& final(v).memory() == after.memory()
            },
{
    lemma_views_hold();
}

/// A flush is one flush of the sink.
pub proof fn law_flush_is_the_sinks<'w, S: Sink>(
    before: Writer<'w, S>,
    r: Result<(), Error>,
    after: Writer<'w, S>,
    shown: &[u8],
    sink: &S,
    shown_after: &[u8],
    sink_after: &S,
)
    requires
        before.wf(),
        call_ensures(Writer::<'w, S>::filled, (&before,), shown),
        call_ensures(Writer::<'w, S>::backend_as, (&before,), Some(sink)),
        exists|w: &mut Writer<'w, S>|
            {
                &&& *w == before
                &&& #[trigger] call_ensures(Writer::<'w, S>::flush, (w,), r)
                &&& *final(w) == after
            },
        call_ensures(Writer::<'w, S>::filled, (&after,), shown_after),
        call_ensures(Writer::<'w, S>::backend_as, (&after,), Some(sink_after)),
    ensures
        r is Ok ==> shown_after@.len() == 0,
        exists|b: &mut S, v: &mut Writer<'w, S>|
            {
                &&& *b == *sink
                &&& v.staged() == shown@
                &&& v.memory() == before.memory()
                &&& #[trigger] call_ensures(S::flush, (b, v), r)
                &&& *final(b) == *sink_after
                &&& final(v).staged() == shown_after@
                &&& final(v).memory() == after.memory()
            },
{
}

/// What is gathered for a vectored write: the staged bytes and the segments that are
/// written once, without the empty ones, then the last as often as it is repeated.
pub proof fn law_gather(
    staged: &[u8],
    data: &[&[u8]],
    splat: usize,
    front: Seq<Seq<u8>>,
    last: Seq<u8>,
    r: Vec<&[u8]>,
    k: int,
)
    requires
        data@.len() == front.len() + 1,
        forall|i: int| 0 <= i < front.len() ==> #[trigger] front[i] == data@[i]@,
        last == data@[front.len() as int]@,
        call_ensures(gather, (staged, data, splat), r),
    ensures
        ({
            let offer = (if staged@.len() > 0 {
                seq![staged@]
            } else {
                Seq::empty()
            }) + front.filter(|part: Seq<u8>| part.len() > 0) + Seq::new(
                splat as nat,
                |i: int| last,
            );
            r@.len() == offer.len() && (0 <= k < offer.len() ==> r@[k]@ == offer[k])
        }),
{
    lemma_offer(staged@, data, splat, front, last);
    assert(0 <= k < r@.len() ==> views(r@)[k] == r@[k]@);
}

/// A vector as a writer takes all it is offered, in order, and has nothing to sync.
pub proof fn law_vector_as_writer(
    vec: Vec<u8>,
    buf: &[u8],
    written: Result<usize, Error>,
    vec_written: Vec<u8>,
    bufs: &[&[u8]],
    parts: Seq<Seq<u8>>,
    gathered: Result<usize, Error>,
    vec_gathered: Vec<u8>,
    synced: Result<(), Error>,
    vec_synced: Vec<u8>,
)
    requires
        exists|v: &mut Vec<u8>|
            {
                &&& *v == vec
                &&& #[trigger] call_ensures(<Vec<u8> as Write>::write, (v, buf), written)
                &&& *final(v) == vec_written
            },
        parts.len() == bufs@.len(),
        forall|i: int| 0 <= i < parts.len() ==> #[trigger] parts[i] == bufs@[i]@,
        exists|v: &mut Vec<u8>|
            {
                &&& *v == vec
                &&& #[trigger] call_ensures(<Vec<u8> as Write>::write_vectored, (v, bufs), gathered)
                &&& *final(v) == vec_gathered
            },
        exists|v: &mut Vec<u8>|
            {
                &&& *v == vec
                &&& #[trigger] call_ensures(<Vec<u8> as Write>::sync, (v,), synced)
                &&& *final(v) == vec_synced
            },
    ensures
        written is Ok && written->Ok_0 == buf@.len(),
        vec_written@ == vec@ + buf@,
        gathered is Ok && gathered->Ok_0 == parts.flatten().len(),
        vec_gathered@ == vec@ + parts.flatten(),
        synced is Ok,
        vec_synced@ == vec@,
{
    assert(views(bufs@) =~= parts);
    crate::meaning::law_joined(parts, Seq::empty(), Seq::empty());
}

/// Wrapping a writer keeps it as it is.
pub proof fn law_wrapped<W: Write>(writer: W, r: WriteDrain<W>)
    requires
        call_ensures(WriteDrain::<W>::new, (writer,), r),
    ensures
        *r.out == writer,
{
}

/// Emptying the buffer without waiting: one drain of what is shown, and nothing where
/// nothing is. Bytes that are left are reported.
pub proof fn law_flush_once<'w, S: Sink>(
    sink: S,
    before: Writer<'w, S>,
    r: Result<(), Error>,
    sink_after: S,
    after: Writer<'w, S>,
    shown: &[u8],
    shown_after: &[u8],
)
    requires
        before.wf(),
        call_ensures(Writer::<'w, S>::filled, (&before,), shown),
        exists|b: &mut S, v: &mut Writer<'w, S>|
            {
                &&& *b == sink && *v == before
                &&& #[trigger] call_ensures(S::flush_once, (b, v), r)
                &&& *final(b) == sink_after && *final(v) == after
            },
        call_ensures(Writer::<'w, S>::filled, (&after,), shown_after),
    ensures
        shown@.len() == 0 ==> r is Ok && sink_after == sink && after == before,
        shown@.len() > 0 ==> exists|
            b: &mut S,
            v: &mut Writer<'w, S>,
            data: &[&[u8]],
            answer: Result<usize, Error>,
        |
            {
                &&& *b == sink && *v == before
                &&& hold(data, seq![Seq::<u8>::empty()])
                &&& #[trigger] call_ensures(S::drain, (b, v, data, 0usize), answer)
                &&& *final(b) == sink_after && *final(v) == after
                &&& match answer {
                    Err(e) => r == Err::<(), Error>(e),
                    Ok(_) => if shown_after@.len() > 0 {
                        r == Err::<(), Error>(Error::WriteZero)
                    } else {
                        r is Ok
                    },
                }
            },
{
    lemma_views_hold();
}

/// Emptying the buffer with waiting: drains of what is still shown, one after the other,
/// until nothing is, or until the first error, which is the result.
pub proof fn law_flush_staged<'w, S: Sink>(
    sink: S,
    before: Writer<'w, S>,
    r: Result<(), Error>,
    sink_after: S,
    after: Writer<'w, S>,
    shown: &[u8],
    shown_after: &[u8],
)
    requires
        before.wf(),
        call_ensures(Writer::<'w, S>::filled, (&before,), shown),
        exists|b: &mut S, v: &mut Writer<'w, S>|
            {
                &&& *b == sink && *v == before
                &&& #[trigger] call_ensures(S::flush_staged, (b, v), r)
                &&& *final(b) == sink_after && *final(v) == after
            },
        call_ensures(Writer::<'w, S>::filled, (&after,), shown_after),
    ensures
        shown@.len() == 0 ==> r is Ok && sink_after == sink && after == before,
        r is Ok ==> shown_after@.len() == 0,
        exists|sinks: Seq<S>, writers: Seq<Writer<'w, S>>|
            #![trigger sinks.last(), writers.last()]
            {
                &&& sinks.len() > 0 && sinks[0] == sink
                &&& writers.len() == sinks.len() && writers[0] == before
                &&& forall|i: int| #[trigger]
                    goes_on(i, sinks.len()) ==> writers[i].used() > 0 && exists|
                        b: &mut S,
                        v: &mut Writer<'w, S>,
                        data: &[&[u8]],
                        n: usize,
                    |
                        {
                            &&& *b == sinks[i] && *v == writers[i]
                            &&& hold(data, seq![Seq::<u8>::empty()])
                            &&& #[trigger] call_ensures(
                                S::drain,
                                (b, v, data, 0usize),
                                Ok::<usize, Error>(n),
                            )
                            &&& *final(b) == sinks[i + 1] && *final(v) == writers[i + 1]
                        }
                &&& match r {
                    Ok(()) => {
                        &&& writers.last().used() == 0
                        &&& sink_after == sinks.last() && after == writers.last()
                    },
                    Err(e) => writers.last().used() > 0 && exists|
                        b: &mut S,
                        v: &mut Writer<'w, S>,
                        data: &[&[u8]],
                    |
                        {
                            &&& *b == sinks.last() && *v == writers.last()
                            &&& hold(data, seq![Seq::<u8>::empty()])
                            &&& #[trigger] call_ensures(
                                S::drain,
                                (b, v, data, 0usize),
                                Err::<usize, Error>(e),
                            )
                            &&& sink_after == *final(b) && after == *final(v)
                        },
                }
            },
{
    lemma_views_hold();
}

} // verus!
