//! What holds of the library as a whole.

use crate::bytes::{
    copies, gathered, heads, joined, lemma_joined_push, lemma_repeated_add, nonempty, pattern,
    payload, repeated, views,
};
use crate::error::Error;
use crate::hashing::{Hasher, Hashing};
use crate::sink::{conserved, goes_on, Sink};
use crate::write::Write;
use crate::writer::{lemma_consumed_staged, Writer};
use vstd::prelude::*;

verus! {

/// What is written and then flushed arrives at the sink, after everything that was
/// given to the writer before, in order, nothing lost and nothing twice.
pub proof fn law_written_then_flushed_arrives<'buf, S: Sink>(
    before: Writer<'buf, S>,
    bytes: Seq<u8>,
    written: Writer<'buf, S>,
    flushed: Writer<'buf, S>,
)
    requires
        written.total() == before.total() + bytes,
        flushed.total() == written.total(),
        flushed.used() == 0,
    ensures
        flushed.backend()->0.received() == before.backend()->0.received() + before.staged() + bytes,
{
}

/// However many writes there were, all that they wrote is there, in the order of the
/// writes.
pub proof fn law_writes_add_up<'buf, S: Sink>(
    states: Seq<Writer<'buf, S>>,
    written: Seq<Seq<u8>>,
)
    requires
        states.len() == written.len() + 1,
        forall|i: int|
            0 <= i < written.len() ==> (#[trigger] states[i + 1]).total() == states[i].total()
                + written[i],
    ensures
        states.last().total() == states[0].total() + joined(written),
    decreases written.len(),
{
    if written.len() > 0 {
        let n = written.len() as int;
        let fewer = written.drop_last();
        let earlier = states.drop_last();
        assert forall|i: int| 0 <= i < fewer.len() implies (#[trigger] earlier[i + 1]).total()
            == earlier[i].total() + fewer[i] by {
        }
        law_writes_add_up(earlier, fewer);
        assert(states[n - 1 + 1].total() == states[n - 1].total() + written[n - 1]);
    }
}

/// The buffer does not show: two writers that were given the same bytes so far, are
/// given the same again and are flushed have the same bytes at their sinks, whatever
/// their capacities and whatever kinds of sinks they have.
pub proof fn law_buffer_does_not_show<'a, 'b, S: Sink, T: Sink>(
    before_a: Writer<'a, S>,
    flushed_a: Writer<'a, S>,
    before_b: Writer<'b, T>,
    flushed_b: Writer<'b, T>,
    bytes: Seq<u8>,
)
    requires
        before_a.total() == before_b.total(),
        flushed_a.total() == before_a.total() + bytes,
        flushed_b.total() == before_b.total() + bytes,
        flushed_a.used() == 0,
        flushed_b.used() == 0,
    ensures
        flushed_a.backend()->0.received() == flushed_b.backend()->0.received(),
{
}

/// A write that was dealt with in part and is taken up again where it stopped comes to
/// the same as one that was dealt with at once.
pub proof fn law_short_write_resumes(
    before: Seq<u8>,
    between: Seq<u8>,
    after: Seq<u8>,
    asked: Seq<u8>,
    first: usize,
    second: usize,
)
    requires
        conserved(before, between, asked, Ok::<usize, Error>(first)),
        conserved(between, after, asked.skip(first as int), Ok::<usize, Error>(second)),
        first + second <= usize::MAX,
    ensures
        conserved(before, after, asked, Ok::<usize, Error>((first + second) as usize)),
{
    assert(after =~= before + asked.take(first + second));
}

/// A failed write loses nothing: a later flush still delivers everything that was given
/// to the writer before it.
pub proof fn law_failed_write_loses_nothing<'buf, S: Sink>(
    before: Writer<'buf, S>,
    asked: Seq<u8>,
    error: Error,
    failed: Writer<'buf, S>,
    flushed: Writer<'buf, S>,
)
    requires
        conserved(before.total(), failed.total(), asked, Err::<usize, Error>(error)),
        flushed.total() == failed.total(),
        flushed.used() == 0,
    ensures
        flushed.backend()->0.received() == before.backend()->0.received() + before.staged(),
{
}

/// Consuming `m` bytes and then `n` is consuming `m + n`: as many are staged afterwards,
/// the same ones, and as many are left over.
pub proof fn law_consume_adds_up<'buf, S>(
    before: Writer<'buf, S>,
    m: nat,
    between: Writer<'buf, S>,
    n: nat,
    after: Writer<'buf, S>,
    at_once: Writer<'buf, S>,
)
    requires
        before.wf(),
        before.consumed(m, between),
        between.consumed(n, after),
        before.consumed(m + n, at_once),
    ensures
        after.staged() == at_once.staged(),
        after.used() == at_once.used(),
        after.backend() == at_once.backend(),
        before.beyond(m + n) == before.beyond(m) + between.beyond(n),
{
    lemma_consumed_staged(before, m, between);
    lemma_consumed_staged(between, n, after);
    lemma_consumed_staged(before, m + n, at_once);
}

/// What is consumed and what stays staged are together what was staged.
pub proof fn law_consume_keeps_the_rest<'buf, S>(
    before: Writer<'buf, S>,
    n: nat,
    after: Writer<'buf, S>,
)
    requires
        before.wf(),
        before.consumed(n, after),
    ensures
        before.staged() == before.staged().take(before.used() - after.used()) + after.staged(),
        after.memory().len() == before.memory().len(),
{
    lemma_consumed_staged(before, n, after);
}

/// What was flushed can be read back from the buffer: where the writer behind it takes
/// whatever it is offered at once, a flush leaves the buffer as it is, and the bytes that
/// were staged still stand at its start.
pub proof fn law_flushed_buffer_reads_back<'w, T: Write>(
    out: T,
    before: Writer<'w, T>,
    r: Result<(), Error>,
    after: Writer<'w, T>,
)
    requires
        before.wf(),
        exists|b: &mut T, v: &mut Writer<'w, T>|
            {
                &&& *b == out && *v == before
                &&& #[trigger] call_ensures(<T as Sink>::flush, (b, v), r)
                &&& *final(v) == after
            },
        forall|o: &mut T, bufs: &[&[u8]], answer: Result<usize, Error>| #[trigger]
            call_ensures(T::write_vectored, (o, bufs), answer) ==> answer is Ok && answer->Ok_0
                == joined(views(bufs@)).len(),
    ensures
        after.memory() == before.memory(),
        after.memory().take(before.used() as int) == before.staged(),
{
    lemma_joined_push(Seq::<Seq<u8>>::empty(), before.staged());
    assert(Seq::<Seq<u8>>::empty().push(before.staged()) =~= seq![before.staged()]);
}

/// Bytes that do not fit are offered behind the staged ones, each as one slice, and alone
/// where nothing is staged.
pub proof fn law_plain_write_is_offered_behind_the_staged(staged: Seq<u8>, bytes: Seq<u8>)
    ensures
        gathered(staged, seq![bytes], 1) == if staged.len() > 0 {
            seq![staged, bytes]
        } else {
            seq![bytes]
        },
{
    assert(nonempty(seq![staged].drop_last()) =~= Seq::<Seq<u8>>::empty());
    assert(heads(seq![bytes]) =~= Seq::<Seq<u8>>::empty());
    assert(copies(bytes, 1) =~= seq![bytes]);
}

/// Repeating the last segment some more is writing it as often again behind the rest.
pub proof fn law_splats_add_up(data: Seq<Seq<u8>>, a: nat, b: nat)
    ensures
        payload(data, a + b) == payload(data, a) + repeated(pattern(data), b),
{
    lemma_repeated_add(pattern(data), a, b);
}

/// Written once, the last segment is like the others: a gathered write is all of its
/// segments, one after the other.
pub proof fn law_gathered_write_is_its_segments(data: Seq<Seq<u8>>)
    requires
        data.len() > 0,
    ensures
        payload(data, 1) == joined(data),
{
    assert(repeated(pattern(data), 1) =~= repeated(pattern(data), 0) + pattern(data));
}

/// The digest covers exactly what was forwarded: once bytes are written to a writer on a
/// hashing sink and flushed, the next digest is the hash of what it would have been of
/// before, then what was staged, then these bytes.
pub proof fn law_digest_covers_what_is_forwarded<'w, 'buf, H: Hasher, S: Sink>(
    before: Writer<'w, Hashing<'buf, H, S>>,
    bytes: Seq<u8>,
    flushed: Writer<'w, Hashing<'buf, H, S>>,
)
    requires
        before.ready(),
        flushed.total() == before.total() + bytes,
        flushed.used() == 0,
        flushed.backend()->0.ledger() == before.backend()->0.ledger(),
    ensures
        flushed.backend()->0.hashed() == before.backend()->0.hashed() + before.staged() + bytes,
{
    before.backend()->0.lemma_account();
}

/// Whole writes, one after the other, add up, and leave the account alone that the sink
/// keeps of what it receives.
pub proof fn law_written_in_turn<'w, S: Sink>(states: Seq<Writer<'w, S>>, written: Seq<Seq<u8>>)
    requires
        states.len() == written.len() + 1,
        forall|i: int| #[trigger]
            goes_on(i, states.len()) ==> exists|w: &mut Writer<'w, S>, bytes: &[u8]|
                {
                    &&& *w == states[i]
                    &&& bytes@ == written[i]
                    &&& #[trigger] call_ensures(
                        Writer::<'w, S>::write_all,
                        (w, bytes),
                        Ok::<(), Error>(()),
                    )
                    &&& *final(w) == states[i + 1]
                },
    ensures
        states.last().total() == states[0].total() + joined(written),
        states.last().backend()->0.ledger() == states[0].backend()->0.ledger(),
    decreases written.len(),
{
    if written.len() > 0 {
        let fewer = written.drop_last();
        let earlier = states.drop_last();
        assert forall|i: int| #[trigger] goes_on(i, earlier.len()) implies exists|
            w: &mut Writer<'w, S>,
            bytes: &[u8],
        |
            {
                &&& *w == earlier[i]
                &&& bytes@ == fewer[i]
                &&& #[trigger] call_ensures(
                    Writer::<'w, S>::write_all,
                    (w, bytes),
                    Ok::<(), Error>(()),
                )
                &&& *final(w) == earlier[i + 1]
            } by {
            assert(goes_on(i, states.len()));
        }
        law_written_in_turn(earlier, fewer);
        assert(goes_on(written.len() - 1, states.len()));
    }
}

/// The digest of a stream that started with a fresh hasher is the hash of all that was
/// written to it, whatever the capacities and however many writes there were. The hasher
/// then starts over, and what was forwarded stays as it is.
pub proof fn law_digest_of_a_fresh_stream<'w, 'buf, H: Hasher, S: Sink>(
    hasher: H,
    sink: Writer<'buf, S>,
    states: Seq<Writer<'w, Hashing<'buf, H, S>>>,
    written: Seq<Seq<u8>>,
    flushed: Writer<'w, Hashing<'buf, H, S>>,
    r: Vec<u8>,
    after: Hashing<'buf, H, S>,
)
    requires
        hasher.absorbed() == Seq::<u8>::empty(),
        states.len() == written.len() + 1,
        call_ensures(Hashing::<'buf, H, S>::new, (hasher, sink), states[0].backend()->0),
        states[0].used() == 0,
        forall|i: int| #[trigger]
            goes_on(i, states.len()) ==> exists|
                w: &mut Writer<'w, Hashing<'buf, H, S>>,
                bytes: &[u8],
            |
                {
                    &&& *w == states[i]
                    &&& bytes@ == written[i]
                    &&& #[trigger] call_ensures(
                        Writer::<'w, Hashing<'buf, H, S>>::write_all,
                        (w, bytes),
                        Ok::<(), Error>(()),
                    )
                    &&& *final(w) == states[i + 1]
                },
        exists|w: &mut Writer<'w, Hashing<'buf, H, S>>|
            {
                &&& *w == states.last()
                &&& #[trigger] call_ensures(
                    Writer::<'w, Hashing<'buf, H, S>>::flush,
                    (w,),
                    Ok::<(), Error>(()),
                )
                &&& *final(w) == flushed
            },
        exists|h: &mut Hashing<'buf, H, S>|
            {
                &&& *h == flushed.backend()->0
                &&& #[trigger] call_ensures(Hashing::<'buf, H, S>::digest, (h,), r)
                &&& *final(h) == after
            },
    ensures
        r@ == H::hash(joined(written)),
        after.sink() == flushed.backend()->0.sink(),
        after.forwarded() == sink.total() + joined(written),
        forall|h: &mut Hashing<'buf, H, S>, again: Vec<u8>|
            *h == after && #[trigger] call_ensures(Hashing::<'buf, H, S>::digest, (h,), again)
                ==> again@ == H::hash(Seq::<u8>::empty()),
{
    law_written_in_turn(states, written);
    assert(flushed.backend()->0.received() == states[0].total() + joined(written));
    assert(flushed.backend()->0.hashed() =~= joined(written));
}

} // verus!
