//! From end to end: laws on what arrives in a vector, and on what a digest is the hash of.

use crate::bytes::{
    lemma_joined_gathered, lemma_payload_single, lemma_payload_splat, repeated, views,
};
use crate::calls::lemma_asked;
use crate::error::Error;
use crate::hashing::{leading, sha256, sha256_absorbed, Hasher, Hashing};
use crate::meaning::{law_repeated, law_repeated_len};
use crate::offers::lemma_chain_wf;
use crate::sink::{goes_on, Sink};
use crate::writer::{lemma_consumed_staged, Writer};
use vstd::prelude::*;

verus! {

/// A vector takes every write whole: what it holds and what is shown behind it grow by
/// just these bytes.
pub proof fn law_vector_takes_a_write<'w>(
    before: Writer<'w, Vec<u8>>,
    bytes: &[u8],
    r: Result<usize, Error>,
    after: Writer<'w, Vec<u8>>,
    shown: &[u8],
    vec: &Vec<u8>,
    shown_after: &[u8],
    vec_after: &Vec<u8>,
)
    requires
        before.wf(),
        call_ensures(Writer::<'w, Vec<u8>>::filled, (&before,), shown),
        call_ensures(Writer::<'w, Vec<u8>>::backend_as, (&before,), Some(vec)),
        exists|w: &mut Writer<'w, Vec<u8>>|
            {
                &&& *w == before
                &&& #[trigger] call_ensures(Writer::<'w, Vec<u8>>::write, (w, bytes), r)
                &&& *final(w) == after
            },
        call_ensures(Writer::<'w, Vec<u8>>::filled, (&after,), shown_after),
        call_ensures(Writer::<'w, Vec<u8>>::backend_as, (&after,), Some(vec_after)),
    ensures
        r is Ok && r->Ok_0 == bytes@.len(),
        vec_after@ + shown_after@ == vec@ + shown@ + bytes@,
{
    lemma_payload_single(bytes@);
    lemma_joined_gathered(shown@, seq![bytes@], 1);
}

/// The same of `write_all`.
pub proof fn law_vector_takes_all<'w>(
    before: Writer<'w, Vec<u8>>,
    bytes: &[u8],
    r: Result<(), Error>,
    after: Writer<'w, Vec<u8>>,
    shown: &[u8],
    vec: &Vec<u8>,
    shown_after: &[u8],
    vec_after: &Vec<u8>,
)
    requires
        before.wf(),
        call_ensures(Writer::<'w, Vec<u8>>::filled, (&before,), shown),
        call_ensures(Writer::<'w, Vec<u8>>::backend_as, (&before,), Some(vec)),
        exists|w: &mut Writer<'w, Vec<u8>>|
            {
                &&& *w == before
                &&& #[trigger] call_ensures(Writer::<'w, Vec<u8>>::write_all, (w, bytes), r)
                &&& *final(w) == after
            },
        call_ensures(Writer::<'w, Vec<u8>>::filled, (&after,), shown_after),
        call_ensures(Writer::<'w, Vec<u8>>::backend_as, (&after,), Some(vec_after)),
    ensures
        r is Ok,
        vec_after@ + shown_after@ == vec@ + shown@ + bytes@,
{
}

/// The same of a gathered write.
pub proof fn law_vector_takes_a_gathered_write<'w>(
    before: Writer<'w, Vec<u8>>,
    data: &[&[u8]],
    splat: usize,
    front: Seq<Seq<u8>>,
    last: Seq<u8>,
    asked: Seq<u8>,
    r: Result<usize, Error>,
    after: Writer<'w, Vec<u8>>,
    shown: &[u8],
    vec: &Vec<u8>,
    shown_after: &[u8],
    vec_after: &Vec<u8>,
)
    requires
        before.wf(),
        data@.len() == front.len() + 1,
        forall|i: int| 0 <= i < front.len() ==> #[trigger] front[i] == data@[i]@,
        last == data@[front.len() as int]@,
        asked.len() == front.flatten().len() + last.len() * splat,
        asked.take(front.flatten().len() as int) == front.flatten(),
        forall|i: int|
            0 <= i < last.len() * splat ==> #[trigger] asked[front.flatten().len() + i] == last[i
                % last.len() as int],
        call_ensures(Writer::<'w, Vec<u8>>::filled, (&before,), shown),
        call_ensures(Writer::<'w, Vec<u8>>::backend_as, (&before,), Some(vec)),
        exists|w: &mut Writer<'w, Vec<u8>>|
            {
                &&& *w == before
                &&& #[trigger] call_ensures(
                    Writer::<'w, Vec<u8>>::write_vec_splat,
                    (w, data, splat),
                    r,
                )
                &&& *final(w) == after
            },
        call_ensures(Writer::<'w, Vec<u8>>::filled, (&after,), shown_after),
        call_ensures(Writer::<'w, Vec<u8>>::backend_as, (&after,), Some(vec_after)),
    ensures
        r is Ok && r->Ok_0 == asked.len(),
        vec_after@ + shown_after@ == vec@ + shown@ + asked,
{
    lemma_asked(data, splat, front, last, asked);
    lemma_joined_gathered(shown@, views(data@), splat as nat);
}

/// The same of a repetition.
pub proof fn law_vector_takes_a_repetition<'w>(
    before: Writer<'w, Vec<u8>>,
    unit: &[u8],
    count: usize,
    more: Seq<u8>,
    r: Result<(), Error>,
    after: Writer<'w, Vec<u8>>,
    shown: &[u8],
    vec: &Vec<u8>,
    shown_after: &[u8],
    vec_after: &Vec<u8>,
)
    requires
        before.wf(),
        more.len() == unit@.len() * count,
        forall|i: int| 0 <= i < more.len() ==> #[trigger] more[i] == unit@[i % unit@.len() as int],
        call_ensures(Writer::<'w, Vec<u8>>::filled, (&before,), shown),
        call_ensures(Writer::<'w, Vec<u8>>::backend_as, (&before,), Some(vec)),
        exists|w: &mut Writer<'w, Vec<u8>>|
            {
                &&& *w == before
                &&& #[trigger] call_ensures(Writer::<'w, Vec<u8>>::splat_all, (w, unit, count), r)
                &&& *final(w) == after
            },
        call_ensures(Writer::<'w, Vec<u8>>::filled, (&after,), shown_after),
        call_ensures(Writer::<'w, Vec<u8>>::backend_as, (&after,), Some(vec_after)),
    ensures
        r is Ok,
        vec_after@ + shown_after@ == vec@ + shown@ + more,
{
    law_repeated_len(unit@, count as nat);
    let all = repeated(unit@, count as nat);
    assert forall|i: int| 0 <= i < more.len() implies more[i] == all[i] by {
        law_repeated(unit@, count as nat, i);
    }
    assert(more =~= all);
    lemma_payload_splat(unit@, count as nat);
    lemma_joined_gathered(shown@, seq![unit@], count as nat);
}

/// A flush moves what is shown into the vector.
pub proof fn law_vector_is_flushed_into<'w>(
    before: Writer<'w, Vec<u8>>,
    r: Result<(), Error>,
    after: Writer<'w, Vec<u8>>,
    shown: &[u8],
    vec: &Vec<u8>,
    shown_after: &[u8],
    vec_after: &Vec<u8>,
)
    requires
        before.wf(),
        call_ensures(Writer::<'w, Vec<u8>>::filled, (&before,), shown),
        call_ensures(Writer::<'w, Vec<u8>>::backend_as, (&before,), Some(vec)),
        exists|w: &mut Writer<'w, Vec<u8>>|
            {
                &&& *w == before
                &&& #[trigger] call_ensures(Writer::<'w, Vec<u8>>::flush, (w,), r)
                &&& *final(w) == after
            },
        call_ensures(Writer::<'w, Vec<u8>>::filled, (&after,), shown_after),
        call_ensures(Writer::<'w, Vec<u8>>::backend_as, (&after,), Some(vec_after)),
    ensures
        r is Ok,
        shown_after@ == Seq::<u8>::empty(),
        vec_after@ == vec@ + shown@,
{
}

/// Writes one after the other put their bytes one behind the other, and leave the account
/// alone that the sink keeps of what it receives.
proof fn lemma_in_turn<'w, S: Sink>(
    states: Seq<Writer<'w, S>>,
    texts: Seq<Seq<u8>>,
    k: int,
)
    requires
        states.len() == texts.len(),
        0 <= k < states.len(),
        texts[0] == Seq::<u8>::empty(),
        forall|i: int| #[trigger]
            goes_on(i, states.len()) ==> exists|w: &mut Writer<'w, S>, bytes: &[u8]|
                {
                    &&& *w == states[i]
                    &&& texts[i + 1] == texts[i] + bytes@
                    &&& #[trigger] call_ensures(
                        Writer::<'w, S>::write_all,
                        (w, bytes),
                        Ok::<(), Error>(()),
                    )
                    &&& *final(w) == states[i + 1]
                },
    ensures
        states[k].total() == states[0].total() + texts[k],
        states[k].backend()->0.ledger() == states[0].backend()->0.ledger(),
    decreases k,
{
    if k > 0 {
        lemma_in_turn(states, texts, k - 1);
        assert(goes_on(k - 1, states.len()));
        assert(states[k].total() =~= states[0].total() + texts[k]);
    } else {
        assert(states[0].total() + texts[0] =~= states[0].total());
    }
}

/// The digest of a stream is the SHA-256 hash of what the hasher was fed before, then of
/// what was shown, then of everything that was written, whatever the capacities and
/// however many writes there were. A second digest is that of nothing.
pub proof fn law_sha256_of_a_stream<'w, 'buf, S: Sink>(
    hasher: sha2::Sha256,
    sink: Writer<'buf, S>,
    first: Hashing<'buf, sha2::Sha256, S>,
    shown: &[u8],
    states: Seq<Writer<'w, Hashing<'buf, sha2::Sha256, S>>>,
    texts: Seq<Seq<u8>>,
    flushed: Writer<'w, Hashing<'buf, sha2::Sha256, S>>,
    hashing: Hashing<'buf, sha2::Sha256, S>,
    r: Vec<u8>,
    after: Hashing<'buf, sha2::Sha256, S>,
)
    requires
        call_ensures(Hashing::<'buf, sha2::Sha256, S>::new, (hasher, sink), first),
        states.len() == texts.len(),
        states.len() > 0,
        call_ensures(
            Writer::<'w, Hashing<'buf, sha2::Sha256, S>>::backend_as,
            (&states[0],),
            Some(&first),
        ),
        call_ensures(Writer::<'w, Hashing<'buf, sha2::Sha256, S>>::filled, (&states[0],), shown),
        texts[0] == Seq::<u8>::empty(),
        forall|i: int| #[trigger]
            goes_on(i, states.len()) ==> exists|
                w: &mut Writer<'w, Hashing<'buf, sha2::Sha256, S>>,
                bytes: &[u8],
            |
                {
                    &&& *w == states[i]
                    &&& texts[i + 1] == texts[i] + bytes@
                    &&& #[trigger] call_ensures(
                        Writer::<'w, Hashing<'buf, sha2::Sha256, S>>::write_all,
                        (w, bytes),
                        Ok::<(), Error>(()),
                    )
                    &&& *final(w) == states[i + 1]
                },
        exists|w: &mut Writer<'w, Hashing<'buf, sha2::Sha256, S>>|
            {
                &&& *w == states.last()
                &&& #[trigger] call_ensures(
                    Writer::<'w, Hashing<'buf, sha2::Sha256, S>>::flush,
                    (w,),
                    Ok::<(), Error>(()),
                )
                &&& *final(w) == flushed
            },
        call_ensures(
            Writer::<'w, Hashing<'buf, sha2::Sha256, S>>::backend_as,
            (&flushed,),
            Some(&hashing),
        ),
        exists|h: &mut Hashing<'buf, sha2::Sha256, S>|
            {
                &&& *h == hashing
                &&& #[trigger] call_ensures(Hashing::<'buf, sha2::Sha256, S>::digest, (h,), r)
                &&& *final(h) == after
            },
    ensures
        r@ == sha256(sha256_absorbed(hasher) + shown@ + texts.last()),
        forall|h: &mut Hashing<'buf, sha2::Sha256, S>, again: Vec<u8>|
            *h == after && #[trigger] call_ensures(
                Hashing::<'buf, sha2::Sha256, S>::digest,
                (h,),
                again,
            ) ==> again@ == sha256(Seq::<u8>::empty()),
        after.sink() == hashing.sink(),
{
    lemma_in_turn(states, texts, states.len() - 1);
    assert(hashing.received() == states[0].total() + texts.last());
    assert(states[0].total() == first.received() + shown@);
    assert(hashing.hashed() =~= sha256_absorbed(hasher) + shown@ + texts.last());
}

/// After a digest the next one is the SHA-256 hash of what was shown and written since.
pub proof fn law_sha256_starts_over<'w, 'buf, S: Sink>(
    earlier: Hashing<'buf, sha2::Sha256, S>,
    earlier_r: Vec<u8>,
    first: Hashing<'buf, sha2::Sha256, S>,
    shown: &[u8],
    states: Seq<Writer<'w, Hashing<'buf, sha2::Sha256, S>>>,
    texts: Seq<Seq<u8>>,
    flushed: Writer<'w, Hashing<'buf, sha2::Sha256, S>>,
    hashing: Hashing<'buf, sha2::Sha256, S>,
    r: Vec<u8>,
    after: Hashing<'buf, sha2::Sha256, S>,
)
    requires
        earlier.wf(),
        exists|h: &mut Hashing<'buf, sha2::Sha256, S>|
            {
                &&& *h == earlier
                &&& #[trigger] call_ensures(
                    Hashing::<'buf, sha2::Sha256, S>::digest,
                    (h,),
                    earlier_r,
                )
                &&& *final(h) == first
            },
        states.len() == texts.len(),
        states.len() > 0,
        call_ensures(
            Writer::<'w, Hashing<'buf, sha2::Sha256, S>>::backend_as,
            (&states[0],),
            Some(&first),
        ),
        call_ensures(Writer::<'w, Hashing<'buf, sha2::Sha256, S>>::filled, (&states[0],), shown),
        texts[0] == Seq::<u8>::empty(),
        forall|i: int| #[trigger]
            goes_on(i, states.len()) ==> exists|
                w: &mut Writer<'w, Hashing<'buf, sha2::Sha256, S>>,
                bytes: &[u8],
            |
                {
                    &&& *w == states[i]
                    &&& texts[i + 1] == texts[i] + bytes@
                    &&& #[trigger] call_ensures(
                        Writer::<'w, Hashing<'buf, sha2::Sha256, S>>::write_all,
                        (w, bytes),
                        Ok::<(), Error>(()),
                    )
                    &&& *final(w) == states[i + 1]
                },
        exists|w: &mut Writer<'w, Hashing<'buf, sha2::Sha256, S>>|
            {
                &&& *w == states.last()
                &&& #[trigger] call_ensures(
                    Writer::<'w, Hashing<'buf, sha2::Sha256, S>>::flush,
                    (w,),
                    Ok::<(), Error>(()),
                )
                &&& *final(w) == flushed
            },
        call_ensures(
            Writer::<'w, Hashing<'buf, sha2::Sha256, S>>::backend_as,
            (&flushed,),
            Some(&hashing),
        ),
        exists|h: &mut Hashing<'buf, sha2::Sha256, S>|
            {
                &&& *h == hashing
                &&& #[trigger] call_ensures(Hashing::<'buf, sha2::Sha256, S>::digest, (h,), r)
                &&& *final(h) == after
            },
    ensures
        r@ == sha256(shown@ + texts.last()),
        forall|h: &mut Hashing<'buf, sha2::Sha256, S>, again: Vec<u8>|
            *h == after && #[trigger] call_ensures(
                Hashing::<'buf, sha2::Sha256, S>::digest,
                (h,),
                again,
            ) ==> again@ == sha256(Seq::<u8>::empty()),
        after.sink() == hashing.sink(),
{
    lemma_in_turn(states, texts, states.len() - 1);
    assert(hashing.received() == states[0].total() + texts.last());
    assert(states[0].total() == first.received() + shown@);
    assert(hashing.hashed() =~= shown@ + texts.last());
}

/// A digest is the SHA-256 hash of what the hashing sink was to hash, whatever that is.
pub proof fn law_sha256_of_what_is_hashed<'buf, S: Sink>(
    before: Hashing<'buf, sha2::Sha256, S>,
    r: Vec<u8>,
    after: Hashing<'buf, sha2::Sha256, S>,
)
    requires
        exists|h: &mut Hashing<'buf, sha2::Sha256, S>|
            {
                &&& *h == before
                &&& #[trigger] call_ensures(Hashing::<'buf, sha2::Sha256, S>::digest, (h,), r)
                &&& *final(h) == after
            },
    ensures
        r@ == sha256(before.hashed()),
        after.hashed() == Seq::<u8>::empty(),
        after.sink() == before.sink(),
{
}

/// A hashing sink forwards some first part of what is shown and of what it is asked for,
/// in this order, and feeds the hasher with just that. What it forwards of the former is
/// no longer shown, and how much it forwards of the latter is the result.
pub proof fn law_hashing_sink_feeds_what_it_forwards<'w, 'buf, H: Hasher, S: Sink>(
    sink: Hashing<'buf, H, S>,
    before: Writer<'w, Hashing<'buf, H, S>>,
    data: &[&[u8]],
    splat: usize,
    front: Seq<Seq<u8>>,
    last: Seq<u8>,
    asked: Seq<u8>,
    r: Result<usize, Error>,
    sink_after: Hashing<'buf, H, S>,
    after: Writer<'w, Hashing<'buf, H, S>>,
    shown: &[u8],
    shown_after: &[u8],
)
    requires
        before.wf(),
        sink.ready(),
        data@.len() == front.len() + 1,
        forall|i: int| 0 <= i < front.len() ==> #[trigger] front[i] == data@[i]@,
        last == data@[front.len() as int]@,
        asked.len() == front.flatten().len() + last.len() * splat,
        asked.take(front.flatten().len() as int) == front.flatten(),
        forall|i: int|
            0 <= i < last.len() * splat ==> #[trigger] asked[front.flatten().len() + i] == last[i
                % last.len() as int],
        call_ensures(Writer::<'w, Hashing<'buf, H, S>>::filled, (&before,), shown),
        exists|b: &mut Hashing<'buf, H, S>, v: &mut Writer<'w, Hashing<'buf, H, S>>|
            {
                &&& *b == sink && *v == before
                &&& #[trigger] call_ensures(
                    <Hashing<'buf, H, S> as Sink>::drain,
                    (b, v, data, splat),
                    r,
                )
                &&& *final(b) == sink_after && *final(v) == after
            },
        call_ensures(Writer::<'w, Hashing<'buf, H, S>>::filled, (&after,), shown_after),
    ensures
        shown_after@.len() <= shown@.len(),
        shown_after@ == shown@.skip(shown@.len() - shown_after@.len()),
        ({
            let gone = shown@.take(shown@.len() - shown_after@.len());
            let more = match r {
                Ok(n) => asked.take(n as int),
                Err(_) => Seq::empty(),
            };
            &&& r is Ok ==> r->Ok_0 <= asked.len()
            &&& r is Ok && r->Ok_0 > 0 ==> shown_after@.len() == 0
            &&& sink_after.sink()->0.total() == sink.sink()->0.total() + gone + more
            &&& sink_after.hashed() == sink.hashed() + gone + more
        }),
{
    lemma_asked(data, splat, front, last, asked);
    sink.lemma_account();
    assert forall|n: nat| #[trigger] before.consumed(n, after) implies after.staged()
        == before.staged().skip(if n < before.used() {
        n as int
    } else {
        before.used() as int
    }) by {
        lemma_consumed_staged(before, n, after);
    }
    let gone = shown@.take(shown@.len() - shown_after@.len());
    let more = match r {
        Ok(n) => asked.take(n as int),
        Err(_) => Seq::empty(),
    };
    assert(shown@ =~= gone + shown_after@);
    let whole = sink.forwarded() + shown@ + more;
    assert(sink_after.forwarded() + shown_after@ =~= whole);
    assert(sink_after.forwarded() =~= whole.take(sink_after.forwarded().len() as int));
    assert(sink_after.forwarded() =~= sink.forwarded() + gone + more);
    assert(sink_after.hashed() =~= sink.hashed() + gone + more);
}

/// The first bytes of a gathered write are the first of what it asks for.
pub proof fn law_leading(
    data: &[&[u8]],
    splat: usize,
    front: Seq<Seq<u8>>,
    last: Seq<u8>,
    asked: Seq<u8>,
    n: usize,
    r: Vec<u8>,
)
    requires
        data@.len() == front.len() + 1,
        forall|i: int| 0 <= i < front.len() ==> #[trigger] front[i] == data@[i]@,
        last == data@[front.len() as int]@,
        asked.len() == front.flatten().len() + last.len() * splat,
        asked.take(front.flatten().len() as int) == front.flatten(),
        forall|i: int|
            0 <= i < last.len() * splat ==> #[trigger] asked[front.flatten().len() + i] == last[i
                % last.len() as int],
        call_ensures(leading, (data, splat, n), r),
    ensures
        r@ == asked.take(n as int),
{
    lemma_asked(data, splat, front, last, asked);
}

/// A new hashing sink has its writer until that is taken out. The digest does not depend
/// on whether it is.
pub proof fn law_hashing_sink_lends_its_writer<'buf, S: Sink>(
    hasher: sha2::Sha256,
    sink: Writer<'buf, S>,
    hashing: Hashing<'buf, sha2::Sha256, S>,
    held: Option<&Writer<'buf, S>>,
    taken: Option<Writer<'buf, S>>,
    rest: Hashing<'buf, sha2::Sha256, S>,
    held_after: Option<&Writer<'buf, S>>,
    r: Vec<u8>,
    after: Hashing<'buf, sha2::Sha256, S>,
)
    requires
        call_ensures(Hashing::<'buf, sha2::Sha256, S>::new, (hasher, sink), hashing),
        call_ensures(Hashing::<'buf, sha2::Sha256, S>::borrow_sink, (&hashing,), held),
        exists|h: &mut Hashing<'buf, sha2::Sha256, S>|
            {
                &&& *h == hashing
                &&& #[trigger] call_ensures(
                    Hashing::<'buf, sha2::Sha256, S>::take_sink,
                    (h,),
                    taken,
                )
                &&& *final(h) == rest
            },
        call_ensures(Hashing::<'buf, sha2::Sha256, S>::borrow_sink, (&rest,), held_after),
        exists|h: &mut Hashing<'buf, sha2::Sha256, S>|
            {
                &&& *h == rest
                &&& #[trigger] call_ensures(Hashing::<'buf, sha2::Sha256, S>::digest, (h,), r)
                &&& *final(h) == after
            },
    ensures
        held == Some(&sink),
        taken == Some(sink),
        held_after is None,
        r@ == sha256(sha256_absorbed(hasher)),
{
}

/// A SHA-256 hasher that is fed hashes what it was fed before and then these bytes, and
/// starts over with nothing.
pub proof fn law_sha256_hasher(
    hasher: sha2::Sha256,
    bytes: &[u8],
    fed: sha2::Sha256,
    r: Vec<u8>,
    reset: sha2::Sha256,
    fresh: sha2::Sha256,
)
    requires
        exists|h: &mut sha2::Sha256|
            {
                &&& *h == hasher
                &&& #[trigger] call_ensures(<sha2::Sha256 as Hasher>::update, (h, bytes), ())
                &&& *final(h) == fed
            },
        exists|h: &mut sha2::Sha256|
            {
                &&& *h == fed
                &&& #[trigger] call_ensures(<sha2::Sha256 as Hasher>::finalize_reset, (h,), r)
                &&& *final(h) == reset
            },
        call_ensures(<sha2::Sha256 as Hasher>::fresh, (), fresh),
    ensures
        sha256_absorbed(fed) == sha256_absorbed(hasher) + bytes@,
        r@ == sha256(sha256_absorbed(hasher) + bytes@),
        sha256_absorbed(reset) == Seq::<u8>::empty(),
        sha256_absorbed(fresh) == Seq::<u8>::empty(),
{
}

/// What goes to the underlying writer by another way is not hashed: where the hashing sink
/// is left alone meanwhile, it has the same bytes to hash afterwards.
pub proof fn law_what_goes_around_is_not_hashed<
    'buf,
    S: Sink,
    R,
    F: FnOnce(&mut Writer<'buf, S>, &mut Hashing<'buf, sha2::Sha256, S>) -> R,
>(
    before: Hashing<'buf, sha2::Sha256, S>,
    sink: &Writer<'buf, S>,
    f: F,
    r: R,
    after: Hashing<'buf, sha2::Sha256, S>,
    sink_after: &Writer<'buf, S>,
)
    requires
        before.wf(),
        call_ensures(Hashing::<'buf, sha2::Sha256, S>::borrow_sink, (&before,), Some(sink)),
        forall|s: &mut Writer<'buf, S>, h: &mut Hashing<'buf, sha2::Sha256, S>, x: R| #[trigger]
            f.ensures((s, h), x) ==> *final(h) == *h,
        exists|h: &mut Hashing<'buf, sha2::Sha256, S>|
            {
                &&& *h == before
                &&& #[trigger] call_ensures(
                    Hashing::<'buf, sha2::Sha256, S>::with_sink,
                    (h, f),
                    r,
                )
                &&& *final(h) == after
            },
        call_ensures(Hashing::<'buf, sha2::Sha256, S>::borrow_sink, (&after,), Some(sink_after)),
    ensures
        after.wf(),
        after.hashed() == before.hashed(),
        exists|s: &mut Writer<'buf, S>, h: &mut Hashing<'buf, sha2::Sha256, S>|
            {
                &&& *s == *sink
                &&& #[trigger] f.ensures((s, h), r)
                &&& *final(s) == *sink_after
            },
{
}

/// What a hashing sink hands on and what it makes of the answers: first what is shown goes
/// to the underlying writer, and only once all of it is taken, the rest. An error of
/// either is handed on as it is.
pub proof fn law_drain_into_a_hashing_sink<'w, 'buf, H: Hasher, S: Sink>(
    sink: Hashing<'buf, H, S>,
    before: Writer<'w, Hashing<'buf, H, S>>,
    data: &[&[u8]],
    splat: usize,
    r: Result<usize, Error>,
    sink_after: Hashing<'buf, H, S>,
    after: Writer<'w, Hashing<'buf, H, S>>,
    inner: &Writer<'buf, S>,
    inner_after: &Writer<'buf, S>,
    shown: &[u8],
    shown_after: &[u8],
)
    requires
        before.wf(),
        call_ensures(Hashing::<'buf, H, S>::borrow_sink, (&sink,), Some(inner)),
        call_ensures(Writer::<'w, Hashing<'buf, H, S>>::filled, (&before,), shown),
        exists|b: &mut Hashing<'buf, H, S>, v: &mut Writer<'w, Hashing<'buf, H, S>>|
            {
                &&& *b == sink && *v == before
                &&& #[trigger] call_ensures(
                    <Hashing<'buf, H, S> as Sink>::drain,
                    (b, v, data, splat),
                    r,
                )
                &&& *final(b) == sink_after && *final(v) == after
            },
        call_ensures(Hashing::<'buf, H, S>::borrow_sink, (&sink_after,), Some(inner_after)),
        call_ensures(Writer::<'w, Hashing<'buf, H, S>>::filled, (&after,), shown_after),
    ensures
        exists|s: &mut Writer<'buf, S>, bytes: &[u8], answer: Result<usize, Error>|
            {
                &&& *s == *inner
                &&& bytes@ == shown@
                &&& #[trigger] call_ensures(Writer::<'buf, S>::write, (s, bytes), answer)
                &&& match answer {
                    Err(e) => {
                        &&& r == Err::<usize, Error>(e)
                        &&& shown_after@ == shown@
                        &&& *final(s) == *inner_after
                    },
                    Ok(n) => if n < shown@.len() {
                        &&& r is Ok && r->Ok_0 == 0
                        &&& shown_after@ == shown@.skip(n as int)
                        &&& *final(s) == *inner_after
                    } else {
                        &&& shown_after@.len() == 0
                        &&& exists|t: &mut Writer<'buf, S>|
                            {
                                &&& *t == *final(s)
                                &&& #[trigger] call_ensures(
                                    Writer::<'buf, S>::write_vec_splat,
                                    (t, data, splat),
                                    r,
                                )
                                &&& *final(t) == *inner_after
                            }
                    },
                }
            },
{
    assert forall|n: nat| #[trigger] before.consumed(n, after) implies after.staged()
        == before.staged().skip(if n < before.used() {
        n as int
    } else {
        before.used() as int
    }) by {
        lemma_consumed_staged(before, n, after);
    }
}

/// A flush of a hashing sink writes what is still shown to the underlying writer, again
/// and again. Once nothing is shown, that writer is flushed, and its answer is the result.
/// An error of a write ends it at once and is the result.
pub proof fn law_flush_of_a_hashing_sink<'w, 'buf, H: Hasher, S: Sink>(
    sink: Hashing<'buf, H, S>,
    before: Writer<'w, Hashing<'buf, H, S>>,
    r: Result<(), Error>,
    sink_after: Hashing<'buf, H, S>,
    after: Writer<'w, Hashing<'buf, H, S>>,
    inner: &Writer<'buf, S>,
    inner_after: &Writer<'buf, S>,
    shown: &[u8],
    shown_after: &[u8],
)
    requires
        before.wf(),
        call_ensures(Hashing::<'buf, H, S>::borrow_sink, (&sink,), Some(inner)),
        call_ensures(Writer::<'w, Hashing<'buf, H, S>>::filled, (&before,), shown),
        exists|b: &mut Hashing<'buf, H, S>, v: &mut Writer<'w, Hashing<'buf, H, S>>|
            {
                &&& *b == sink && *v == before
                &&& #[trigger] call_ensures(<Hashing<'buf, H, S> as Sink>::flush, (b, v), r)
                &&& *final(b) == sink_after && *final(v) == after
            },
        call_ensures(Hashing::<'buf, H, S>::borrow_sink, (&sink_after,), Some(inner_after)),
        call_ensures(Writer::<'w, Hashing<'buf, H, S>>::filled, (&after,), shown_after),
    ensures
        exists|inners: Seq<Writer<'buf, S>>, texts: Seq<Seq<u8>>|
            #![trigger inners.last(), texts.last()]
            {
                &&& inners.len() > 0 && inners[0] == *inner
                &&& texts.len() == inners.len() && texts[0] == shown@
                &&& forall|i: int| #[trigger]
                    goes_on(i, inners.len()) ==> texts[i].len() > 0 && exists|
                        s: &mut Writer<'buf, S>,
                        bytes: &[u8],
                        n: usize,
                    |
                        {
                            &&& *s == inners[i]
                            &&& bytes@ == texts[i]
                            &&& #[trigger] call_ensures(
                                Writer::<'buf, S>::write,
                                (s, bytes),
                                Ok::<usize, Error>(n),
                            )
                            &&& *final(s) == inners[i + 1]
                            &&& n <= texts[i].len() && texts[i + 1] == texts[i].skip(n as int)
                        }
                &&& shown_after@ == texts.last()
                &&& if texts.last().len() == 0 {
                    exists|s: &mut Writer<'buf, S>|
                        {
                            &&& *s == inners.last()
                            &&& #[trigger] call_ensures(Writer::<'buf, S>::flush, (s,), r)
                            &&& *final(s) == *inner_after
                        }
                } else {
                    exists|s: &mut Writer<'buf, S>, bytes: &[u8], e: Error|
                        {
                            &&& *s == inners.last()
                            &&& bytes@ == texts.last()
                            &&& #[trigger] call_ensures(
                                Writer::<'buf, S>::write,
                                (s, bytes),
                                Err::<usize, Error>(e),
                            )
                            &&& *final(s) == *inner_after
                            &&& r == Err::<(), Error>(e)
                        }
                }
            },
{
    let (sinks, writers) = choose|
        sinks: Seq<Hashing<'buf, H, S>>,
        writers: Seq<Writer<'w, Hashing<'buf, H, S>>>,
    |
        #![trigger sinks.last(), writers.last()]
        {
            &&& sinks.len() > 0 && sinks[0] == sink
            &&& writers.len() == sinks.len() && writers[0] == before
            &&& forall|i: int| #[trigger]
                goes_on(i, sinks.len()) ==> writers[i].used() > 0 && exists|
                    s: &mut Writer<'buf, S>,
                    bytes: &[u8],
                    n: usize,
                |
                    {
                        &&& *s == sinks[i].sink()->0
                        &&& bytes@ == writers[i].staged()
                        &&& #[trigger] call_ensures(
                            Writer::<'buf, S>::write,
                            (s, bytes),
                            Ok::<usize, Error>(n),
                        )
                        &&& sinks[i + 1].sink() == Some(*final(s))
                        &&& writers[i].consumed(n as nat, writers[i + 1])
                    }
            &&& after == writers.last()
            &&& if writers.last().used() == 0 {
                exists|s: &mut Writer<'buf, S>|
                    {
                        &&& *s == sinks.last().sink()->0
                        &&& #[trigger] call_ensures(Writer::<'buf, S>::flush, (s,), r)
                        &&& sink_after.sink() == Some(*final(s))
                    }
            } else {
                exists|s: &mut Writer<'buf, S>, bytes: &[u8], answer: Result<usize, Error>|
                    {
                        &&& *s == sinks.last().sink()->0
                        &&& bytes@ == writers.last().staged()
                        &&& #[trigger] call_ensures(Writer::<'buf, S>::write, (s, bytes), answer)
                        &&& answer is Err && r == Err::<(), Error>(answer->Err_0)
                        &&& sink_after.sink() == Some(*final(s))
                    }
            }
        };
    let inners = Seq::new(sinks.len(), |i: int| sinks[i].sink()->0);
    let texts = Seq::new(writers.len(), |i: int| writers[i].staged());
    assert forall|i: int| #[trigger] goes_on(i, writers.len()) implies exists|n: nat| #[trigger]
        writers[i].consumed(n, writers[i + 1]) by {
        assert(goes_on(i, sinks.len()));
    }
    assert forall|i: int| #[trigger] goes_on(i, inners.len()) implies texts[i].len() > 0 && exists|
        s: &mut Writer<'buf, S>,
        bytes: &[u8],
        n: usize,
    |
        {
            &&& *s == inners[i]
            &&& bytes@ == texts[i]
            &&& #[trigger] call_ensures(Writer::<'buf, S>::write, (s, bytes), Ok::<usize, Error>(n))
            &&& *final(s) == inners[i + 1]
            &&& n <= texts[i].len() && texts[i + 1] == texts[i].skip(n as int)
        } by {
        assert(goes_on(i, sinks.len()));
        lemma_chain_wf(writers, i);
        let (s, bytes, n) = choose|s: &mut Writer<'buf, S>, bytes: &[u8], n: usize|
            {
                &&& *s == sinks[i].sink()->0
                &&& bytes@ == writers[i].staged()
                &&& #[trigger] call_ensures(
                    Writer::<'buf, S>::write,
                    (s, bytes),
                    Ok::<usize, Error>(n),
                )
                &&& sinks[i + 1].sink() == Some(*final(s))
                &&& writers[i].consumed(n as nat, writers[i + 1])
            };
        lemma_consumed_staged(writers[i], n as nat, writers[i + 1]);
        assert(call_ensures(Writer::<'buf, S>::write, (s, bytes), Ok::<usize, Error>(n)));
    }
    lemma_chain_wf(writers, writers.len() - 1);
    assert(texts.last() == writers.last().staged());
    assert(inners.last() == sinks.last().sink()->0);
}

} // verus!
