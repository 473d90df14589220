//! What the words of the contracts mean, said of sequences and numbers alone.

use crate::bytes::{
    foremost, gathered, heads_fit, joined, lemma_joined_add, lemma_repeated_add,
    lemma_repeated_len, nonempty, payload, repeated, views,
};
use crate::error::Error;
use crate::hashing::{sha256, sha256_absorbed, Hasher, Hashing};
use crate::sink::{conserved, Ledger, Sink};
use crate::sinks::WriteDrain;
use crate::storage::overlaid;
use crate::stream::{AsMutBytes, StackBuffer};
use crate::text::decimal;
use crate::write::Write;
use crate::writer::Writer;
use vstd::arithmetic::div_mod::lemma_fundamental_div_mod_converse;
use vstd::prelude::*;

verus! {

/// The contents of the segments are as many as the segments, each in its place.
pub proof fn law_views(data: Seq<&[u8]>, i: int)
    requires
        0 <= i < data.len(),
    ensures
        views(data).len() == data.len(),
        views(data)[i] == data[i]@,
{
}

/// Joining is flattening: no parts give no bytes, one part gives itself, and parts behind
/// parts give bytes behind bytes.
pub proof fn law_joined(parts: Seq<Seq<u8>>, part: Seq<u8>, more: Seq<Seq<u8>>)
    ensures
        joined(Seq::empty()) == Seq::<u8>::empty(),
        joined(seq![part]) == part,
        joined(parts + more) == joined(parts) + joined(more),
        joined(parts) == parts.flatten(),
{
    assert(joined(seq![part]) == joined(seq![part].drop_last()) + part);
    assert(seq![part].drop_last() =~= Seq::<Seq<u8>>::empty());
    lemma_joined_add(parts, more);
    lemma_joined_flatten(parts);
}

proof fn lemma_joined_flatten(parts: Seq<Seq<u8>>)
    ensures
        joined(parts) == parts.flatten(),
    decreases parts.len(),
{
    if parts.len() > 0 {
        let first = seq![parts[0]];
        let rest = parts.drop_first();
        lemma_joined_flatten(rest);
        lemma_joined_add(first, rest);
        assert(first.drop_last() =~= Seq::<Seq<u8>>::empty());
        assert(joined(first) == joined(first.drop_last()) + parts[0]);
        assert(joined(first) =~= parts[0]);
        assert(first + rest =~= parts);
    }
}

/// Repeating puts the unit there as often as asked: the byte at any place is the byte of
/// the unit at the remainder of that place.
pub proof fn law_repeated(unit: Seq<u8>, count: nat, i: int)
    requires
        0 <= i < repeated(unit, count).len(),
    ensures
        repeated(unit, count).len() == unit.len() * count,
        unit.len() > 0,
        repeated(unit, count)[i] == unit[i % unit.len() as int],
    decreases count,
{
    lemma_repeated_len(unit, count);
    if count > 0 {
        let less = (count - 1) as nat;
        lemma_repeated_len(unit, less);
        if i < repeated(unit, less).len() {
            law_repeated(unit, less, i);
        } else {
            let k = i - unit.len() * less;
            assert(unit.len() * less == less * unit.len()) by (nonlinear_arith);
            lemma_fundamental_div_mod_converse(i, unit.len() as int, less as int, k);
        }
    } else {
        assert(unit.len() * count == 0) by (nonlinear_arith)
            requires
                count == 0,
        ;
    }
}

/// How long a repetition is, and that none repeats nothing.
pub proof fn law_repeated_len(unit: Seq<u8>, count: nat)
    ensures
        repeated(unit, count).len() == unit.len() * count,
        repeated(unit, 0) == Seq::<u8>::empty(),
        repeated(unit, 1) == unit,
        repeated(unit, count + 1) == unit + repeated(unit, count),
{
    lemma_repeated_len(unit, count);
    lemma_repeated_add(unit, 1, count);
    assert(repeated(unit, 1) == repeated(unit, 0) + unit);
}

/// A gathered write asks for all segments but the last in their order, then for the last
/// as often as it is repeated. Without segments it asks for nothing.
pub proof fn law_payload(front: Seq<Seq<u8>>, last: Seq<u8>, splat: nat)
    ensures
        payload(front.push(last), splat) == front.flatten() + repeated(last, splat),
        payload(Seq::empty(), splat) == Seq::<u8>::empty(),
        heads_fit(front.push(last)) <==> front.flatten().len() <= usize::MAX,
        heads_fit(Seq::empty()),
{
    assert(front.push(last).drop_last() =~= front);
    lemma_joined_flatten(front);
    crate::bytes::lemma_payload_none(splat);
}

/// A vectored write is given the staged bytes and the segments that are written once,
/// without the empty ones, and then the last segment as often as it is repeated.
pub proof fn law_gathered(staged: Seq<u8>, front: Seq<Seq<u8>>, last: Seq<u8>, splat: nat)
    ensures
        gathered(staged, front.push(last), splat) == seq![staged].filter(
            |part: Seq<u8>| part.len() > 0,
        ) + front.filter(|part: Seq<u8>| part.len() > 0) + Seq::new(splat, |i: int| last),
{
    assert(front.push(last).drop_last() =~= front);
    lemma_nonempty_filter(seq![staged]);
    lemma_nonempty_filter(front);
}

proof fn lemma_nonempty_filter(parts: Seq<Seq<u8>>)
    ensures
        nonempty(parts) == parts.filter(|part: Seq<u8>| part.len() > 0),
    decreases parts.len(),
{
    reveal(Seq::filter);
    if parts.len() > 0 {
        lemma_nonempty_filter(parts.drop_last());
    }
}

/// The foremost part is the first that is not empty, whole, and nothing else.
pub proof fn law_foremost(parts: Seq<Seq<u8>>, i: int, part: Seq<u8>)
    requires
        0 <= i < parts.len(),
        parts[i].len() > 0,
        forall|j: int| 0 <= j < i ==> (#[trigger] parts[j]).len() == 0,
    ensures
        foremost(parts, part) <==> part == parts[i],
{
    if foremost(parts, part) {
        if part.len() > 0 {
            let k = choose|k: int|
                {
                    &&& 0 <= k < parts.len()
                    &&& #[trigger] parts[k] == part
                    &&& forall|j: int| 0 <= j < k ==> (#[trigger] parts[j]).len() == 0
                };
            assert(k == i);
        }
    }
}

/// Where every part is empty, so is the foremost.
pub proof fn law_foremost_of_empty_parts(parts: Seq<Seq<u8>>, part: Seq<u8>)
    requires
        forall|j: int| 0 <= j < parts.len() ==> (#[trigger] parts[j]).len() == 0,
    ensures
        foremost(parts, part) <==> part.len() == 0,
{
}

/// Copying over a buffer changes the bytes that are copied over, and no others.
pub proof fn law_overlaid(buf: Seq<u8>, at: int, src: Seq<u8>, i: int)
    requires
        0 <= at,
        at + src.len() <= buf.len(),
        0 <= i < buf.len(),
    ensures
        overlaid(buf, at, src).len() == buf.len(),
        overlaid(buf, at, src)[i] == if at <= i < at + src.len() {
            src[i - at]
        } else {
            buf[i]
        },
{
}

/// Some first part of what was asked for is added behind what was there, as long as the
/// result says; an error adds nothing.
pub proof fn law_conserved(before: Seq<u8>, after: Seq<u8>, asked: Seq<u8>, n: usize, e: Error)
    ensures
        conserved(before, after, asked, Ok::<usize, Error>(n)) <==> {
            &&& n <= asked.len()
            &&& after.len() == before.len() + n
            &&& forall|i: int| 0 <= i < before.len() ==> after[i] == before[i]
            &&& forall|i: int| 0 <= i < n ==> #[trigger] after[before.len() + i] == asked[i]
        },
        conserved(before, after, asked, Err::<usize, Error>(e)) <==> after == before,
{
    if n <= asked.len() && after.len() == before.len() + n && (forall|i: int|
        0 <= i < before.len() ==> after[i] == before[i]) && (forall|i: int|
        0 <= i < n ==> #[trigger] after[before.len() + i] == asked[i]) {
        assert forall|k: int| before.len() <= k < after.len() implies after[k] == (before
            + asked.take(n as int))[k] by {
            assert(after[before.len() + (k - before.len())] == asked[k - before.len()]);
        }
        assert(after =~= before + asked.take(n as int));
    }
    if conserved(before, after, asked, Ok::<usize, Error>(n)) {
        assert forall|i: int| 0 <= i < n implies #[trigger] after[before.len() + i] == asked[i] by {
            assert(asked.take(n as int)[i] == asked[i]);
        }
    }
}

/// An account amounts to what it started with, then every byte from its mark on.
pub proof fn law_balance(seed: Seq<u8>, skipped: Seq<u8>, counted: Seq<u8>)
    ensures
        (Ledger { seed, mark: skipped.len() }).balance(skipped + counted) == seed + counted,
        Ledger::from_start().balance(counted) == counted,
{
    assert((skipped + counted).skip(skipped.len() as int) =~= counted);
}

/// What is staged is the first part of the buffer, what a writer was given is what its
/// sink has and then this, and two writers with the same buffer show the same.
pub proof fn law_writer_state<'buf, S: Sink>(w: Writer<'buf, S>, other: Writer<'buf, S>, n: nat)
    ensures
        w.wf() <==> w.used() <= w.memory().len() <= usize::MAX,
        w.ready() <==> {
            &&& w.used() <= w.memory().len() <= usize::MAX
            &&& w.backend() is Some
            &&& w.backend()->0.ready()
        },
        w.wf() ==> w.staged().len() == w.used(),
        w.wf() ==> forall|i: int| 0 <= i < w.used() ==> w.staged()[i] == w.memory()[i],
        w.total() == w.backend()->0.received() + w.staged(),
        w.beyond(n) == if n >= w.used() {
            n - w.used()
        } else {
            0
        },
        w.same_buffer(other) <==> {
            &&& w.memory() == other.memory()
            &&& w.used() == other.used()
            &&& w.loan() == other.loan()
        },
{
}

/// Consuming drops the first staged bytes, keeps the others in their order, and leaves
/// the length of the buffer and the sink alone. What the sink's answer makes of it: on an
/// error nothing changes and the error is handed on, whatever is staged.
pub proof fn law_consumed_and_settled<'buf, S>(
    w: Writer<'buf, S>,
    n: usize,
    e: Error,
    after: Writer<'buf, S>,
    r: Result<usize, Error>,
)
    requires
        w.wf(),
    ensures
        w.consumed(n as nat, after) ==> {
            &&& after.backend() == w.backend()
            &&& after.memory().len() == w.memory().len()
            &&& n < w.used() ==> after.staged() == w.staged().skip(n as int)
            &&& n >= w.used() ==> after.staged() == Seq::<u8>::empty() && after.memory()
                == w.memory()
            &&& n < w.used() ==> forall|i: int|
                0 <= i < w.memory().len() ==> #[trigger] after.memory()[i] == if i < w.used() - n {
                    w.memory()[n + i]
                } else {
                    w.memory()[i]
                }
        },
        w.settled(Ok::<usize, Error>(n), after, r) ==> {
            &&& w.consumed(n as nat, after)
            &&& n < w.used() ==> r == Ok::<usize, Error>(0)
            &&& n >= w.used() ==> r is Ok && r->Ok_0 == n - w.used()
        },
        w.settled(Err::<usize, Error>(e), after, r) <==> after == w && r == Err::<usize, Error>(e),
{
    if w.consumed(n as nat, after) {
        crate::writer::lemma_consumed_staged(w, n as nat, after);
        if n >= w.used() {
            assert(after.staged() =~= Seq::<u8>::empty());
        } else {
            assert forall|i: int| 0 <= i < w.memory().len() implies #[trigger] after.memory()[i]
                == if i < w.used() - n {
                w.memory()[n + i]
            } else {
                w.memory()[i]
            } by {
                law_overlaid(w.memory(), 0, w.staged().skip(n as int), i);
            }
        }
    }
}

/// A vector has written what it holds, and never fails.
pub proof fn law_vector(v: Vec<u8>)
    ensures
        v.written() == v@,
        Sink::received(&v) == v@,
        Sink::ready(&v),
        Write::infallible(&v) && Sink::infallible(&v) && Sink::flush_infallible(&v),
        Write::steady(&v) && Sink::steady(&v),
{
}

/// A writer is the sink of what it writes, by itself and wrapped.
pub proof fn law_writer_as_sink<T: Write>(out: T, drain: WriteDrain<T>)
    ensures
        Sink::received(&out) == out.written(),
        drain.received() == (*drain.out).written(),
        Sink::ready(&out) && drain.ready(),
        <T as Sink>::patient() && !<WriteDrain<T> as Sink>::patient(),
        Sink::ledger(&out) == (Ledger { seed: Seq::empty(), mark: 0 }),
        drain.ledger() == (Ledger { seed: Seq::empty(), mark: 0 }),
{
}

/// What a hashing sink received is what its writer was given, and what it hashes is what
/// its account makes of that.
pub proof fn law_hashing_sink<'buf, H: Hasher, S: Sink>(h: Hashing<'buf, H, S>)
    requires
        h.sink() is Some,
    ensures
        h.received() == h.sink()->0.total(),
        h.forwarded() == h.sink()->0.total(),
        h.ledger() == h.account(),
        h.hashed() == h.account().seed + h.sink()->0.total().skip(h.account().mark as int),
{
}

/// For SHA-256 the hash is SHA-256 itself, of the very bytes that the hasher was fed.
pub proof fn law_sha256(hasher: sha2::Sha256, bytes: Seq<u8>)
    ensures
        <sha2::Sha256 as Hasher>::hash(bytes) == sha256(bytes),
        hasher.absorbed() == sha256_absorbed(hasher),
        <sha2::Sha256 as Hasher>::too_long() == 0x2000_0000_0000_0000,
{
}

/// A digest can be asked for as long as SHA-256 has one: of fewer than two to the power of
/// 61 bytes. A hasher may have been fed that much before.
pub proof fn law_digest_is_owed<'buf, S: Sink>(
    h: Hashing<'buf, sha2::Sha256, S>,
    hasher: sha2::Sha256,
    sink: Writer<'buf, S>,
)
    ensures
        h.wf() && h.hashed().len() < 0x2000_0000_0000_0000 ==> forall|x: &mut Hashing<
            'buf,
            sha2::Sha256,
            S,
        >|
            *x == h ==> #[trigger] call_requires(
                Hashing::<'buf, sha2::Sha256, S>::digest,
                (x,),
            ),
        sha256_absorbed(hasher).len() < 0x2000_0000_0000_0000 ==> call_requires(
            Hashing::<'buf, sha2::Sha256, S>::new,
            (hasher, sink),
        ),
{
}

/// Whatever is in the buffer, a writer on a vector takes every write and every flush, as
/// long as the segments that are written once are no more bytes than can be counted.
pub proof fn law_vector_writer_takes_calls<'buf>(
    state: Writer<'buf, Vec<u8>>,
    bytes: &[u8],
    count: usize,
    data: &[&[u8]],
    front: Seq<Seq<u8>>,
    last: Seq<u8>,
)
    requires
        state.wf(),
        state.backend() is Some,
    ensures
        forall|w: &mut Writer<'buf, Vec<u8>>|
            *w == state ==> #[trigger] call_requires(
                Writer::<'buf, Vec<u8>>::write,
                (w, bytes),
            ),
        forall|w: &mut Writer<'buf, Vec<u8>>|
            *w == state ==> #[trigger] call_requires(
                Writer::<'buf, Vec<u8>>::write_all,
                (w, bytes),
            ),
        forall|w: &mut Writer<'buf, Vec<u8>>|
            *w == state ==> #[trigger] call_requires(
                Writer::<'buf, Vec<u8>>::splat_all,
                (w, bytes, count),
            ),
        forall|w: &mut Writer<'buf, Vec<u8>>|
            *w == state ==> #[trigger] call_requires(Writer::<'buf, Vec<u8>>::flush, (w,)),
        views(data@) == front.push(last) && front.flatten().len() <= usize::MAX ==> forall|
            w: &mut Writer<'buf, Vec<u8>>,
        |
            *w == state ==> #[trigger] call_requires(
                Writer::<'buf, Vec<u8>>::write_vec_splat,
                (w, data, count),
            ),
{
    law_payload(front, last, count as nat);
}

/// What fits is taken whether or not the sink is there, what does not fit wherever the sink
/// is ready, to the last byte where the sink gets on besides. So is a flush, if it would
/// wait for the sink. To look at the buffer or to consume takes no sink.
pub proof fn law_writer_takes_calls<'buf, S: Sink>(
    state: Writer<'buf, S>,
    bytes: &[u8],
    count: usize,
    data: &[&[u8]],
    front: Seq<Seq<u8>>,
    last: Seq<u8>,
    answer: Result<usize, Error>,
)
    requires
        state.used() <= state.memory().len() <= usize::MAX,
    ensures
        bytes@.len() <= state.memory().len() - state.used() || state.ready() ==> forall|
            w: &mut Writer<'buf, S>,
        |
            *w == state ==> #[trigger] call_requires(
                Writer::<'buf, S>::write,
                (w, bytes),
            ),
        bytes@.len() <= state.memory().len() - state.used() || state.ready()
            && state.backend()->0.steady() ==> forall|
            w: &mut Writer<'buf, S>,
        |
            *w == state ==> #[trigger] call_requires(
                Writer::<'buf, S>::write_all,
                (w, bytes),
            ),
        bytes@.len() * count <= state.memory().len() - state.used() || state.ready() ==> forall|
            w: &mut Writer<'buf, S>,
        |
            *w == state ==> #[trigger] call_requires(
                Writer::<'buf, S>::splat_all,
                (w, bytes, count),
            ),
        views(data@) == front.push(last) && front.flatten().len() <= usize::MAX && (
        front.flatten().len() + last.len() * count <= state.memory().len() - state.used()
            || state.ready()) ==> forall|
            w: &mut Writer<'buf, S>,
        |
            *w == state ==> #[trigger] call_requires(
                Writer::<'buf, S>::write_vec_splat,
                (w, data, count),
            ),
        state.ready() && (S::patient() ==> state.backend()->0.steady()) ==> forall|
            w: &mut Writer<'buf, S>,
        |
            *w == state ==> #[trigger] call_requires(
                Writer::<'buf, S>::flush,
                (w,),
            ),
        forall|w: &mut Writer<'buf, S>|
            *w == state ==> #[trigger] call_requires(Writer::<'buf, S>::consume, (w, count)),
        forall|w: &mut Writer<'buf, S>|
            *w == state ==> #[trigger] call_requires(Writer::<'buf, S>::settle, (w, answer)),
        call_requires(Writer::<'buf, S>::filled, (&state,)),
        call_requires(Writer::<'buf, S>::capacity, (&state,)),
        call_requires(Writer::<'buf, S>::unused_len, (&state,)),
        call_requires(Writer::<'buf, S>::staged_len, (&state,)),
        call_requires(Writer::<'buf, S>::backend_as, (&state,)),
        call_requires(Writer::<'buf, S>::debug_string, (&state,)),
{
    law_payload(front, last, count as nat);
    law_repeated_len(last, count as nat);
    law_repeated_len(bytes@, count as nat);
}

/// A writer takes part as a sink, by itself and wrapped, with any buffer: it can be drained
/// into with any segments, as long as those that are written once are no more bytes than
/// can be counted, and flushed, where it would wait for itself if it is steady.
pub proof fn law_sinks_take_calls<'buf, 'w, T: Write, H: Hasher, S: Sink>(
    out: T,
    buffer: Writer<'w, T>,
    wrapped: WriteDrain<T>,
    wrapped_buffer: Writer<'w, WriteDrain<T>>,
    hashing: Hashing<'buf, H, S>,
    hashing_buffer: Writer<'w, Hashing<'buf, H, S>>,
    data: &[&[u8]],
    splat: usize,
    front: Seq<Seq<u8>>,
    last: Seq<u8>,
)
    requires
        views(data@) == front.push(last),
        front.flatten().len() <= usize::MAX,
        buffer.wf(),
        wrapped_buffer.wf(),
        hashing_buffer.wf(),
        hashing.ready(),
    ensures
        forall|b: &mut T, v: &mut Writer<'w, T>|
            *b == out && *v == buffer ==> #[trigger] call_requires(
                <T as Sink>::drain,
                (b, v, data, splat),
            ),
        Write::steady(&out) ==> forall|b: &mut T, v: &mut Writer<'w, T>|
            *b == out && *v == buffer ==> #[trigger] call_requires(<T as Sink>::flush, (b, v)),
        forall|b: &mut WriteDrain<T>, v: &mut Writer<'w, WriteDrain<T>>|
            *b == wrapped && *v == wrapped_buffer ==> #[trigger] call_requires(
                <WriteDrain<T> as Sink>::drain,
                (b, v, data, splat),
            ),
        forall|b: &mut WriteDrain<T>, v: &mut Writer<'w, WriteDrain<T>>|
            *b == wrapped && *v == wrapped_buffer ==> #[trigger] call_requires(
                <WriteDrain<T> as Sink>::flush,
                (b, v),
            ),
        forall|b: &mut Hashing<'buf, H, S>, v: &mut Writer<'w, Hashing<'buf, H, S>>|
            *b == hashing && *v == hashing_buffer ==> #[trigger] call_requires(
                <Hashing<'buf, H, S> as Sink>::drain,
                (b, v, data, splat),
            ),
        hashing.sink()->0.backend()->0.steady() ==> forall|
            b: &mut Hashing<'buf, H, S>,
            v: &mut Writer<'w, Hashing<'buf, H, S>>,
        |
            *b == hashing && *v == hashing_buffer ==> #[trigger] call_requires(
                <Hashing<'buf, H, S> as Sink>::flush,
                (b, v),
            ),
{
    law_payload(front, last, splat as nat);
    assert(data@.len() == views(data@).len());
}

/// A hashing sink in order, whose writer is ready, is ready.
pub proof fn law_hashing_sink_is_ready<'buf, H: Hasher, S: Sink>(h: Hashing<'buf, H, S>)
    ensures
        h.ready() <==> h.wf() && h.sink() is Some && h.sink()->0.ready(),
{
}

/// A writer on a wrapped writer can always be flushed, and takes every write.
pub proof fn law_wrapped_writer_takes_calls<'buf, W: Write>(
    state: Writer<'buf, WriteDrain<W>>,
    bytes: &[u8],
)
    requires
        state.wf(),
        state.backend() is Some,
    ensures
        forall|w: &mut Writer<'buf, WriteDrain<W>>|
            *w == state ==> #[trigger] call_requires(
                Writer::<'buf, WriteDrain<W>>::write,
                (w, bytes),
            ),
        forall|w: &mut Writer<'buf, WriteDrain<W>>|
            *w == state ==> #[trigger] call_requires(
                Writer::<'buf, WriteDrain<W>>::flush,
                (w,),
            ),
{
}

/// A writer on a steady writer takes every write and every flush.
pub proof fn law_steady_writer_takes_calls<'buf, T: Write>(state: Writer<'buf, T>, bytes: &[u8])
    requires
        state.wf(),
        state.backend() is Some,
        Write::steady(&state.backend()->0),
    ensures
        forall|w: &mut Writer<'buf, T>|
            *w == state ==> #[trigger] call_requires(Writer::<'buf, T>::write, (w, bytes)),
        forall|w: &mut Writer<'buf, T>|
            *w == state ==> #[trigger] call_requires(Writer::<'buf, T>::write_all, (w, bytes)),
        forall|w: &mut Writer<'buf, T>|
            *w == state ==> #[trigger] call_requires(Writer::<'buf, T>::flush, (w,)),
{
}

/// A buffer lends all of its bytes.
pub proof fn law_region<const N: usize>(stack: StackBuffer<N>, array: [u8; N], vec: Vec<u8>)
    ensures
        stack.region() == stack.bytes(),
        stack.region().len() == N,
        array.region() == array@,
        array.region().len() == N,
        vec.region() == vec@,
{
    stack.lemma_bytes();
}

/// A number in decimal ends with its last digit, behind the number without it.
pub proof fn law_decimal(tens: nat, ones: nat)
    requires
        ones < 10,
    ensures
        decimal(ones) == seq![(48 + ones) as char],
        tens > 0 ==> decimal(10 * tens + ones) == decimal(tens) + seq![(48 + ones) as char],
{
    if tens > 0 {
        assert((10 * tens + ones) / 10 == tens && (10 * tens + ones) % 10 == ones);
    }
}

} // verus!
