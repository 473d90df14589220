//! What callers see: laws on what is shown, returned and passed on, call by call.

use crate::bytes::{payload, repeated, views};
use crate::error::Error;
use crate::meaning::{law_overlaid, law_payload, law_repeated, law_repeated_len};
use crate::sink::Sink;
use crate::storage::{copy_at, copy_down, copy_payload, overlaid, payload_len};
use crate::text::{decimal, push_decimal};
use crate::writer::{lemma_consumed_staged, Writer};
use vstd::prelude::*;

verus! {

/// What a gathered write of `data` with its last segment `splat` times stands for, byte by
/// byte.
pub proof fn lemma_asked(
    data: &[&[u8]],
    splat: usize,
    front: Seq<Seq<u8>>,
    last: Seq<u8>,
    asked: Seq<u8>,
)
    requires
        data@.len() == front.len() + 1,
        forall|i: int| 0 <= i < front.len() ==> #[trigger] front[i] == data@[i]@,
        last == data@[front.len() as int]@,
        asked.len() == front.flatten().len() + last.len() * splat,
        asked.take(front.flatten().len() as int) == front.flatten(),
        forall|i: int|
            0 <= i < last.len() * splat ==> #[trigger] asked[front.flatten().len() + i] == last[i
                % last.len() as int],
    ensures
        payload(views(data@), splat as nat) == asked,
{
    let flat = front.flatten();
    let rest = repeated(last, splat as nat);
    assert(views(data@) =~= front.push(last));
    law_payload(front, last, splat as nat);
    law_repeated_len(last, splat as nat);
    assert forall|k: int| 0 <= k < asked.len() implies asked[k] == (flat + rest)[k] by {
        if k < flat.len() {
            assert(asked.take(flat.len() as int)[k] == asked[k]);
        } else {
            let i = k - flat.len();
            law_repeated(last, splat as nat, i);
            assert(asked[flat.len() + i] == last[i % last.len() as int]);
        }
    }
    assert(asked =~= flat + rest);
}

proof fn lemma_staged_behind<'buf, S>(
    before: Writer<'buf, S>,
    more: Seq<u8>,
    after: Writer<'buf, S>,
)
    requires
        before.wf(),
        before.used() + more.len() <= before.memory().len(),
        after.used() == before.used() + more.len(),
        after.memory() == overlaid(before.memory(), before.used() as int, more),
    ensures
        after.staged() == before.staged() + more,
        after.memory().len() == before.memory().len(),
{
    assert forall|i: int| 0 <= i < before.memory().len() implies #[trigger] after.memory()[i]
        == if before.used() <= i < before.used() + more.len() {
        more[i - before.used()]
    } else {
        before.memory()[i]
    } by {
        law_overlaid(before.memory(), before.used() as int, more, i);
    }
    assert(after.staged() =~= before.staged() + more);
}

/// Bytes that fit are shown behind those that were shown before, take up room for
/// themselves and no more, and do not touch the sink.
pub proof fn law_write_that_fits<'buf, S: Sink>(
    before: Writer<'buf, S>,
    bytes: &[u8],
    r: Result<usize, Error>,
    after: Writer<'buf, S>,
    shown: &[u8],
    room: usize,
    sink: Option<&S>,
    shown_after: &[u8],
    room_after: usize,
    sink_after: Option<&S>,
)
    requires
        before.wf(),
        call_ensures(Writer::<'buf, S>::filled, (&before,), shown),
        call_ensures(Writer::<'buf, S>::unused_len, (&before,), room),
        call_ensures(Writer::<'buf, S>::backend_as, (&before,), sink),
        exists|w: &mut Writer<'buf, S>|
            {
                &&& *w == before
                &&& #[trigger] call_ensures(Writer::<'buf, S>::write, (w, bytes), r)
                &&& *final(w) == after
            },
        call_ensures(Writer::<'buf, S>::filled, (&after,), shown_after),
        call_ensures(Writer::<'buf, S>::unused_len, (&after,), room_after),
        call_ensures(Writer::<'buf, S>::backend_as, (&after,), sink_after),
        bytes@.len() <= room,
    ensures
        r is Ok && r->Ok_0 == bytes@.len(),
        shown_after@ == shown@ + bytes@,
        room_after == room - bytes@.len(),
        sink_after == sink,
{
    lemma_staged_behind(before, bytes@, after);
}

/// The same of `write_all`.
pub proof fn law_write_all_that_fits<'buf, S: Sink>(
    before: Writer<'buf, S>,
    bytes: &[u8],
    r: Result<(), Error>,
    after: Writer<'buf, S>,
    shown: &[u8],
    room: usize,
    sink: Option<&S>,
    shown_after: &[u8],
    room_after: usize,
    sink_after: Option<&S>,
)
    requires
        before.wf(),
        call_ensures(Writer::<'buf, S>::filled, (&before,), shown),
        call_ensures(Writer::<'buf, S>::unused_len, (&before,), room),
        call_ensures(Writer::<'buf, S>::backend_as, (&before,), sink),
        exists|w: &mut Writer<'buf, S>|
            {
                &&& *w == before
                &&& #[trigger] call_ensures(Writer::<'buf, S>::write_all, (w, bytes), r)
                &&& *final(w) == after
            },
        call_ensures(Writer::<'buf, S>::filled, (&after,), shown_after),
        call_ensures(Writer::<'buf, S>::unused_len, (&after,), room_after),
        call_ensures(Writer::<'buf, S>::backend_as, (&after,), sink_after),
        bytes@.len() <= room,
    ensures
        r is Ok,
        shown_after@ == shown@ + bytes@,
        room_after == room - bytes@.len(),
        sink_after == sink,
{
    lemma_staged_behind(before, bytes@, after);
}

/// The same of a gathered write: all segments but the last once, in their order, then the
/// last one over and over.
pub proof fn law_gathered_write_that_fits<'buf, S: Sink>(
    before: Writer<'buf, S>,
    data: &[&[u8]],
    splat: usize,
    front: Seq<Seq<u8>>,
    last: Seq<u8>,
    asked: Seq<u8>,
    r: Result<usize, Error>,
    after: Writer<'buf, S>,
    shown: &[u8],
    room: usize,
    sink: Option<&S>,
    shown_after: &[u8],
    room_after: usize,
    sink_after: Option<&S>,
)
    requires
        before.wf(),
        data@.len() == front.len() + 1,
        forall|i: int| 0 <= i < front.len() ==> #[trigger] front[i] == data@[i]@,
        last == data@[front.len() as int]@,
        asked.len() == front.flatten().len() + last.len() * splat,
        asked.take(front.flatten().len() as int) == front.flatten(),
        forall|i: int|
            0 <= i < last.len() * splat ==> #[trigger] asked[front.flatten().len() + i] == last[i
                % last.len() as int],
        call_ensures(Writer::<'buf, S>::filled, (&before,), shown),
        call_ensures(Writer::<'buf, S>::unused_len, (&before,), room),
        call_ensures(Writer::<'buf, S>::backend_as, (&before,), sink),
        exists|w: &mut Writer<'buf, S>|
            {
                &&& *w == before
                &&& #[trigger] call_ensures(
                    Writer::<'buf, S>::write_vec_splat,
                    (w, data, splat),
                    r,
                )
                &&& *final(w) == after
            },
        call_ensures(Writer::<'buf, S>::filled, (&after,), shown_after),
        call_ensures(Writer::<'buf, S>::unused_len, (&after,), room_after),
        call_ensures(Writer::<'buf, S>::backend_as, (&after,), sink_after),
        asked.len() <= room,
    ensures
        r is Ok && r->Ok_0 == asked.len(),
        shown_after@ == shown@ + asked,
        room_after == room - asked.len(),
        sink_after == sink,
{
    lemma_asked(data, splat, front, last, asked);
    lemma_staged_behind(before, asked, after);
}

/// The same of a repetition.
pub proof fn law_splat_that_fits<'buf, S: Sink>(
    before: Writer<'buf, S>,
    unit: &[u8],
    count: usize,
    r: Result<(), Error>,
    after: Writer<'buf, S>,
    shown: &[u8],
    room: usize,
    sink: Option<&S>,
    shown_after: &[u8],
    room_after: usize,
    sink_after: Option<&S>,
    i: int,
)
    requires
        before.wf(),
        call_ensures(Writer::<'buf, S>::filled, (&before,), shown),
        call_ensures(Writer::<'buf, S>::unused_len, (&before,), room),
        call_ensures(Writer::<'buf, S>::backend_as, (&before,), sink),
        exists|w: &mut Writer<'buf, S>|
            {
                &&& *w == before
                &&& #[trigger] call_ensures(Writer::<'buf, S>::splat_all, (w, unit, count), r)
                &&& *final(w) == after
            },
        call_ensures(Writer::<'buf, S>::filled, (&after,), shown_after),
        call_ensures(Writer::<'buf, S>::unused_len, (&after,), room_after),
        call_ensures(Writer::<'buf, S>::backend_as, (&after,), sink_after),
        unit@.len() * count <= room,
    ensures
        r is Ok,
        shown_after@.len() == shown@.len() + unit@.len() * count,
        shown_after@.take(shown@.len() as int) == shown@,
        0 <= i < unit@.len() * count ==> shown_after@[shown@.len() + i] == unit@[i
            % unit@.len() as int],
        room_after == room - unit@.len() * count,
        sink_after == sink,
{
    law_repeated_len(unit@, count as nat);
    let more = repeated(unit@, count as nat);
    lemma_staged_behind(before, more, after);
    assert(shown_after@.take(shown@.len() as int) =~= shown@);
    if 0 <= i < unit@.len() * count {
        law_repeated(unit@, count as nat, i);
    }
}

/// Consuming slides the shown bytes out at the front, and counts those it stands for
/// beyond them.
pub proof fn law_consume_slides<'buf, S>(
    before: Writer<'buf, S>,
    n: usize,
    r: usize,
    after: Writer<'buf, S>,
    shown: &[u8],
    capacity: usize,
    sink: Option<&S>,
    shown_after: &[u8],
    capacity_after: usize,
    sink_after: Option<&S>,
)
    requires
        before.wf(),
        call_ensures(Writer::<'buf, S>::filled, (&before,), shown),
        call_ensures(Writer::<'buf, S>::capacity, (&before,), capacity),
        call_ensures(Writer::<'buf, S>::backend_as, (&before,), sink),
        exists|w: &mut Writer<'buf, S>|
            {
                &&& *w == before
                &&& #[trigger] call_ensures(Writer::<'buf, S>::consume, (w, n), r)
                &&& *final(w) == after
            },
        call_ensures(Writer::<'buf, S>::filled, (&after,), shown_after),
        call_ensures(Writer::<'buf, S>::capacity, (&after,), capacity_after),
        call_ensures(Writer::<'buf, S>::backend_as, (&after,), sink_after),
    ensures
        n <= shown@.len() ==> r == 0 && shown_after@ == shown@.skip(n as int),
        n > shown@.len() ==> r == n - shown@.len() && shown_after@ == Seq::<u8>::empty(),
        capacity_after == capacity,
        sink_after == sink,
{
    lemma_consumed_staged(before, n as nat, after);
}

/// Settling an answer is consuming what it says, or handing its error on with everything
/// as it was.
pub proof fn law_settle_hands_on<'buf, S>(
    before: Writer<'buf, S>,
    answer: Result<usize, Error>,
    r: Result<usize, Error>,
    after: Writer<'buf, S>,
    shown: &[u8],
    shown_after: &[u8],
)
    requires
        before.wf(),
        call_ensures(Writer::<'buf, S>::filled, (&before,), shown),
        exists|w: &mut Writer<'buf, S>|
            {
                &&& *w == before
                &&& #[trigger] call_ensures(Writer::<'buf, S>::settle, (w, answer), r)
                &&& *final(w) == after
            },
        call_ensures(Writer::<'buf, S>::filled, (&after,), shown_after),
    ensures
        after.backend() == before.backend(),
        match answer {
            Err(e) => r == Err::<usize, Error>(e) && shown_after@ == shown@,
            Ok(n) => r is Ok && if n <= shown@.len() {
                r->Ok_0 == 0 && shown_after@ == shown@.skip(n as int)
            } else {
                r->Ok_0 == n - shown@.len() && shown_after@ == Seq::<u8>::empty()
            },
        },
{
    if let Ok(n) = answer {
        lemma_consumed_staged(before, n as nat, after);
    }
}

/// Capacity, room and what is staged go together.
pub proof fn law_room<'buf, S>(
    w: Writer<'buf, S>,
    shown: &[u8],
    len: usize,
    room: usize,
    capacity: usize,
)
    requires
        w.wf(),
        call_ensures(Writer::<'buf, S>::filled, (&w,), shown),
        call_ensures(Writer::<'buf, S>::staged_len, (&w,), len),
        call_ensures(Writer::<'buf, S>::unused_len, (&w,), room),
        call_ensures(Writer::<'buf, S>::capacity, (&w,), capacity),
    ensures
        len == shown@.len(),
        room == capacity - len,
{
}

/// The text for a programmer names the capacity and how much is staged.
pub proof fn law_debug_string<'buf, S>(
    w: Writer<'buf, S>,
    capacity: usize,
    shown: &[u8],
    r: String,
)
    requires
        w.wf(),
        call_ensures(Writer::<'buf, S>::capacity, (&w,), capacity),
        call_ensures(Writer::<'buf, S>::filled, (&w,), shown),
        call_ensures(Writer::<'buf, S>::debug_string, (&w,), r),
    ensures
        r@ == "Writer { capacity: "@ + decimal(capacity as nat) + ", end: "@ + decimal(
            shown@.len(),
        ) + " }"@,
{
}

/// A number is appended to a text in decimal.
pub proof fn law_push_decimal(before: String, n: usize, after: String)
    requires
        exists|t: &mut String|
            {
                &&& *t == before
                &&& #[trigger] call_ensures(push_decimal, (t, n), ())
                &&& *final(t) == after
            },
    ensures
        after@ == before@ + decimal(n as nat),
{
}

/// The sink can be reached through the writer, and what is made of it there is what the
/// writer has. The buffer stays as it is.
pub proof fn law_sink_within_reach<'buf, S>(
    before: Writer<'buf, S>,
    sink: Option<&S>,
    shown: &[u8],
    capacity: usize,
    reached: S,
    left: S,
    after: Writer<'buf, S>,
    sink_after: Option<&S>,
    shown_after: &[u8],
    capacity_after: usize,
)
    requires
        before.wf(),
        call_ensures(Writer::<'buf, S>::backend_as, (&before,), sink),
        call_ensures(Writer::<'buf, S>::filled, (&before,), shown),
        call_ensures(Writer::<'buf, S>::capacity, (&before,), capacity),
        exists|w: &mut Writer<'buf, S>, s: &mut S|
            {
                &&& *w == before
                &&& #[trigger] call_ensures(Writer::<'buf, S>::backend_as_mut, (w,), Some(s))
                &&& *s == reached && *final(s) == left
                &&& *final(w) == after
            },
        call_ensures(Writer::<'buf, S>::backend_as, (&after,), sink_after),
        call_ensures(Writer::<'buf, S>::filled, (&after,), shown_after),
        call_ensures(Writer::<'buf, S>::capacity, (&after,), capacity_after),
    ensures
        sink == Some(&reached),
        sink_after == Some(&left),
        shown_after@ == shown@,
        capacity_after == capacity,
{
}

/// What is written to the free part of the buffer and declared is shown behind the rest.
pub proof fn law_unfilled_tail<'buf, S, R, F: FnOnce(&mut [u8]) -> (R, usize)>(
    before: Writer<'buf, S>,
    f: F,
    r: R,
    after: Writer<'buf, S>,
    shown: &[u8],
    room: usize,
    capacity: usize,
    shown_after: &[u8],
    capacity_after: usize,
)
    requires
        before.wf(),
        call_ensures(Writer::<'buf, S>::filled, (&before,), shown),
        call_ensures(Writer::<'buf, S>::unused_len, (&before,), room),
        call_ensures(Writer::<'buf, S>::capacity, (&before,), capacity),
        forall|tail: &mut [u8], out: (R, usize)| #[trigger]
            f.ensures((tail,), out) ==> out.1 <= tail@.len() == final(tail)@.len(),
        exists|w: &mut Writer<'buf, S>|
            {
                &&& *w == before
                &&& #[trigger] call_ensures(Writer::<'buf, S>::with_unfilled, (w, f), r)
                &&& *final(w) == after
            },
        call_ensures(Writer::<'buf, S>::filled, (&after,), shown_after),
        call_ensures(Writer::<'buf, S>::capacity, (&after,), capacity_after),
    ensures
        after.backend() == before.backend(),
        capacity_after == capacity,
        exists|tail: &mut [u8], n: usize|
            {
                &&& tail@.len() == room
                &&& #[trigger] f.ensures((tail,), (r, n))
                &&& shown_after@ == shown@ + final(tail)@.take(n as int)
            },
{
    assert forall|tail: Seq<u8>, n: usize|
        after.memory() == before.staged() + tail && after.used() == before.used() + n && n
            <= tail.len() implies after.staged() == before.staged() + #[trigger] tail.take(
        n as int,
    ) by {
        assert(after.staged() =~= before.staged() + tail.take(n as int));
    }
}

/// What is handed to look at is what is shown.
pub proof fn law_filled_is_shown<'buf, S, R, F: FnOnce(&[u8]) -> R>(
    w: Writer<'buf, S>,
    f: F,
    r: R,
    shown: &[u8],
)
    requires
        call_ensures(Writer::<'buf, S>::filled, (&w,), shown),
        call_ensures(Writer::<'buf, S>::with_filled, (&w, f), r),
    ensures
        exists|s: &[u8]| s@ == shown@ && #[trigger] f.ensures((s,), r),
{
}

/// The sink and the writer without it are handed on together, and what is made of both is
/// what the writer has.
pub proof fn law_sink_is_handed_on<'buf, S, R, F: FnOnce(&mut S, &mut Writer<'buf, S>) -> R>(
    before: Writer<'buf, S>,
    f: F,
    r: R,
    after: Writer<'buf, S>,
    shown: &[u8],
    sink: &S,
    shown_after: &[u8],
    sink_after: &S,
)
    requires
        call_ensures(Writer::<'buf, S>::filled, (&before,), shown),
        call_ensures(Writer::<'buf, S>::backend_as, (&before,), Some(sink)),
        exists|w: &mut Writer<'buf, S>|
            {
                &&& *w == before
                &&& #[trigger] call_ensures(Writer::<'buf, S>::with_backend, (w, f), r)
                &&& *final(w) == after
            },
        call_ensures(Writer::<'buf, S>::filled, (&after,), shown_after),
        call_ensures(Writer::<'buf, S>::backend_as, (&after,), Some(sink_after)),
    ensures
        exists|b: &mut S, v: &mut Writer<'buf, S>|
            {
                &&& *b == *sink
                &&& v.staged() == shown@ && v.memory() == before.memory() && v.backend() is None
                &&& #[trigger] f.ensures((b, v), r)
                &&& *final(b) == *sink_after
                &&& final(v).staged() == shown_after@ && final(v).memory() == after.memory()
            },
{
}

/// Copying into a buffer, moving to its front, and measuring, byte by byte.
pub proof fn law_copies(
    before: Seq<u8>,
    at: usize,
    src: &[u8],
    copied: Seq<u8>,
    from: usize,
    end: usize,
    moved: Seq<u8>,
    i: int,
)
    requires
        at + src@.len() <= before.len(),
        from <= end <= before.len(),
        0 <= i < before.len(),
        exists|b: &mut [u8]|
            {
                &&& b@ == before
                &&& #[trigger] call_ensures(copy_at, (b, at, src), ())
                &&& final(b)@ == copied
            },
        exists|b: &mut [u8]|
            {
                &&& b@ == before
                &&& #[trigger] call_ensures(copy_down, (b, from, end), ())
                &&& final(b)@ == moved
            },
    ensures
        copied.len() == before.len() && moved.len() == before.len(),
        copied[i] == if at <= i < at + src@.len() {
            src@[i - at]
        } else {
            before[i]
        },
        moved[i] == if i < end - from {
            before[from + i]
        } else {
            before[i]
        },
{
    law_overlaid(before, at as int, src@, i);
    law_overlaid(before, 0, before.subrange(from as int, end as int), i);
}

/// How many bytes a gathered write asks for, as far as that can be counted, and where they
/// end in the buffer that they are copied into.
pub proof fn law_gathered_copy(
    data: &[&[u8]],
    splat: usize,
    front: Seq<Seq<u8>>,
    last: Seq<u8>,
    asked: Seq<u8>,
    len: Option<usize>,
    before: Seq<u8>,
    at: usize,
    end: usize,
    copied: Seq<u8>,
    i: int,
)
    requires
        data@.len() == front.len() + 1,
        forall|i: int| 0 <= i < front.len() ==> #[trigger] front[i] == data@[i]@,
        last == data@[front.len() as int]@,
        asked.len() == front.flatten().len() + last.len() * splat,
        asked.take(front.flatten().len() as int) == front.flatten(),
        forall|i: int|
            0 <= i < last.len() * splat ==> #[trigger] asked[front.flatten().len() + i] == last[i
                % last.len() as int],
        call_ensures(payload_len, (data, splat), len),
        at + asked.len() <= before.len(),
        0 <= i < before.len(),
        exists|b: &mut [u8]|
            {
                &&& b@ == before
                &&& #[trigger] call_ensures(copy_payload, (b, at, data, splat), end)
                &&& final(b)@ == copied
            },
    ensures
        match len {
            Some(n) => n == asked.len(),
            None => asked.len() > usize::MAX,
        },
        end == at + asked.len(),
        copied.len() == before.len(),
        copied[i] == if at <= i < at + asked.len() {
            asked[i - at]
        } else {
            before[i]
        },
{
    lemma_asked(data, splat, front, last, asked);
    law_overlaid(before, at as int, asked, i);
}

/// The capacity stays what it is, whatever is written or flushed, and whether that goes
/// well or not.
pub proof fn law_capacity_stays<'buf, S: Sink>(
    before: Writer<'buf, S>,
    bytes: &[u8],
    data: &[&[u8]],
    count: usize,
    after: Writer<'buf, S>,
    capacity: usize,
    capacity_after: usize,
    shown_after: &[u8],
)
    requires
        before.wf(),
        call_ensures(Writer::<'buf, S>::capacity, (&before,), capacity),
        (exists|w: &mut Writer<'buf, S>, r: Result<usize, Error>|
            {
                &&& *w == before
                &&& #[trigger] call_ensures(Writer::<'buf, S>::write, (w, bytes), r)
                &&& *final(w) == after
            }) || (exists|w: &mut Writer<'buf, S>, r: Result<(), Error>|
            {
                &&& *w == before
                &&& #[trigger] call_ensures(Writer::<'buf, S>::write_all, (w, bytes), r)
                &&& *final(w) == after
            }) || (exists|w: &mut Writer<'buf, S>, r: Result<usize, Error>|
            {
                &&& *w == before
                &&& #[trigger] call_ensures(Writer::<'buf, S>::write_vec_splat, (w, data, count), r)
                &&& *final(w) == after
            }) || (exists|w: &mut Writer<'buf, S>, r: Result<(), Error>|
            {
                &&& *w == before
                &&& #[trigger] call_ensures(Writer::<'buf, S>::splat_all, (w, bytes, count), r)
                &&& *final(w) == after
            }) || (exists|w: &mut Writer<'buf, S>, r: Result<(), Error>|
            {
                &&& *w == before
                &&& #[trigger] call_ensures(Writer::<'buf, S>::flush, (w,), r)
                &&& *final(w) == after
            }),
        call_ensures(Writer::<'buf, S>::capacity, (&after,), capacity_after),
        call_ensures(Writer::<'buf, S>::filled, (&after,), shown_after),
    ensures
        capacity_after == capacity,
        shown_after@.len() <= capacity,
{
}

/// A gathered write without any bytes, or without any segments, does nothing.
pub proof fn law_empty_write<'buf, S: Sink>(
    before: Writer<'buf, S>,
    data: &[&[u8]],
    splat: usize,
    r: Result<usize, Error>,
    after: Writer<'buf, S>,
)
    requires
        before.wf(),
        exists|w: &mut Writer<'buf, S>|
            {
                &&& *w == before
                &&& #[trigger] call_ensures(
                    Writer::<'buf, S>::write_vec_splat,
                    (w, data, splat),
                    r,
                )
                &&& *final(w) == after
            },
        forall|i: int| 0 <= i < data@.len() ==> (#[trigger] data@[i])@.len() == 0,
    ensures
        r is Ok && r->Ok_0 == 0,
        after == before,
{
    law_payload(Seq::empty(), Seq::empty(), splat as nat);
    if data@.len() > 0 {
        let front = Seq::new((data@.len() - 1) as nat, |i: int| data@[i]@);
        let last = data@[data@.len() - 1]@;
        assert(views(data@) =~= front.push(last));
        law_payload(front, last, splat as nat);
        law_repeated_len(last, splat as nat);
        lemma_flatten_empty(front);
        assert(last.len() * splat == 0) by (nonlinear_arith)
            requires
                last.len() == 0,
        ;
    } else {
        assert(views(data@) =~= Seq::<Seq<u8>>::empty());
    }
}

proof fn lemma_flatten_empty(parts: Seq<Seq<u8>>)
    requires
        forall|i: int| 0 <= i < parts.len() ==> (#[trigger] parts[i]).len() == 0,
    ensures
        parts.flatten().len() == 0,
    decreases parts.len(),
{
    if parts.len() > 0 {
        lemma_flatten_empty(parts.drop_first());
    }
}

} // verus!
