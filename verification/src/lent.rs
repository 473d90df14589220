//! Buffers: laws on what a new writer or stream works with, and on what the memory that
//! was lent to it holds afterwards.

use crate::error::Error;
use crate::meaning::law_overlaid;
use crate::sink::Sink;
use crate::stream::{AsMutBytes, StackBuffer, WritableStream};
use crate::writer::{vec_capacity, Writer};
use vstd::prelude::*;

verus! {

/// A new writer has the capacity that was asked for, all of it free, and its sink.
pub proof fn law_writer_with_capacity<'buf, S: Sink>(
    asked: usize,
    w: Writer<'buf, S>,
    sink: S,
    capacity: usize,
    room: usize,
    shown: &[u8],
    held: Option<&S>,
)
    requires
        call_ensures(Writer::<'buf, S>::with_capacity, (asked, Box::new(sink)), w),
        call_ensures(Writer::<'buf, S>::capacity, (&w,), capacity),
        call_ensures(Writer::<'buf, S>::unused_len, (&w,), room),
        call_ensures(Writer::<'buf, S>::filled, (&w,), shown),
        call_ensures(Writer::<'buf, S>::backend_as, (&w,), held),
    ensures
        w.wf(),
        capacity == asked,
        room == asked,
        shown@.len() == 0,
        held == Some(&sink),
{
}

/// A writer on a slice has all of the slice to stage in.
pub proof fn law_writer_from_slice<'buf, S: Sink>(
    memory: Seq<u8>,
    w: Writer<'buf, S>,
    sink: S,
    capacity: usize,
    room: usize,
    shown: &[u8],
    held: Option<&S>,
)
    requires
        exists|b: &mut [u8]|
            {
                &&& b@ == memory
                &&& #[trigger] call_ensures(Writer::<'buf, S>::from_slice, (b, Box::new(sink)), w)
            },
        call_ensures(Writer::<'buf, S>::capacity, (&w,), capacity),
        call_ensures(Writer::<'buf, S>::unused_len, (&w,), room),
        call_ensures(Writer::<'buf, S>::filled, (&w,), shown),
        call_ensures(Writer::<'buf, S>::backend_as, (&w,), held),
    ensures
        w.wf(),
        capacity == memory.len(),
        room == memory.len(),
        shown@.len() == 0,
        held == Some(&sink),
{
}

/// The same of one whose bytes do not matter.
pub proof fn law_writer_from_uninit_slice<'buf, S: Sink>(
    memory: Seq<u8>,
    w: Writer<'buf, S>,
    sink: S,
    capacity: usize,
    room: usize,
    shown: &[u8],
    held: Option<&S>,
)
    requires
        exists|b: &mut [u8]|
            {
                &&& b@ == memory
                &&& #[trigger] call_ensures(
                    Writer::<'buf, S>::from_uninit_slice,
                    (b, Box::new(sink)),
                    w,
                )
            },
        call_ensures(Writer::<'buf, S>::capacity, (&w,), capacity),
        call_ensures(Writer::<'buf, S>::unused_len, (&w,), room),
        call_ensures(Writer::<'buf, S>::filled, (&w,), shown),
        call_ensures(Writer::<'buf, S>::backend_as, (&w,), held),
    ensures
        w.wf(),
        capacity == memory.len(),
        room == memory.len(),
        shown@.len() == 0,
        held == Some(&sink),
{
}

/// A writer from a vector has as much to stage in as the vector has to spare.
pub proof fn law_writer_from_vector<'buf, S: Sink>(
    vec: Vec<u8>,
    vec_after: Vec<u8>,
    w: Writer<'buf, S>,
    sink: S,
    capacity: usize,
    room: usize,
    shown: &[u8],
    held: Option<&S>,
)
    requires
        exists|b: &mut Vec<u8>|
            {
                &&& *b == vec
                &&& #[trigger] call_ensures(Writer::<'buf, S>::from_vector, (b, Box::new(sink)), w)
                &&& *final(b) == vec_after
            },
        call_ensures(Writer::<'buf, S>::capacity, (&w,), capacity),
        call_ensures(Writer::<'buf, S>::unused_len, (&w,), room),
        call_ensures(Writer::<'buf, S>::filled, (&w,), shown),
        call_ensures(Writer::<'buf, S>::backend_as, (&w,), held),
    ensures
        w.wf(),
        capacity == room,
        shown@.len() == 0,
        held == Some(&sink),
        vec_after@ == vec@,
        exists|c: usize| #[trigger]
            call_ensures(vec_capacity, (&vec,), c) && capacity == c - vec@.len(),
{
}

/// A writer on a stack buffer has all of it to stage in.
pub proof fn law_writer_on_a_stack_buffer<'buf, const N: usize, S: Sink>(
    stack: StackBuffer<N>,
    w: Writer<'buf, S>,
    sink: S,
    capacity: usize,
    room: usize,
    shown: &[u8],
    held: Option<&S>,
)
    requires
        exists|b: &mut StackBuffer<N>|
            {
                &&& *b == stack
                &&& #[trigger] call_ensures(StackBuffer::<N>::writer::<S>, (b, sink), w)
            },
        call_ensures(Writer::<'buf, S>::capacity, (&w,), capacity),
        call_ensures(Writer::<'buf, S>::unused_len, (&w,), room),
        call_ensures(Writer::<'buf, S>::filled, (&w,), shown),
        call_ensures(Writer::<'buf, S>::backend_as, (&w,), held),
    ensures
        w.wf(),
        capacity == N,
        room == N,
        shown@.len() == 0,
        held == Some(&sink),
{
}

/// A stream on a slice has all of it to stage in, nothing staged, and its sink.
pub proof fn law_stream_with_slice<'buf, S: Sink>(
    memory: Seq<u8>,
    stream: WritableStream<'buf, S>,
    sink: S,
    capacity: usize,
    held: &S,
    writer: Writer<'buf, S>,
    room: usize,
    shown: &[u8],
)
    requires
        exists|b: &mut [u8]|
            {
                &&& b@ == memory
                &&& #[trigger] call_ensures(
                    WritableStream::<'buf, S>::with_slice,
                    (b, sink),
                    stream,
                )
            },
        call_ensures(WritableStream::<'buf, S>::capacity, (&stream,), capacity),
        call_ensures(WritableStream::<'buf, S>::sink, (&stream,), held),
        exists|s: &mut WritableStream<'buf, S>, w: &mut Writer<'buf, S>|
            {
                &&& *s == stream
                &&& #[trigger] call_ensures(WritableStream::<'buf, S>::writer, (s,), w)
                &&& *w == writer
            },
        call_ensures(Writer::<'buf, S>::unused_len, (&writer,), room),
        call_ensures(Writer::<'buf, S>::filled, (&writer,), shown),
    ensures
        capacity == memory.len(),
        room == memory.len(),
        shown@.len() == 0,
        *held == sink,
        writer.wf(),
{
}

/// The same of one whose bytes do not matter.
pub proof fn law_stream_with_uninit_buffer<'buf, S: Sink>(
    memory: Seq<u8>,
    stream: WritableStream<'buf, S>,
    sink: S,
    capacity: usize,
    held: &S,
    writer: Writer<'buf, S>,
    room: usize,
    shown: &[u8],
)
    requires
        exists|b: &mut [u8]|
            {
                &&& b@ == memory
                &&& #[trigger] call_ensures(
                    WritableStream::<'buf, S>::with_uninit_buffer,
                    (b, sink),
                    stream,
                )
            },
        call_ensures(WritableStream::<'buf, S>::capacity, (&stream,), capacity),
        call_ensures(WritableStream::<'buf, S>::sink, (&stream,), held),
        exists|s: &mut WritableStream<'buf, S>, w: &mut Writer<'buf, S>|
            {
                &&& *s == stream
                &&& #[trigger] call_ensures(WritableStream::<'buf, S>::writer, (s,), w)
                &&& *w == writer
            },
        call_ensures(Writer::<'buf, S>::unused_len, (&writer,), room),
        call_ensures(Writer::<'buf, S>::filled, (&writer,), shown),
    ensures
        capacity == memory.len(),
        room == memory.len(),
        shown@.len() == 0,
        *held == sink,
        writer.wf(),
{
}

/// The same of a stream that is given a stack buffer.
pub proof fn law_stream_with_a_stack_buffer<'buf, const N: usize, S: Sink>(
    stack: StackBuffer<N>,
    stream: WritableStream<'buf, S>,
    sink: S,
    capacity: usize,
    held: &S,
    writer: Writer<'buf, S>,
    room: usize,
    shown: &[u8],
)
    requires
        exists|b: &mut StackBuffer<N>|
            {
                &&& *b == stack
                &&& #[trigger] call_ensures(
                    WritableStream::<'buf, S>::with_buffer::<StackBuffer<N>>,
                    (b, sink),
                    stream,
                )
            },
        call_ensures(WritableStream::<'buf, S>::capacity, (&stream,), capacity),
        call_ensures(WritableStream::<'buf, S>::sink, (&stream,), held),
        exists|s: &mut WritableStream<'buf, S>, w: &mut Writer<'buf, S>|
            {
                &&& *s == stream
                &&& #[trigger] call_ensures(WritableStream::<'buf, S>::writer, (s,), w)
                &&& *w == writer
            },
        call_ensures(Writer::<'buf, S>::unused_len, (&writer,), room),
        call_ensures(Writer::<'buf, S>::filled, (&writer,), shown),
    ensures
        capacity == N,
        room == N,
        shown@.len() == 0,
        *held == sink,
        writer.wf(),
{
    stack.lemma_bytes();
}

/// The same of an array.
pub proof fn law_stream_with_an_array<'buf, const N: usize, S: Sink>(
    array: [u8; N],
    stream: WritableStream<'buf, S>,
    sink: S,
    capacity: usize,
    held: &S,
    writer: Writer<'buf, S>,
    room: usize,
    shown: &[u8],
)
    requires
        exists|b: &mut [u8; N]|
            {
                &&& *b == array
                &&& #[trigger] call_ensures(
                    WritableStream::<'buf, S>::with_buffer::<[u8; N]>,
                    (b, sink),
                    stream,
                )
            },
        call_ensures(WritableStream::<'buf, S>::capacity, (&stream,), capacity),
        call_ensures(WritableStream::<'buf, S>::sink, (&stream,), held),
        exists|s: &mut WritableStream<'buf, S>, w: &mut Writer<'buf, S>|
            {
                &&& *s == stream
                &&& #[trigger] call_ensures(WritableStream::<'buf, S>::writer, (s,), w)
                &&& *w == writer
            },
        call_ensures(Writer::<'buf, S>::unused_len, (&writer,), room),
        call_ensures(Writer::<'buf, S>::filled, (&writer,), shown),
    ensures
        capacity == N,
        room == N,
        shown@.len() == 0,
        *held == sink,
        writer.wf(),
{
}

/// The same of a vector.
pub proof fn law_stream_with_a_vector<'buf, S: Sink>(
    vec: Vec<u8>,
    stream: WritableStream<'buf, S>,
    sink: S,
    capacity: usize,
    held: &S,
    writer: Writer<'buf, S>,
    room: usize,
    shown: &[u8],
)
    requires
        exists|b: &mut Vec<u8>|
            {
                &&& *b == vec
                &&& #[trigger] call_ensures(
                    WritableStream::<'buf, S>::with_buffer::<Vec<u8>>,
                    (b, sink),
                    stream,
                )
            },
        call_ensures(WritableStream::<'buf, S>::capacity, (&stream,), capacity),
        call_ensures(WritableStream::<'buf, S>::sink, (&stream,), held),
        exists|s: &mut WritableStream<'buf, S>, w: &mut Writer<'buf, S>|
            {
                &&& *s == stream
                &&& #[trigger] call_ensures(WritableStream::<'buf, S>::writer, (s,), w)
                &&& *w == writer
            },
        call_ensures(Writer::<'buf, S>::unused_len, (&writer,), room),
        call_ensures(Writer::<'buf, S>::filled, (&writer,), shown),
    ensures
        capacity == vec@.len(),
        room == vec@.len(),
        shown@.len() == 0,
        *held == sink,
        writer.wf(),
{
}

/// The same of a stream that the stack buffer makes.
pub proof fn law_stream_of_a_stack_buffer<'buf, const N: usize, S: Sink>(
    stack: StackBuffer<N>,
    stream: WritableStream<'buf, S>,
    sink: S,
    capacity: usize,
    held: &S,
    writer: Writer<'buf, S>,
    room: usize,
    shown: &[u8],
)
    requires
        exists|b: &mut StackBuffer<N>|
            {
                &&& *b == stack
                &&& #[trigger] call_ensures(
                    StackBuffer::<N>::writable_stream::<S>,
                    (b, sink),
                    stream,
                )
            },
        call_ensures(WritableStream::<'buf, S>::capacity, (&stream,), capacity),
        call_ensures(WritableStream::<'buf, S>::sink, (&stream,), held),
        exists|s: &mut WritableStream<'buf, S>, w: &mut Writer<'buf, S>|
            {
                &&& *s == stream
                &&& #[trigger] call_ensures(WritableStream::<'buf, S>::writer, (s,), w)
                &&& *w == writer
            },
        call_ensures(Writer::<'buf, S>::unused_len, (&writer,), room),
        call_ensures(Writer::<'buf, S>::filled, (&writer,), shown),
    ensures
        capacity == N,
        room == N,
        shown@.len() == 0,
        *held == sink,
        writer.wf(),
{
}

/// A stack buffer holds `N` bytes, zeros at first, and hands out the first of them.
pub proof fn law_stack_buffer<const N: usize>(
    fresh: StackBuffer<N>,
    stack: StackBuffer<N>,
    capacity: usize,
    zeros: &[u8],
    all: &[u8],
    len: usize,
    some: &[u8],
)
    requires
        call_ensures(StackBuffer::<N>::new, (), fresh),
        call_ensures(StackBuffer::<N>::filled, (&fresh, N), zeros),
        call_ensures(StackBuffer::<N>::capacity, (&stack,), capacity),
        call_ensures(StackBuffer::<N>::filled, (&stack, N), all),
        call_ensures(StackBuffer::<N>::filled, (&stack, len), some),
        len <= N,
    ensures
        zeros@ == Seq::new(N as nat, |i: int| 0u8),
        capacity == N,
        all@.len() == N,
        some@ == all@.take(len as int),
{
    stack.lemma_bytes();
    fresh.lemma_bytes();
    assert(some@ =~= all@.take(len as int));
    assert(zeros@ =~= Seq::new(N as nat, |i: int| 0u8));
}

/// All of a stack buffer is lent to be written to, and what is written there is what it
/// holds.
pub proof fn law_stack_buffer_is_lent_whole<const N: usize>(
    before: StackBuffer<N>,
    after: StackBuffer<N>,
    left: Seq<u8>,
    lent_view: Seq<u8>,
    all: &[u8],
    all_after: &[u8],
)
    requires
        (exists|b: &mut StackBuffer<N>, lent: &mut [u8]|
            {
                &&& *b == before
                &&& #[trigger] call_ensures(StackBuffer::<N>::as_uninit_mut, (b,), lent)
                &&& lent@ == lent_view
                &&& final(lent)@ == left
                &&& *final(b) == after
            }) || (exists|b: &mut StackBuffer<N>, lent: &mut [u8]|
            {
                &&& *b == before
                &&& #[trigger] call_ensures(
                    <StackBuffer<N> as AsMutBytes>::as_mut_bytes,
                    (b,),
                    lent,
                )
                &&& lent@ == lent_view
                &&& final(lent)@ == left
                &&& *final(b) == after
            }),
        call_ensures(StackBuffer::<N>::filled, (&before, N), all),
        call_ensures(StackBuffer::<N>::filled, (&after, N), all_after),
    ensures
        lent_view == all@,
        lent_view.len() == N,
        all_after@ == left,
{
    before.lemma_bytes();
    after.lemma_bytes();
    assert(all@ =~= before.bytes());
    assert(all_after@ =~= after.bytes());
}

/// Once a writer on a slice is gone, the slice holds at its start what the writer showed
/// last, if all that was written fitted.
pub proof fn law_lent_slice_holds_what_was_staged<'buf, S: Sink>(
    memory: Seq<u8>,
    left: Seq<u8>,
    sink: S,
    first: Writer<'buf, S>,
    bytes: &[u8],
    r: Result<(), Error>,
    last: Writer<'buf, S>,
    shown: &[u8],
)
    requires
        exists|b: &mut [u8]|
            {
                &&& b@ == memory
                &&& #[trigger] call_ensures(
                    Writer::<'buf, S>::from_slice,
                    (b, Box::new(sink)),
                    first,
                )
                &&& final(b)@ == left
            },
        bytes@.len() <= memory.len(),
        exists|w: &mut Writer<'buf, S>|
            {
                &&& *w == first
                &&& #[trigger] call_ensures(Writer::<'buf, S>::write_all, (w, bytes), r)
                &&& *final(w) == last
            },
        call_ensures(Writer::<'buf, S>::filled, (&last,), shown),
        has_resolved(last),
    ensures
        r is Ok,
        shown@ == bytes@,
        left == bytes@ + memory.skip(bytes@.len() as int),
{
    last.lemma_returned();
    assert forall|i: int| 0 <= i < memory.len() implies #[trigger] last.memory()[i] == if i
        < bytes@.len() {
        bytes@[i]
    } else {
        memory[i]
    } by {
        law_overlaid(memory, 0, bytes@, i);
    }
    assert(shown@ =~= bytes@);
    assert(left =~= bytes@ + memory.skip(bytes@.len() as int));
}

/// A default stack buffer is a new one.
pub proof fn law_default_stack_buffer<const N: usize>(stack: StackBuffer<N>, zeros: &[u8])
    requires
        call_ensures(<StackBuffer<N> as Default>::default, (), stack),
        call_ensures(StackBuffer::<N>::filled, (&stack, N), zeros),
    ensures
        zeros@ == Seq::new(N as nat, |i: int| 0u8),
{
    stack.lemma_bytes();
    assert(zeros@ =~= Seq::new(N as nat, |i: int| 0u8));
}

/// A stream is its writer: what is made of the writer is what the stream has.
pub proof fn law_stream_parts<'buf, S: Sink>(
    before: WritableStream<'buf, S>,
    reached: Writer<'buf, S>,
    left: Writer<'buf, S>,
    after: WritableStream<'buf, S>,
    capacity: usize,
    sink: &S,
    writer_capacity: usize,
    writer_sink: Option<&S>,
    capacity_after: usize,
    sink_after: &S,
    left_capacity: usize,
    left_sink: Option<&S>,
)
    requires
        before.inner().backend() is Some,
        left.backend() is Some,
        exists|s: &mut WritableStream<'buf, S>, w: &mut Writer<'buf, S>|
            {
                &&& *s == before
                &&& #[trigger] call_ensures(WritableStream::<'buf, S>::writer, (s,), w)
                &&& *w == reached && *final(w) == left
                &&& *final(s) == after
            },
        call_ensures(WritableStream::<'buf, S>::capacity, (&before,), capacity),
        call_ensures(WritableStream::<'buf, S>::sink, (&before,), sink),
        call_ensures(Writer::<'buf, S>::capacity, (&reached,), writer_capacity),
        call_ensures(Writer::<'buf, S>::backend_as, (&reached,), writer_sink),
        call_ensures(WritableStream::<'buf, S>::capacity, (&after,), capacity_after),
        call_ensures(WritableStream::<'buf, S>::sink, (&after,), sink_after),
        call_ensures(Writer::<'buf, S>::capacity, (&left,), left_capacity),
        call_ensures(Writer::<'buf, S>::backend_as, (&left,), left_sink),
    ensures
        capacity == writer_capacity,
        writer_sink == Some(sink),
        capacity_after == left_capacity,
        left_sink == Some(sink_after),
{
}

/// The sink of a stream can be changed where it is. The buffer stays as it is.
pub proof fn law_stream_sink_within_reach<'buf, S: Sink>(
    before: WritableStream<'buf, S>,
    sink: &S,
    reached: S,
    left: S,
    after: WritableStream<'buf, S>,
    sink_after: &S,
)
    requires
        before.inner().backend() is Some,
        call_ensures(WritableStream::<'buf, S>::sink, (&before,), sink),
        exists|s: &mut WritableStream<'buf, S>, k: &mut S|
            {
                &&& *s == before
                &&& #[trigger] call_ensures(WritableStream::<'buf, S>::sink_mut, (s,), k)
                &&& *k == reached && *final(k) == left
                &&& *final(s) == after
            },
        call_ensures(WritableStream::<'buf, S>::sink, (&after,), sink_after),
    ensures
        *sink == reached,
        *sink_after == left,
        after.inner().memory() == before.inner().memory(),
        after.inner().staged() == before.inner().staged(),
{
}

/// Once a stream on a slice is gone, the slice holds what the stream's writer left there.
pub proof fn law_lent_slice_comes_back<'buf, S: Sink>(
    left: Seq<u8>,
    sink: S,
    stream: WritableStream<'buf, S>,
)
    requires
        exists|b: &mut [u8]|
            {
                &&& #[trigger] call_ensures(
                    WritableStream::<'buf, S>::with_slice,
                    (b, sink),
                    stream,
                )
                &&& final(b)@ == left
            },
        has_resolved(stream),
    ensures
        left == stream.inner().memory(),
{
    stream.lemma_returned();
}

/// Any memory and any sink will do to make a writer or a stream.
pub proof fn law_buffers_take_calls<'buf, const N: usize, S: Sink>(
    sink: S,
    capacity: usize,
    stack: StackBuffer<N>,
    len: usize,
)
    ensures
        call_requires(Writer::<'buf, S>::with_capacity, (capacity, Box::new(sink))),
        forall|b: &mut [u8]| #[trigger]
            call_requires(Writer::<'buf, S>::from_slice, (b, Box::new(sink))),
        forall|b: &mut [u8]| #[trigger]
            call_requires(Writer::<'buf, S>::from_uninit_slice, (b, Box::new(sink))),
        forall|b: &mut Vec<u8>| #[trigger]
            call_requires(Writer::<'buf, S>::from_vector, (b, Box::new(sink))),
        forall|b: &mut [u8]| #[trigger]
            call_requires(WritableStream::<'buf, S>::with_slice, (b, sink)),
        forall|b: &mut [u8]| #[trigger]
            call_requires(WritableStream::<'buf, S>::with_uninit_buffer, (b, sink)),
        forall|b: &mut StackBuffer<N>| #[trigger]
            call_requires(WritableStream::<'buf, S>::with_buffer::<StackBuffer<N>>, (b, sink)),
        forall|b: &mut StackBuffer<N>| #[trigger]
            call_requires(StackBuffer::<N>::writable_stream::<S>, (b, sink)),
        forall|b: &mut StackBuffer<N>| #[trigger]
            call_requires(StackBuffer::<N>::writer::<S>, (b, sink)),
        call_requires(StackBuffer::<N>::new, ()),
        call_requires(StackBuffer::<N>::capacity, (&stack,)),
        len <= N ==> call_requires(StackBuffer::<N>::filled, (&stack, len)),
{
}

} // verus!
