//! Buffers to write through, and a writer together with the sink it was made for.

use crate::sink::Sink;
use crate::writer::Writer;
use vstd::prelude::*;

verus! {

/// What can lend its bytes to a writer as a buffer.
pub trait AsMutBytes {
    /// The bytes that it holds.
    open spec fn region(&self) -> Seq<u8> {
        arbitrary()
    }

    /// All of these bytes, to be written to.
    fn as_mut_bytes(&mut self) -> (r: &mut [u8])
        ensures
            r@ == old(self).region(),
            final(self).region() == final(r)@,
    ;
}

/// A byte array on the stack, for use as a writer's buffer.
pub struct StackBuffer<const N: usize> {
    data: [u8; N],
}

impl<const N: usize> StackBuffer<N> {
    /// The bytes that it holds.
    pub closed spec fn bytes(&self) -> Seq<u8> {
        self.data@
    }

    /// It holds `N` bytes.
    pub proof fn lemma_bytes(&self)
        ensures
            self.bytes().len() == N,
    {
    }

    pub fn new() -> (r: Self)
        ensures
            r.bytes() == Seq::new(N as nat, |i: int| 0u8),
    {
        StackBuffer { data: [0u8; N] }
    }

    pub fn capacity(&self) -> (r: usize)
        ensures
            r == N,
            r == self.bytes().len(),
    {
        N
    }

    /// All of the bytes, to be written to.
    pub fn as_uninit_mut(&mut self) -> (r: &mut [u8])
        ensures
            r@ == old(self).bytes(),
            r@.len() == N,
            final(self).bytes() == final(r)@,
    {
        &mut self.data
    }

    /// The first `len` bytes.
    pub fn filled(&self, len: usize) -> (r: &[u8])
        requires
            len <= N,
        ensures
            r@ == self.bytes().take(len as int),
    {
        vstd::slice::slice_subrange(self.data.as_slice(), 0, len)
    }

    /// A writer to `sink` that stages its bytes here.
    pub fn writer<S: Sink>(&mut self, sink: S) -> (r: Writer<'_, S>)
        ensures
            r.wf(),
            r.memory() == old(self).bytes(),
            r.memory().len() == N,
            r.loan() is Some,
            final(r.loan()->0)@ == final(self).bytes(),
            r.used() == 0,
            r.backend() == Some(sink),
    {
        Writer::from_uninit_slice(self.as_uninit_mut(), Box::new(sink))
    }

    /// A stream to `sink` that stages its bytes here.
    pub fn writable_stream<S: Sink>(&mut self, sink: S) -> (r: WritableStream<'_, S>)
        ensures
            r.inner().wf(),
            r.inner().memory() == old(self).bytes(),
            r.inner().memory().len() == N,
            r.inner().loan() is Some,
            final(r.inner().loan()->0)@ == final(self).bytes(),
            r.inner().used() == 0,
            r.inner().backend() == Some(sink),
    {
        WritableStream::with_buffer(self, sink)
    }
}

impl<const N: usize> Default for StackBuffer<N> {
    fn default() -> (r: Self)
        ensures
            r.bytes() == Seq::new(N as nat, |i: int| 0u8),
    {
        Self::new()
    }
}

impl<const N: usize> AsMutBytes for StackBuffer<N> {
    open spec fn region(&self) -> Seq<u8> {
        self.bytes()
    }

    fn as_mut_bytes(&mut self) -> (r: &mut [u8])
        ensures
            r@ == old(self).bytes(),
            r@.len() == N,
            final(self).bytes() == final(r)@,
    {
        self.as_uninit_mut()
    }
}

impl<const N: usize> AsMutBytes for [u8; N] {
    open spec fn region(&self) -> Seq<u8> {
        self@
    }

    fn as_mut_bytes(&mut self) -> (r: &mut [u8]) {
        self
    }
}

impl AsMutBytes for Vec<u8> {
    open spec fn region(&self) -> Seq<u8> {
        self@
    }

    fn as_mut_bytes(&mut self) -> (r: &mut [u8]) {
        self.as_mut_slice()
    }
}

/// A writer together with the sink that it was made for.
pub struct WritableStream<'buf, S: Sink> {
    writer: Box<Writer<'buf, S>>,
}

impl<'buf, S: Sink> WritableStream<'buf, S> {
    /// The writer.
    pub closed spec fn inner(&self) -> Writer<'buf, S> {
        *self.writer
    }

    fn new(writer: Writer<'buf, S>) -> (r: Self)
        requires
            writer.wf(),
        ensures
            r.inner().wf(),
            r.inner().memory() == writer.memory(),
            r.inner().loan() is Some == writer.loan() is Some,
            writer.loan() is Some ==> final(r.inner().loan()->0)@ == final(writer.loan()->0)@,
            r.inner().used() == 0,
            r.inner().backend() == writer.backend(),
    {
        let mut writer = writer;
        let staged: usize = writer.staged_len();
        writer.consume(staged);
        WritableStream { writer: Box::new(writer) }
    }

    /// Once the stream is gone, the memory that was lent to it holds what its writer left
    /// there.
    pub proof fn lemma_returned(self)
        requires
            has_resolved(self),
            self.inner().loan() is Some,
        ensures
            final(self.inner().loan()->0)@ == self.inner().memory(),
    {
        self.inner().lemma_returned();
    }

    /// A stream to `sink` that stages its bytes in `buf`.
    pub fn with_uninit_buffer(buf: &'buf mut [u8], sink: S) -> (r: Self)
        ensures
            r.inner().wf(),
            r.inner().memory() == old(buf)@,
            r.inner().loan() is Some,
            final(r.inner().loan()->0)@ == final(buf)@,
            r.inner().used() == 0,
            r.inner().backend() == Some(sink),
    {
        let writer = Writer::from_uninit_slice(buf, Box::new(sink));
        Self::new(writer)
    }

    /// A stream to `sink` that stages its bytes in `buf`.
    pub fn with_slice(buf: &'buf mut [u8], sink: S) -> (r: Self)
        ensures
            r.inner().wf(),
            r.inner().memory() == old(buf)@,
            r.inner().loan() is Some,
            final(r.inner().loan()->0)@ == final(buf)@,
            r.inner().used() == 0,
            r.inner().backend() == Some(sink),
    {
        Self::with_uninit_buffer(buf, sink)
    }

    /// A stream to `sink` that stages its bytes in what `buffer` lends.
    pub fn with_buffer<B: AsMutBytes>(buffer: &'buf mut B, sink: S) -> (r: Self)
        ensures
            r.inner().wf(),
            r.inner().memory() == old(buffer).region(),
            r.inner().loan() is Some,
            final(r.inner().loan()->0)@ == final(buffer).region(),
            r.inner().used() == 0,
            r.inner().backend() == Some(sink),
    {
        Self::with_uninit_buffer(buffer.as_mut_bytes(), sink)
    }

    /// The writer, to be written to.
    pub fn writer(&mut self) -> (r: &mut Writer<'buf, S>)
        ensures
            *r == old(self).inner(),
            final(self).inner() == *final(r),
    {
        &mut *self.writer
    }

    /// The sink.
    pub fn sink(&self) -> (r: &S)
        requires
            self.inner().backend() is Some,
        ensures
            *r == self.inner().backend()->0,
    {
        self.writer.backend_as().expect("backend should be our sink type")
    }

    /// The sink, to be changed.
    pub fn sink_mut(&mut self) -> (r: &mut S)
        requires
            old(self).inner().backend() is Some,
        ensures
            *r == old(self).inner().backend()->0,
            final(self).inner().same_buffer(old(self).inner()),
            final(self).inner().backend() == Some(*final(r)),
    {
        self.writer.backend_as_mut().unwrap()
    }

    /// How many bytes the buffer can stage.
    pub fn capacity(&self) -> (r: usize)
        requires
            self.inner().wf(),
        ensures
            r == self.inner().memory().len(),
    {
        self.writer.capacity()
    }
}

} // verus!
