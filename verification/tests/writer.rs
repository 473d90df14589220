use rustio::{Error, StackBuffer, WritableStream, Write, Writer};

/// Takes no more than `limit` bytes at a time.
struct ShortWriter {
    target: Vec<u8>,
    limit: usize,
}

impl ShortWriter {
    fn with_limit(limit: usize) -> Self {
        Self { target: Vec::new(), limit }
    }

    fn as_slice(&self) -> &[u8] {
        &self.target
    }
}

impl Write for ShortWriter {
    fn write(&mut self, buf: &[u8]) -> Result<usize, Error> {
        let n = buf.len().min(self.limit);
        self.target.extend_from_slice(&buf[..n]);
        Ok(n)
    }

    fn sync(&mut self) -> Result<(), Error> {
        Ok(())
    }
}

/// Reports an error on every write and on every flush.
struct Broken;

impl Write for Broken {
    fn write(&mut self, _buf: &[u8]) -> Result<usize, Error> {
        Err(Error::Io(std::io::Error::other("broken")))
    }

    fn sync(&mut self) -> Result<(), Error> {
        Err(Error::Io(std::io::Error::other("stuck")))
    }
}

/// Takes nothing at first, `delay` times in a row, before each write.
struct Hesitant {
    target: Vec<u8>,
    delay: usize,
    waited: usize,
    synced: usize,
}

impl Write for Hesitant {
    fn write(&mut self, buf: &[u8]) -> Result<usize, Error> {
        if self.waited < self.delay {
            self.waited += 1;
            return Ok(0);
        }
        self.waited = 0;
        let n = buf.len().min(1);
        self.target.extend_from_slice(&buf[..n]);
        Ok(n)
    }

    fn sync(&mut self) -> Result<(), Error> {
        self.synced += 1;
        Ok(())
    }
}

/// Remembers the slices of each vectored write.
struct Recorder {
    offers: Vec<Vec<Vec<u8>>>,
}

impl Write for Recorder {
    fn write(&mut self, buf: &[u8]) -> Result<usize, Error> {
        Ok(buf.len())
    }

    fn write_vectored(&mut self, bufs: &[&[u8]]) -> Result<usize, Error> {
        self.offers.push(bufs.iter().map(|b| b.to_vec()).collect());
        Ok(bufs.iter().map(|b| b.len()).sum())
    }

    fn sync(&mut self) -> Result<(), Error> {
        Ok(())
    }
}

fn message(e: &Error) -> String {
    match e {
        Error::WriteZero => String::from("write zero"),
        Error::Io(e) => e.to_string(),
    }
}

#[test]
fn stack_buffer_to_allocating_drain() -> Result<(), Error> {
    let mut storage = StackBuffer::<16>::new();
    let mut stream = storage.writable_stream(Vec::new());

    stream.writer().write_all(b"stack")?;
    stream.writer().flush()?;
    assert_eq!(stream.sink().as_slice(), b"stack");
    Ok(())
}

#[test]
fn stack_buffer_reuse_across_streams() -> Result<(), Error> {
    let mut storage = StackBuffer::<16>::new();

    {
        let mut stream = storage.writable_stream(Vec::new());
        stream.writer().write_all(b"first")?;
        stream.writer().flush()?;
        let collected = stream.sink().as_slice().to_vec();
        assert_eq!(collected.as_slice(), b"first");
        let len = collected.len();
        drop(stream);
        assert_eq!(storage.filled(len), collected.as_slice());
    }

    {
        let mut stream = storage.writable_stream(Vec::new());
        stream.writer().write_all(b"second")?;
        stream.writer().flush()?;
        let collected = stream.sink().as_slice().to_vec();
        assert_eq!(collected.as_slice(), b"second");
        let len = collected.len();
        drop(stream);
        assert_eq!(storage.filled(len), collected.as_slice());
    }

    Ok(())
}

#[test]
fn owned_buffer_to_allocating_drain() -> Result<(), Error> {
    let mut buffer = StackBuffer::<8>::new();
    let mut stream = buffer.writable_stream(Vec::new());
    let writer = stream.writer();
    writer.write_all(b"hi")?;
    writer.flush()?;
    assert_eq!(stream.sink().as_slice(), b"hi");
    Ok(())
}

#[test]
fn fast_path_write_stays_in_buffer() -> Result<(), Error> {
    let mut buffer = StackBuffer::<16>::new();
    let mut stream = buffer.writable_stream(Vec::new());
    let writer = stream.writer();
    writer.write_all(b"hi")?;
    writer.with_filled(|filled| assert_eq!(filled, b"hi"));
    assert_eq!(stream.sink().as_slice(), b"");
    stream.writer().flush()?;
    assert_eq!(stream.sink().as_slice(), b"hi");
    Ok(())
}

#[test]
fn splat_all_repeats_pattern_when_overflowing() -> Result<(), Error> {
    let mut buffer = StackBuffer::<4>::new();
    let mut stream = buffer.writable_stream(Vec::new());

    stream.writer().splat_all(b"ab", 3)?;
    stream.writer().flush()?;

    assert_eq!(stream.sink().as_slice(), b"ababab");

    Ok(())
}

#[test]
fn write_vec_splat_handles_multiple_segments() -> Result<(), Error> {
    let mut buffer = StackBuffer::<16>::new();
    let mut stream = buffer.writable_stream(Vec::new());

    let writer = stream.writer();
    let segments: [&[u8]; 2] = [b"ab".as_ref(), b"cd".as_ref()];
    writer.write_vec_splat(&segments, 2)?;
    writer.flush()?;
    assert_eq!(stream.sink().as_slice(), b"abcdcd");
    Ok(())
}

#[test]
fn writer_write_drain_vectored_consumes_partial() -> Result<(), Error> {
    let writer_impl = ShortWriter::with_limit(4);

    let mut buffer = StackBuffer::<2>::new();
    let mut stream = buffer.writable_stream(writer_impl);

    stream.writer().write_all(b"abcdef")?;
    stream.writer().flush()?;
    assert_eq!(stream.sink().as_slice(), b"abcdef");
    Ok(())
}

#[test]
fn gathered_write_that_fits_is_copied() -> Result<(), Error> {
    let mut w = Writer::with_capacity(10, Box::new(Vec::<u8>::new()));
    let segments: [&[u8]; 4] = [b"a", b"", b"bc", b"xy"];
    assert_eq!(w.write_vec_splat(&segments, 3)?, 9);
    assert_eq!(w.filled(), b"abcxyxyxy");
    assert_eq!(w.unused_len(), 1);
    assert_eq!(w.backend_as().unwrap().len(), 0);
    Ok(())
}

#[test]
fn gathered_write_that_does_not_fit_is_drained_whole() -> Result<(), Error> {
    let mut w = Writer::with_capacity(8, Box::new(Recorder { offers: Vec::new() }));
    assert_eq!(w.write(b"st")?, 2);
    let segments: [&[u8]; 4] = [b"a", b"", b"bc", b"xy"];
    assert_eq!(w.write_vec_splat(&segments, 2)?, 7);
    assert_eq!(w.staged_len(), 0);
    let expected: Vec<Vec<u8>> =
        vec![b"st".to_vec(), b"a".to_vec(), b"bc".to_vec(), b"xy".to_vec(), b"xy".to_vec()];
    assert_eq!(w.backend_as().unwrap().offers, vec![expected]);
    Ok(())
}

#[test]
fn empty_writes_do_nothing() -> Result<(), Error> {
    let mut w = Writer::with_capacity(0, Box::new(Broken));
    assert_eq!(w.write_vec_splat(&[], 7)?, 0);
    assert_eq!(w.write(b"")?, 0);
    let segments: [&[u8]; 2] = [b"", b"abc"];
    assert_eq!(w.write_vec_splat(&segments, 0)?, 0);
    w.write_all(b"")?;
    w.splat_all(b"abc", 0)?;
    w.splat_all(b"", usize::MAX)?;
    Ok(())
}

#[test]
fn empty_pattern_is_not_counted() -> Result<(), Error> {
    let mut w = Writer::with_capacity(2, Box::new(Broken));
    let segments: [&[u8]; 2] = [b"ab", b""];
    assert_eq!(w.write_vec_splat(&segments, usize::MAX)?, 2);
    assert_eq!(w.filled(), b"ab");
    Ok(())
}

#[test]
fn errors_pass_through_and_change_nothing() {
    let mut w = Writer::with_capacity(4, Box::new(Broken));
    w.write_all(b"abc").unwrap();
    assert_eq!(message(&w.write(b"de").unwrap_err()), "broken");
    assert_eq!(w.filled(), b"abc");
    assert_eq!(message(&w.write_all(b"de").unwrap_err()), "broken");
    assert_eq!(message(&w.splat_all(b"de", 2).unwrap_err()), "broken");
    assert_eq!(message(&w.flush().unwrap_err()), "broken");
    assert_eq!(w.filled(), b"abc");
}

#[test]
fn flush_reports_what_the_writer_behind_reports() {
    let mut w = Writer::with_capacity(4, Box::new(Broken));
    assert_eq!(message(&w.flush().unwrap_err()), "stuck");
}

#[test]
fn waits_for_a_hesitant_writer() -> Result<(), Error> {
    let sink = Hesitant { target: Vec::new(), delay: 3, waited: 0, synced: 0 };
    let mut w = Writer::with_capacity(3, Box::new(sink));
    w.write_all(b"abcdefgh")?;
    w.flush()?;
    assert_eq!(w.staged_len(), 0);
    let sink = w.backend_as().unwrap();
    assert_eq!(sink.target, b"abcdefgh");
    assert_eq!(sink.synced, 1);
    Ok(())
}

#[test]
fn splat_all_asks_a_short_writer_once() -> Result<(), Error> {
    let mut w = Writer::with_capacity(2, Box::new(ShortWriter::with_limit(4)));
    w.splat_all(b"abc", 3)?;
    w.flush()?;
    assert_eq!(w.backend_as().unwrap().as_slice(), b"abc");
    Ok(())
}

#[test]
fn consume_slides_the_staged_bytes() -> Result<(), Error> {
    let mut w = Writer::with_capacity(8, Box::new(Vec::<u8>::new()));
    w.write_all(b"abcdef")?;
    assert_eq!(w.consume(2), 0);
    assert_eq!(w.filled(), b"cdef");
    assert_eq!(w.consume(0), 0);
    assert_eq!(w.filled(), b"cdef");
    assert_eq!(w.consume(4), 0);
    assert_eq!(w.filled(), b"");
    w.write_all(b"xyz")?;
    assert_eq!(w.consume(5), 2);
    assert_eq!(w.staged_len(), 0);
    Ok(())
}

#[test]
fn consume_adds_up() -> Result<(), Error> {
    for m in 0usize..9 {
        for n in 0usize..9 {
            let mut a = Writer::with_capacity(8, Box::new(Vec::<u8>::new()));
            let mut b = Writer::with_capacity(8, Box::new(Vec::<u8>::new()));
            a.write_all(b"abcdef")?;
            b.write_all(b"abcdef")?;
            let left = a.consume(m) + a.consume(n);
            assert_eq!(left, b.consume(m + n));
            assert_eq!(a.filled(), b.filled());
        }
    }
    Ok(())
}

#[test]
fn settle_takes_the_answer_of_a_sink() -> Result<(), Error> {
    let mut w = Writer::with_capacity(8, Box::new(Vec::<u8>::new()));
    w.write_all(b"abc")?;
    assert_eq!(w.settle(Ok(1))?, 0);
    assert_eq!(w.filled(), b"bc");
    assert_eq!(message(&w.settle(Err(Error::WriteZero)).unwrap_err()), "write zero");
    assert_eq!(w.filled(), b"bc");
    assert_eq!(w.settle(Ok(7))?, 5);
    assert_eq!(w.staged_len(), 0);
    Ok(())
}

#[test]
fn unfilled_tail_is_staged_as_far_as_it_was_written() -> Result<(), Error> {
    let mut w = Writer::with_capacity(6, Box::new(Vec::<u8>::new()));
    w.write_all(b"ab")?;
    let room = w.with_unfilled(|tail| {
        tail[0] = b'c';
        tail[1] = b'd';
        (tail.len(), 2)
    });
    assert_eq!(room, 4);
    assert_eq!(w.filled(), b"abcd");
    w.flush()?;
    assert_eq!(w.backend_as().unwrap().as_slice(), b"abcd");
    Ok(())
}

#[test]
fn backend_is_put_back() -> Result<(), Error> {
    let mut w = Writer::with_capacity(6, Box::new(Vec::<u8>::new()));
    w.write_all(b"ab")?;
    let absent = w.with_backend(|sink, me| {
        sink.push(b'!');
        me.consume(1);
        me.backend_as().is_none()
    });
    assert!(absent);
    assert_eq!(w.filled(), b"b");
    w.backend_as_mut().unwrap().push(b'?');
    w.flush()?;
    assert_eq!(w.backend_as().unwrap().as_slice(), b"!?b");
    Ok(())
}

#[test]
fn what_fits_needs_no_sink() -> Result<(), Error> {
    let mut w = Writer::with_capacity(6, Box::new(Vec::<u8>::new()));
    w.with_backend(|_, me| {
        me.write_all(b"ab")?;
        me.splat_all(b"c", 2)?;
        assert_eq!(me.write(b"d")?, 1);
        assert_eq!(me.write_vec_splat(&[], 3)?, 0);
        Ok::<(), Error>(())
    })?;
    assert_eq!(w.filled(), b"abccd");
    w.flush()?;
    assert_eq!(w.backend_as().unwrap().as_slice(), b"abccd");
    Ok(())
}

#[test]
fn capacity_does_not_show_at_the_sink() -> Result<(), Error> {
    for capacity in 0usize..12 {
        let mut w = Writer::with_capacity(capacity, Box::new(ShortWriter::with_limit(3)));
        w.write_all(b"hello ")?;
        w.write_all(b"world")?;
        w.flush()?;
        assert_eq!(w.capacity(), capacity);
        assert_eq!(w.backend_as().unwrap().as_slice(), b"hello world");
    }
    Ok(())
}

#[test]
fn writer_on_a_slice_stages_in_it() -> Result<(), Error> {
    let mut memory = [0u8; 6];
    {
        let mut w = Writer::from_slice(&mut memory, Box::new(Vec::<u8>::new()));
        w.write_all(b"abc")?;
    }
    assert_eq!(&memory, b"abc\0\0\0");
    {
        let mut stream = WritableStream::with_slice(&mut memory, Vec::<u8>::new());
        assert_eq!(stream.capacity(), 6);
        stream.writer().write_all(b"xy")?;
        stream.sink_mut().push(b'>');
        stream.writer().flush()?;
        assert_eq!(stream.sink().as_slice(), b">xy");
    }
    assert_eq!(&memory, b"xyc\0\0\0");
    Ok(())
}

#[test]
fn vector_lends_its_spare_capacity() -> Result<(), Error> {
    let mut vec: Vec<u8> = Vec::with_capacity(8);
    vec.extend_from_slice(b"abc");
    let spare = vec.capacity() - vec.len();
    let mut w = Writer::from_vector(&mut vec, Box::new(Vec::<u8>::new()));
    assert_eq!(w.capacity(), spare);
    w.write_all(b"de")?;
    w.flush()?;
    assert_eq!(w.backend_as().unwrap().as_slice(), b"de");
    assert_eq!(vec, b"abc");
    Ok(())
}

#[test]
fn stack_buffer_starts_out_zeroed() {
    let mut buffer: StackBuffer<4> = StackBuffer::default();
    assert_eq!(buffer.capacity(), 4);
    assert_eq!(buffer.filled(4), [0u8; 4]);
    buffer.as_uninit_mut()[1] = 7;
    assert_eq!(buffer.filled(2), [0u8, 7]);
    assert_eq!(buffer.filled(0).len(), 0);
    let w = buffer.writer(Vec::<u8>::new());
    assert_eq!(w.capacity(), 4);
    assert_eq!(w.staged_len(), 0);
}

#[test]
fn stream_on_a_lent_buffer() -> Result<(), Error> {
    let mut storage = StackBuffer::<64>::new();
    let mut stream = WritableStream::with_buffer(&mut storage, Vec::new());
    stream.writer().write_all(b"stack first run")?;
    stream.writer().flush()?;
    assert_eq!(stream.sink().as_slice(), b"stack first run");
    Ok(())
}

#[test]
fn debug_text_names_capacity_and_end() -> Result<(), Error> {
    let mut w = Writer::with_capacity(1024, Box::new(Vec::<u8>::new()));
    assert_eq!(w.debug_string(), "Writer { capacity: 1024, end: 0 }");
    w.write_all(b"0123456789")?;
    assert_eq!(w.debug_string(), "Writer { capacity: 1024, end: 10 }");
    Ok(())
}

#[test]
fn vectored_write_falls_back_on_the_first_nonempty_slice() -> Result<(), Error> {
    let mut short = ShortWriter::with_limit(10);
    let bufs: [&[u8]; 3] = [b"", b"ab", b"cd"];
    assert_eq!(short.write_vectored(&bufs)?, 2);
    assert_eq!(short.as_slice(), b"ab");
    let none: [&[u8]; 2] = [b"", b""];
    assert_eq!(short.write_vectored(&none)?, 0);
    let mut vec: Vec<u8> = Vec::new();
    assert_eq!(vec.write_vectored(&bufs)?, 4);
    assert_eq!(vec, b"abcd");
    Ok(())
}

#[test]
fn short_drain_is_reported_as_such() -> Result<(), Error> {
    let mut b = StackBuffer::<2>::new();
    let mut w = b.writer(ShortWriter::with_limit(4));
    assert_eq!(w.write(b"abcdef")?, 4);
    assert_eq!(w.backend_as().unwrap().as_slice(), b"abcd");
    assert_eq!(w.filled(), b"");
    Ok(())
}

#[test]
fn only_staged_bytes_move_where_one_slice_is_written() -> Result<(), Error> {
    let mut b = StackBuffer::<2>::new();
    let mut w = b.writer(ShortWriter::with_limit(4));
    assert_eq!(w.write(b"x")?, 1);
    assert_eq!(w.write(b"abcdef")?, 0);
    assert_eq!(w.backend_as().unwrap().as_slice(), b"x");
    assert_eq!(w.filled(), b"");
    Ok(())
}

#[test]
fn what_write_all_leaves_staged() -> Result<(), Error> {
    let mut b = StackBuffer::<2>::new();
    let mut stream = b.writable_stream(ShortWriter::with_limit(4));
    stream.writer().write_all(b"abcdef")?;
    assert_eq!(stream.sink().as_slice(), b"abcd");
    assert_eq!(stream.writer().filled(), b"ef");
    stream.writer().flush()?;
    assert_eq!(stream.sink().as_slice(), b"abcdef");
    Ok(())
}

/// Takes one byte at a time, `room` in all, and then reports errors.
struct Filling {
    target: Vec<u8>,
    room: usize,
    synced: usize,
}

impl Write for Filling {
    fn write(&mut self, buf: &[u8]) -> Result<usize, Error> {
        if self.target.len() == self.room {
            return Err(Error::Io(std::io::Error::other("full")));
        }
        self.target.push(buf[0]);
        Ok(1)
    }

    fn sync(&mut self) -> Result<(), Error> {
        self.synced += 1;
        Ok(())
    }
}

#[test]
fn flush_syncs_once_and_not_after_an_error() -> Result<(), Error> {
    let sink = Filling { target: Vec::new(), room: 2, synced: 0 };
    let mut w = Writer::with_capacity(4, Box::new(sink));
    w.write_all(b"abc")?;
    assert_eq!(message(&w.flush().unwrap_err()), "full");
    assert_eq!(w.filled(), b"c");
    assert_eq!(w.backend_as().unwrap().synced, 0);
    w.backend_as_mut().unwrap().room = 9;
    w.flush()?;
    assert_eq!(w.backend_as().unwrap().target, b"abc");
    assert_eq!(w.backend_as().unwrap().synced, 1);
    w.flush()?;
    assert_eq!(w.backend_as().unwrap().synced, 2);
    Ok(())
}

#[test]
fn flushed_bytes_can_be_read_back() -> Result<(), Error> {
    let mut memory = [7u8; 6];
    let mut w = Writer::from_slice(&mut memory, Box::new(Vec::<u8>::new()));
    w.write_all(b"abc")?;
    w.flush()?;
    assert_eq!(w.staged_len(), 0);
    drop(w);
    assert_eq!(&memory, b"abc\x07\x07\x07");
    Ok(())
}

#[test]
fn arrays_and_vectors_lend_their_bytes() -> Result<(), Error> {
    let mut array = [0u8; 4];
    let mut stream = WritableStream::with_buffer(&mut array, Vec::<u8>::new());
    assert_eq!(stream.capacity(), 4);
    stream.writer().write_all(b"ab")?;
    assert_eq!(stream.sink().as_slice(), b"");
    stream.writer().flush()?;
    assert_eq!(stream.sink().as_slice(), b"ab");
    assert_eq!(&array, b"ab\0\0");

    let mut vec = vec![1u8, 2, 3];
    let mut stream = WritableStream::with_buffer(&mut vec, Vec::<u8>::new());
    assert_eq!(stream.capacity(), 3);
    stream.writer().write_all(b"xy")?;
    drop(stream);
    assert_eq!(vec, b"xy\x03");
    Ok(())
}
