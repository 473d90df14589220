use rustio::error::NO_PROGRESS;
use rustio::{Error, Sink, Write, WriteDrain, Writer};
use std::cell::RefCell;
use std::rc::Rc;

#[derive(Clone)]
struct ShortWriter {
    target: Rc<RefCell<Vec<u8>>>,
    limit: usize,
}

impl Write for ShortWriter {
    fn write(&mut self, buf: &[u8]) -> Result<usize, Error> {
        let n = buf.len().min(self.limit);
        self.target.borrow_mut().extend_from_slice(&buf[..n]);
        Ok(n)
    }

    fn sync(&mut self) -> Result<(), Error> {
        Ok(())
    }

    fn write_vectored(&mut self, bufs: &[&[u8]]) -> Result<usize, Error> {
        let mut remaining = self.limit;
        let mut wrote = 0;
        for slice in bufs {
            if remaining == 0 {
                break;
            }
            let n = slice.len().min(remaining);
            if n > 0 {
                self.target.borrow_mut().extend_from_slice(&slice[..n]);
                remaining -= n;
                wrote += n;
            }
        }
        Ok(wrote)
    }
}

#[test]
fn sinks_write_drain_vectored_consumes_partial() {
    let target = Rc::new(RefCell::new(Vec::new()));
    let writer_impl = ShortWriter { target: target.clone(), limit: 4 };
    let mut writer = Writer::with_capacity(2, Box::new(WriteDrain::new(writer_impl)));
    writer.write_all(b"abcdef").unwrap();
    writer.flush().unwrap();
    assert_eq!(target.borrow().as_slice(), b"abcdef");
}

#[test]
fn write_drain_reports_bytes_that_stay_staged() {
    let target = Rc::new(RefCell::new(Vec::new()));
    let full = ShortWriter { target: target.clone(), limit: 0 };
    let mut writer = Writer::with_capacity(4, Box::new(WriteDrain::new(full)));
    writer.write_all(b"abc").unwrap();
    assert!(matches!(writer.flush(), Err(Error::WriteZero)));
    assert_eq!(writer.filled(), b"abc");
    assert_eq!(NO_PROGRESS, "drain made no progress");

    let slow = ShortWriter { target: target.clone(), limit: 2 };
    let mut writer = Writer::with_capacity(4, Box::new(WriteDrain::new(slow)));
    writer.write_all(b"abc").unwrap();
    assert!(matches!(writer.flush(), Err(Error::WriteZero)));
    assert_eq!(writer.filled(), b"c");
    writer.flush().unwrap();
    assert_eq!(target.borrow().as_slice(), b"abc");
}

#[test]
fn write_drain_holds_its_writer() {
    let mut drain = WriteDrain::new(Vec::<u8>::new());
    drain.out.push(1);
    assert_eq!(drain.out.as_slice(), [1u8]);
    let mut w = Writer::with_capacity(1, Box::new(drain));
    w.write_all(b"ab").unwrap();
    w.flush().unwrap();
    assert_eq!(w.backend_as().unwrap().out.as_slice(), b"\x01ab");
}

/// A sink of its own kind, which counts what it is given and drops it.
struct Counter {
    bytes: usize,
}

impl Sink for Counter {
    fn drain(
        &mut self,
        w: &mut Writer<'_, Self>,
        data: &[&[u8]],
        splat: usize,
    ) -> Result<usize, Error> {
        let staged = w.staged_len();
        w.consume(staged);
        let heads: usize = data[..data.len() - 1].iter().map(|s| s.len()).sum();
        let n = heads + data[data.len() - 1].len() * splat;
        self.bytes += staged + n;
        Ok(n)
    }

    fn is_patient() -> bool {
        true
    }
}

#[test]
fn a_sink_of_its_own_kind() {
    let mut w = Writer::with_capacity(3, Box::new(Counter { bytes: 0 }));
    w.write_all(b"ab").unwrap();
    assert_eq!(w.backend_as().unwrap().bytes, 0);
    w.splat_all(b"xyz", 4).unwrap();
    assert_eq!(w.backend_as().unwrap().bytes, 14);
    w.write_all(b"c").unwrap();
    w.flush().unwrap();
    assert_eq!(w.backend_as().unwrap().bytes, 15);
    assert_eq!(w.staged_len(), 0);
}

/// A sink that remembers how it is drained into. It takes one staged byte each time, and
/// reports an error when `fail` more drains have been made.
struct Slow {
    taken: Vec<u8>,
    drains: Vec<(Vec<Vec<u8>>, usize)>,
    fail: Option<usize>,
}

impl Slow {
    fn failing_after(fail: Option<usize>) -> Self {
        Slow { taken: Vec::new(), drains: Vec::new(), fail }
    }
}

impl Sink for Slow {
    fn drain(
        &mut self,
        w: &mut Writer<'_, Self>,
        data: &[&[u8]],
        splat: usize,
    ) -> Result<usize, Error> {
        self.drains.push((data.iter().map(|s| s.to_vec()).collect(), splat));
        if self.fail == Some(self.drains.len() - 1) {
            return Err(Error::Io(std::io::Error::other("slow")));
        }
        if w.staged_len() > 0 {
            self.taken.push(w.filled()[0]);
            w.consume(1);
        }
        Ok(0)
    }

    fn is_patient() -> bool {
        true
    }
}

#[test]
fn default_flush_drains_until_nothing_is_staged() {
    let mut w = Writer::with_capacity(4, Box::new(Slow::failing_after(None)));
    w.flush().unwrap();
    assert_eq!(w.backend_as().unwrap().drains.len(), 0);
    w.write_all(b"abc").unwrap();
    w.flush().unwrap();
    assert_eq!(w.staged_len(), 0);
    let sink = w.backend_as().unwrap();
    assert_eq!(sink.taken, b"abc");
    assert_eq!(sink.drains, vec![(vec![Vec::new()], 0); 3]);
}

#[test]
fn default_flush_ends_with_the_first_error() {
    let mut w = Writer::with_capacity(4, Box::new(Slow::failing_after(Some(1))));
    w.write_all(b"abc").unwrap();
    assert!(matches!(w.flush(), Err(Error::Io(_))));
    assert_eq!(w.filled(), b"bc");
    assert_eq!(w.backend_as().unwrap().drains.len(), 2);
}

/// Like [`Slow`], but a flush does not wait for it.
struct Hasty(Slow);

impl Sink for Hasty {
    fn drain(
        &mut self,
        w: &mut Writer<'_, Self>,
        data: &[&[u8]],
        splat: usize,
    ) -> Result<usize, Error> {
        self.0.drains.push((data.iter().map(|s| s.to_vec()).collect(), splat));
        self.0.taken.push(w.filled()[0]);
        w.consume(1);
        Ok(0)
    }

    fn is_patient() -> bool {
        false
    }
}

#[test]
fn default_flush_of_a_sink_that_does_not_wait() {
    let mut w = Writer::with_capacity(4, Box::new(Hasty(Slow::failing_after(None))));
    w.flush().unwrap();
    w.write_all(b"ab").unwrap();
    assert!(matches!(w.flush(), Err(Error::WriteZero)));
    assert_eq!(w.filled(), b"b");
    w.flush().unwrap();
    assert_eq!(w.backend_as().unwrap().0.taken, b"ab");
    assert_eq!(w.backend_as().unwrap().0.drains.len(), 2);
}

/// Takes nothing the first time, and all of it the second time.
struct SecondTime {
    drains: Vec<(Vec<Vec<u8>>, usize)>,
}

impl Sink for SecondTime {
    fn drain(
        &mut self,
        _w: &mut Writer<'_, Self>,
        data: &[&[u8]],
        splat: usize,
    ) -> Result<usize, Error> {
        self.drains.push((data.iter().map(|s| s.to_vec()).collect(), splat));
        if self.drains.len() == 1 {
            Ok(0)
        } else {
            Ok(data[0].len())
        }
    }

    fn is_patient() -> bool {
        true
    }
}

#[test]
fn write_all_asks_again_with_the_same_bytes() {
    let mut w = Writer::with_capacity(2, Box::new(SecondTime { drains: Vec::new() }));
    w.write_all(b"abcdef").unwrap();
    assert_eq!(w.backend_as().unwrap().drains, vec![(vec![b"abcdef".to_vec()], 1); 2]);
    assert_eq!(w.staged_len(), 0);
}

#[test]
fn write_all_ends_with_the_first_error() {
    let mut w = Writer::with_capacity(2, Box::new(Slow::failing_after(Some(2))));
    assert!(matches!(w.write_all(b"abcdef"), Err(Error::Io(_))));
    assert_eq!(w.backend_as().unwrap().drains.len(), 3);
    assert_eq!(w.staged_len(), 0);
}

#[test]
fn drained_by_hand_the_writer_keeps_its_own_sink() {
    let mut w = Writer::with_capacity(4, Box::new(vec![b'!']));
    w.write_all(b"ab").unwrap();
    let mut other: Vec<u8> = Vec::new();
    let segments: [&[u8]; 2] = [b"c", b"d"];
    assert_eq!(Sink::drain(&mut other, &mut w, &segments, 2).unwrap(), 3);
    assert_eq!(other, b"abcdd");
    assert_eq!(w.staged_len(), 0);
    w.write_all(b"e").unwrap();
    Sink::flush(&mut other, &mut w).unwrap();
    assert_eq!(other, b"abcdde");
    assert_eq!(w.backend_as().unwrap().as_slice(), b"!");
}
