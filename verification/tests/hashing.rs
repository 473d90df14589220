use rustio::hashing::leading;
use rustio::{Error, Hashing, Sink, StackBuffer, Write, Writer};
use sha2::{Digest, Sha256};

#[test]
fn hashing_sink_works() -> Result<(), Error> {
    let mut fofo: Vec<u8> = Vec::with_capacity(8);
    let sink = Writer::from_vector(&mut fofo, Box::new(Vec::new()));

    let hashing = Hashing::new(Sha256::new(), sink);

    let mut buffer = StackBuffer::<4>::new();
    let mut stream = buffer.writable_stream(hashing);

    stream.writer().write_all(b"foobar")?;
    stream.writer().flush()?;

    let digest = stream.sink_mut().digest();

    assert_eq!(digest.as_slice(), Sha256::digest(b"foobar").as_slice());
    let out = stream.sink().borrow_sink().unwrap().backend_as().unwrap().as_slice();
    assert_eq!(out, b"foobar");

    Ok(())
}

#[test]
fn digest_of_known_bytes() -> Result<(), Error> {
    let sink = Writer::with_capacity(3, Box::new(Vec::<u8>::new()));
    let mut w = Writer::with_capacity(5, Box::new(Hashing::new(Sha256::new(), sink)));
    w.write_all(b"abc")?;
    w.flush()?;
    let digest = w.backend_as_mut().unwrap().digest();
    let expected: [u8; 32] = [
        0xba, 0x78, 0x16, 0xbf, 0x8f, 0x01, 0xcf, 0xea, 0x41, 0x41, 0x40, 0xde, 0x5d, 0xae, 0x22,
        0x23, 0xb0, 0x03, 0x61, 0xa3, 0x96, 0x17, 0x7a, 0x9c, 0xb4, 0x10, 0xff, 0x61, 0xf2, 0x00,
        0x15, 0xad,
    ];
    assert_eq!(digest.as_slice(), expected);
    Ok(())
}

#[test]
fn works_with_every_capacity() -> Result<(), Error> {
    for outer in 0usize..10 {
        for inner in 0usize..10 {
            let sink = Writer::with_capacity(inner, Box::new(Vec::<u8>::new()));
            let hashing = Hashing::new(Sha256::new(), sink);
            let mut w = Writer::with_capacity(outer, Box::new(hashing));
            w.write_all(b"foobar")?;
            let segments: [&[u8]; 3] = [b"<", b"", b"ab"];
            w.write_vec_splat(&segments, 2)?;
            w.flush()?;
            let hashing = w.backend_as_mut().unwrap();
            assert_eq!(hashing.digest().as_slice(), Sha256::digest(b"foobar<abab").as_slice());
            let sink = hashing.borrow_sink().unwrap();
            assert_eq!(sink.staged_len(), 0);
            assert_eq!(sink.backend_as().unwrap().as_slice(), b"foobar<abab");
        }
    }
    Ok(())
}

#[test]
fn digest_starts_over() -> Result<(), Error> {
    let sink = Writer::with_capacity(4, Box::new(Vec::<u8>::new()));
    let mut w = Writer::with_capacity(4, Box::new(Hashing::new(Sha256::new(), sink)));
    w.write_all(b"first")?;
    w.flush()?;
    let first = w.backend_as_mut().unwrap().digest();
    w.write_all(b"second")?;
    w.flush()?;
    let second = w.backend_as_mut().unwrap().digest();
    let nothing = w.backend_as_mut().unwrap().digest();
    assert_eq!(first.as_slice(), Sha256::digest(b"first").as_slice());
    assert_eq!(second.as_slice(), Sha256::digest(b"second").as_slice());
    assert_eq!(nothing.as_slice(), Sha256::digest(b"").as_slice());
    let sink = w.backend_as().unwrap().borrow_sink().unwrap();
    assert_eq!(sink.backend_as().unwrap().as_slice(), b"firstsecond");
    Ok(())
}

#[test]
fn hasher_keeps_what_it_was_fed_before() -> Result<(), Error> {
    let mut salted = Sha256::new();
    sha2::Digest::update(&mut salted, b"salt");
    let sink = Writer::with_capacity(4, Box::new(Vec::<u8>::new()));
    let mut w = Writer::with_capacity(4, Box::new(Hashing::new(salted, sink)));
    w.write_all(b"and pepper")?;
    w.flush()?;
    let digest = w.backend_as_mut().unwrap().digest();
    assert_eq!(digest.as_slice(), Sha256::digest(b"saltand pepper").as_slice());
    Ok(())
}

/// Takes no more than two bytes at a time.
struct Short(Vec<u8>);

impl Write for Short {
    fn write(&mut self, buf: &[u8]) -> Result<usize, Error> {
        let n = buf.len().min(2);
        self.0.extend_from_slice(&buf[..n]);
        Ok(n)
    }

    fn sync(&mut self) -> Result<(), Error> {
        Ok(())
    }
}

#[test]
fn hashing_sink_over_a_short_writer() -> Result<(), Error> {
    let inner = Writer::with_capacity(3, Box::new(Short(Vec::new())));
    let nested = Hashing::new(Sha256::new(), inner);
    let middle = Writer::with_capacity(5, Box::new(nested));
    let outer = Hashing::new(Sha256::new(), middle);
    let mut w = Writer::with_capacity(4, Box::new(outer));
    w.write_all(b"the quick brown fox")?;
    w.flush()?;
    let outer = w.backend_as_mut().unwrap();
    let expected = Sha256::digest(b"the quick brown fox");
    assert_eq!(outer.digest().as_slice(), expected.as_slice());
    let inner_digest = outer.with_sink(|middle, _| middle.backend_as_mut().unwrap().digest());
    assert_eq!(inner_digest.as_slice(), expected.as_slice());
    let middle = outer.take_sink().unwrap();
    assert!(outer.take_sink().is_none());
    assert!(outer.borrow_sink().is_none());
    let inner = middle.backend_as().unwrap().borrow_sink().unwrap();
    assert_eq!(inner.backend_as().unwrap().0, b"the quick brown fox");
    Ok(())
}

#[test]
fn what_goes_around_the_sink_is_not_hashed() -> Result<(), Error> {
    let sink = Writer::with_capacity(8, Box::new(Vec::<u8>::new()));
    let mut w = Writer::with_capacity(8, Box::new(Hashing::new(Sha256::new(), sink)));
    w.write_all(b"ab")?;
    w.flush()?;
    w.backend_as_mut().unwrap().with_sink(|sink, _| sink.write_all(b"--"))?;
    w.write_all(b"cd")?;
    w.flush()?;
    let hashing = w.backend_as_mut().unwrap();
    assert_eq!(hashing.digest().as_slice(), Sha256::digest(b"abcd").as_slice());
    let sink = hashing.borrow_sink().unwrap();
    assert_eq!(sink.backend_as().unwrap().as_slice(), b"ab--cd");
    Ok(())
}

#[test]
fn leading_bytes_of_a_gathered_write() {
    let segments: [&[u8]; 3] = [b"ab", b"", b"xyz"];
    let all = b"abxyzxyz";
    for n in 0usize..9 {
        assert_eq!(leading(&segments, 2, n), all[..n].to_vec());
    }
    assert_eq!(leading(&[], 5, 0), Vec::<u8>::new());
}

/// Counts how often it is synced, and takes no more than `room` bytes.
struct Counting {
    bytes: Vec<u8>,
    room: usize,
    synced: usize,
}

impl Write for Counting {
    fn write(&mut self, buf: &[u8]) -> Result<usize, Error> {
        let n = buf.len().min(self.room - self.bytes.len());
        if n == 0 {
            return Err(Error::Io(std::io::Error::other("full")));
        }
        self.bytes.extend_from_slice(&buf[..n]);
        Ok(n)
    }

    fn sync(&mut self) -> Result<(), Error> {
        self.synced += 1;
        Ok(())
    }
}

#[test]
fn inner_writer_is_flushed_once() -> Result<(), Error> {
    let counting = Counting { bytes: Vec::new(), room: 2, synced: 0 };
    let sink = Writer::with_capacity(0, Box::new(counting));
    let mut w = Writer::with_capacity(4, Box::new(Hashing::new(Sha256::new(), sink)));
    w.write_all(b"abc")?;
    assert!(w.flush().is_err());
    assert_eq!(w.filled(), b"c");
    let hashing = w.backend_as_mut().unwrap();
    assert_eq!(hashing.borrow_sink().unwrap().backend_as().unwrap().synced, 0);
    hashing.with_sink(|sink, _| sink.backend_as_mut().unwrap().room = 9);
    w.flush()?;
    let hashing = w.backend_as_mut().unwrap();
    assert_eq!(hashing.digest().as_slice(), Sha256::digest(b"abc").as_slice());
    assert_eq!(hashing.borrow_sink().unwrap().backend_as().unwrap().synced, 1);
    w.flush()?;
    let hashing = w.backend_as().unwrap();
    assert_eq!(hashing.borrow_sink().unwrap().backend_as().unwrap().synced, 2);
    Ok(())
}

#[test]
fn hashing_sink_drained_by_hand() -> Result<(), Error> {
    let spare = Hashing::new(Sha256::new(), Writer::with_capacity(2, Box::new(Vec::<u8>::new())));
    let mut w = Writer::with_capacity(4, Box::new(spare));
    w.write_all(b"ab")?;
    let sink = Writer::with_capacity(8, Box::new(Vec::<u8>::new()));
    let mut hashing = Hashing::new(Sha256::new(), sink);
    assert_eq!(hashing.drain(&mut w, &[], 3)?, 0);
    assert_eq!(w.staged_len(), 0);
    let segments: [&[u8]; 1] = [b"cd"];
    assert_eq!(hashing.drain(&mut w, &segments, 2)?, 4);
    assert_eq!(hashing.borrow_sink().unwrap().filled(), b"abcdcd");
    assert_eq!(hashing.digest().as_slice(), Sha256::digest(b"abcdcd").as_slice());
    assert!(w.backend_as().is_some());
    Ok(())
}

#[test]
fn fresh_hasher_was_fed_nothing() -> Result<(), Error> {
    let fresh = <Sha256 as rustio::Hasher>::fresh();
    let sink = Writer::with_capacity(0, Box::new(Vec::<u8>::new()));
    let mut w = Writer::with_capacity(8, Box::new(Hashing::new(fresh, sink)));
    for part in [b"one".as_slice(), b"", b"two and three"] {
        w.write_all(part)?;
    }
    w.flush()?;
    let hashing = w.backend_as_mut().unwrap();
    assert_eq!(hashing.digest().as_slice(), Sha256::digest(b"onetwo and three").as_slice());
    assert_eq!(hashing.digest().as_slice(), Sha256::digest(b"").as_slice());
    let out = hashing.borrow_sink().unwrap().backend_as().unwrap();
    assert_eq!(out.as_slice(), b"onetwo and three");
    Ok(())
}
