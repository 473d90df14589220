//! A sink that hashes what it forwards.

use crate::bytes::{
    heads, joined, lemma_joined_take, lemma_payload_none, lemma_payload_splat, lemma_repeated_add,
    lemma_repeated_len, payload, repeated, views,
};
use crate::error::Error;
use crate::sink::{goes_on, Ledger, Sink};
use crate::writer::{lemma_consumed_staged, Writer};
use vstd::arithmetic::mul::lemma_mul_is_distributive_add_other_way;
use vstd::prelude::*;

verus! {

/// The most bytes that can be given to a hasher after those that it was created with:
/// two to the power of 69.
pub const FEED_LIMIT: u128 = 0x20_0000_0000_0000_0000;

/// A hash function that is fed piece by piece. An implementation has to say what it was
/// fed and what it makes of it.
pub trait Hasher: Sized {
    /// The bytes that the hasher was fed since it was new or was last reset.
    open spec fn absorbed(&self) -> Seq<u8> {
        arbitrary()
    }

    /// The hash of `bytes`.
    open spec fn hash(bytes: Seq<u8>) -> Seq<u8> {
        arbitrary()
    }

    /// How many bytes have no hash any more, because they are too many.
    open spec fn too_long() -> nat {
        0
    }

    /// A hasher that was fed nothing.
    fn fresh() -> (r: Self)
        ensures
            r.absorbed() == Seq::<u8>::empty(),
    ;

    /// Feeds `bytes` to the hasher.
    fn update(&mut self, bytes: &[u8])
        requires
            old(self).absorbed().len() + bytes@.len() < 2 * FEED_LIMIT,
        ensures
            final(self).absorbed() == old(self).absorbed() + bytes@,
    ;

    /// The hash of what the hasher was fed. It starts over.
    fn finalize_reset(&mut self) -> (r: Vec<u8>)
        requires
            old(self).absorbed().len() < Self::too_long(),
        ensures
            r@ == Self::hash(old(self).absorbed()),
            final(self).absorbed() == Seq::<u8>::empty(),
    ;
}

/// `sha2::Sha256`, a SHA-256 hasher.
#[verifier::external_type_specification]
#[verifier::external_body]
pub struct ExSha256(sha2::Sha256);

/// The bytes that a SHA-256 hasher holds the hash of: those it was fed since it was new
/// or was last reset.
pub uninterp spec fn sha256_absorbed(hasher: sha2::Sha256) -> Seq<u8>;

/// The SHA-256 hash of `bytes`.
pub uninterp spec fn sha256(bytes: Seq<u8>) -> Seq<u8>;

/// `sha2::Digest::new` for a `sha2::Sha256`: a hasher that was fed nothing.
#[verifier::external_body]
fn sha256_new() -> (r: sha2::Sha256)
    ensures
        sha256_absorbed(r) == Seq::<u8>::empty(),
{
    <sha2::Sha256 as sha2::Digest>::new()
}

/// `sha2::digest::Update::update` on a `sha2::Sha256`: the bytes join those that the
/// hasher was fed before. It counts blocks of 64 bytes in a `u64`, so there must be
/// fewer bytes in all than such a count can stand for.
#[verifier::external_body]
fn sha256_update(hasher: &mut sha2::Sha256, bytes: &[u8])
    requires
        sha256_absorbed(*old(hasher)).len() + bytes@.len() < 0x40_0000_0000_0000_0000,
    ensures
        sha256_absorbed(*final(hasher)) == sha256_absorbed(*old(hasher)) + bytes@,
{
    sha2::digest::Update::update(hasher, bytes)
}

/// `sha2::digest::FixedOutputReset::finalize_fixed_reset` on a `sha2::Sha256`: the hash
/// of what the hasher was fed, which it then forgets. The number of bits goes into the
/// hash as a `u64`, so there must be fewer bytes than that stands for.
#[verifier::external_body]
fn sha256_finalize_reset(hasher: &mut sha2::Sha256) -> (r: Vec<u8>)
    requires
        sha256_absorbed(*old(hasher)).len() < 0x2000_0000_0000_0000,
    ensures
        r@ == sha256(sha256_absorbed(*old(hasher))),
        sha256_absorbed(*final(hasher)) == Seq::<u8>::empty(),
{
    sha2::digest::FixedOutputReset::finalize_fixed_reset(hasher).to_vec()
}

impl Hasher for sha2::Sha256 {
    open spec fn absorbed(&self) -> Seq<u8> {
        sha256_absorbed(*self)
    }

    open spec fn hash(bytes: Seq<u8>) -> Seq<u8> {
        sha256(bytes)
    }

    open spec fn too_long() -> nat {
        0x2000_0000_0000_0000
    }

    fn fresh() -> (r: Self)
        ensures
            sha256_absorbed(r) == Seq::<u8>::empty(),
    {
        sha256_new()
    }

    fn update(&mut self, bytes: &[u8])
        ensures
            sha256_absorbed(*final(self)) == sha256_absorbed(*old(self)) + bytes@,
    {
        sha256_update(self, bytes)
    }

    fn finalize_reset(&mut self) -> (r: Vec<u8>)
        ensures
            r@ == sha256(sha256_absorbed(*old(self))),
            sha256_absorbed(*final(self)) == Seq::<u8>::empty(),
    {
        sha256_finalize_reset(self)
    }
}

/// The first `n` bytes of what `data` and `splat` ask for.
pub fn leading(data: &[&[u8]], splat: usize, n: usize) -> (r: Vec<u8>)
    requires
        n <= payload(views(data@), splat as nat).len(),
    ensures
        r@ == payload(views(data@), splat as nat).take(n as int),
{
    let ghost parts = views(data@);
    let ghost firsts = heads(parts);
    let ghost asked = payload(parts, splat as nat);
    let mut bytes: Vec<u8> = Vec::new();
    let mut remaining: usize = n;
    if data.is_empty() {
        proof {
            lemma_payload_none(splat as nat);
        }
        return bytes;
    }
    let last: usize = data.len() - 1;
    let mut i: usize = 0;
    while i < last && remaining > 0
        invariant
            parts == views(data@),
            firsts == heads(parts),
            asked == payload(parts, splat as nat),
            last == data@.len() - 1,
            i <= last,
            n <= asked.len(),
            remaining <= n,
            bytes@ == asked.take(n - remaining),
            remaining > 0 ==> n - remaining == joined(firsts.take(i as int)).len(),
        decreases last - i,
    {
        let segment: &[u8] = data[i];
        let take: usize = if segment.len() < remaining {
            segment.len()
        } else {
            remaining
        };
        proof {
            lemma_joined_take(firsts, i as int);
            let done = n - remaining;
            assert forall|j: int| 0 <= j < take implies asked[done + j] == segment@[j] by {
                assert(joined(firsts)[done + j] == joined(firsts.take(i + 1))[done + j]);
            }
        }
        let piece: &[u8] = vstd::slice::slice_subrange(segment, 0, take);
        bytes.extend_from_slice(piece);
        remaining -= take;
        i += 1;
    }
    if remaining == 0 {
        return bytes;
    }
    assert(firsts.take(last as int) =~= firsts);
    let unit: &[u8] = data[last];
    let ghost front = joined(firsts);
    let mut k: usize = 0;
    proof {
        lemma_repeated_len(unit@, splat as nat);
        if unit@.len() == 0 {
            assert(unit@.len() * splat == 0) by (nonlinear_arith)
                requires
                    unit@.len() == 0,
            ;
        }
    }
    while remaining > 0 && k < splat
        invariant
            parts == views(data@),
            asked == front + repeated(unit@, splat as nat),
            n <= asked.len(),
            remaining <= n,
            k <= splat,
            unit@.len() > 0,
            bytes@ == asked.take(n - remaining),
            remaining > 0 ==> n - remaining == (front + repeated(unit@, k as nat)).len(),
        decreases splat - k,
    {
        let take: usize = if unit.len() < remaining {
            unit.len()
        } else {
            remaining
        };
        proof {
            lemma_repeated_add(unit@, (k + 1) as nat, (splat - k - 1) as nat);
            let done = n - remaining;
            assert forall|j: int| 0 <= j < take implies asked[done + j] == unit@[j] by {}
        }
        let piece: &[u8] = vstd::slice::slice_subrange(unit, 0, take);
        bytes.extend_from_slice(piece);
        remaining -= take;
        k += 1;
    }
    bytes
}

/// A sink that forwards to an underlying writer while feeding a hasher with every byte
/// it forwards.
pub struct Hashing<'buf, H: Hasher, S: Sink> {
    sink: Option<Writer<'buf, S>>,
    hasher: H,
    fed: u128,
    account: Ghost<Ledger>,
}

impl<'buf, H: Hasher, S: Sink> Hashing<'buf, H, S> {
    /// The underlying writer, unless it has been taken out.
    pub closed spec fn sink(&self) -> Option<Writer<'buf, S>> {
        self.sink
    }

    /// The account that is kept of the forwarded bytes: those to be hashed.
    pub closed spec fn account(&self) -> Ledger {
        self.account@
    }

    /// Every byte that was ever given to the underlying writer.
    pub open spec fn forwarded(&self) -> Seq<u8> {
        match self.sink() {
            Some(sink) => sink.total(),
            None => Seq::empty(),
        }
    }

    /// The bytes that the next digest is the hash of.
    pub open spec fn hashed(&self) -> Seq<u8> {
        self.account().balance(self.forwarded())
    }

    /// The hasher was fed what the account amounts to, unless that is too much for it.
    pub closed spec fn wf(&self) -> bool {
        &&& self.account().mark <= self.forwarded().len()
        &&& self.fed <= FEED_LIMIT + 1
        &&& if self.fed <= FEED_LIMIT {
            &&& self.hasher.absorbed() == self.hashed()
            &&& self.fed <= self.hashed().len() < FEED_LIMIT + self.fed
        } else {
            self.hashed().len() > FEED_LIMIT
        }
    }

    /// Forwards to `sink` and feeds `digest`, which may have been fed before.
    pub fn new(digest: H, sink: Writer<'buf, S>) -> (r: Self)
        requires
            digest.absorbed().len() < FEED_LIMIT,
        ensures
            r.wf(),
            r.sink() == Some(sink),
            r.hashed() == digest.absorbed(),
            r.account() == (Ledger { seed: digest.absorbed(), mark: sink.total().len() }),
    {
        let account = Ghost(Ledger { seed: digest.absorbed(), mark: sink.total().len() });
        Hashing { sink: Some(sink), hasher: digest, fed: 0, account }
    }

    /// The hash of everything that was forwarded since the hasher was last reset. Resets
    /// it.
    pub fn digest(&mut self) -> (r: Vec<u8>)
        requires
            old(self).wf(),
            old(self).hashed().len() < H::too_long(),
            old(self).hashed().len() <= FEED_LIMIT,
        ensures
            r@ == H::hash(old(self).hashed()),
            final(self).wf(),
            final(self).sink() == old(self).sink(),
            final(self).hashed() == Seq::<u8>::empty(),
            final(self).account() == (Ledger {
                seed: Seq::empty(),
                mark: old(self).forwarded().len(),
            }),
    {
        let r = self.hasher.finalize_reset();
        self.fed = 0;
        self.account = Ghost(Ledger { seed: Seq::empty(), mark: self.forwarded().len() });
        r
    }

    /// Takes the underlying writer out, hands both to `f`, and puts the writer back. What
    /// `f` gives to the writer is not hashed.
    pub fn with_sink<R>(&mut self, f: impl FnOnce(&mut Writer<'buf, S>, &mut Self) -> R) -> (r: R)
        requires
            old(self).wf(),
            old(self).sink() is Some,
            forall|s: &mut Writer<'buf, S>, h: &mut Self|
                *s == old(self).sink()->0 && h.sink() is None && h.wf() && h.hashed() == old(
                    self
                ).hashed() ==> #[trigger] f.requires((s, h)),
        ensures
            exists|s: &mut Writer<'buf, S>, h: &mut Self|
                {
                    &&& *s == old(self).sink()->0
                    &&& h.sink() is None
                    &&& h.wf()
                    &&& h.hashed() == old(self).hashed()
                    &&& #[trigger] f.ensures((s, h), r)
                    &&& final(self).sink() == Some(*final(s))
                    &&& final(self).hashed() == final(h).hashed()
                    &&& final(h).wf() ==> final(self).wf()
                },
    {
        let mut sink = self.take_sink().unwrap();
        let s = &mut sink;
        let r = f(s, self);
        let ghost hashed = self.hashed();
        self.account = Ghost(Ledger { seed: hashed, mark: sink.total().len() });
        self.sink = Some(sink);
        r
    }

    /// The underlying writer, unless it has been taken out.
    pub fn borrow_sink(&self) -> (r: Option<&Writer<'buf, S>>)
        ensures
            match r {
                Some(sink) => self.sink() == Some(*sink),
                None => self.sink() is None,
            },
    {
        self.sink.as_ref()
    }

    /// Takes the underlying writer out. What was fed to the hasher stays.
    pub fn take_sink(&mut self) -> (r: Option<Writer<'buf, S>>)
        requires
            old(self).wf(),
        ensures
            r == old(self).sink(),
            final(self).sink() is None,
            final(self).wf(),
            final(self).hashed() == old(self).hashed(),
    {
        let ghost hashed = self.hashed();
        self.account = Ghost(Ledger { seed: hashed, mark: 0 });
        self.sink.take()
    }

    /// Whether `after` is what feeding `more` makes of the hasher.
    spec fn fed_with(&self, more: Seq<u8>, after: Self) -> bool {
        &&& after.account() == self.account()
        &&& if self.fed + more.len() <= FEED_LIMIT {
            &&& after.fed == self.fed + more.len()
            &&& after.hasher.absorbed() == self.hasher.absorbed() + more
        } else {
            after.fed == FEED_LIMIT + 1
        }
    }

    /// Feeding what is forwarded keeps the account right.
    proof fn lemma_fed_with(before: Self, more: Seq<u8>, after: Self)
        requires
            before.wf(),
            before.fed_with(more, after),
            after.forwarded() == before.forwarded() + more,
        ensures
            after.wf(),
            after.hashed() == before.hashed() + more,
    {
    }

    /// The account speaks of bytes that were forwarded.
    pub proof fn lemma_account(&self)
        requires
            self.wf(),
        ensures
            self.account().mark <= self.forwarded().len(),
    {
    }

    /// Feeds the hasher, unless it has had too much.
    fn feed(&mut self, bytes: &[u8])
        requires
            old(self).fed <= FEED_LIMIT ==> old(self).hasher.absorbed().len() < FEED_LIMIT + old(
                self
            ).fed,
            old(self).fed <= FEED_LIMIT + 1,
        ensures
            final(self).sink() == old(self).sink(),
            old(self).fed_with(bytes@, *final(self)),
    {
        let more: u128 = bytes.len() as u128;
        if self.fed <= FEED_LIMIT && more <= FEED_LIMIT - self.fed {
            self.hasher.update(bytes);
            self.fed = self.fed + more;
        } else {
            self.fed = FEED_LIMIT + 1;
        }
    }
}

impl<'buf, H: Hasher, S: Sink> Sink for Hashing<'buf, H, S> {
    open spec fn ready(&self) -> bool {
        self.wf() && self.sink() is Some && self.sink()->0.ready()
    }

    open spec fn received(&self) -> Seq<u8> {
        self.forwarded()
    }

    open spec fn ledger(&self) -> Ledger {
        self.account()
    }

    open spec fn steady(&self) -> bool {
        self.sink()->0.backend()->0.steady()
    }

    open spec fn held(&self) -> nat {
        self.sink()->0.held()
    }

    open spec fn hops() -> nat {
        1 + S::hops()
    }

    open spec fn stalls(&self) -> nat {
        self.sink()->0.backend()->0.stalls()
    }

    open spec fn infallible(&self) -> bool {
        self.sink()->0.backend()->0.infallible()
    }

    open spec fn flush_infallible(&self) -> bool {
        S::patient() && self.sink()->0.backend()->0.flush_infallible()
    }

    open spec fn patient() -> bool {
        true
    }

    open spec fn takes_no_segments() -> bool {
        true
    }

    fn is_patient() -> (r: bool) {
        true
    }

    fn drain(&mut self, w: &mut Writer<'_, Self>, data: &[&[u8]], splat: usize) -> (r: Result<
        usize,
        Error,
    >)
        ensures
            exists|s: &mut Writer<'buf, S>, bytes: &[u8], first: Result<usize, Error>|
                {
                    &&& *s == old(self).sink()->0
                    &&& bytes@ == old(w).staged()
                    &&& #[trigger] call_ensures(Writer::<'buf, S>::write, (s, bytes), first)
                    &&& match first {
                        Err(e) => {
                            &&& r == first
                            &&& final(self).sink() == Some(*final(s))
                            &&& *final(w) == *old(w)
                        },
                        Ok(n) => {
                            &&& old(w).consumed(n as nat, *final(w))
                            &&& n < old(w).used() ==> r is Ok && r->Ok_0 == 0 && final(self).sink()
                                == Some(*final(s))
                            &&& n >= old(w).used() ==> exists|t: &mut Writer<'buf, S>|
                                {
                                    &&& *t == *final(s)
                                    &&& #[trigger] call_ensures(
                                        Writer::<'buf, S>::write_vec_splat,
                                        (t, data, splat),
                                        r,
                                    )
                                    &&& final(self).sink() == Some(*final(t))
                                }
                        },
                    }
                },
    {
        let ghost asked = payload(views(data@), splat as nat);
        let ghost staged = w.staged();
        let ghost hops = 1 + S::hops();
        let mut sink = self.sink.take().unwrap();
        let from_buffer: usize = match sink.write(w.filled()) {
            Ok(n) => n,
            Err(e) => {
                self.sink = Some(sink);
                return Err(e);
            },
        };
        if from_buffer > 0 {
            self.feed(vstd::slice::slice_subrange(w.filled(), 0, from_buffer));
        }
        let ghost moved = staged.take(from_buffer as int);
        let ghost between = Hashing { sink: Some(sink), ..*self };
        proof {
            Self::lemma_fed_with(*old(self), moved, between);
        }
        let beyond: usize = w.consume(from_buffer);
        proof {
            lemma_consumed_staged(*old(w), from_buffer as nat, *w);
            assert(between.forwarded() + w.staged() =~= old(self).forwarded() + staged);
        }
        if w.staged_len() != 0 {
            self.sink = Some(sink);
            return Ok(beyond);
        }
        match sink.write_vec_splat(data, splat) {
            Ok(from_data) => {
                if from_data > 0 {
                    let bytes = leading(data, splat, from_data);
                    self.feed(bytes.as_slice());
                }
                self.sink = Some(sink);
                proof {
                    let rest = asked.take(from_data as int);
                    Self::lemma_fed_with(between, rest, *self);
                    lemma_mul_is_distributive_add_other_way(
                        hops as int,
                        from_buffer as int,
                        from_data as int,
                    );
                    let grown = self.received().len() - old(self).received().len();
                    assert(grown * Self::hops() == from_buffer * hops + from_data * hops);
                    assert(old(self).held() == old(self).sink()->0.held());
                    assert(old(self).stalls() == old(self).sink()->0.backend()->0.stalls());
                }
                Ok(beyond + from_data)
            },
            Err(e) => {
                self.sink = Some(sink);
                Err(e)
            },
        }
    }

    fn flush<'w>(&mut self, w: &mut Writer<'w, Self>) -> (r: Result<(), Error>)
        ensures
            r is Ok ==> final(self).sink()->0.used() == 0
                && final(self).sink()->0.backend()->0.received() == old(self).forwarded() + old(
                w
            ).staged(),
            exists|sinks: Seq<Self>, writers: Seq<Writer<'w, Self>>|
                #![trigger sinks.last(), writers.last()]
                {
                    &&& sinks.len() > 0 && sinks[0] == *old(self)
                    &&& writers.len() == sinks.len() && writers[0] == *old(w)
                    &&& forall|i: int| #[trigger]
                        goes_on(i, sinks.len()) ==> writers[i].used() > 0 && exists|
                            s: &mut Writer<'buf, S>,
                            bytes: &[u8],
                            n: usize,
                        |
                            {
                                &&& *s == sinks[i].sink()->0
                                &&& bytes@ == writers[i].staged()
                                &&& #[trigger] call_ensures(
                                    Writer::<'buf, S>::write,
                                    (s, bytes),
                                    Ok::<usize, Error>(n),
                                )
                                &&& sinks[i + 1].sink() == Some(*final(s))
                                &&& writers[i].consumed(n as nat, writers[i + 1])
                            }
                    &&& *final(w) == writers.last()
                    &&& if writers.last().used() == 0 {
                        exists|s: &mut Writer<'buf, S>|
                            {
                                &&& *s == sinks.last().sink()->0
                                &&& #[trigger] call_ensures(Writer::<'buf, S>::flush, (s,), r)
                                &&& final(self).sink() == Some(*final(s))
                            }
                    } else {
                        exists|
                            s: &mut Writer<'buf, S>,
                            bytes: &[u8],
                            answer: Result<usize, Error>,
                        |
                            {
                                &&& *s == sinks.last().sink()->0
                                &&& bytes@ == writers.last().staged()
                                &&& #[trigger] call_ensures(
                                    Writer::<'buf, S>::write,
                                    (s, bytes),
                                    answer,
                                )
                                &&& answer is Err && r == Err::<(), Error>(answer->Err_0)
                                &&& final(self).sink() == Some(*final(s))
                            }
                    }
                },
            old(w).used() > 0 ==> exists|
                s: &mut Writer<'buf, S>,
                bytes: &[u8],
                answer: Result<usize, Error>,
            |
                {
                    &&& *s == old(self).sink()->0
                    &&& bytes@ == old(w).staged()
                    &&& #[trigger] call_ensures(Writer::<'buf, S>::write, (s, bytes), answer)
                    &&& match answer {
                        Ok(n) => n >= old(w).used() ==> old(w).consumed(n as nat, *final(w))
                            && exists|t: &mut Writer<'buf, S>|
                            {
                                &&& *t == *final(s)
                                &&& #[trigger] call_ensures(Writer::<'buf, S>::flush, (t,), r)
                                &&& final(self).sink() == Some(*final(t))
                            },
                        Err(e) => {
                            &&& r == Err::<(), Error>(e)
                            &&& final(self).sink() == Some(*final(s))
                            &&& *final(w) == *old(w)
                        },
                    }
                },
            old(w).used() == 0 ==> *final(w) == *old(w) && exists|s: &mut Writer<'buf, S>|
                {
                    &&& *s == old(self).sink()->0
                    &&& #[trigger] call_ensures(Writer::<'buf, S>::flush, (s,), r)
                    &&& final(self).sink() == Some(*final(s))
                },
    {
        proof {
            lemma_payload_splat(Seq::<u8>::empty(), 0);
        }
        if let Err(e) = self.flush_staged(w) {
            return Err(e);
        }
        let mut sink = self.sink.take().unwrap();
        let r = sink.flush();
        self.sink = Some(sink);
        r
    }
}

} // verus!
