//! Sinks that wrap a writer.

use crate::bytes::{gathered, lemma_gathered_staged, views};
use crate::error::Error;
use crate::sink::{drain_into, Ledger, Sink};
use crate::write::Write;
use crate::writer::Writer;
use vstd::prelude::*;

verus! {

/// A sink that forwards bytes into a writer. Unlike a writer that is a sink itself, it
/// does not wait for one that leaves staged bytes where they are: a flush reports it.
pub struct WriteDrain<W: Write> {
    pub out: Box<W>,
}

impl<W: Write> WriteDrain<W> {
    pub fn new(writer: W) -> (r: WriteDrain<W>)
        ensures
            *r.out == writer,
    {
        WriteDrain { out: Box::new(writer) }
    }
}

impl<W: Write> Sink for WriteDrain<W> {
    open spec fn ready(&self) -> bool {
        true
    }

    open spec fn received(&self) -> Seq<u8> {
        self.out.written()
    }

    open spec fn ledger(&self) -> Ledger {
        Ledger::from_start()
    }

    open spec fn steady(&self) -> bool {
        Write::steady(&*self.out)
    }

    open spec fn held(&self) -> nat {
        0
    }

    open spec fn hops() -> nat {
        0
    }

    open spec fn stalls(&self) -> nat {
        Write::stalls(&*self.out)
    }

    open spec fn infallible(&self) -> bool {
        Write::infallible(&*self.out)
    }

    open spec fn flush_infallible(&self) -> bool {
        Write::infallible(&*self.out)
    }

    open spec fn patient() -> bool {
        false
    }

    open spec fn takes_no_segments() -> bool {
        false
    }

    fn is_patient() -> (r: bool) {
        false
    }

    fn drain(&mut self, w: &mut Writer<'_, Self>, data: &[&[u8]], splat: usize) -> (r: Result<
        usize,
        Error,
    >)
        ensures
            gathered(old(w).staged(), views(data@), splat as nat).len() == 0 ==> {
                &&& r is Ok && r->Ok_0 == 0
                &&& *final(self) == *old(self)
                &&& *final(w) == *old(w)
            },
            gathered(old(w).staged(), views(data@), splat as nat).len() > 0 ==> exists|
                o: &mut W,
                bufs: &[&[u8]],
                answer: Result<usize, Error>,
            |
                {
                    &&& *o == *old(self).out
                    &&& views(bufs@) == gathered(old(w).staged(), views(data@), splat as nat)
                    &&& #[trigger] call_ensures(W::write_vectored, (o, bufs), answer)
                    &&& *final(self).out == *final(o)
                    &&& old(w).settled(answer, *final(w), r)
                    &&& match answer {
                        Ok(n) => r is Ok && r->Ok_0 == if n > old(w).used() {
                            n - old(w).used()
                        } else {
                            0
                        },
                        Err(e) => r == Err::<usize, Error>(e) && *final(w) == *old(w),
                    }
                },
    {
        assert(!Self::takes_no_segments());
        let out = &mut *self.out;
        let r = drain_into(out, w, data, splat);
        proof {
            let moved = self.received().len() - old(self).received().len();
            let hops = Self::hops();
            assert(moved * hops == 0) by (nonlinear_arith)
                requires
                    hops == 0,
            ;
            assert(self.held() == 0 && old(self).held() == 0);
            assert(old(self).stalls() == Write::stalls(&*old(self).out));
        }
        r
    }

    fn flush(&mut self, w: &mut Writer<'_, Self>) -> (r: Result<(), Error>)
        ensures
            r is Ok ==> final(self).out.settled(),
            old(w).used() > 0 ==> exists|
                o: &mut W,
                bufs: &[&[u8]],
                answer: Result<usize, Error>,
            |
                {
                    &&& *o == *old(self).out
                    &&& views(bufs@) == seq![old(w).staged()]
                    &&& #[trigger] call_ensures(W::write_vectored, (o, bufs), answer)
                    &&& match answer {
                        Ok(n) => {
                            &&& old(w).consumed(n as nat, *final(w))
                            &&& n < old(w).used() ==> r == Err::<(), Error>(Error::WriteZero)
                                && *final(self).out == *final(o)
                            &&& n >= old(w).used() ==> exists|p: &mut W|
                                {
                                    &&& *p == *final(o)
                                    &&& #[trigger] call_ensures(W::sync, (p,), r)
                                    &&& *final(self).out == *final(p)
                                }
                        },
                        Err(e) => {
                            &&& r == Err::<(), Error>(e)
                            &&& *final(self).out == *final(o)
                            &&& *final(w) == *old(w)
                        },
                    }
                },
            old(w).used() == 0 ==> *final(w) == *old(w) && exists|p: &mut W|
                {
                    &&& *p == *old(self).out
                    &&& #[trigger] call_ensures(W::sync, (p,), r)
                    &&& *final(self).out == *final(p)
                },
    {
        proof {
            if w.used() > 0 {
                lemma_gathered_staged(w.staged());
            }
        }
        if let Err(e) = self.flush_once(w) {
            return Err(e);
        }
        let out = &mut *self.out;
        out.sync()
    }
}

} // verus!
