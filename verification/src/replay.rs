//! Keeping I/Q pairs whole when a recording is read in uneven pieces.
//!
//! A file read can return any number of bytes, odd ones included. Handing
//! an odd count on would split a pair between two reads and swap I and Q
//! for the rest of the stream, which decodes as pure noise and looks exactly
//! like a broken demodulator. The aligner holds a trailing odd byte back and
//! puts it first in the next read, so every read hands on whole pairs and
//! the stream handed on is the stream read, in order.
//!
//! The caller performs the reads: `begin` prepares a buffer, the caller
//! fills it past the returned start until it holds at least one pair (or the
//! recording ends, `end`, or fails, `fail`), and `settle` decides how much of
//! it to hand on.
use vstd::prelude::*;

verus! {

/// How a read starts.
#[derive(Clone, Copy, Debug, PartialEq, Eq, Structural)]
pub enum Begin {
    /// The recording already ended; it stays ended.
    Ended,
    /// The buffer cannot hold a single pair; nothing is read.
    TooSmall,
    /// Fill the buffer from `start` on: a held byte already sits before it.
    Fill { start: usize },
}

pub struct PairAligner {
    /// The odd byte of the previous read, held back.
    partial: Option<u8>,
    samples_delivered: u64,
    exhausted: bool,
    /// No read has failed: once one does, a byte in flight is lost.
    clean: bool,
    /// Every byte the reads produced, as passed to `settle`.
    taken: Ghost<Seq<u8>>,
    /// Every byte handed on.
    given: Ghost<Seq<u8>>,
    /// The held byte, while it sits at the front of a buffer being filled.
    in_flight: Ghost<Seq<u8>>,
}

pub open spec fn opt_seq(o: Option<u8>) -> Seq<u8> {
    match o {
        Some(b) => seq![b],
        None => Seq::empty(),
    }
}

impl PairAligner {
    pub closed spec fn taken(&self) -> Seq<u8> {
        self.taken@
    }

    pub closed spec fn given(&self) -> Seq<u8> {
        self.given@
    }

    /// The byte held back for the next read, if any.
    pub closed spec fn held(&self) -> Seq<u8> {
        opt_seq(self.partial) + self.in_flight@
    }

    pub closed spec fn in_flight(&self) -> Seq<u8> {
        self.in_flight@
    }

    pub closed spec fn is_exhausted(&self) -> bool {
        self.exhausted
    }

    pub closed spec fn is_clean(&self) -> bool {
        self.clean
    }

    pub closed spec fn samples(&self) -> u64 {
        self.samples_delivered
    }

    pub closed spec fn wf(&self) -> bool {
        &&& self.given@.len() % 2 == 0
        &&& self.in_flight@.len() <= 1
        &&& !(self.partial is Some && self.in_flight@.len() > 0)
        &&& self.clean ==> self.taken@.len() >= self.given@.len() && self.taken@.take(self.given@.len() as int)
            == self.given@ && self.taken@.len() <= self.given@.len() + 1
        &&& self.clean && !self.exhausted ==> self.taken@ == self.given@ + self.held()
    }

    pub fn new() -> (a: Self)
        ensures
            a.wf(),
            a.is_clean(),
            !a.is_exhausted(),
            a.taken() == Seq::<u8>::empty(),
            a.given() == Seq::<u8>::empty(),
            a.held() == Seq::<u8>::empty(),
            a.in_flight() == Seq::<u8>::empty(),
            a.samples() == 0,
    {
        let a = PairAligner {
            partial: None,
            samples_delivered: 0,
            exhausted: false,
            clean: true,
            taken: Ghost(Seq::empty()),
            given: Ghost(Seq::empty()),
            in_flight: Ghost(Seq::empty()),
        };
        proof {
            assert(a.held() =~= Seq::<u8>::empty());
            assert(a.taken@.take(0) =~= a.given@);
        }
        a
    }

    /// Prepare `buf` for a read: put the held byte first, and say where the
    /// reads should start filling.
    pub fn begin(&mut self, buf: &mut [u8]) -> (b: Begin)
        requires
            old(self).wf(),
            old(self).in_flight().len() == 0,
        ensures
            final(self).wf(),
            final(buf)@.len() == old(buf)@.len(),
            old(self).is_exhausted() ==> b == Begin::Ended && *final(self) == *old(self) && final(buf)@ == old(
                buf,
            )@,
            !old(self).is_exhausted() && old(buf)@.len() < 2 ==> b == Begin::TooSmall && *final(self) == *old(
                self,
            ) && final(buf)@ == old(buf)@,
            !old(self).is_exhausted() && old(buf)@.len() >= 2 ==> (b matches Begin::Fill { start } && start
                == old(self).held().len() && final(buf)@.take(start as int) == old(self).held()
                && final(buf)@.skip(start as int) == old(buf)@.skip(start as int)),
            final(self).held() == old(self).held(),
            final(self).taken() == old(self).taken(),
            final(self).given() == old(self).given(),
            final(self).is_clean() == old(self).is_clean(),
            final(self).is_exhausted() == old(self).is_exhausted(),
            final(self).samples() == old(self).samples(),
            b matches Begin::Fill { start } ==> final(self).in_flight() == old(self).held() && start
                == final(self).in_flight().len(),
    {
        if self.exhausted {
            return Begin::Ended;
        }
        if buf.len() < 2 {
            return Begin::TooSmall;
        }
        match self.partial {
            Some(byte) => {
                let ghost before = buf@;
                buf[0] = byte;
                self.partial = None;
                proof {
                    self.in_flight@ = seq![byte];
                    assert(buf@.take(1) =~= seq![byte]);
                    assert(buf@.skip(1) =~= before.skip(1));
                    assert(opt_seq(None) + seq![byte] =~= seq![byte]);
                    assert(opt_seq(Some(byte)) + Seq::<u8>::empty() =~= seq![byte]);
                }
                Begin::Fill { start: 1 }
            },
            None => {
                proof {
                    assert(buf@.take(0) =~= opt_seq(None) + Seq::<u8>::empty());
                    assert(buf@.skip(0) =~= buf@);
                }
                Begin::Fill { start: 0 }
            },
        }
    }

    /// The reads filled `buf[start..filled]`, `filled` at least one pair:
    /// hand on the whole pairs and hold back a trailing odd byte. Returns how
    /// many bytes of `buf` to hand on.
    pub fn settle(&mut self, buf: &[u8], start: usize, filled: usize) -> (n: usize)
        requires
            old(self).wf(),
            !old(self).is_exhausted(),
            old(self).held() == old(self).in_flight(),
            start == old(self).in_flight().len(),
            buf@.take(start as int) == old(self).in_flight(),
            start <= filled <= buf@.len(),
            filled >= 2,
        ensures
            final(self).wf(),
            n == filled - filled % 2,
            n % 2 == 0 && n >= 2,
            final(self).given() == old(self).given() + buf@.take(n as int),
            final(self).taken() == old(self).taken() + buf@.subrange(start as int, filled as int),
            final(self).held() == buf@.subrange(n as int, filled as int),
            final(self).in_flight() == Seq::<u8>::empty(),
            final(self).is_clean() == old(self).is_clean(),
            !final(self).is_exhausted(),
            final(self).samples() == crate::store::plus(old(self).samples(), (n / 2) as u64),
    {
        let n = filled - filled % 2;
        let ghost old_given = self.given@;
        let ghost old_taken = self.taken@;
        let ghost old_in = self.in_flight@;
        if filled % 2 == 1 {
            self.partial = Some(buf[filled - 1]);
        } else {
            self.partial = None;
        }
        self.samples_delivered = self.samples_delivered.saturating_add((n / 2) as u64);
        proof {
            self.given@ = old_given + buf@.take(n as int);
            self.taken@ = old_taken + buf@.subrange(start as int, filled as int);
            self.in_flight@ = Seq::empty();
            assert(opt_seq(self.partial) =~= buf@.subrange(n as int, filled as int));
            assert(self.held() =~= buf@.subrange(n as int, filled as int));
            if self.clean {
                assert(old_in.len() == 0 ==> old_given + old_in =~= old_given);
                assert(opt_seq(old(self).partial) + old_in == old_in ==> old(self).partial is None) by {
                    if old(self).partial is Some {
                        assert((opt_seq(old(self).partial) + old_in).len() == 1 + old_in.len());
                    }
                }
                assert(old_taken =~= old_given + old_in);
                assert(buf@.take(start as int) + buf@.subrange(start as int, filled as int) =~= buf@.take(
                    n as int,
                ) + buf@.subrange(n as int, filled as int));
                assert(self.taken@ =~= self.given@ + self.held());
                assert(self.taken@.take(self.given@.len() as int) =~= self.given@);
            }
        }
        n
    }

    /// The recording ran out before a whole pair: it is over, and a lone
    /// trailing byte is dropped, never handed on.
    pub fn end(&mut self)
        requires
            old(self).wf(),
        ensures
            final(self).wf(),
            final(self).is_exhausted(),
            final(self).given() == old(self).given(),
            final(self).taken() == old(self).taken(),
            final(self).is_clean() == old(self).is_clean(),
            final(self).samples() == old(self).samples(),
            final(self).in_flight() == Seq::<u8>::empty(),
    {
        self.exhausted = true;
        proof {
            self.in_flight@ = Seq::empty();
        }
    }

    /// A read failed: the byte in flight, if any, is lost with it.
    pub fn fail(&mut self)
        requires
            old(self).wf(),
        ensures
            final(self).wf(),
            !final(self).is_clean(),
            final(self).is_exhausted() == old(self).is_exhausted(),
            final(self).given() == old(self).given(),
            final(self).samples() == old(self).samples(),
            final(self).in_flight() == Seq::<u8>::empty(),
    {
        self.clean = false;
        proof {
            self.in_flight@ = Seq::empty();
        }
    }

    /// Samples (pairs) handed on so far, stopping at the top of the range.
    pub fn samples_delivered(&self) -> (s: u64)
        ensures
            s == self.samples(),
    {
        self.samples_delivered
    }
}

/// What a recording hands on is exactly what was read from it, in order,
/// less at most one trailing byte; and it is whole pairs. While no read has
/// failed and the recording has not ended, the one byte missing is the one
/// held for the next read.
pub proof fn lemma_no_pair_is_split(a: PairAligner)
    requires
        a.wf(),
        a.is_clean(),
    ensures
        a.given().len() % 2 == 0,
        a.given() == a.taken().take(a.given().len() as int),
        a.taken().len() <= a.given().len() + 1,
        !a.is_exhausted() ==> a.taken() == a.given() + a.held(),
{
}

} // verus!
