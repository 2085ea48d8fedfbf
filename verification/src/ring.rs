//! The hand-off between the USB transfer callback and the reader, and the
//! small pieces of the USB path that need no hardware.
//!
//! The ring holds whole transfers rather than one flat byte buffer, so an
//! overrun discards a whole transfer at a time: every drop is an even number
//! of bytes and an I/Q pair is never split.
use crate::source::{tenths_text, push_tenths, SourceError, SourceErrorView};
use crate::text::{decimal, push_decimal, push_str, signed_decimal, push_signed_decimal};
use std::collections::VecDeque;
use vstd::prelude::*;

verus! {

/// How much undelivered IQ to hold before dropping the oldest: about 1.7
/// seconds at 2.4 MS/s.
pub const RING_CAPACITY: usize = 8_388_608;

/// The bytes of `blocks`, in order.
pub open spec fn flatten(blocks: Seq<Vec<u8>>) -> Seq<u8>
    decreases blocks.len(),
{
    if blocks.len() == 0 {
        Seq::empty()
    } else {
        flatten(blocks.drop_last()) + blocks.last()@
    }
}

/// The byte sequences of `bs`, laid end to end.
pub open spec fn joined_blocks(bs: Seq<Seq<u8>>) -> Seq<u8>
    decreases bs.len(),
{
    if bs.len() == 0 {
        Seq::empty()
    } else {
        joined_blocks(bs.drop_last()) + bs.last()
    }
}

proof fn lemma_joined_front(bs: Seq<Seq<u8>>)
    requires
        bs.len() > 0,
    ensures
        joined_blocks(bs) == bs[0] + joined_blocks(bs.skip(1)),
    decreases bs.len(),
{
    if bs.len() == 1 {
        assert(bs.skip(1) =~= Seq::<Seq<u8>>::empty());
        assert(bs.drop_last() =~= Seq::<Seq<u8>>::empty());
        assert(joined_blocks(bs.drop_last()) =~= Seq::<u8>::empty());
        assert(joined_blocks(bs.skip(1)) =~= Seq::<u8>::empty());
        assert(bs.last() == bs[0]);
        assert(joined_blocks(bs) =~= bs[0] + joined_blocks(bs.skip(1)));
    } else {
        lemma_joined_front(bs.drop_last());
        assert(bs.drop_last().skip(1) =~= bs.skip(1).drop_last());
        assert(bs.skip(1).last() == bs.last());
        assert(joined_blocks(bs) =~= bs[0] + joined_blocks(bs.skip(1)));
    }
}

proof fn lemma_flatten_joined(blocks: Seq<Vec<u8>>)
    ensures
        flatten(blocks) == joined_blocks(blocks.map_values(|b: Vec<u8>| b@)),
    decreases blocks.len(),
{
    if blocks.len() > 0 {
        lemma_flatten_joined(blocks.drop_last());
        assert(blocks.map_values(|b: Vec<u8>| b@).drop_last() =~= blocks.drop_last().map_values(|b: Vec<u8>| b@));
    }
}

/// The part of a block the ring ever keeps: whole I/Q pairs.
pub open spec fn even_part(block: Seq<u8>) -> Seq<u8> {
    block.take(block.len() - block.len() % 2)
}

/// Whole transfers, plus how far into the front one the consumer has read.
pub struct Ring {
    blocks: VecDeque<Vec<u8>>,
    /// Bytes of `blocks[0]` already handed to the consumer. Always even.
    head: usize,
    bytes: usize,
    /// True once the producer has stopped for good.
    stopped: bool,
}

impl View for Ring {
    type V = Seq<u8>;

    /// The bytes not yet handed to the consumer, oldest first.
    closed spec fn view(&self) -> Seq<u8> {
        flatten(self.blocks@).skip(self.head as int)
    }
}

proof fn lemma_flatten_push(blocks: Seq<Vec<u8>>, b: Vec<u8>)
    ensures
        flatten(blocks.push(b)) == flatten(blocks) + b@,
{
    assert(blocks.push(b).drop_last() =~= blocks);
}

proof fn lemma_flatten_front(blocks: Seq<Vec<u8>>)
    requires
        blocks.len() > 0,
    ensures
        flatten(blocks) == blocks[0]@ + flatten(blocks.skip(1)),
    decreases blocks.len(),
{
    if blocks.len() == 1 {
        assert(blocks.skip(1) =~= Seq::<Vec<u8>>::empty());
        assert(blocks.drop_last() =~= Seq::<Vec<u8>>::empty());
        assert(flatten(blocks.drop_last()) =~= Seq::<u8>::empty());
        assert(flatten(blocks) =~= blocks[0]@);
    } else {
        lemma_flatten_front(blocks.drop_last());
        assert(blocks.drop_last().skip(1) =~= blocks.skip(1).drop_last());
        assert(blocks.skip(1).last() == blocks.last());
        assert(flatten(blocks) =~= blocks[0]@ + flatten(blocks.skip(1)));
    }
}

proof fn lemma_flatten_even(blocks: Seq<Vec<u8>>)
    requires
        forall|i: int| 0 <= i < blocks.len() ==> (#[trigger] blocks[i])@.len() % 2 == 0,
    ensures
        flatten(blocks).len() % 2 == 0,
    decreases blocks.len(),
{
    if blocks.len() > 0 {
        lemma_flatten_even(blocks.drop_last());
        assert(blocks.last() == blocks[blocks.len() - 1]);
    }
}

impl Ring {
    /// The ring's bookkeeping is consistent: every block is a non-empty
    /// whole number of pairs, the read position is even and inside the
    /// front block, and `bytes` counts what is unread.
    pub closed spec fn wf(self) -> bool {
        &&& forall|i: int|
            0 <= i < self.blocks@.len() ==> (#[trigger] self.blocks@[i])@.len() % 2 == 0
                && self.blocks@[i]@.len() > 0
        &&& self.head % 2 == 0
        &&& (self.blocks@.len() == 0 ==> self.head == 0)
        &&& (self.blocks@.len() > 0 ==> self.head < self.blocks@[0]@.len())
        &&& self.bytes == flatten(self.blocks@).len() - self.head
        &&& self.bytes <= RING_CAPACITY
    }

    pub closed spec fn is_stopped(self) -> bool {
        self.stopped
    }

    /// Transfers currently held.
    pub closed spec fn blocks_held(self) -> Seq<Vec<u8>> {
        self.blocks@
    }

    /// The unread bytes of each held transfer, oldest first: the front one
    /// from the read position on, every other one whole.
    pub closed spec fn unread_blocks(self) -> Seq<Seq<u8>> {
        Seq::new(
            self.blocks@.len(),
            |i: int|
                if i == 0 {
                    self.blocks@[0]@.skip(self.head as int)
                } else {
                    self.blocks@[i]@
                },
        )
    }

    /// The unread bytes are the unread parts of the transfers, in order.
    pub proof fn lemma_unread_is_joined(self)
        requires
            self.wf(),
        ensures
            self@ == joined_blocks(self.unread_blocks()),
    {
        let ub = self.unread_blocks();
        if self.blocks@.len() == 0 {
            assert(flatten(self.blocks@) =~= Seq::<u8>::empty());
            assert(self@ =~= joined_blocks(ub));
        } else {
            lemma_flatten_front(self.blocks@);
            lemma_joined_front(ub);
            lemma_flatten_joined(self.blocks@.skip(1));
            assert(ub.skip(1) =~= self.blocks@.skip(1).map_values(|b: Vec<u8>| b@));
            assert(self@ =~= joined_blocks(ub));
        }
    }

    /// Every held transfer is a non-empty whole number of pairs.
    pub proof fn lemma_blocks_even(self)
        requires
            self.wf(),
        ensures
            forall|i: int| 0 <= i < self.blocks_held().len() ==> (#[trigger] self.blocks_held()[i])@.len() % 2 == 0,
            self@.len() % 2 == 0,
    {
        lemma_flatten_even(self.blocks@);
    }

    pub fn new() -> (r: Ring)
        ensures
            r.wf(),
            r@ == Seq::<u8>::empty(),
            r.unread_blocks() == Seq::<Seq<u8>>::empty(),
            !r.is_stopped(),
    {
        let r = Ring { blocks: VecDeque::new(), head: 0, bytes: 0, stopped: false };
        proof {
            assert(r.unread_blocks() =~= Seq::<Seq<u8>>::empty());
        }
        r
    }

    /// Unread bytes.
    pub fn bytes(&self) -> (n: usize)
        requires
            self.wf(),
        ensures
            n == self@.len(),
    {
        self.bytes
    }

    /// Number of transfers held.
    pub fn block_count(&self) -> (n: usize)
        ensures
            n == self.blocks_held().len(),
    {
        self.blocks.len()
    }

    pub fn stop(&mut self)
        requires
            old(self).wf(),
        ensures
            final(self).wf(),
            final(self)@ == old(self)@,
            final(self).is_stopped(),
    {
        self.stopped = true;
    }

    pub fn stopped(&self) -> (s: bool)
        ensures
            s == self.is_stopped(),
    {
        self.stopped
    }

    /// Drop the front transfer, unread part and all. Returns the unread
    /// byte count it held.
    fn drop_front(&mut self) -> (dropped: usize)
        requires
            old(self).wf(),
            old(self).blocks@.len() > 0,
        ensures
            final(self).wf(),
            final(self).stopped == old(self).stopped,
            dropped % 2 == 0,
            0 < dropped <= old(self)@.len(),
            final(self)@ == old(self)@.skip(dropped as int),
            final(self).bytes == old(self).bytes - dropped,
            final(self).unread_blocks() == old(self).unread_blocks().skip(1),
            dropped == old(self).unread_blocks()[0].len(),
    {
        let ghost old_blocks = self.blocks@;
        proof {
            lemma_flatten_front(old_blocks);
        }
        let front = self.blocks.pop_front();
        let front = match front {
            Some(f) => f,
            None => {
                proof {
                    assert(false);
                }
                return 0;
            },
        };
        let unread = front.len() - self.head;
        proof {
            assert(front == old_blocks[0]);
            assert(self.blocks@ =~= old_blocks.skip(1));
            assert(old(self)@ =~= front@.skip(self.head as int) + flatten(self.blocks@));
            assert(old(self)@.skip(unread as int) =~= flatten(self.blocks@));
            assert forall|i: int| 0 <= i < self.blocks@.len() implies (#[trigger] self.blocks@[i])@.len() % 2 == 0
                && self.blocks@[i]@.len() > 0 by {
                assert(self.blocks@[i] == old_blocks[i + 1]);
            }
            assert(old_blocks[0]@.len() % 2 == 0);
        }
        self.bytes = self.bytes - unread;
        self.head = 0;
        proof {
            assert(flatten(self.blocks@).skip(0) =~= flatten(self.blocks@));
            assert(self.unread_blocks() =~= old(self).unread_blocks().skip(1)) by {
                assert forall|i: int| 0 <= i < self.unread_blocks().len() implies self.unread_blocks()[i]
                    == old(self).unread_blocks().skip(1)[i] by {
                    assert(self.blocks@[i] == old_blocks[i + 1]);
                    if i == 0 {
                        assert(self.blocks@[0]@.skip(0) =~= self.blocks@[0]@);
                    }
                }
            }
        }
        unread
    }

    /// Add a transfer. An odd trailing byte is cut off first, and a transfer
    /// left empty changes nothing; then, while the transfer would not fit,
    /// whole transfers are discarded from the front -- the fewest that make
    /// room. Returns the number of unread bytes discarded.
    pub fn push(&mut self, incoming: Vec<u8>) -> (dropped: u64)
        requires
            old(self).wf(),
            incoming@.len() <= RING_CAPACITY,
        ensures
            final(self).wf(),
            final(self).is_stopped() == old(self).is_stopped(),
            dropped % 2 == 0,
            dropped <= old(self)@.len(),
            final(self)@ == old(self)@.skip(dropped as int) + even_part(incoming@),
            old(self)@.len() + even_part(incoming@).len() <= RING_CAPACITY ==> dropped == 0,
            even_part(incoming@).len() == 0 ==> final(self).unread_blocks() == old(self).unread_blocks()
                && dropped == 0,
            even_part(incoming@).len() > 0 ==> exists|k: int|
                #![trigger old(self).unread_blocks().skip(k)]
                {
                    &&& 0 <= k <= old(self).unread_blocks().len()
                    &&& final(self).unread_blocks() == old(self).unread_blocks().skip(k).push(
                        even_part(incoming@),
                    )
                    &&& dropped == joined_blocks(old(self).unread_blocks().take(k)).len()
                    &&& joined_blocks(old(self).unread_blocks().skip(k)).len() + even_part(incoming@).len()
                        <= RING_CAPACITY
                    &&& forall|j: int|
                        0 <= j < k ==> joined_blocks(#[trigger] old(self).unread_blocks().skip(j)).len()
                            + even_part(incoming@).len() > RING_CAPACITY
                },
    {
        let mut block = incoming;
        if block.len() % 2 != 0 {
            block.pop();
        }
        proof {
            assert(block@ =~= even_part(incoming@)) by {
                if incoming@.len() % 2 != 0 {
                    assert(block@ =~= incoming@.drop_last());
                }
            }
        }
        if block.len() == 0 {
            proof {
                assert(old(self)@.skip(0) + even_part(incoming@) =~= old(self)@);
            }
            return 0;
        }
        let mut dropped: u64 = 0;
        let ghost start = self@;
        let ghost ub = self.unread_blocks();
        let ghost n = block@.len();
        let ghost mut k: int = 0;
        proof {
            assert(ub.take(0) =~= Seq::<Seq<u8>>::empty());
            assert(ub.skip(0) =~= ub);
        }
        while self.bytes + block.len() > RING_CAPACITY
            invariant_except_break
                self.wf(),
                self.stopped == old(self).stopped,
                block@.len() <= RING_CAPACITY,
                n == block@.len(),
                dropped % 2 == 0,
                dropped <= start.len(),
                start.len() <= RING_CAPACITY,
                self@ == start.skip(dropped as int),
                start == old(self)@,
                dropped > 0 ==> start.len() + block@.len() > RING_CAPACITY,
                ub == old(self).unread_blocks(),
                0 <= k <= ub.len(),
                self.unread_blocks() == ub.skip(k),
                dropped == joined_blocks(ub.take(k)).len(),
                forall|j: int| 0 <= j < k ==> joined_blocks(#[trigger] ub.skip(j)).len() + n > RING_CAPACITY,
            ensures
                self.wf(),
                self.stopped == old(self).stopped,
                dropped % 2 == 0,
                dropped <= start.len(),
                self@ == start.skip(dropped as int),
                self.bytes + block@.len() <= RING_CAPACITY,
                start == old(self)@,
                dropped > 0 ==> start.len() + block@.len() > RING_CAPACITY,
                0 <= k <= ub.len(),
                self.unread_blocks() == ub.skip(k),
                dropped == joined_blocks(ub.take(k)).len(),
                forall|j: int| 0 <= j < k ==> joined_blocks(#[trigger] ub.skip(j)).len() + n > RING_CAPACITY,
            decreases self.bytes,
        {
            proof {
                self.lemma_unread_is_joined();
            }
            if self.blocks.len() == 0 {
                proof {
                    assert(flatten(self.blocks@) =~= Seq::<u8>::empty());
                }
                break;
            }
            let ghost front_len = self.unread_blocks()[0].len();
            let d = self.drop_front();
            proof {
                assert(start.skip(dropped as int).skip(d as int) =~= start.skip(dropped + d));
                assert(ub.skip(k)[0] == ub[k]);
                assert(ub.take(k + 1).drop_last() =~= ub.take(k));
                assert(ub.skip(k).skip(1) =~= ub.skip(k + 1));
                assert(joined_blocks(ub.skip(k)).len() + n > RING_CAPACITY);
                k = k + 1;
            }
            dropped = dropped + d as u64;
        }
        proof {
            self.lemma_unread_is_joined();
        }
        let ghost ub_kept = self.unread_blocks();
        let ghost before = self.blocks@;
        let ghost bl = block@;
        self.bytes = self.bytes + block.len();
        self.blocks.push_back(block);
        proof {
            assert(self.blocks@ =~= before.push(block));
            lemma_flatten_push(before, block);
            assert forall|i: int| 0 <= i < self.blocks@.len() implies (#[trigger] self.blocks@[i])@.len() % 2
                == 0 && self.blocks@[i]@.len() > 0 by {
                if i < before.len() {
                    assert(self.blocks@[i] == before[i]);
                }
            }
            if before.len() == 0 {
                assert(self.head == 0);
                assert(flatten(before) =~= Seq::<u8>::empty());
            } else {
                assert(self.blocks@[0] == before[0]);
            }
            assert(flatten(before) + bl =~= flatten(self.blocks@));
            assert(flatten(self.blocks@).skip(self.head as int) =~= flatten(before).skip(self.head as int) + bl);
            assert(self.unread_blocks() =~= ub_kept.push(bl)) by {
                assert forall|i: int| 0 <= i < self.unread_blocks().len() implies self.unread_blocks()[i]
                    == ub_kept.push(bl)[i] by {
                    if i < before.len() {
                        assert(self.blocks@[i] == before[i]);
                    } else if i == 0 {
                        assert(bl.skip(0) =~= bl);
                    }
                }
            }
        }
        dropped
    }

    /// Copy as many whole pairs as fit into `buf`, oldest first, and consume
    /// them. Returns the number of bytes written.
    pub fn drain(&mut self, buf: &mut [u8]) -> (written: usize)
        requires
            old(self).wf(),
        ensures
            final(self).wf(),
            final(self).is_stopped() == old(self).is_stopped(),
            written % 2 == 0,
            written as int == if old(self)@.len() < old(buf)@.len() - old(buf)@.len() % 2 {
                old(self)@.len() as int
            } else {
                old(buf)@.len() - old(buf)@.len() % 2
            },
            final(buf)@.len() == old(buf)@.len(),
            final(buf)@.take(written as int) == old(self)@.take(written as int),
            final(buf)@.skip(written as int) == old(buf)@.skip(written as int),
            final(self)@ == old(self)@.skip(written as int),
    {
        let want = buf.len() - buf.len() % 2;
        let mut written: usize = 0;
        let ghost start = self@;
        let ghost buf0 = buf@;
        proof {
            lemma_flatten_even(self.blocks@);
        }
        while written < want
            invariant_except_break
                self.wf(),
                self.stopped == old(self).stopped,
                start == old(self)@,
                buf0 == old(buf)@,
                want == buf0.len() - buf0.len() % 2,
                buf@.len() == buf0.len(),
                written <= want,
                written % 2 == 0,
                written <= start.len(),
                self@ == start.skip(written as int),
                buf@.take(written as int) == start.take(written as int),
                buf@.skip(written as int) == buf0.skip(written as int),
            ensures
                self.wf(),
                self.stopped == old(self).stopped,
                buf@.len() == buf0.len(),
                written % 2 == 0,
                written as int == if start.len() < want { start.len() as int } else { want as int },
                self@ == start.skip(written as int),
                buf@.take(written as int) == start.take(written as int),
                buf@.skip(written as int) == buf0.skip(written as int),
            decreases want - written,
        {
            if self.blocks.len() == 0 {
                proof {
                    assert(flatten(self.blocks@) =~= Seq::<u8>::empty());
                    assert(self@.len() == 0);
                }
                break;
            }
            let head = self.head;
            let block_len = self.blocks[0].len();
            let room = want - written;
            let take = if block_len - head < room { block_len - head } else { room };
            proof {
                lemma_flatten_front(self.blocks@);
                assert(self@ =~= self.blocks@[0]@.skip(head as int) + flatten(self.blocks@.skip(1)));
            }
            proof {
                assert forall|j: int| written <= j < buf@.len() implies #[trigger] buf@[j] == buf0[j] by {
                    assert(buf@.skip(written as int)[j - written] == buf0.skip(written as int)[j - written]);
                }
            }
            let mut k: usize = 0;
            while k < take
                invariant
                    k <= take,
                    take <= block_len - head,
                    written + take <= want,
                    want <= buf@.len(),
                    block_len == self.blocks@[0]@.len(),
                    self.blocks@.len() > 0,
                    head == self.head,
                    head < block_len,
                    buf@.len() == buf0.len(),
                    buf@.take(written as int) == start.take(written as int),
                    forall|j: int| 0 <= j < k ==> #[trigger] buf@[written + j] == self.blocks@[0]@[head + j],
                    forall|j: int| written + take <= j < buf@.len() ==> #[trigger] buf@[j] == buf0[j],
                    forall|j: int| written + k <= j < buf@.len() ==> #[trigger] buf@[j] == buf0[j],
                decreases take - k,
            {
                let byte = self.blocks[0][head + k];
                buf[written + k] = byte;
                k = k + 1;
            }
            proof {
                let front = self.blocks@[0]@;
                assert forall|j: int| 0 <= j < take implies #[trigger] self@[j] == front[head + j] by {
                    assert(self@[j] == front.skip(head as int)[j]);
                }
                assert(buf@.take(written + take) =~= start.take(written + take)) by {
                    assert forall|j: int| 0 <= j < written + take implies buf@[j] == start[j] by {
                        if j < written {
                            assert(buf@.take(written as int)[j] == start.take(written as int)[j]);
                        } else {
                            assert(buf@[written + (j - written)] == front[head + (j - written)]);
                            assert(self@[j - written] == start.skip(written as int)[j - written]);
                        }
                    }
                }
                assert(buf@.skip(written + take) =~= buf0.skip(written + take));
            }
            let ghost before = self@;
            let ghost blocks_before = self.blocks@;
            written = written + take;
            self.bytes = self.bytes - take;
            if head + take == block_len {
                let popped = self.blocks.pop_front();
                proof {
                    assert(self.blocks@ =~= blocks_before.skip(1));
                    assert(before =~= blocks_before[0]@.skip(head as int) + flatten(self.blocks@));
                    assert(before.skip(take as int) =~= flatten(self.blocks@));
                    assert forall|i: int| 0 <= i < self.blocks@.len() implies (#[trigger] self.blocks@[i])@.len()
                        % 2 == 0 && self.blocks@[i]@.len() > 0 by {
                        assert(self.blocks@[i] == blocks_before[i + 1]);
                    }
                }
                self.head = 0;
                proof {
                    assert(flatten(self.blocks@).skip(0) =~= flatten(self.blocks@));
                }
            } else {
                self.head = head + take;
                proof {
                    assert(blocks_before[0]@.len() % 2 == 0);
                    assert(before =~= blocks_before[0]@.skip(head as int) + flatten(blocks_before.skip(1)));
                    assert(flatten(self.blocks@) =~= blocks_before[0]@ + flatten(blocks_before.skip(1)));
                    assert(flatten(self.blocks@).skip(self.head as int) =~= before.skip(take as int));
                }
            }
            proof {
                assert(start.skip(written - take).skip(take as int) =~= start.skip(written as int));
            }
        }
        written
    }
}

/// One dongle as the USB bus describes it.
#[derive(Clone, Debug, PartialEq, Eq)]
pub struct DeviceInfo {
    pub index: u32,
    /// librtlsdr's name for the (vendor, product) pair.
    pub name: String,
    pub manufacturer: String,
    pub product: String,
    /// The serial, which is what a station with two dongles should key on.
    pub serial: String,
}

impl DeviceInfo {
    pub open spec fn describe_spec(self) -> Seq<char> {
        let serial = if self.serial@.len() == 0 {
            "no serial"@
        } else {
            "SN "@ + self.serial@
        };
        decimal(self.index as nat) + ": "@ + self.name@ + " ("@ + serial + ")"@
    }

    /// `0: Generic RTL2832U OEM (SN 00000001)`.
    pub fn describe(&self) -> (s: String)
        ensures
            s@ == self.describe_spec(),
    {
        let mut s = String::new();
        push_decimal(&mut s, self.index as u64);
        push_str(&mut s, ": ");
        push_str(&mut s, self.name.as_str());
        push_str(&mut s, " (");
        if self.serial.as_str().is_empty() {
            push_str(&mut s, "no serial");
        } else {
            push_str(&mut s, "SN ");
            push_str(&mut s, self.serial.as_str());
        }
        push_str(&mut s, ")");
        s
    }
}

/// A gain table as decibels, joined by `", "`.
pub open spec fn gains_text(gains: Seq<i32>) -> Seq<char>
    decreases gains.len(),
{
    if gains.len() == 0 {
        Seq::empty()
    } else if gains.len() == 1 {
        tenths_text(gains[0] as int)
    } else {
        gains_text(gains.drop_last()) + ", "@ + tenths_text(gains.last() as int)
    }
}

/// The gain table as decibels, for an error message an operator can act on.
pub fn describe_gains(gains: &[i32]) -> (s: String)
    ensures
        s@ == gains_text(gains@),
{
    let mut s = String::new();
    let mut i: usize = 0;
    while i < gains.len()
        invariant
            i <= gains@.len(),
            s@ == gains_text(gains@.take(i as int)),
        decreases gains@.len() - i,
    {
        if i > 0 {
            push_str(&mut s, ", ");
        }
        push_tenths(&mut s, gains[i]);
        proof {
            assert(gains@.take(i + 1).drop_last() =~= gains@.take(i as int));
            if i == 0 {
                assert(gains@.take(0) =~= Seq::<i32>::empty());
            }
        }
        i = i + 1;
    }
    proof {
        assert(gains@.take(gains@.len() as int) =~= gains@);
    }
    s
}

/// librtlsdr's return convention: zero is success; anything else is a
/// transient failure worth a retry.
pub fn check(rc: i32, what: &str) -> (r: Result<(), SourceError>)
    ensures
        r is Ok <==> rc == 0,
        r matches Err(e) ==> e@ == SourceErrorView::Transient(
            "cannot "@ + what@ + ": librtlsdr returned "@ + signed_decimal(rc as int),
        ),
{
    if rc == 0 {
        Ok(())
    } else {
        let mut m = String::new();
        push_str(&mut m, "cannot ");
        push_str(&mut m, what);
        push_str(&mut m, ": librtlsdr returned ");
        push_signed_decimal(&mut m, rc as i64);
        Err(SourceError::Transient(m))
    }
}

} // verus!
