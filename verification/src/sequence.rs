//! The sequence generator: one counter that numbers the outgoing packets.
//!
//! `next` takes the generator by `&mut`, so no two calls overlap. Callers on
//! several threads share one generator behind a lock; whatever order the lock
//! grants, the calls form one series, and the laws below hold of that series.

use crate::packet::{ping_view, Packet};
use vstd::prelude::*;

verus! {

/// Hands out 0, 1, 2, ... in order, each value once.
#[derive(Debug)]
pub struct SequenceGenerator {
    next: usize,
}

impl View for SequenceGenerator {
    type V = nat;

    /// How many values have been handed out, which is the next value.
    closed spec fn view(&self) -> nat {
        self.next as nat
    }
}

/// One call of `next` on a generator that has handed out `handed_out`
/// values: the value returned, and how many are handed out after it.
pub open spec fn step(handed_out: nat) -> (nat, nat) {
    (handed_out, handed_out + 1)
}

/// The values that `count` calls of `next` in a row return, the first of
/// them made when `start` values have been handed out.
pub open spec fn issued(start: nat, count: nat) -> Seq<nat>
    decreases count,
{
    if count == 0 {
        Seq::empty()
    } else {
        seq![step(start).0] + issued(step(start).1, (count - 1) as nat)
    }
}

/// `count` calls in a row return `start`, `start + 1`, ... in this order.
pub proof fn lemma_issued_in_order(start: nat, count: nat)
    ensures
        issued(start, count).len() == count,
        forall|i: int| 0 <= i < count ==> #[trigger] issued(start, count)[i] == start + i,
    decreases count,
{
    if count > 0 {
        lemma_issued_in_order(start + 1, (count - 1) as nat);
        let rest = issued(start + 1, (count - 1) as nat);
        assert forall|i: int| 0 <= i < count implies #[trigger] issued(start, count)[i] == start
            + i by {
            if i > 0 {
                assert(issued(start, count)[i] == rest[i - 1]);
            }
        }
    }
}

/// A fresh generator called `count` times yields exactly the integers below
/// `count`, each of them exactly once.
pub proof fn lemma_issued_exactly_once(count: nat)
    ensures
        issued(0, count).len() == count,
        forall|value: nat| issued(0, count).contains(value) <==> value < count,
        issued(0, count).no_duplicates(),
{
    lemma_issued_in_order(0, count);
    let values = issued(0, count);
    assert forall|value: nat| values.contains(value) <==> value < count by {
        if value < count {
            assert(values[value as int] == value);
        }
    }
}

impl SequenceGenerator {
    /// A generator that has handed out nothing: its first value is 0.
    pub fn new() -> (generator: SequenceGenerator)
        ensures
            generator@ == 0,
    {
        SequenceGenerator { next: 0 }
    }

    /// The value that the next call of `next` returns.
    pub fn peek(&self) -> (value: usize)
        ensures
            value == self@,
    {
        self.next
    }

    /// Returns the next value and moves on by one: no gap, no repeat.
    pub fn next(&mut self) -> (value: usize)
        requires
            old(self)@ < usize::MAX,
        ensures
            (value as nat, final(self)@) == step(old(self)@),
    {
        let value = self.next;
        self.next = value + 1;
        value
    }

    /// A new ping with the next sequence number.
    pub fn next_packet(&mut self) -> (packet: Packet)
        requires
            old(self)@ < usize::MAX,
        ensures
            packet@ == ping_view(step(old(self)@).0),
            final(self)@ == step(old(self)@).1,
    {
        let index = self.next();
        Packet::new(index)
    }

    /// The next `count` pings, in order: as many calls of `next_packet`.
    pub fn batch(&mut self, count: usize) -> (packets: Vec<Packet>)
        requires
            old(self)@ + count <= usize::MAX,
        ensures
            packets@.len() == count,
            forall|i: int|
                0 <= i < count ==> {
                    &&& (#[trigger] packets@[i])@ == ping_view(issued(old(self)@, count as nat)[i])
                    &&& issued(old(self)@, count as nat)[i] == old(self)@ + i
                },
            final(self)@ == old(self)@ + count,
    {
        let mut packets: Vec<Packet> = Vec::new();
        let ghost start = self@;
        proof {
            lemma_issued_in_order(start, count as nat);
        }
        while packets.len() < count
            invariant
                start + count <= usize::MAX,
                packets@.len() <= count,
                self@ == start + packets@.len(),
                forall|i: int|
                    0 <= i < packets@.len() ==> (#[trigger] packets@[i])@ == ping_view(
                        (start + i) as nat,
                    ),
            decreases count - packets@.len(),
        {
            let packet = self.next_packet();
            packets.push(packet);
        }
        packets
    }
}

impl Default for SequenceGenerator {
    fn default() -> (generator: SequenceGenerator)
        ensures
            generator@ == 0,
    {
        SequenceGenerator::new()
    }
}

} // verus!
