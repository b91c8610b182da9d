//! The rules of one exchange: when each ping of a batch is sent, how long
//! its reply is waited for, and whether a datagram that arrives is that
//! reply.
//!
//! Times are whole numbers of one unit, the caller's (nanoseconds, say).

use crate::packet::{
    lemma_parse_wire, lemma_view_wf, lemma_wire_len, parse, ping_view, wire, DecodeError, Packet,
    PacketView, Type, PKT_SIZE,
};
use vstd::prelude::*;

verus! {

/// The timing of a batch: how many pings, the pause between two sends, and
/// the grace that every listen gets on top.
///
/// A schedule exists only where the last moment it speaks of, `count`
/// intervals and the grace after the start, fits in a `u64`.
#[derive(Debug, Clone, Copy)]
pub struct Schedule {
    count: usize,
    interval: u64,
    grace: u64,
}

/// What a schedule means, in unbounded numbers.
pub struct ScheduleView {
    pub count: nat,
    pub interval: nat,
    pub grace: nat,
}

impl ScheduleView {
    /// The moment, counted from the start of the batch, when every listen
    /// has ended.
    pub open spec fn horizon(self) -> nat {
        self.count * self.interval + self.grace
    }

    /// When ping `index` is sent, counted from the start of the batch.
    pub open spec fn send_offset(self, index: nat) -> nat {
        index * self.interval
    }

    /// How long the reply to ping `index` is waited for, counted from its
    /// send.
    pub open spec fn deadline(self, index: nat) -> int {
        (self.count - index) * self.interval + self.grace
    }
}

impl View for Schedule {
    type V = ScheduleView;

    closed spec fn view(&self) -> ScheduleView {
        ScheduleView {
            count: self.count as nat,
            interval: self.interval as nat,
            grace: self.grace as nat,
        }
    }
}

/// Every ping is listened for until the same moment: the horizon.
pub proof fn lemma_listens_end_together(schedule: ScheduleView, index: nat)
    requires
        index < schedule.count,
    ensures
        schedule.send_offset(index) + schedule.deadline(index) == schedule.horizon(),
{
    assert(index * schedule.interval + (schedule.count - index) * schedule.interval
        == schedule.count * schedule.interval) by (nonlinear_arith);
}

/// A later ping waits no longer than an earlier one, by one interval for
/// each position between them, and none waits less than one interval and
/// the grace.
pub proof fn lemma_deadlines_shrink(schedule: ScheduleView, earlier: nat, later: nat)
    requires
        earlier <= later < schedule.count,
    ensures
        schedule.deadline(earlier) == schedule.deadline(later) + (later - earlier)
            * schedule.interval,
        schedule.deadline(later) >= schedule.interval + schedule.grace,
{
    assert((schedule.count - earlier) * schedule.interval == (schedule.count - later)
        * schedule.interval + (later - earlier) * schedule.interval) by (nonlinear_arith);
    assert((schedule.count - later) * schedule.interval >= schedule.interval) by (nonlinear_arith)
        requires
            schedule.count - later >= 1,
    ;
}

impl Schedule {
    #[verifier::type_invariant]
    spec fn fits(self) -> bool {
        self@.horizon() <= u64::MAX
    }

    /// The schedule for `count` pings, `interval` apart, each listened for
    /// with `grace` to spare; `None` exactly where its horizon is beyond
    /// `u64`.
    pub fn new(count: usize, interval: u64, grace: u64) -> (schedule: Option<Schedule>)
        ensures
            match schedule {
                Some(schedule) => {
                    &&& schedule@ == (ScheduleView {
                        count: count as nat,
                        interval: interval as nat,
                        grace: grace as nat,
                    })
                    &&& schedule@.horizon() <= u64::MAX
                },
                None => count * interval + grace > u64::MAX,
            },
    {
        proof {
            assert(count * interval <= u64::MAX * u64::MAX) by (nonlinear_arith)
                requires
                    0 <= count <= u64::MAX,
                    0 <= interval <= u64::MAX,
            ;
        }
        let span: u128 = count as u128 * interval as u128 + grace as u128;
        if span > u64::MAX as u128 {
            None
        } else {
            Some(Schedule { count, interval, grace })
        }
    }

    /// How many pings the batch has.
    pub fn count(&self) -> (count: usize)
        ensures
            count == self@.count,
    {
        self.count
    }

    /// The pause between two sends.
    pub fn interval(&self) -> (interval: u64)
        ensures
            interval == self@.interval,
    {
        self.interval
    }

    /// The time that every listen gets on top of what is left of the batch.
    pub fn grace(&self) -> (grace: u64)
        ensures
            grace == self@.grace,
    {
        self.grace
    }

    /// When to send ping `index`: `index` intervals after the start of the
    /// batch.
    pub fn send_offset(&self, index: usize) -> (offset: u64)
        requires
            index < self@.count,
        ensures
            offset == self@.send_offset(index as nat),
    {
        proof {
            use_type_invariant(self);
            assert(index * self.interval <= self.count * self.interval) by (nonlinear_arith)
                requires
                    index <= self.count,
            ;
        }
        (index as u64) * self.interval
    }

    /// How long to listen for the reply to ping `index`, from the moment it
    /// was sent: the intervals left in the batch, this ping's own included,
    /// and the grace.
    pub fn deadline(&self, index: usize) -> (deadline: u64)
        requires
            index < self@.count,
        ensures
            deadline == self@.deadline(index as nat),
    {
        proof {
            use_type_invariant(self);
            assert((self.count - index) * self.interval <= self.count * self.interval)
                by (nonlinear_arith)
                requires
                    0 <= self.count - index <= self.count,
            ;
        }
        ((self.count - index) as u64) * self.interval + self.grace
    }
}

/// Why a ping counts as lost. None of these stops the batch.
#[derive(Debug, Clone, Copy, PartialEq, Eq, Hash, Structural)]
pub enum Loss {
    /// Nothing arrived before the deadline.
    Timeout,
    /// What arrived is not a packet.
    Malformed(DecodeError),
    /// The batch holds no ping with the reply's sequence number at the
    /// position that the number names.
    WrongSequence,
    /// The reply's timestamp is older than that of the ping it answers.
    StaleTimestamp,
    /// The reply is not a pong.
    WrongType,
}

impl Loss {
    /// The reason in words.
    pub open spec fn text(self) -> Seq<char> {
        match self {
            Loss::Timeout => "Recv failed"@,
            Loss::Malformed(error) => error.text(),
            Loss::WrongSequence => "Received packet with wrong sequence number"@,
            Loss::StaleTimestamp => "Received packet with invalid timestamp"@,
            Loss::WrongType => "Received packet with wrong type"@,
        }
    }

    /// The reason in words, for a log or a report.
    pub fn message(&self) -> (text: &'static str)
        ensures
            text@ == self.text(),
    {
        match self {
            Loss::Timeout => "Recv failed",
            Loss::Malformed(error) => error.message(),
            Loss::WrongSequence => "Received packet with wrong sequence number",
            Loss::StaleTimestamp => "Received packet with invalid timestamp",
            Loss::WrongType => "Received packet with wrong type",
        }
    }
}

/// A reply that passed every check: what the report says of it.
#[derive(Debug, Clone, Copy, PartialEq, Eq, Hash, Structural)]
pub struct Echo {
    /// The sequence number of the reply, and of the ping it answers.
    pub sequence: u64,
    /// How many bytes arrived.
    pub size: usize,
    /// The time from the send to the arrival.
    pub elapsed: u64,
}

/// The ping that `reply` answers: the one at the position that the reply's
/// sequence number names, if there is one and it carries that number.
pub open spec fn expected(batch: Seq<Packet>, reply: PacketView) -> Option<Packet> {
    if reply.sequence < batch.len() && batch[reply.sequence as int]@.sequence == reply.sequence {
        Some(batch[reply.sequence as int])
    } else {
        None
    }
}

/// The judgement on a decoded reply: its sequence number is checked first,
/// then its timestamp, then its kind.
pub open spec fn verdict(batch: Seq<Packet>, reply: PacketView) -> Result<(), Loss> {
    match expected(batch, reply) {
        None => Err(Loss::WrongSequence),
        Some(sent) => if reply.timestamp < sent@.timestamp {
            Err(Loss::StaleTimestamp)
        } else if reply.kind != Type::Pong {
            Err(Loss::WrongType)
        } else {
            Ok(())
        },
    }
}

/// The judgement on a datagram that took `elapsed` to arrive.
pub open spec fn outcome(batch: Seq<Packet>, datagram: Seq<u8>, elapsed: u64) -> Result<
    Echo,
    Loss,
> {
    match parse(datagram) {
        Err(error) => Err(Loss::Malformed(error)),
        Ok(reply) => match verdict(batch, reply) {
            Err(loss) => Err(loss),
            Ok(_) => Ok(
                Echo { sequence: reply.sequence as u64, size: datagram.len() as usize, elapsed },
            ),
        },
    }
}

/// A reply older than the ping it answers is stale, whatever its kind.
pub proof fn lemma_stale_reply_rejected(batch: Seq<Packet>, reply: PacketView)
    requires
        expected(batch, reply) is Some,
        reply.timestamp < expected(batch, reply)->Some_0@.timestamp,
    ensures
        verdict(batch, reply) == Err::<(), Loss>(Loss::StaleTimestamp),
{
}

/// A reply is accepted exactly when it is a pong that carries the sequence
/// number of the ping at that position and a timestamp no older than that
/// ping's.
pub proof fn lemma_accepted_reply(batch: Seq<Packet>, reply: PacketView)
    ensures
        verdict(batch, reply) is Ok <==> {
            &&& reply.sequence < batch.len()
            &&& batch[reply.sequence as int]@.sequence == reply.sequence
            &&& reply.timestamp >= batch[reply.sequence as int]@.timestamp
            &&& reply.kind == Type::Pong
        },
{
}

/// The reply of a well-behaved peer to `ping`: every field as it came, the
/// kind turned to pong.
pub open spec fn pong_of(ping: PacketView) -> PacketView {
    PacketView {
        sequence: ping.sequence,
        kind: Type::Pong,
        timestamp: ping.timestamp,
        payload: ping.payload,
    }
}

/// In a batch numbered from zero, the datagram that a well-behaved peer
/// sends back for any ping is received as the echo of that ping.
pub proof fn lemma_pong_received(batch: Seq<Packet>, index: int, elapsed: u64)
    requires
        batch.len() <= 0x100_0000_0000,
        forall|i: int| 0 <= i < batch.len() ==> (#[trigger] batch[i])@ == ping_view(i as nat),
        0 <= index < batch.len(),
    ensures
        outcome(batch, wire(pong_of(batch[index]@)), elapsed) == Ok::<Echo, Loss>(
            Echo { sequence: index as u64, size: PKT_SIZE, elapsed },
        ),
{
    let reply = pong_of(batch[index]@);
    lemma_view_wf(batch[index]);
    lemma_parse_wire(reply);
    lemma_wire_len(reply);
}

/// Checks a decoded reply against the batch that was sent.
pub fn check_reply(batch: &[Packet], reply: &Packet) -> (result: Result<(), Loss>)
    ensures
        result == verdict(batch@, reply@),
{
    let sequence = reply.sequence();
    if sequence >= batch.len() as u64 {
        return Err(Loss::WrongSequence);
    }
    let sent = &batch[sequence as usize];
    if sent.sequence() != sequence {
        return Err(Loss::WrongSequence);
    }
    if reply.sent_at() < sent.sent_at() {
        return Err(Loss::StaleTimestamp);
    }
    match reply.type_ {
        Type::Pong => Ok(()),
        Type::Ping => Err(Loss::WrongType),
    }
}

/// Judges a datagram that arrived `elapsed` after its ping was sent: decodes
/// it, checks it against the batch, and reports it.
pub fn receive(batch: &[Packet], datagram: &[u8], elapsed: u64) -> (result: Result<Echo, Loss>)
    ensures
        result == outcome(batch@, datagram@, elapsed),
{
    match Packet::decode(datagram) {
        Err(error) => Err(Loss::Malformed(error)),
        Ok(reply) => match check_reply(batch, &reply) {
            Err(loss) => Err(loss),
            Ok(_) => Ok(Echo { sequence: reply.sequence(), size: datagram.len(), elapsed }),
        },
    }
}

} // verus!
