//! The summary of a batch: how many pings were answered, and how long the
//! answers took.
//!
//! Both averages divide by the number of pings sent, not by the number of
//! replies: a lost ping pulls the average down.

use crate::ping::{Echo, Loss};
use vstd::prelude::*;

verus! {

/// How long the replies took, in the unit of the times handed in.
#[derive(Debug, Clone, Copy, PartialEq, Eq, Hash, Structural)]
pub struct Latency {
    /// The sum of all round-trip times.
    pub total: u128,
    /// The shortest round-trip time.
    pub min: u64,
    /// `total` over the number of pings sent, rounded down.
    pub avg: u64,
    /// The longest round-trip time.
    pub max: u64,
    /// The distances of the round-trip times from `avg`, summed, over the
    /// number of pings sent, rounded down.
    pub mdev: u64,
}

/// What a batch came to. There is a latency exactly when a reply was
/// received.
#[derive(Debug, Clone, Copy, PartialEq, Eq, Hash, Structural)]
pub struct Summary {
    transmitted: usize,
    received: usize,
    latency: Option<Latency>,
}

/// `Latency` in unbounded numbers.
pub struct LatencyView {
    pub total: nat,
    pub min: nat,
    pub avg: nat,
    pub max: nat,
    pub mdev: nat,
}

/// `Summary` in unbounded numbers.
pub struct SummaryView {
    pub transmitted: nat,
    pub received: nat,
    pub latency: Option<LatencyView>,
}

impl View for Latency {
    type V = LatencyView;

    open spec fn view(&self) -> LatencyView {
        LatencyView {
            total: self.total as nat,
            min: self.min as nat,
            avg: self.avg as nat,
            max: self.max as nat,
            mdev: self.mdev as nat,
        }
    }
}

impl View for Summary {
    type V = SummaryView;

    closed spec fn view(&self) -> SummaryView {
        SummaryView {
            transmitted: self.transmitted as nat,
            received: self.received as nat,
            latency: match self.latency {
                Some(latency) => Some(latency@),
                None => None,
            },
        }
    }
}

/// The round-trip times of the pings that were answered, in the order of
/// the batch. A lost ping leaves nothing here.
pub open spec fn elapsed_times(outcomes: Seq<Result<Echo, Loss>>) -> Seq<nat>
    decreases outcomes.len(),
{
    if outcomes.len() == 0 {
        Seq::empty()
    } else {
        let earlier = elapsed_times(outcomes.drop_last());
        match outcomes.last() {
            Ok(echo) => earlier.push(echo.elapsed as nat),
            Err(_) => earlier,
        }
    }
}

/// The sum of `times`.
pub open spec fn total(times: Seq<nat>) -> nat
    decreases times.len(),
{
    if times.len() == 0 {
        0
    } else {
        total(times.drop_last()) + times.last()
    }
}

/// The least of `times`, which is not empty.
pub open spec fn smallest(times: Seq<nat>) -> nat
    decreases times.len(),
{
    if times.len() == 0 {
        0
    } else if times.len() == 1 {
        times[0]
    } else {
        let earlier = smallest(times.drop_last());
        if times.last() < earlier {
            times.last()
        } else {
            earlier
        }
    }
}

/// The greatest of `times`, which is not empty.
pub open spec fn largest(times: Seq<nat>) -> nat
    decreases times.len(),
{
    if times.len() == 0 {
        0
    } else if times.len() == 1 {
        times[0]
    } else {
        let earlier = largest(times.drop_last());
        if times.last() > earlier {
            times.last()
        } else {
            earlier
        }
    }
}

/// How far `time` is from `center`.
pub open spec fn distance(time: nat, center: nat) -> nat {
    if time >= center {
        (time - center) as nat
    } else {
        (center - time) as nat
    }
}

/// The distances of all `times` from `center`, summed.
pub open spec fn spread(times: Seq<nat>, center: nat) -> nat
    decreases times.len(),
{
    if times.len() == 0 {
        0
    } else {
        spread(times.drop_last(), center) + distance(times.last(), center)
    }
}

/// The average round-trip time of a batch of `transmitted` pings: the sum
/// over the number sent.
pub open spec fn average(times: Seq<nat>, transmitted: nat) -> nat {
    total(times) / transmitted
}

/// The mean deviation of a batch of `transmitted` pings: the spread about
/// the average, over the number sent.
pub open spec fn mean_deviation(times: Seq<nat>, transmitted: nat) -> nat {
    spread(times, average(times, transmitted)) / transmitted
}

/// The latency of a batch of `transmitted` pings of which `times` came
/// back.
pub open spec fn latency_of(times: Seq<nat>, transmitted: nat) -> LatencyView {
    LatencyView {
        total: total(times),
        min: smallest(times),
        avg: average(times, transmitted),
        max: largest(times),
        mdev: mean_deviation(times, transmitted),
    }
}

/// The summary of a batch with one outcome for each ping sent.
pub open spec fn summary_of(outcomes: Seq<Result<Echo, Loss>>) -> SummaryView {
    let times = elapsed_times(outcomes);
    SummaryView {
        transmitted: outcomes.len(),
        received: times.len(),
        latency: if times.len() > 0 {
            Some(latency_of(times, outcomes.len()))
        } else {
            None
        },
    }
}

/// The share of pings lost, in hundredths of a percent, rounded down.
pub open spec fn loss_basis_points(transmitted: nat, received: nat) -> int {
    10000 * (transmitted - received) / (transmitted as int)
}

/// The loss runs from nothing, where every ping was answered, to the whole,
/// where none was.
pub proof fn lemma_loss_range(transmitted: nat, received: nat)
    requires
        received <= transmitted,
        transmitted > 0,
    ensures
        0 <= loss_basis_points(transmitted, received) <= 10000,
        received == transmitted ==> loss_basis_points(transmitted, received) == 0,
        received == 0 ==> loss_basis_points(transmitted, received) == 10000,
{
    let lost = transmitted - received;
    let sent = transmitted as int;
    assert(0 <= 10000 * lost / sent <= 10000) by (nonlinear_arith)
        requires
            0 <= lost <= sent,
            sent > 0,
    ;
    assert(10000 * sent / sent == 10000) by (nonlinear_arith)
        requires
            sent > 0,
    ;
}

/// One more outcome adds its round-trip time, if it has one, at the end.
pub proof fn lemma_elapsed_times_step(outcomes: Seq<Result<Echo, Loss>>, upto: int)
    requires
        0 <= upto < outcomes.len(),
    ensures
        elapsed_times(outcomes.take(upto + 1)) == match outcomes[upto] {
            Ok(echo) => elapsed_times(outcomes.take(upto)).push(echo.elapsed as nat),
            Err(_) => elapsed_times(outcomes.take(upto)),
        },
{
    assert(outcomes.take(upto + 1).drop_last() =~= outcomes.take(upto));
}

/// No more replies than pings, and none took longer than a `u64` holds.
pub proof fn lemma_elapsed_times_bounds(outcomes: Seq<Result<Echo, Loss>>)
    ensures
        elapsed_times(outcomes).len() <= outcomes.len(),
        forall|i: int|
            0 <= i < elapsed_times(outcomes).len() ==> #[trigger] elapsed_times(outcomes)[i]
                <= u64::MAX,
    decreases outcomes.len(),
{
    if outcomes.len() > 0 {
        lemma_elapsed_times_bounds(outcomes.drop_last());
    }
}

/// Where every ping was answered, none is lost, and the times are those of
/// the echoes, position by position.
pub proof fn lemma_all_received(outcomes: Seq<Result<Echo, Loss>>)
    requires
        forall|i: int| 0 <= i < outcomes.len() ==> (#[trigger] outcomes[i]) is Ok,
    ensures
        elapsed_times(outcomes).len() == outcomes.len(),
        forall|i: int|
            0 <= i < outcomes.len() ==> #[trigger] elapsed_times(outcomes)[i]
                == outcomes[i]->Ok_0.elapsed,
        summary_of(outcomes).received == summary_of(outcomes).transmitted,
    decreases outcomes.len(),
{
    if outcomes.len() > 0 {
        let earlier = outcomes.drop_last();
        assert forall|i: int| 0 <= i < earlier.len() implies (#[trigger] earlier[i]) is Ok by {
            assert(outcomes[i] is Ok);
        }
        lemma_all_received(earlier);
        assert(outcomes.last() is Ok);
    }
}

/// A lost ping leaves no trace in the times: they are what they would be
/// had that ping not been in the batch, whatever the reason of the loss.
pub proof fn lemma_lost_leaves_no_time(outcomes: Seq<Result<Echo, Loss>>, index: int)
    requires
        0 <= index < outcomes.len(),
        outcomes[index] is Err,
    ensures
        elapsed_times(outcomes) == elapsed_times(outcomes.remove(index)),
    decreases outcomes.len(),
{
    let without = outcomes.remove(index);
    if index == outcomes.len() - 1 {
        assert(without =~= outcomes.drop_last());
    } else {
        lemma_lost_leaves_no_time(outcomes.drop_last(), index);
        assert(without.drop_last() =~= outcomes.drop_last().remove(index));
        assert(without.last() == outcomes.last());
    }
}

/// `smallest` is the minimum: one of the times, and above none of them.
pub proof fn lemma_smallest_is_minimum(times: Seq<nat>)
    requires
        times.len() > 0,
    ensures
        times.contains(smallest(times)),
        forall|i: int| 0 <= i < times.len() ==> smallest(times) <= #[trigger] times[i],
    decreases times.len(),
{
    if times.len() == 1 {
        assert(times[0] == smallest(times));
    } else {
        let earlier = times.drop_last();
        lemma_smallest_is_minimum(earlier);
        let witness = choose|i: int| 0 <= i < earlier.len() && earlier[i] == smallest(earlier);
        assert(times[witness] == smallest(earlier));
        assert(times[times.len() - 1] == times.last());
        assert forall|i: int| 0 <= i < times.len() implies smallest(times)
            <= #[trigger] times[i] by {
            if i < earlier.len() {
                assert(earlier[i] == times[i]);
            }
        }
    }
}

/// `largest` is the maximum: one of the times, and below none of them.
pub proof fn lemma_largest_is_maximum(times: Seq<nat>)
    requires
        times.len() > 0,
    ensures
        times.contains(largest(times)),
        forall|i: int| 0 <= i < times.len() ==> largest(times) >= #[trigger] times[i],
    decreases times.len(),
{
    if times.len() == 1 {
        assert(times[0] == largest(times));
    } else {
        let earlier = times.drop_last();
        lemma_largest_is_maximum(earlier);
        let witness = choose|i: int| 0 <= i < earlier.len() && earlier[i] == largest(earlier);
        assert(times[witness] == largest(earlier));
        assert(times[times.len() - 1] == times.last());
        assert forall|i: int| 0 <= i < times.len() implies largest(times)
            >= #[trigger] times[i] by {
            if i < earlier.len() {
                assert(earlier[i] == times[i]);
            }
        }
    }
}

/// The sum of `times` is at most their number times any bound on each.
pub proof fn lemma_total_bound(times: Seq<nat>, bound: nat)
    requires
        forall|i: int| 0 <= i < times.len() ==> #[trigger] times[i] <= bound,
    ensures
        total(times) <= times.len() * bound,
    decreases times.len(),
{
    if times.len() > 0 {
        let earlier = times.drop_last();
        assert forall|i: int| 0 <= i < earlier.len() implies #[trigger] earlier[i] <= bound by {
            assert(earlier[i] == times[i]);
        }
        lemma_total_bound(earlier, bound);
        assert(times.last() == times[times.len() - 1]);
        assert(earlier.len() * bound + bound == times.len() * bound) by (nonlinear_arith)
            requires
                earlier.len() + 1 == times.len(),
        ;
    }
}

/// A quotient by `divisor` stays within `bound` where the dividend stays
/// within `count` times `bound` and `count` within `divisor`.
proof fn lemma_quotient_bound(dividend: nat, count: nat, divisor: nat, bound: nat)
    requires
        dividend <= count * bound,
        count <= divisor,
        divisor > 0,
    ensures
        dividend / divisor <= bound,
{
    assert(count * bound <= divisor * bound) by (nonlinear_arith)
        requires
            count <= divisor,
    ;
    assert(dividend / divisor <= bound) by (nonlinear_arith)
        requires
            dividend <= divisor * bound,
            divisor > 0,
    ;
}

impl Summary {
    #[verifier::type_invariant]
    spec fn counted(self) -> bool {
        &&& self.received <= self.transmitted
        &&& self.latency is Some <==> self.received > 0
    }

    /// How many pings were sent.
    pub fn transmitted(&self) -> (count: usize)
        ensures
            count == self@.transmitted,
    {
        self.transmitted
    }

    /// How many pings were answered by a reply that passed every check.
    pub fn received(&self) -> (count: usize)
        ensures
            count == self@.received,
            count <= self@.transmitted,
    {
        proof {
            use_type_invariant(self);
        }
        self.received
    }

    /// How many pings were lost.
    pub fn lost(&self) -> (count: usize)
        ensures
            count == self@.transmitted - self@.received,
    {
        proof {
            use_type_invariant(self);
        }
        self.transmitted - self.received
    }

    /// The latency of the batch: there is one exactly when a reply was
    /// received.
    pub fn latency(&self) -> (latency: Option<Latency>)
        ensures
            match latency {
                Some(latency) => self@.latency == Some(latency@),
                None => self@.latency is None,
            },
            latency is Some <==> self@.received > 0,
    {
        proof {
            use_type_invariant(self);
        }
        self.latency
    }

    /// The share of pings lost, in hundredths of a percent, rounded down;
    /// `None` exactly where no ping was sent.
    pub fn loss_basis_points(&self) -> (loss: Option<u64>)
        ensures
            match loss {
                Some(loss) => self@.transmitted > 0 && loss == loss_basis_points(
                    self@.transmitted,
                    self@.received,
                ) && loss <= 10000,
                None => self@.transmitted == 0,
            },
    {
        proof {
            use_type_invariant(self);
        }
        if self.transmitted == 0 {
            return None;
        }
        let lost: u128 = (self.transmitted - self.received) as u128;
        let sent: u128 = self.transmitted as u128;
        let loss: u128 = 10000 * lost / sent;
        proof {
            lemma_loss_range(self.transmitted as nat, self.received as nat);
        }
        Some(loss as u64)
    }
}

/// Sums up a batch: `outcomes` holds, for every ping sent and in the order
/// of sending, the echo that was accepted or the reason of the loss.
pub fn summarize(outcomes: &[Result<Echo, Loss>]) -> (summary: Summary)
    ensures
        summary@ == summary_of(outcomes@),
{
    let transmitted = outcomes.len();
    let mut received: usize = 0;
    let mut sum: u128 = 0;
    let mut min: u64 = 0;
    let mut max: u64 = 0;
    let mut i: usize = 0;
    while i < transmitted
        invariant
            transmitted == outcomes@.len(),
            i <= transmitted,
            received == elapsed_times(outcomes@.take(i as int)).len(),
            received <= i,
            sum == total(elapsed_times(outcomes@.take(i as int))),
            sum <= received * u64::MAX,
            received > 0 ==> min == smallest(elapsed_times(outcomes@.take(i as int))),
            received > 0 ==> max == largest(elapsed_times(outcomes@.take(i as int))),
        decreases transmitted - i,
    {
        proof {
            lemma_elapsed_times_step(outcomes@, i as int);
            assert(received * u64::MAX + u64::MAX == (received + 1) * u64::MAX)
                by (nonlinear_arith);
            assert(received * u64::MAX + u64::MAX <= u64::MAX * u64::MAX) by (nonlinear_arith)
                requires
                    received + 1 <= u64::MAX,
            ;
        }
        match outcomes[i] {
            Ok(echo) => {
                if received == 0 {
                    min = echo.elapsed;
                    max = echo.elapsed;
                } else {
                    if echo.elapsed < min {
                        min = echo.elapsed;
                    }
                    if echo.elapsed > max {
                        max = echo.elapsed;
                    }
                }
                sum = sum + echo.elapsed as u128;
                received = received + 1;
                proof {
                    let times = elapsed_times(outcomes@.take(i as int + 1));
                    assert(times.drop_last() =~= elapsed_times(outcomes@.take(i as int)));
                }
            },
            Err(_) => {},
        }
        i += 1;
    }
    assert(outcomes@.take(i as int) =~= outcomes@);
    if received == 0 {
        return Summary { transmitted, received, latency: None };
    }
    let ghost times = elapsed_times(outcomes@);
    proof {
        lemma_elapsed_times_bounds(outcomes@);
        lemma_total_bound(times, u64::MAX as nat);
        lemma_quotient_bound(sum as nat, received as nat, transmitted as nat, u64::MAX as nat);
    }
    let avg: u64 = (sum / transmitted as u128) as u64;
    let mut deviations: u128 = 0;
    let ghost mut seen: nat = 0;
    i = 0;
    while i < transmitted
        invariant
            transmitted == outcomes@.len(),
            i <= transmitted,
            seen == elapsed_times(outcomes@.take(i as int)).len(),
            seen <= i,
            deviations == spread(elapsed_times(outcomes@.take(i as int)), avg as nat),
            deviations <= seen * u64::MAX,
        decreases transmitted - i,
    {
        proof {
            lemma_elapsed_times_step(outcomes@, i as int);
            assert(seen * u64::MAX + u64::MAX == (seen + 1) * u64::MAX) by (nonlinear_arith);
            assert(seen * u64::MAX + u64::MAX <= u64::MAX * u64::MAX) by (nonlinear_arith)
                requires
                    seen + 1 <= u64::MAX,
            ;
        }
        match outcomes[i] {
            Ok(echo) => {
                let distance: u64 = if echo.elapsed >= avg {
                    echo.elapsed - avg
                } else {
                    avg - echo.elapsed
                };
                deviations = deviations + distance as u128;
                proof {
                    seen = seen + 1;
                    let times = elapsed_times(outcomes@.take(i as int + 1));
                    assert(times.drop_last() =~= elapsed_times(outcomes@.take(i as int)));
                }
            },
            Err(_) => {},
        }
        i += 1;
    }
    assert(outcomes@.take(i as int) =~= outcomes@);
    proof {
        lemma_quotient_bound(
            deviations as nat,
            seen,
            transmitted as nat,
            u64::MAX as nat,
        );
    }
    let mdev: u64 = (deviations / transmitted as u128) as u64;
    Summary { transmitted, received, latency: Some(Latency { total: sum, min, avg, max, mdev }) }
}

} // verus!
