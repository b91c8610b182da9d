use udp_ping::ping::{Echo, Loss};
use udp_ping::stats::{summarize, Latency};

const MS: u64 = 1_000_000;

fn echo(sequence: u64, elapsed: u64) -> Result<Echo, Loss> {
    Ok(Echo { sequence, size: 40, elapsed })
}

#[test]
fn three_replies_of_ten_twenty_thirty() {
    let summary = summarize(&[echo(0, 10 * MS), echo(1, 20 * MS), echo(2, 30 * MS)]);
    assert_eq!(summary.transmitted(), 3);
    assert_eq!(summary.received(), 3);
    assert_eq!(
        summary.latency(),
        Some(Latency {
            total: 60_000_000,
            min: 10_000_000,
            avg: 20_000_000,
            max: 30_000_000,
            mdev: 6_666_666,
        })
    );
}

#[test]
fn averages_divide_by_the_pings_sent() {
    let summary = summarize(&[
        echo(0, 10 * MS),
        Err(Loss::Timeout),
        echo(2, 30 * MS),
        Err(Loss::WrongType),
    ]);
    assert_eq!(summary.transmitted(), 4);
    assert_eq!(summary.received(), 2);
    assert_eq!(summary.lost(), 2);
    assert_eq!(summary.loss_basis_points(), Some(5000));
    assert_eq!(
        summary.latency(),
        Some(Latency {
            total: 40_000_000,
            min: 10_000_000,
            avg: 10_000_000,
            max: 30_000_000,
            mdev: 5_000_000,
        })
    );
}

#[test]
fn nothing_received_gives_no_latency() {
    let summary = summarize(&[Err(Loss::Timeout), Err(Loss::StaleTimestamp)]);
    assert_eq!(summary.transmitted(), 2);
    assert_eq!(summary.received(), 0);
    assert_eq!(summary.lost(), 2);
    assert_eq!(summary.latency(), None);
    assert_eq!(summary.loss_basis_points(), Some(10000));
}

#[test]
fn nothing_sent_gives_no_loss_ratio() {
    let summary = summarize(&[]);
    assert_eq!(summary.transmitted(), 0);
    assert_eq!(summary.received(), 0);
    assert_eq!(summary.lost(), 0);
    assert_eq!(summary.latency(), None);
    assert_eq!(summary.loss_basis_points(), None);
}

#[test]
fn single_reply_is_its_own_minimum_and_maximum() {
    let summary = summarize(&[echo(0, 7)]);
    assert_eq!(
        summary.latency(),
        Some(Latency { total: 7, min: 7, avg: 7, max: 7, mdev: 0 })
    );
    assert_eq!(summary.loss_basis_points(), Some(0));
}

#[test]
fn minimum_and_maximum_do_not_depend_on_the_order() {
    let summary =
        summarize(&[echo(0, 50), echo(1, 3), Err(Loss::Timeout), echo(3, 90), echo(4, 3)]);
    let latency = summary.latency().unwrap();
    assert_eq!(latency.min, 3);
    assert_eq!(latency.max, 90);
    assert_eq!(latency.total, 146);
    assert_eq!(latency.avg, 29);
    assert_eq!(latency.mdev, (21 + 26 + 61 + 26) / 5);
}

#[test]
fn quotients_round_down() {
    let summary = summarize(&[echo(0, 1), echo(1, 2), Err(Loss::Timeout)]);
    let latency = summary.latency().unwrap();
    assert_eq!(latency.total, 3);
    assert_eq!(latency.avg, 1);
    assert_eq!(latency.mdev, 0);
    assert_eq!(summary.loss_basis_points(), Some(3333));
}

#[test]
fn reason_of_a_loss_does_not_change_the_summary() {
    let with_timeout = summarize(&[echo(0, 10), Err(Loss::Timeout), echo(2, 40)]);
    let with_mismatch = summarize(&[echo(0, 10), Err(Loss::WrongSequence), echo(2, 40)]);
    assert_eq!(with_timeout, with_mismatch);
}

#[test]
fn longest_times_do_not_overflow() {
    let summary = summarize(&[echo(0, u64::MAX), echo(1, u64::MAX), echo(2, 0)]);
    let latency = summary.latency().unwrap();
    assert_eq!(latency.total, 2 * u64::MAX as u128);
    assert_eq!(latency.min, 0);
    assert_eq!(latency.max, u64::MAX);
    assert_eq!(latency.avg, (2 * u64::MAX as u128 / 3) as u64);
    let avg = latency.avg as u128;
    let spread = 2 * (u64::MAX as u128 - avg) + avg;
    assert_eq!(latency.mdev, (spread / 3) as u64);
}

#[test]
fn lost_ping_adds_no_time() {
    let with = summarize(&[echo(0, 12), Err(Loss::Timeout), echo(2, 30), echo(3, 18)]);
    let without = summarize(&[echo(0, 12), echo(2, 30), echo(3, 18)]);
    let (with, without) = (with.latency().unwrap(), without.latency().unwrap());
    assert_eq!(with.total, without.total);
    assert_eq!(with.min, without.min);
    assert_eq!(with.max, without.max);
    assert_eq!(without.avg, 20);
    assert_eq!(with.avg, 15);
}
