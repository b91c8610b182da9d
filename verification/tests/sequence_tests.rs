use std::sync::{Arc, Mutex};
use udp_ping::packet::Type;
use udp_ping::sequence::SequenceGenerator;

#[test]
fn generator_starts_at_zero() {
    let mut generator = SequenceGenerator::new();
    assert_eq!(generator.peek(), 0);
    assert_eq!(generator.next(), 0);
    assert_eq!(generator.peek(), 1);
    let mut other = SequenceGenerator::default();
    assert_eq!(other.next(), 0);
}

#[test]
fn generator_counts_without_gap_or_repeat() {
    let mut generator = SequenceGenerator::new();
    let values: Vec<usize> = (0..1000).map(|_| generator.next()).collect();
    let expected: Vec<usize> = (0..1000).collect();
    assert_eq!(values, expected);
    assert_eq!(generator.peek(), 1000);
}

#[test]
fn peek_does_not_move_the_generator() {
    let mut generator = SequenceGenerator::new();
    generator.next();
    assert_eq!(generator.peek(), 1);
    assert_eq!(generator.peek(), 1);
    assert_eq!(generator.next(), 1);
}

#[test]
fn shared_generator_gives_each_value_once() {
    let shared = Arc::new(Mutex::new(SequenceGenerator::new()));
    let mut seen = Vec::new();
    for caller in 0..8 {
        let handle = Arc::clone(&shared);
        let value = handle.lock().unwrap().next();
        seen.push((caller, value));
    }
    let mut values: Vec<usize> = seen.iter().map(|&(_, value)| value).collect();
    values.sort_unstable();
    assert_eq!(values, (0..8).collect::<Vec<usize>>());
}

#[test]
fn next_packet_numbers_the_pings() {
    let mut generator = SequenceGenerator::new();
    generator.next();
    generator.next();
    let pkt = generator.next_packet();
    assert_eq!(pkt.seq, [2, 0, 0, 0, 0]);
    assert_eq!(pkt.type_, Type::Ping);
    assert_eq!(generator.peek(), 3);
}

#[test]
fn batch_is_numbered_in_order() {
    let mut generator = SequenceGenerator::new();
    let first = generator.batch(5);
    assert_eq!(first.len(), 5);
    for (i, pkt) in first.iter().enumerate() {
        assert_eq!(pkt.sequence(), i as u64);
        assert_eq!(pkt.type_, Type::Ping);
    }
    let second = generator.batch(300);
    assert_eq!(second.len(), 300);
    for (i, pkt) in second.iter().enumerate() {
        assert_eq!(pkt.sequence(), 5 + i as u64);
    }
    assert_eq!(second[251].seq, [0, 1, 0, 0, 0]);
    assert_eq!(generator.peek(), 305);
}

#[test]
fn empty_batch_takes_no_number() {
    let mut generator = SequenceGenerator::new();
    assert!(generator.batch(0).is_empty());
    assert_eq!(generator.next(), 0);
}
