use subnet_recon::echo::{build_icmp_echo_request, icmp_checksum, is_echo_reply};
use subnet_recon::probe::{tcp_reachable, ConnectOutcome};
use subnet_recon::rate::{RateLimiter, TOKEN_SCALE};

#[test]
fn checksum_rfc1071_example() {
    assert_eq!(icmp_checksum(&[0x00, 0x01, 0xf2, 0x03, 0xf4, 0xf5, 0xf6, 0xf7]), 0x220d);
}

#[test]
fn checksum_edge_cases() {
    assert_eq!(icmp_checksum(&[]), 0xffff);
    assert_eq!(icmp_checksum(&[0x01]), 0xfeff);
    assert_eq!(icmp_checksum(&[0xff, 0xff]), 0x0000);
    assert_eq!(icmp_checksum(&[0xff, 0xff, 0x00, 0x01]), 0xfffe);
}

#[test]
fn echo_request_layout() {
    let p = build_icmp_echo_request(0x1234, 1);
    assert_eq!(p, vec![8, 0, 0xe5, 0xca, 0x12, 0x34, 0x00, 0x01]);
}

#[test]
fn echo_request_verifies() {
    for (id, seq) in [(0u16, 0u16), (0x1234, 1), (0xffff, 0xffff), (0xf7ff, 0)] {
        let p = build_icmp_echo_request(id, seq);
        assert_eq!(icmp_checksum(&p), 0);
    }
}

fn reply(kind: u8, id: u16, seq: u16) -> Vec<u8> {
    let mut d = vec![0u8; 28];
    d[0] = 0x45;
    d[20] = kind;
    d[24] = (id >> 8) as u8;
    d[25] = (id & 0xff) as u8;
    d[26] = (seq >> 8) as u8;
    d[27] = (seq & 0xff) as u8;
    d
}

#[test]
fn echo_reply_matching() {
    assert!(is_echo_reply(&reply(0, 0xbeef, 1), 0xbeef, 1));
    assert!(!is_echo_reply(&reply(8, 0xbeef, 1), 0xbeef, 1));
    assert!(!is_echo_reply(&reply(0, 0xbeee, 1), 0xbeef, 1));
    assert!(!is_echo_reply(&reply(0, 0xbeef, 2), 0xbeef, 1));
    assert!(!is_echo_reply(&reply(0, 0xbeef, 1)[..27], 0xbeef, 1));
}

#[test]
fn tcp_refused_counts_as_reachable() {
    assert!(tcp_reachable(ConnectOutcome::Connected));
    assert!(tcp_reachable(ConnectOutcome::Refused));
    assert!(!tcp_reachable(ConnectOutcome::Failed));
}

#[test]
fn zero_rate_means_unlimited() {
    assert!(RateLimiter::new(0, 0).is_none());
    assert_eq!(RateLimiter::new(5, 0).unwrap().rate(), 5);
}

#[test]
fn bucket_starts_full_and_refills_at_rate() {
    let mut l = RateLimiter::new(2, 0).unwrap();
    assert!(l.try_acquire(0));
    assert!(l.try_acquire(0));
    assert!(!l.try_acquire(0));
    assert!(!l.try_acquire(TOKEN_SCALE / 4));
    assert!(l.try_acquire(TOKEN_SCALE / 2));
    assert!(!l.try_acquire(TOKEN_SCALE / 2));
}

#[test]
fn bucket_never_exceeds_capacity() {
    let mut l = RateLimiter::new(3, 0).unwrap();
    let mut got = 0;
    for _ in 0..10 {
        if l.try_acquire(100 * TOKEN_SCALE) {
            got += 1;
        }
    }
    assert_eq!(got, 3);
}

#[test]
fn earlier_clock_reading_refills_nothing() {
    let mut l = RateLimiter::new(1, 10 * TOKEN_SCALE).unwrap();
    assert!(l.try_acquire(10 * TOKEN_SCALE));
    assert!(!l.try_acquire(5 * TOKEN_SCALE));
    assert!(!l.try_acquire(5 * TOKEN_SCALE + TOKEN_SCALE / 2));
    assert!(l.try_acquire(6 * TOKEN_SCALE));
}

#[test]
fn rate_bound_over_a_second() {
    let mut l = RateLimiter::new(100, 0).unwrap();
    let mut got = 0u64;
    for step in 0..=1000u64 {
        let now = step * (TOKEN_SCALE / 1000);
        while l.try_acquire(now) {
            got += 1;
        }
    }
    assert!(got <= 200);
    assert!(got >= 199);
}
