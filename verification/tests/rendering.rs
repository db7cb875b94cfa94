use subnet_recon::config::SubnetEntry;
use subnet_recon::progress::{found_message, subnet_label, ProgressReporter, SilentProgress};
use subnet_recon::results::{format_plain, json_entries, sorted_by_address};
use subnet_recon::scan::ScanTarget;

fn ip(a: u32, b: u32, c: u32, d: u32) -> u32 {
    (a << 24) | (b << 16) | (c << 8) | d
}

fn target(ip: u32, k: usize, host: Option<&str>) -> ScanTarget {
    ScanTarget { ip, subnet_index: k, hostname: host.map(|h| h.to_string()) }
}

#[test]
fn plain_output_one_line_per_host() {
    let ts = vec![
        target(ip(10, 0, 1, 5), 0, Some("gateway.local")),
        target(ip(10, 0, 1, 23), 0, None),
    ];
    assert_eq!(format_plain(&ts), "10.0.1.5\tgateway.local\n10.0.1.23\n");
    assert_eq!(format_plain(&[]), "");
}

#[test]
fn results_are_sorted_by_address() {
    let ts = vec![
        target(ip(192, 168, 1, 100), 1, None),
        target(ip(10, 0, 1, 23), 0, None),
        target(ip(192, 168, 1, 1), 1, Some("router.lan")),
        target(ip(10, 0, 1, 5), 0, Some("gateway.local")),
    ];
    let sorted = sorted_by_address(&ts);
    assert_eq!(
        format_plain(&sorted),
        "10.0.1.5\tgateway.local\n10.0.1.23\n192.168.1.1\trouter.lan\n192.168.1.100\n"
    );
    assert_eq!(ts.len(), 4);
}

#[test]
fn sorting_keeps_order_of_equal_addresses() {
    let ts = vec![
        target(ip(10, 0, 0, 9), 0, None),
        target(ip(10, 0, 0, 5), 2, None),
        target(ip(10, 0, 0, 5), 0, None),
        target(ip(10, 0, 0, 5), 1, None),
    ];
    let sorted = sorted_by_address(&ts);
    let keys: Vec<(u32, usize)> = sorted.iter().map(|t| (t.ip, t.subnet_index)).collect();
    assert_eq!(
        keys,
        vec![(ip(10, 0, 0, 5), 2), (ip(10, 0, 0, 5), 0), (ip(10, 0, 0, 5), 1), (ip(10, 0, 0, 9), 0)]
    );
}

#[test]
fn json_records() {
    let subnets = vec![SubnetEntry { cidr: "192.168.1.0/24".to_string(), label: "Office LAN".to_string() }];
    let ts = vec![target(ip(192, 168, 1, 1), 0, Some("router.lan")), target(ip(10, 0, 0, 1), 3, None)];
    let e = json_entries(&ts, &subnets);
    assert_eq!(e.len(), 2);
    assert_eq!(e[0].ip, "192.168.1.1");
    assert_eq!(e[0].subnet, "192.168.1.0/24");
    assert_eq!(e[0].label, "Office LAN");
    assert_eq!(e[0].hostname.as_deref(), Some("router.lan"));
    assert_eq!(e[1].ip, "10.0.0.1");
    assert_eq!(e[1].subnet, "");
    assert_eq!(e[1].label, "");
    assert_eq!(e[1].hostname, None);
}

#[test]
fn subnet_captions() {
    let with = SubnetEntry { cidr: "10.0.0.0/8".to_string(), label: "Private Class A".to_string() };
    assert_eq!(subnet_label(&with), "10.0.0.0/8 (Private Class A)");
    let without = SubnetEntry { cidr: "10.0.0.0/8".to_string(), label: String::new() };
    assert_eq!(subnet_label(&without), "10.0.0.0/8");
}

#[test]
fn found_counter_text() {
    assert_eq!(found_message(0), "0 found");
    assert_eq!(found_message(12345), "12,345 found");
}

#[test]
fn silent_progress_does_nothing() {
    let p = SilentProgress;
    p.update(0, 1);
    p.record_hit(0);
    p.finish();
}
