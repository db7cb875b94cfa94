use subnet_recon::config::{
    validate_config, Config, DnsConfig, OutputConfig, RandomizeMode, ScanConfig, SubnetEntry,
};
use subnet_recon::scan::{build_scan_targets, interleave_round_robin, try_build_scan_targets, ScanTarget};

fn entry(cidr: &str) -> SubnetEntry {
    SubnetEntry { cidr: cidr.to_string(), label: String::new() }
}

fn ip(a: u32, b: u32, c: u32, d: u32) -> u32 {
    (a << 24) | (b << 16) | (c << 8) | d
}

fn key(ts: &[ScanTarget]) -> Vec<(u32, usize)> {
    ts.iter().map(|t| (t.ip, t.subnet_index)).collect()
}

fn sorted_key(ts: &[ScanTarget]) -> Vec<(u32, usize)> {
    let mut k = key(ts);
    k.sort();
    k
}

fn subnets() -> Vec<SubnetEntry> {
    vec![entry("10.0.0.0/30"), entry("192.168.1.0/29")]
}

fn expected_sequential() -> Vec<(u32, usize)> {
    let mut v = vec![(ip(10, 0, 0, 1), 0), (ip(10, 0, 0, 2), 0)];
    for d in 1..7 {
        v.push((ip(192, 168, 1, d), 1));
    }
    v
}

#[test]
fn sequential_mode_goes_subnet_by_subnet_in_address_order() {
    let t = build_scan_targets(&subnets(), &RandomizeMode::Sequential);
    assert_eq!(key(&t), expected_sequential());
    assert!(t.iter().all(|t| t.hostname.is_none()));
}

#[test]
fn global_mode_is_a_permutation() {
    let t = build_scan_targets(&subnets(), &RandomizeMode::Global);
    let mut expected = expected_sequential();
    expected.sort();
    assert_eq!(sorted_key(&t), expected);
}

#[test]
fn global_mode_shuffles() {
    let subnets = vec![entry("10.0.0.0/22")];
    let t = build_scan_targets(&subnets, &RandomizeMode::Global);
    let ordered: Vec<u32> = (1..1023).map(|d| ip(10, 0, 0, 0) + d).collect();
    let got: Vec<u32> = t.iter().map(|t| t.ip).collect();
    assert_eq!(got.len(), ordered.len());
    assert_ne!(got, ordered);
}

#[test]
fn per_subnet_mode_interleaves_round_robin() {
    let t = build_scan_targets(&subnets(), &RandomizeMode::PerSubnet);
    let idx: Vec<usize> = t.iter().map(|t| t.subnet_index).collect();
    assert_eq!(idx, vec![0, 1, 0, 1, 1, 1, 1, 1]);
    let mut expected = expected_sequential();
    expected.sort();
    assert_eq!(sorted_key(&t), expected);
}

#[test]
fn every_mode_scans_each_host_once() {
    let subnets = vec![entry("10.0.0.0/28"), entry("10.0.1.0/31"), entry("10.0.2.9/32")];
    let base = sorted_key(&build_scan_targets(&subnets, &RandomizeMode::Sequential));
    assert_eq!(base.len(), 14 + 2 + 1);
    for mode in [RandomizeMode::Global, RandomizeMode::PerSubnet] {
        assert_eq!(sorted_key(&build_scan_targets(&subnets, &mode)), base);
    }
}

#[test]
fn round_robin_interleaving() {
    let t = |ip: u32, k: usize| ScanTarget { ip, subnet_index: k, hostname: None };
    let lists = vec![
        vec![t(1, 0), t(2, 0), t(3, 0)],
        vec![],
        vec![t(10, 2)],
        vec![t(20, 3), t(21, 3)],
    ];
    let r = interleave_round_robin(&lists);
    assert_eq!(key(&r), vec![(1, 0), (10, 2), (20, 3), (2, 0), (21, 3), (3, 0)]);
    assert!(interleave_round_robin(&vec![]).is_empty());
}

#[test]
fn try_build_rejects_unparsable_subnets() {
    assert!(try_build_scan_targets(&[entry("10.0.0.0/30"), entry("nope")], &RandomizeMode::Sequential)
        .is_none());
    let r = try_build_scan_targets(&subnets(), &RandomizeMode::Sequential).unwrap();
    assert_eq!(key(&r), expected_sequential());
}

#[test]
fn per_subnet_mode_keeps_subnets_in_step() {
    let subnets = vec![entry("10.0.0.0/29"), entry("10.0.1.0/29"), entry("10.0.2.0/30")];
    let t = build_scan_targets(&subnets, &RandomizeMode::PerSubnet);
    assert_eq!(t.len(), 6 + 6 + 2);
    for r in 0..=2 {
        let prefix = &t[..3 * r];
        for k in 0..3 {
            assert_eq!(prefix.iter().filter(|x| x.subnet_index == k).count(), r);
        }
    }
}

#[test]
fn validated_config_can_be_planned() {
    let c = Config {
        scan: ScanConfig::default(),
        output: OutputConfig::default(),
        dns: DnsConfig::default(),
        subnets: vec![entry("192.168.1.0/30"), entry("10.0.0.0/31")],
    };
    assert!(validate_config(&c).is_ok());
    let plan = try_build_scan_targets(&c.subnets, &c.scan.randomize).unwrap();
    assert_eq!(plan.len(), 4);
}
