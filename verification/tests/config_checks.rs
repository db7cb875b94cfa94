use subnet_recon::config::{
    apply_cli_overrides, default_dns_timeout, default_format, default_method, default_randomize,
    default_tcp_port, default_timeout, finalize_config, validate_config, with_cli_overrides,
    with_thread_count, Cli, Config, ConfigError, DnsConfig, OutputConfig, OutputFormat,
    ProbeMethod, RandomizeMode, ScanConfig, SubnetEntry,
};

fn entry(cidr: &str, label: &str) -> SubnetEntry {
    SubnetEntry { cidr: cidr.to_string(), label: label.to_string() }
}

fn config(subnets: Vec<SubnetEntry>) -> Config {
    Config {
        scan: ScanConfig::default(),
        output: OutputConfig::default(),
        dns: DnsConfig::default(),
        subnets,
    }
}

fn invalid_value(r: Result<(), ConfigError>) -> (String, String) {
    match r {
        Err(ConfigError::InvalidValue { field, reason }) => (field, reason),
        other => panic!("expected InvalidValue, got {:?}", other),
    }
}

#[test]
fn defaults_match_documentation() {
    assert_eq!(default_method(), ProbeMethod::Icmp);
    assert_eq!(default_timeout(), 1000);
    assert_eq!(default_randomize(), RandomizeMode::Global);
    assert_eq!(default_tcp_port(), 80);
    assert_eq!(default_format(), OutputFormat::Plain);
    assert_eq!(default_dns_timeout(), 3000);
    let scan = ScanConfig::default();
    assert_eq!(scan.method, ProbeMethod::Icmp);
    assert_eq!(scan.timeout_ms, 1000);
    assert_eq!(scan.threads, 0);
    assert_eq!(scan.rate_limit, 0);
    assert_eq!(scan.randomize, RandomizeMode::Global);
    assert_eq!(scan.tcp_port, 80);
    let out = OutputConfig::default();
    assert_eq!(out.file, "");
    assert_eq!(out.format, OutputFormat::Plain);
    assert!(!out.include_unreachable);
    let dns = DnsConfig::default();
    assert!(dns.servers.is_empty());
    assert_eq!(dns.timeout_ms, 3000);
}

#[test]
fn valid_config_passes() {
    let mut c = config(vec![entry("192.168.1.0/24", "Office LAN"), entry("10.0.0.0/8", "")]);
    c.dns.servers = vec!["8.8.8.8".to_string(), "2001:4860:4860::8888".to_string()];
    assert!(validate_config(&c).is_ok());
}

#[test]
fn no_subnets_is_rejected() {
    let c = config(vec![]);
    assert!(matches!(validate_config(&c), Err(ConfigError::NoSubnets)));
}

#[test]
fn invalid_cidr_is_rejected_with_first_offender() {
    let c = config(vec![entry("10.0.0.0/8", ""), entry("10.0.0.0/40", ""), entry("bogus", "")]);
    match validate_config(&c) {
        Err(ConfigError::InvalidCidr { cidr, reason }) => {
            assert_eq!(cidr, "10.0.0.0/40");
            assert_eq!(reason, "invalid IP address syntax");
        }
        other => panic!("unexpected {:?}", other),
    }
}

#[test]
fn invalid_cidr_comes_before_duplicates() {
    let c = config(vec![entry("10.0.0.0/8", ""), entry("10.0.0.0/8", ""), entry("x", "")]);
    assert!(matches!(validate_config(&c), Err(ConfigError::InvalidCidr { .. })));
}

#[test]
fn duplicate_subnet_is_reported_normalized() {
    let c = config(vec![
        entry("192.168.0.0/16", ""),
        entry("10.1.2.3/8", ""),
        entry("10.0.0.0/8", ""),
    ]);
    match validate_config(&c) {
        Err(ConfigError::DuplicateSubnet { cidr }) => assert_eq!(cidr, "10.0.0.0/8"),
        other => panic!("unexpected {:?}", other),
    }
}

#[test]
fn same_address_different_prefix_is_not_duplicate() {
    let c = config(vec![entry("10.0.0.0/8", ""), entry("10.0.0.0/16", "")]);
    assert!(validate_config(&c).is_ok());
}

#[test]
fn zero_timeout_is_rejected() {
    let mut c = config(vec![entry("10.0.0.0/24", "")]);
    c.scan.timeout_ms = 0;
    let (field, reason) = invalid_value(validate_config(&c));
    assert_eq!(field, "timeout_ms");
    assert_eq!(reason, "must be greater than 0");
}

#[test]
fn zero_port_is_rejected() {
    let mut c = config(vec![entry("10.0.0.0/24", "")]);
    c.scan.tcp_port = 0;
    let (field, reason) = invalid_value(validate_config(&c));
    assert_eq!(field, "tcp_port");
    assert_eq!(reason, "must be between 1 and 65535");
}

#[test]
fn bad_dns_server_is_rejected() {
    let mut c = config(vec![entry("10.0.0.0/24", "")]);
    c.dns.servers = vec!["1.1.1.1".to_string(), "dns.example".to_string(), "x".to_string()];
    let (field, reason) = invalid_value(validate_config(&c));
    assert_eq!(field, "dns.servers");
    assert_eq!(reason, "'dns.example' is not a valid IP address");
}

#[test]
fn zero_dns_timeout_is_rejected() {
    let mut c = config(vec![entry("10.0.0.0/24", "")]);
    c.dns.timeout_ms = 0;
    let (field, reason) = invalid_value(validate_config(&c));
    assert_eq!(field, "dns.timeout_ms");
    assert_eq!(reason, "must be greater than 0");
}

#[test]
fn checks_run_in_documented_order() {
    let mut c = config(vec![entry("10.0.0.0/24", "")]);
    c.scan.timeout_ms = 0;
    c.scan.tcp_port = 0;
    c.dns.timeout_ms = 0;
    let (field, _) = invalid_value(validate_config(&c));
    assert_eq!(field, "timeout_ms");
}

#[test]
fn finalize_resolves_zero_threads() {
    let c = config(vec![entry("10.0.0.0/24", "")]);
    let done = finalize_config(c).unwrap();
    assert!(done.scan.threads >= 1);
    let mut c = config(vec![entry("10.0.0.0/24", "")]);
    c.scan.threads = 7;
    let done = finalize_config(c).unwrap();
    assert_eq!(done.scan.threads, 7);
    let c = config(vec![]);
    assert!(matches!(finalize_config(c), Err(ConfigError::NoSubnets)));
}

#[test]
fn thread_count_resolution() {
    let c = with_thread_count(config(vec![entry("10.0.0.0/24", "")]), 12);
    assert_eq!(c.scan.threads, 12);
    let mut c = config(vec![entry("10.0.0.0/24", "")]);
    c.scan.threads = 3;
    assert_eq!(with_thread_count(c, 12).scan.threads, 3);
}

#[test]
fn cli_overrides() {
    let cli = Cli {
        config: "./config.toml".to_string(),
        output: Some("out.txt".to_string()),
        threads: Some(4),
        verbose: 0,
        quiet: false,
    };
    let c = with_cli_overrides(config(vec![entry("10.0.0.0/24", "")]), &cli, 16);
    assert_eq!(c.scan.threads, 4);
    assert_eq!(c.output.file, "out.txt");
    let cli = Cli { config: String::new(), output: None, threads: Some(0), verbose: 1, quiet: true };
    let mut base = config(vec![entry("10.0.0.0/24", "")]);
    base.scan.threads = 2;
    base.output.file = "keep.json".to_string();
    let c = with_cli_overrides(base, &cli, 16);
    assert_eq!(c.scan.threads, 16);
    assert_eq!(c.output.file, "keep.json");
    let cli = Cli { config: String::new(), output: None, threads: None, verbose: 0, quiet: false };
    let mut base = config(vec![entry("10.0.0.0/24", "")]);
    base.scan.threads = 5;
    assert_eq!(apply_cli_overrides(base, &cli).scan.threads, 5);
    let cli = Cli { config: String::new(), output: None, threads: Some(0), verbose: 0, quiet: false };
    assert!(apply_cli_overrides(config(vec![]), &cli).scan.threads >= 1);
}
