use subnet_recon::net::{
    cidr_string, host_count, hosts, ipv4_string, network_address, parse_cidr, truncate, Ipv4Cidr,
};
use subnet_recon::text::{decimal_string, format_duration, format_number, trim_trailing_dots};

fn ip(a: u32, b: u32, c: u32, d: u32) -> u32 {
    (a << 24) | (b << 16) | (c << 8) | d
}

#[test]
fn format_number_groups_thousands() {
    assert_eq!(format_number(0), "0");
    assert_eq!(format_number(7), "7");
    assert_eq!(format_number(999), "999");
    assert_eq!(format_number(1000), "1,000");
    assert_eq!(format_number(1001), "1,001");
    assert_eq!(format_number(65536), "65,536");
    assert_eq!(format_number(1234567), "1,234,567");
    assert_eq!(format_number(16777214), "16,777,214");
    assert_eq!(format_number(u64::MAX), "18,446,744,073,709,551,615");
}

#[test]
fn format_duration_units() {
    assert_eq!(format_duration(0), "0s");
    assert_eq!(format_duration(59), "59s");
    assert_eq!(format_duration(60), "1m 0s");
    assert_eq!(format_duration(125), "2m 5s");
    assert_eq!(format_duration(3599), "59m 59s");
    assert_eq!(format_duration(3600), "1h 0m");
    assert_eq!(format_duration(3725), "1h 2m");
    assert_eq!(format_duration(90000), "25h 0m");
}

#[test]
fn decimal_string_digits() {
    assert_eq!(decimal_string(0), "0");
    assert_eq!(decimal_string(10), "10");
    assert_eq!(decimal_string(4294967295), "4294967295");
}

#[test]
fn trim_trailing_dots_removes_all_trailing_dots() {
    assert_eq!(trim_trailing_dots("router.lan."), "router.lan");
    assert_eq!(trim_trailing_dots("gateway.local"), "gateway.local");
    assert_eq!(trim_trailing_dots("a.b.."), "a.b");
    assert_eq!(trim_trailing_dots("..."), "");
    assert_eq!(trim_trailing_dots(""), "");
}

#[test]
fn parse_cidr_accepts_networks() {
    assert_eq!(
        parse_cidr("192.168.1.0/24"),
        Some(Ipv4Cidr { addr: ip(192, 168, 1, 0), prefix_len: 24 })
    );
    assert_eq!(
        parse_cidr("10.0.0.0/8"),
        Some(Ipv4Cidr { addr: ip(10, 0, 0, 0), prefix_len: 8 })
    );
    assert_eq!(
        parse_cidr("192.168.12.34/16"),
        Some(Ipv4Cidr { addr: ip(192, 168, 12, 34), prefix_len: 16 })
    );
    assert_eq!(parse_cidr("0.0.0.0/0"), Some(Ipv4Cidr { addr: 0, prefix_len: 0 }));
}

#[test]
fn parse_cidr_rejects_malformed() {
    assert_eq!(parse_cidr("192.168.1.0"), None);
    assert_eq!(parse_cidr("192.168.1.0/33"), None);
    assert_eq!(parse_cidr("256.1.1.1/24"), None);
    assert_eq!(parse_cidr("not-a-network"), None);
    assert_eq!(parse_cidr("::1/128"), None);
    assert_eq!(parse_cidr(""), None);
}

#[test]
fn network_and_truncate() {
    let net = Ipv4Cidr { addr: ip(172, 16, 123, 123), prefix_len: 16 };
    assert_eq!(network_address(net), ip(172, 16, 0, 0));
    assert_eq!(truncate(net), Ipv4Cidr { addr: ip(172, 16, 0, 0), prefix_len: 16 });
    let all = Ipv4Cidr { addr: ip(1, 2, 3, 4), prefix_len: 0 };
    assert_eq!(network_address(all), 0);
    let one = Ipv4Cidr { addr: ip(1, 2, 3, 4), prefix_len: 32 };
    assert_eq!(network_address(one), ip(1, 2, 3, 4));
}

#[test]
fn cidr_and_ipv4_text() {
    assert_eq!(ipv4_string(ip(192, 168, 1, 1)), "192.168.1.1");
    assert_eq!(ipv4_string(0), "0.0.0.0");
    assert_eq!(ipv4_string(u32::MAX), "255.255.255.255");
    let net = parse_cidr("192.168.12.34/16").unwrap();
    assert_eq!(cidr_string(truncate(net)), "192.168.0.0/16");
    assert_eq!(cidr_string(net), "192.168.12.34/16");
}

#[test]
fn hosts_exclude_network_and_broadcast_below_31() {
    let net = parse_cidr("10.0.0.0/30").unwrap();
    assert_eq!(hosts(net), vec![ip(10, 0, 0, 1), ip(10, 0, 0, 2)]);
    assert_eq!(host_count(net), 2);
    let net = parse_cidr("10.0.0.0/31").unwrap();
    assert_eq!(hosts(net), vec![ip(10, 0, 0, 0), ip(10, 0, 0, 1)]);
    assert_eq!(host_count(net), 2);
    let net = parse_cidr("10.0.0.5/32").unwrap();
    assert_eq!(hosts(net), vec![ip(10, 0, 0, 5)]);
    assert_eq!(host_count(net), 1);
    let net = parse_cidr("192.168.1.77/24").unwrap();
    let h = hosts(net);
    assert_eq!(h.len(), 254);
    assert_eq!(h[0], ip(192, 168, 1, 1));
    assert_eq!(h[253], ip(192, 168, 1, 254));
    assert_eq!(host_count(net), 254);
    let net = parse_cidr("10.0.0.0/8").unwrap();
    assert_eq!(host_count(net), 16777214);
}
