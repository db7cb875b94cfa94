//! Scanner configuration: the settings, their defaults, the command-line
//! overrides, and the checks that a loaded configuration must pass.

use vstd::prelude::*;
use vstd::string::StringExecFns;
use crate::net::{
    Ipv4Cidr, cidr_parses, parsed_cidr, network_of, block_size, addr_parse_error_text, cidr_text,
    ipnet_from_str, truncate, cidr_string,
};
use crate::text::{push_char, push_str};
use vstd::arithmetic::power2::lemma_pow2_pos;
use vstd::arithmetic::div_mod::lemma_mod_pos_bound;

verus! {

/// Why a configuration was rejected.
#[derive(Debug)]
pub enum ConfigError {
    FileNotFound { path: String },
    ParseError { reason: String },
    NoSubnets,
    InvalidCidr { cidr: String, reason: String },
    DuplicateSubnet { cidr: String },
    InvalidValue { field: String, reason: String },
}

/// A `ConfigError` with its texts as character sequences.
pub enum ConfigErrorView {
    FileNotFound { path: Seq<char> },
    ParseError { reason: Seq<char> },
    NoSubnets,
    InvalidCidr { cidr: Seq<char>, reason: Seq<char> },
    DuplicateSubnet { cidr: Seq<char> },
    InvalidValue { field: Seq<char>, reason: Seq<char> },
}

impl View for ConfigError {
    type V = ConfigErrorView;

    open spec fn view(&self) -> ConfigErrorView {
        match self {
            ConfigError::FileNotFound { path } => ConfigErrorView::FileNotFound { path: path@ },
            ConfigError::ParseError { reason } => ConfigErrorView::ParseError { reason: reason@ },
            ConfigError::NoSubnets => ConfigErrorView::NoSubnets,
            ConfigError::InvalidCidr { cidr, reason } => ConfigErrorView::InvalidCidr {
                cidr: cidr@,
                reason: reason@,
            },
            ConfigError::DuplicateSubnet { cidr } => ConfigErrorView::DuplicateSubnet { cidr: cidr@ },
            ConfigError::InvalidValue { field, reason } => ConfigErrorView::InvalidValue {
                field: field@,
                reason: reason@,
            },
        }
    }
}

/// How hosts are probed.
#[derive(Debug, Clone, Copy, PartialEq, Eq, Structural)]
pub enum ProbeMethod {
    Icmp,
    Tcp,
}

/// In which order the hosts are scanned.
#[derive(Debug, Clone, Copy, PartialEq, Eq, Structural)]
pub enum RandomizeMode {
    Global,
    PerSubnet,
    /// No shuffling: subnet by subnet, each in address order (`"none"` in
    /// the configuration file).
    Sequential,
}

/// How results are written.
#[derive(Debug, Clone, Copy, PartialEq, Eq, Structural)]
pub enum OutputFormat {
    Plain,
    Json,
}

/// The `[scan]` settings.
#[derive(Debug)]
pub struct ScanConfig {
    pub method: ProbeMethod,
    pub timeout_ms: u64,
    pub threads: usize,
    pub rate_limit: u32,
    pub randomize: RandomizeMode,
    pub tcp_port: u16,
}

/// The `[output]` settings.
#[derive(Debug)]
pub struct OutputConfig {
    pub file: String,
    pub format: OutputFormat,
    pub include_unreachable: bool,
}

/// The `[dns]` settings.
#[derive(Debug)]
pub struct DnsConfig {
    /// DNS server addresses (e.g. "8.8.8.8", "1.1.1.1"). Empty = system default.
    pub servers: Vec<String>,
    /// DNS query timeout in milliseconds.
    pub timeout_ms: u64,
}

/// One `[[subnets]]` entry.
#[derive(Debug, Clone)]
pub struct SubnetEntry {
    pub cidr: String,
    pub label: String,
}

/// A whole configuration.
#[derive(Debug)]
pub struct Config {
    pub scan: ScanConfig,
    pub output: OutputConfig,
    pub dns: DnsConfig,
    pub subnets: Vec<SubnetEntry>,
}

/// Command-line options.
#[derive(Debug)]
pub struct Cli {
    /// Config file path
    pub config: String,
    /// Write results to file (overrides config)
    pub output: Option<String>,
    /// Number of worker threads (overrides config)
    pub threads: Option<usize>,
    /// Increase log verbosity
    pub verbose: u8,
    /// Suppress progress display
    pub quiet: bool,
}

/// Default DNS query timeout: 3000 ms.
pub fn default_dns_timeout() -> (r: u64)
    ensures
        r == 3000,
{
    3000
}

/// Default probe method: ICMP.
pub fn default_method() -> (r: ProbeMethod)
    ensures
        r == ProbeMethod::Icmp,
{
    ProbeMethod::Icmp
}

/// Default probe timeout: 1000 ms.
pub fn default_timeout() -> (r: u64)
    ensures
        r == 1000,
{
    1000
}

/// Default scan order: one global shuffle.
pub fn default_randomize() -> (r: RandomizeMode)
    ensures
        r == RandomizeMode::Global,
{
    RandomizeMode::Global
}

/// Default TCP probe port: 80.
pub fn default_tcp_port() -> (r: u16)
    ensures
        r == 80,
{
    80
}

/// Default output format: plain text.
pub fn default_format() -> (r: OutputFormat)
    ensures
        r == OutputFormat::Plain,
{
    OutputFormat::Plain
}

impl Default for ScanConfig {
    fn default() -> (r: Self)
        ensures
            r.method == ProbeMethod::Icmp,
            r.timeout_ms == 1000,
            r.threads == 0,
            r.rate_limit == 0,
            r.randomize == RandomizeMode::Global,
            r.tcp_port == 80,
    {
        ScanConfig {
            method: default_method(),
            timeout_ms: default_timeout(),
            threads: 0,
            rate_limit: 0,
            randomize: default_randomize(),
            tcp_port: default_tcp_port(),
        }
    }
}

impl Default for OutputConfig {
    fn default() -> (r: Self)
        ensures
            r.file@ == Seq::<char>::empty(),
            r.format == OutputFormat::Plain,
            !r.include_unreachable,
    {
        OutputConfig { file: String::new(), format: default_format(), include_unreachable: false }
    }
}

impl Default for DnsConfig {
    fn default() -> (r: Self)
        ensures
            r.servers@.len() == 0,
            r.timeout_ms == 3000,
    {
        DnsConfig { servers: Vec::new(), timeout_ms: default_dns_timeout() }
    }
}

/// What `<core::net::IpAddr as FromStr>::from_str` decides of a string:
/// whether it is an IPv4 or IPv6 address.
pub uninterp spec fn ip_addr_from_str_ok(s: Seq<char>) -> bool;

/// Calls `<core::net::IpAddr as FromStr>::from_str` and reports whether it
/// succeeded; the answer is named by `ip_addr_from_str_ok`.
#[verifier::external_body]
fn ip_addr_parses(s: &str) -> (r: bool)
    ensures
        r == ip_addr_from_str_ok(s@),
{
    s.parse::<core::net::IpAddr>().is_ok()
}

/// The CIDR texts of the subnet entries.
pub open spec fn cidr_texts(subnets: Seq<SubnetEntry>) -> Seq<Seq<char>> {
    Seq::new(subnets.len(), |i: int| subnets[i].cidr@)
}

/// The texts of the DNS servers.
pub open spec fn server_texts(servers: Seq<String>) -> Seq<Seq<char>> {
    Seq::new(servers.len(), |i: int| servers[i]@)
}

/// Index of the first of the first `n` CIDR texts that does not parse.
pub open spec fn first_unparsable(cidrs: Seq<Seq<char>>, n: nat) -> Option<int>
    decreases n,
{
    if n == 0 {
        None
    } else {
        match first_unparsable(cidrs, (n - 1) as nat) {
            Some(i) => Some(i),
            None => if !cidr_parses(cidrs[n - 1]) { Some(n - 1) } else { None },
        }
    }
}

/// The normalized network of a (parsable) CIDR text: its address truncated to
/// the prefix length.
pub open spec fn normalized(cidr: Seq<char>) -> Ipv4Cidr {
    let n = parsed_cidr(cidr);
    Ipv4Cidr {
        addr: network_of(n.addr as nat, n.prefix_len as nat) as u32,
        prefix_len: n.prefix_len,
    }
}

/// Index of the first of the first `n` networks that repeats an earlier one.
pub open spec fn first_repeat(keys: Seq<Ipv4Cidr>, n: nat) -> Option<int>
    decreases n,
{
    if n == 0 {
        None
    } else {
        match first_repeat(keys, (n - 1) as nat) {
            Some(i) => Some(i),
            None => if exists|j: int| 0 <= j < n - 1 && #[trigger] keys[j] == keys[n - 1] {
                Some(n - 1)
            } else {
                None
            },
        }
    }
}

/// Index of the first of the first `n` texts that is not an IP address.
pub open spec fn first_bad_address(servers: Seq<Seq<char>>, n: nat) -> Option<int>
    decreases n,
{
    if n == 0 {
        None
    } else {
        match first_bad_address(servers, (n - 1) as nat) {
            Some(i) => Some(i),
            None => if !ip_addr_from_str_ok(servers[n - 1]) { Some(n - 1) } else { None },
        }
    }
}

/// The verdict on a configuration, check by check in this order: at least one
/// subnet; every CIDR parses; no two subnets normalize to the same network;
/// a positive probe timeout; a nonzero TCP port; every DNS server is an IP
/// address; a positive DNS timeout.
pub open spec fn config_check(c: Config) -> Result<(), ConfigErrorView> {
    let cidrs = cidr_texts(c.subnets@);
    let n = cidrs.len();
    let keys = Seq::new(n, |i: int| normalized(cidrs[i]));
    let servers = server_texts(c.dns.servers@);
    if n == 0 {
        Err(ConfigErrorView::NoSubnets)
    } else if first_unparsable(cidrs, n) is Some {
        Err(ConfigErrorView::InvalidCidr {
            cidr: cidrs[first_unparsable(cidrs, n).unwrap()],
            reason: addr_parse_error_text(),
        })
    } else if first_repeat(keys, n) is Some {
        Err(ConfigErrorView::DuplicateSubnet { cidr: cidr_text(keys[first_repeat(keys, n).unwrap()]) })
    } else if c.scan.timeout_ms == 0 {
        Err(ConfigErrorView::InvalidValue { field: "timeout_ms"@, reason: "must be greater than 0"@ })
    } else if c.scan.tcp_port == 0 {
        Err(ConfigErrorView::InvalidValue {
            field: "tcp_port"@,
            reason: "must be between 1 and 65535"@,
        })
    } else if first_bad_address(servers, servers.len()) is Some {
        Err(ConfigErrorView::InvalidValue {
            field: "dns.servers"@,
            reason: seq!['\''] + servers[first_bad_address(servers, servers.len()).unwrap()]
                + "' is not a valid IP address"@,
        })
    } else if c.dns.timeout_ms == 0 {
        Err(ConfigErrorView::InvalidValue {
            field: "dns.timeout_ms"@,
            reason: "must be greater than 0"@,
        })
    } else {
        Ok(())
    }
}

/// A validation outcome with the error as its view.
pub open spec fn check_view(r: Result<(), ConfigError>) -> Result<(), ConfigErrorView> {
    match r {
        Ok(()) => Ok(()),
        Err(e) => Err(e@),
    }
}

pub(crate) proof fn lemma_first_unparsable_none(cidrs: Seq<Seq<char>>, n: nat, i: int)
    requires
        first_unparsable(cidrs, n) is None,
        0 <= i < n,
    ensures
        cidr_parses(cidrs[i]),
    decreases n,
{
    if i < n - 1 {
        lemma_first_unparsable_none(cidrs, (n - 1) as nat, i);
    }
}

/// Runs the checks of `config_check` on `config`.
#[verifier::loop_isolation(false)]
pub fn validate_config(config: &Config) -> (r: Result<(), ConfigError>)
    ensures
        check_view(r) == config_check(*config),
{
    let n = config.subnets.len();
    let ghost cidrs = cidr_texts(config.subnets@);
    let ghost keys_spec = Seq::new(n as nat, |i: int| normalized(cidrs[i]));
    if n == 0 {
        return Err(ConfigError::NoSubnets);
    }
    let mut keys: Vec<Ipv4Cidr> = Vec::new();
    let mut i: usize = 0;
    while i < n
        invariant
            n == config.subnets@.len(),
            cidrs == cidr_texts(config.subnets@),
            keys_spec == Seq::new(n as nat, |k: int| normalized(cidrs[k])),
            i <= n,
            first_unparsable(cidrs, i as nat) is None,
            keys@ == keys_spec.take(i as int),
        decreases n - i,
    {
        let entry = &config.subnets[i];
        match ipnet_from_str(entry.cidr.as_str()) {
            Ok(v) => {
                let net = truncate(Ipv4Cidr { addr: v.0, prefix_len: v.1 });
                proof {
                    assert(cidrs[i as int] == entry.cidr@);
                }
                keys.push(net);
                proof {
                    assert(keys@ =~= keys_spec.take(i + 1));
                }
            },
            Err(m) => {
                proof {
                    assert(first_unparsable(cidrs, (i + 1) as nat) == Some(i as int));
                    lemma_first_prefix_some_unparsable(cidrs, (i + 1) as nat, n as nat);
                }
                return Err(ConfigError::InvalidCidr { cidr: entry.cidr.clone(), reason: m });
            },
        }
        i = i + 1;
    }
    proof {
        assert(keys@ =~= keys_spec);
    }
    let mut i: usize = 0;
    while i < n
        invariant
            n == config.subnets@.len(),
            n == keys@.len(),
            cidrs == cidr_texts(config.subnets@),
            first_unparsable(cidrs, n as nat) is None,
            keys@ == Seq::new(n as nat, |k: int| normalized(cidrs[k])),
            i <= n,
            first_repeat(keys@, i as nat) is None,
        decreases n - i,
    {
        let mut j: usize = 0;
        while j < i
            invariant
                i < n,
                n == keys@.len(),
                n == config.subnets@.len(),
                cidrs == cidr_texts(config.subnets@),
                first_unparsable(cidrs, n as nat) is None,
                keys@ == Seq::new(n as nat, |k: int| normalized(cidrs[k])),
                first_repeat(keys@, i as nat) is None,
                j <= i,
                forall|k: int| 0 <= k < j ==> keys@[k] != keys@[i as int],
            decreases i - j,
        {
            if keys[j] == keys[i] {
                proof {
                    assert(keys@[j as int] == keys@[i as int]);
                    assert(first_repeat(keys@, (i + 1) as nat) == Some(i as int));
                    lemma_first_prefix_some_repeat(keys@, (i + 1) as nat, n as nat);
                }
                return Err(ConfigError::DuplicateSubnet { cidr: cidr_string(keys[i]) });
            }
            j = j + 1;
        }
        proof {
            assert(first_repeat(keys@, (i + 1) as nat) is None);
        }
        i = i + 1;
    }
    if config.scan.timeout_ms == 0 {
        return Err(ConfigError::InvalidValue {
            field: String::from_str("timeout_ms"),
            reason: String::from_str("must be greater than 0"),
        });
    }
    if config.scan.tcp_port == 0 {
        return Err(ConfigError::InvalidValue {
            field: String::from_str("tcp_port"),
            reason: String::from_str("must be between 1 and 65535"),
        });
    }
    let ghost servers = server_texts(config.dns.servers@);
    let m = config.dns.servers.len();
    let mut i: usize = 0;
    while i < m
        invariant
            m == config.dns.servers@.len(),
            servers == server_texts(config.dns.servers@),
            i <= m,
            first_bad_address(servers, i as nat) is None,
        decreases m - i,
    {
        let addr = &config.dns.servers[i];
        if !ip_addr_parses(addr.as_str()) {
            let mut reason = String::new();
            push_char(&mut reason, '\'');
            push_str(&mut reason, addr.as_str());
            push_str(&mut reason, "' is not a valid IP address");
            proof {
                assert(servers[i as int] == addr@);
                assert(first_bad_address(servers, (i + 1) as nat) == Some(i as int));
                lemma_first_prefix_some_address(servers, (i + 1) as nat, m as nat);
                assert(reason@ =~= seq!['\''] + servers[i as int] + "' is not a valid IP address"@);
            }
            let field = String::from_str("dns.servers");
            proof {
                assert(first_bad_address(servers, servers.len()) == Some(i as int));
            }
            return Err(ConfigError::InvalidValue { field, reason });
        }
        i = i + 1;
    }
    if config.dns.timeout_ms == 0 {
        return Err(ConfigError::InvalidValue {
            field: String::from_str("dns.timeout_ms"),
            reason: String::from_str("must be greater than 0"),
        });
    }
    Ok(())
}

proof fn lemma_first_prefix_some_unparsable(cidrs: Seq<Seq<char>>, k: nat, n: nat)
    requires
        first_unparsable(cidrs, k) is Some,
        k <= n,
    ensures
        first_unparsable(cidrs, n) == first_unparsable(cidrs, k),
    decreases n - k,
{
    if n > k {
        lemma_first_prefix_some_unparsable(cidrs, k, (n - 1) as nat);
    }
}

proof fn lemma_first_prefix_some_repeat(keys: Seq<Ipv4Cidr>, k: nat, n: nat)
    requires
        first_repeat(keys, k) is Some,
        k <= n,
    ensures
        first_repeat(keys, n) == first_repeat(keys, k),
    decreases n - k,
{
    if n > k {
        lemma_first_prefix_some_repeat(keys, k, (n - 1) as nat);
    }
}

proof fn lemma_first_prefix_some_address(servers: Seq<Seq<char>>, k: nat, n: nat)
    requires
        first_bad_address(servers, k) is Some,
        k <= n,
    ensures
        first_bad_address(servers, n) == first_bad_address(servers, k),
    decreases n - k,
{
    if n > k {
        lemma_first_prefix_some_address(servers, k, (n - 1) as nat);
    }
}

proof fn lemma_first_repeat_none(keys: Seq<Ipv4Cidr>, n: nat, i: int, j: int)
    requires
        first_repeat(keys, n) is None,
        0 <= j < i < n,
    ensures
        keys[j] != keys[i],
    decreases n,
{
    if i < n - 1 {
        lemma_first_repeat_none(keys, (n - 1) as nat, i, j);
    } else {
        if keys[j] == keys[i] {
            assert(exists|k: int| 0 <= k < n - 1 && #[trigger] keys[k] == keys[n - 1]);
        }
    }
}

/// A configuration that passes validation has at least one subnet, and no
/// two of its subnets stand for the same network once their addresses are
/// truncated to their prefix lengths.
pub proof fn lemma_valid_config_distinct(c: Config)
    requires
        config_check(c) is Ok,
    ensures
        c.subnets@.len() > 0,
        forall|i: int, j: int| 0 <= j < i < c.subnets@.len() ==>
            normalized(#[trigger] c.subnets@[i].cidr@) != normalized(#[trigger] c.subnets@[j].cidr@),
{
    let cidrs = cidr_texts(c.subnets@);
    let n = cidrs.len();
    let keys = Seq::new(n, |k: int| normalized(cidrs[k]));
    assert forall|i: int, j: int| 0 <= j < i < c.subnets@.len() implies
        normalized(#[trigger] c.subnets@[i].cidr@) != normalized(#[trigger] c.subnets@[j].cidr@) by {
        lemma_first_repeat_none(keys, n, i, j);
        assert(keys[i] == normalized(c.subnets@[i].cidr@));
        assert(keys[j] == normalized(c.subnets@[j].cidr@));
    }
}

/// `a` and `b` name the same network: their parsed prefix lengths are equal,
/// and so are their parsed addresses once the host bits are cleared.
pub open spec fn same_network(a: Seq<char>, b: Seq<char>) -> bool {
    let x = parsed_cidr(a);
    let y = parsed_cidr(b);
    &&& x.prefix_len == y.prefix_len
    &&& network_of(x.addr as nat, x.prefix_len as nat) == network_of(y.addr as nat, y.prefix_len as nat)
}

/// The subnet at index `i` names the same network as some earlier subnet.
pub open spec fn repeats_earlier(subnets: Seq<SubnetEntry>, i: int) -> bool {
    &&& 0 <= i < subnets.len()
    &&& exists|j: int| 0 <= j < i && same_network(#[trigger] subnets[j].cidr@, subnets[i].cidr@)
}

proof fn lemma_network_in_range(addr: u32, p: nat)
    ensures
        0 <= network_of(addr as nat, p) <= addr,
{
    let b = block_size(p);
    lemma_pow2_pos((32 - p) as nat);
    assert(b > 0);
    lemma_mod_pos_bound(addr as int, b as int);
    let x = addr as int;
    let m = b as int;
    assert(x % m <= x) by (nonlinear_arith)
        requires
            0 <= x,
            0 < m,
    ;
}

proof fn lemma_normalized_eq(a: Seq<char>, b: Seq<char>)
    ensures
        (normalized(a) == normalized(b)) <==> same_network(a, b),
{
    let x = parsed_cidr(a);
    let y = parsed_cidr(b);
    lemma_network_in_range(x.addr, x.prefix_len as nat);
    lemma_network_in_range(y.addr, y.prefix_len as nat);
}

proof fn lemma_first_unparsable_all(cidrs: Seq<Seq<char>>, n: nat)
    requires
        n <= cidrs.len(),
        forall|i: int| 0 <= i < n ==> cidr_parses(#[trigger] cidrs[i]),
    ensures
        first_unparsable(cidrs, n) is None,
    decreases n,
{
    if n > 0 {
        lemma_first_unparsable_all(cidrs, (n - 1) as nat);
    }
}

proof fn lemma_first_repeat_distinct(keys: Seq<Ipv4Cidr>, n: nat)
    requires
        forall|i: int, j: int| 0 <= j < i < n ==> #[trigger] keys[j] != #[trigger] keys[i],
    ensures
        first_repeat(keys, n) is None,
    decreases n,
{
    if n > 0 {
        lemma_first_repeat_distinct(keys, (n - 1) as nat);
    }
}

proof fn lemma_first_repeat_some(keys: Seq<Ipv4Cidr>, n: nat)
    requires
        first_repeat(keys, n) is Some,
    ensures
        0 <= first_repeat(keys, n).unwrap() < n,
        exists|j: int| 0 <= j < first_repeat(keys, n).unwrap()
            && #[trigger] keys[j] == keys[first_repeat(keys, n).unwrap()],
        first_repeat(keys, first_repeat(keys, n).unwrap() as nat) is None,
    decreases n,
{
    if first_repeat(keys, (n - 1) as nat) is Some {
        lemma_first_repeat_some(keys, (n - 1) as nat);
    }
}

/// Every subnet parses: validation gets past the CIDR check, and the networks
/// that it compares are those of `normalized`.
proof fn lemma_all_parse_keys(c: Config)
    requires
        forall|i: int| 0 <= i < c.subnets@.len() ==> cidr_parses(#[trigger] c.subnets@[i].cidr@),
    ensures
        first_unparsable(cidr_texts(c.subnets@), c.subnets@.len()) is None,
{
    let cidrs = cidr_texts(c.subnets@);
    assert forall|i: int| 0 <= i < c.subnets@.len() implies cidr_parses(#[trigger] cidrs[i]) by {
        assert(cidrs[i] == c.subnets@[i].cidr@);
    }
    lemma_first_unparsable_all(cidrs, c.subnets@.len());
}

/// When every subnet parses and no two of them name the same network (equal
/// prefix length and equal address after clearing the host bits), validation
/// does not reject the configuration as having a duplicate subnet.
pub proof fn lemma_distinct_networks_not_duplicate(c: Config)
    requires
        forall|i: int| 0 <= i < c.subnets@.len() ==> cidr_parses(#[trigger] c.subnets@[i].cidr@),
        forall|i: int, j: int| 0 <= j < i < c.subnets@.len() ==>
            !same_network(#[trigger] c.subnets@[j].cidr@, #[trigger] c.subnets@[i].cidr@),
    ensures
        !(config_check(c) matches Err(ConfigErrorView::DuplicateSubnet { .. })),
{
    let cidrs = cidr_texts(c.subnets@);
    let n = cidrs.len();
    let keys = Seq::new(n, |k: int| normalized(cidrs[k]));
    lemma_all_parse_keys(c);
    assert forall|i: int, j: int| 0 <= j < i < n implies #[trigger] keys[j] != #[trigger] keys[i] by {
        lemma_normalized_eq(cidrs[j], cidrs[i]);
        assert(cidrs[j] == c.subnets@[j].cidr@);
        assert(cidrs[i] == c.subnets@[i].cidr@);
    }
    lemma_first_repeat_distinct(keys, n);
}

/// When every subnet parses and two of them name the same network, validation
/// rejects the configuration as having a duplicate subnet.
pub proof fn lemma_same_network_rejected(c: Config, i: int, j: int)
    requires
        forall|k: int| 0 <= k < c.subnets@.len() ==> cidr_parses(#[trigger] c.subnets@[k].cidr@),
        0 <= j < i < c.subnets@.len(),
        same_network(c.subnets@[j].cidr@, c.subnets@[i].cidr@),
    ensures
        config_check(c) matches Err(ConfigErrorView::DuplicateSubnet { .. }),
{
    let cidrs = cidr_texts(c.subnets@);
    let n = cidrs.len();
    let keys = Seq::new(n, |k: int| normalized(cidrs[k]));
    lemma_all_parse_keys(c);
    assert(cidrs[j] == c.subnets@[j].cidr@);
    assert(cidrs[i] == c.subnets@[i].cidr@);
    lemma_normalized_eq(cidrs[j], cidrs[i]);
    assert(keys[j] == keys[i]);
    if first_repeat(keys, n) is None {
        lemma_first_repeat_none(keys, n, i, j);
    }
}

/// A duplicate-subnet rejection names the first subnet that repeats the
/// network of an earlier one, written as that network: its address with the
/// host bits cleared, a slash and its prefix length. Every subnet parses.
pub proof fn lemma_duplicate_report(c: Config, cidr: Seq<char>)
    requires
        config_check(c) == Err::<(), ConfigErrorView>(ConfigErrorView::DuplicateSubnet { cidr }),
    ensures
        forall|k: int| 0 <= k < c.subnets@.len() ==> cidr_parses(#[trigger] c.subnets@[k].cidr@),
        exists|i: int| {
            &&& #[trigger] repeats_earlier(c.subnets@, i)
            &&& forall|k: int| 0 <= k < i ==> !repeats_earlier(c.subnets@, k)
            &&& cidr == cidr_text(Ipv4Cidr {
                addr: network_of(
                    parsed_cidr(c.subnets@[i].cidr@).addr as nat,
                    parsed_cidr(c.subnets@[i].cidr@).prefix_len as nat,
                ) as u32,
                prefix_len: parsed_cidr(c.subnets@[i].cidr@).prefix_len,
            })
        },
{
    let cidrs = cidr_texts(c.subnets@);
    let n = cidrs.len();
    let keys = Seq::new(n, |k: int| normalized(cidrs[k]));
    assert forall|k: int| 0 <= k < c.subnets@.len() implies cidr_parses(#[trigger] c.subnets@[k].cidr@) by {
        lemma_first_unparsable_none(cidrs, n, k);
        assert(cidrs[k] == c.subnets@[k].cidr@);
    }
    lemma_first_repeat_some(keys, n);
    let i = first_repeat(keys, n).unwrap();
    let j = choose|j: int| 0 <= j < i && #[trigger] keys[j] == keys[i];
    assert(cidrs[j] == c.subnets@[j].cidr@);
    assert(cidrs[i] == c.subnets@[i].cidr@);
    lemma_normalized_eq(cidrs[j], cidrs[i]);
    assert(repeats_earlier(c.subnets@, i));
    assert forall|k: int| 0 <= k < i implies !repeats_earlier(c.subnets@, k) by {
        if repeats_earlier(c.subnets@, k) {
            let m = choose|m: int| 0 <= m < k && same_network(#[trigger] c.subnets@[m].cidr@, c.subnets@[k].cidr@);
            assert(cidrs[m] == c.subnets@[m].cidr@);
            assert(cidrs[k] == c.subnets@[k].cidr@);
            lemma_normalized_eq(cidrs[m], cidrs[k]);
            lemma_first_repeat_none(keys, i as nat, k, m);
        }
    }
}

/// Calls `num_cpus::get`. The count depends on the machine, so nothing is
/// stated of it but what `num_cpus` documents: it is always at least 1.
#[verifier::external_body]
fn available_cpus() -> (r: usize)
    ensures
        r >= 1,
{
    num_cpus::get()
}

proof fn lemma_first_bad_address_none(servers: Seq<Seq<char>>, n: nat, i: int)
    requires
        first_bad_address(servers, n) is None,
        0 <= i < n,
    ensures
        ip_addr_from_str_ok(servers[i]),
    decreases n,
{
    if i < n - 1 {
        lemma_first_bad_address_none(servers, (n - 1) as nat, i);
    }
}

proof fn lemma_first_bad_address_all(servers: Seq<Seq<char>>, n: nat)
    requires
        n <= servers.len(),
        forall|i: int| 0 <= i < n ==> ip_addr_from_str_ok(#[trigger] servers[i]),
    ensures
        first_bad_address(servers, n) is None,
    decreases n,
{
    if n > 0 {
        lemma_first_bad_address_all(servers, (n - 1) as nat);
    }
}

/// A configuration passes validation exactly when it has at least one
/// subnet, every subnet parses, no two subnets name the same network, the
/// probe timeout is positive, the TCP port is nonzero, every DNS server is an
/// IP address and the DNS timeout is positive.
pub proof fn lemma_valid_config_iff(c: Config)
    ensures
        (config_check(c) is Ok) <==> {
            &&& c.subnets@.len() > 0
            &&& forall|i: int| 0 <= i < c.subnets@.len() ==> cidr_parses(#[trigger] c.subnets@[i].cidr@)
            &&& forall|i: int, j: int| 0 <= j < i < c.subnets@.len() ==>
                !same_network(#[trigger] c.subnets@[j].cidr@, #[trigger] c.subnets@[i].cidr@)
            &&& c.scan.timeout_ms > 0
            &&& c.scan.tcp_port != 0
            &&& forall|i: int| 0 <= i < c.dns.servers@.len() ==> ip_addr_from_str_ok(#[trigger] c.dns.servers@[i]@)
            &&& c.dns.timeout_ms > 0
        },
{
    let cidrs = cidr_texts(c.subnets@);
    let n = cidrs.len();
    let keys = Seq::new(n, |k: int| normalized(cidrs[k]));
    let servers = server_texts(c.dns.servers@);
    if config_check(c) is Ok {
        lemma_valid_config_distinct(c);
        assert forall|i: int| 0 <= i < c.subnets@.len() implies cidr_parses(#[trigger] c.subnets@[i].cidr@) by {
            lemma_first_unparsable_none(cidrs, n, i);
            assert(cidrs[i] == c.subnets@[i].cidr@);
        }
        assert forall|i: int, j: int| 0 <= j < i < c.subnets@.len() implies
            !same_network(#[trigger] c.subnets@[j].cidr@, #[trigger] c.subnets@[i].cidr@) by {
            lemma_normalized_eq(c.subnets@[j].cidr@, c.subnets@[i].cidr@);
        }
        assert forall|i: int| 0 <= i < c.dns.servers@.len() implies ip_addr_from_str_ok(#[trigger] c.dns.servers@[i]@) by {
            lemma_first_bad_address_none(servers, servers.len(), i);
            assert(servers[i] == c.dns.servers@[i]@);
        }
    }
    if {
        &&& c.subnets@.len() > 0
        &&& forall|i: int| 0 <= i < c.subnets@.len() ==> cidr_parses(#[trigger] c.subnets@[i].cidr@)
        &&& forall|i: int, j: int| 0 <= j < i < c.subnets@.len() ==>
            !same_network(#[trigger] c.subnets@[j].cidr@, #[trigger] c.subnets@[i].cidr@)
        &&& c.scan.timeout_ms > 0
        &&& c.scan.tcp_port != 0
        &&& forall|i: int| 0 <= i < c.dns.servers@.len() ==> ip_addr_from_str_ok(#[trigger] c.dns.servers@[i]@)
        &&& c.dns.timeout_ms > 0
    } {
        lemma_all_parse_keys(c);
        assert forall|i: int, j: int| 0 <= j < i < n implies #[trigger] keys[j] != #[trigger] keys[i] by {
            assert(cidrs[j] == c.subnets@[j].cidr@);
            assert(cidrs[i] == c.subnets@[i].cidr@);
            lemma_normalized_eq(cidrs[j], cidrs[i]);
        }
        lemma_first_repeat_distinct(keys, n);
        assert forall|i: int| 0 <= i < servers.len() implies ip_addr_from_str_ok(#[trigger] servers[i]) by {
            assert(servers[i] == c.dns.servers@[i]@);
        }
        lemma_first_bad_address_all(servers, servers.len());
    }
}

/// `n` is a count of available CPUs as `num_cpus::get` reported it: a value
/// that a call of `available_cpus` returned. Only such a call establishes it.
pub closed spec fn is_cpu_count(n: usize) -> bool {
    call_ensures(available_cpus, (), n)
}

/// A reported CPU count is at least 1.
pub proof fn lemma_cpu_count_positive(n: usize)
    requires
        is_cpu_count(n),
    ensures
        n >= 1,
{
}

/// Asks `num_cpus` for the number of available CPUs; the answer is recorded
/// as a reported CPU count.
fn cpu_count() -> (r: usize)
    ensures
        is_cpu_count(r),
        r >= 1,
{
    let r = available_cpus();
    proof {
        assert(call_ensures(available_cpus, (), r));
    }
    r
}

/// `a` and `b` agree on every setting except possibly the thread count.
pub open spec fn same_but_threads(a: Config, b: Config) -> bool {
    &&& a.scan.method == b.scan.method
    &&& a.scan.timeout_ms == b.scan.timeout_ms
    &&& a.scan.rate_limit == b.scan.rate_limit
    &&& a.scan.randomize == b.scan.randomize
    &&& a.scan.tcp_port == b.scan.tcp_port
    &&& a.output == b.output
    &&& a.dns == b.dns
    &&& a.subnets == b.subnets
}

/// Replaces a thread count of 0 ("all cores") by `cpus`.
pub fn with_thread_count(config: Config, cpus: usize) -> (r: Config)
    ensures
        same_but_threads(r, config),
        r.scan.threads == if config.scan.threads == 0 { cpus } else { config.scan.threads },
{
    let mut config = config;
    if config.scan.threads == 0 {
        config.scan.threads = cpus;
    }
    config
}

/// Checks a freshly parsed configuration and resolves a thread count of 0 to
/// the number of available CPUs.
pub fn finalize_config(config: Config) -> (r: Result<Config, ConfigError>)
    ensures
        match r {
            Ok(c) => {
                &&& config_check(config) is Ok
                &&& same_but_threads(c, config)
                &&& config.scan.threads != 0 ==> c.scan.threads == config.scan.threads
                &&& config.scan.threads == 0 ==> c.scan.threads >= 1 && is_cpu_count(c.scan.threads)
            },
            Err(e) => config_check(config) == Err::<(), ConfigErrorView>(e@),
        },
{
    match validate_config(&config) {
        Err(e) => Err(e),
        Ok(()) => {
            if config.scan.threads == 0 {
                let cpus = cpu_count();
                Ok(with_thread_count(config, cpus))
            } else {
                Ok(config)
            }
        },
    }
}

/// Applies the command-line overrides to `config`: an output file replaces
/// the configured one, and a thread count replaces the configured one, with
/// 0 standing for `cpus`.
pub fn with_cli_overrides(config: Config, cli: &Cli, cpus: usize) -> (r: Config)
    ensures
        r.scan.method == config.scan.method,
        r.scan.timeout_ms == config.scan.timeout_ms,
        r.scan.rate_limit == config.scan.rate_limit,
        r.scan.randomize == config.scan.randomize,
        r.scan.tcp_port == config.scan.tcp_port,
        r.output.format == config.output.format,
        r.output.include_unreachable == config.output.include_unreachable,
        r.dns == config.dns,
        r.subnets == config.subnets,
        r.scan.threads == match cli.threads {
            Some(t) => if t == 0 { cpus } else { t },
            None => config.scan.threads,
        },
        r.output.file@ == match cli.output {
            Some(o) => o@,
            None => config.output.file@,
        },
{
    let mut config = config;
    match cli.threads {
        Some(t) => {
            config.scan.threads = if t == 0 { cpus } else { t };
        },
        None => {},
    }
    match &cli.output {
        Some(o) => {
            config.output.file = o.clone();
        },
        None => {},
    }
    config
}

/// Applies the command-line overrides to `config`; a thread count of 0 on the
/// command line stands for the number of available CPUs.
pub fn apply_cli_overrides(config: Config, cli: &Cli) -> (r: Config)
    ensures
        r.scan.method == config.scan.method,
        r.scan.timeout_ms == config.scan.timeout_ms,
        r.scan.rate_limit == config.scan.rate_limit,
        r.scan.randomize == config.scan.randomize,
        r.scan.tcp_port == config.scan.tcp_port,
        r.output.format == config.output.format,
        r.output.include_unreachable == config.output.include_unreachable,
        r.dns == config.dns,
        r.subnets == config.subnets,
        match cli.threads {
            Some(t) => if t == 0 {
                r.scan.threads >= 1 && is_cpu_count(r.scan.threads)
            } else {
                r.scan.threads == t
            },
            None => r.scan.threads == config.scan.threads,
        },
        r.output.file@ == match cli.output {
            Some(o) => o@,
            None => config.output.file@,
        },
{
    let cpus = match cli.threads {
        Some(0) => cpu_count(),
        _ => 1,
    };
    with_cli_overrides(config, cli, cpus)
}

} // verus!
