//! Verified core of a parallel IPv4 subnet scanner: configuration checks,
//! scan-target planning, ICMP packet framing, token-bucket rate limiting and
//! result rendering.

pub mod text;
pub mod net;
pub mod config;
pub mod scan;
pub mod echo;
pub mod rate;
pub mod progress;
pub mod results;
pub mod probe;
