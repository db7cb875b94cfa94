//! Rendering of the reachable hosts: address order, the plain one-per-line
//! text and the records of the JSON output.

use vstd::prelude::*;
use crate::config::SubnetEntry;
use crate::net::{ipv4_text, ipv4_string, push_ipv4};
use crate::scan::{ScanTarget, copy_target};
use crate::text::{push_char, push_str};

verus! {

/// The targets are in nondecreasing address order.
pub open spec fn sorted_by_ip(ts: Seq<ScanTarget>) -> bool {
    forall|i: int, j: int| 0 <= i <= j < ts.len() ==> ts[i].ip <= ts[j].ip
}

/// The targets of `ts` with address `ip`, in their order in `ts`.
pub open spec fn with_ip(ts: Seq<ScanTarget>, ip: u32) -> Seq<ScanTarget> {
    ts.filter(|t: ScanTarget| t.ip == ip)
}

/// Calls `slice::sort_by_key` keyed on the address. As std documents it, the
/// result is a permutation in nondecreasing address order, and the sort is
/// stable: targets with equal addresses keep their relative order.
#[verifier::external_body]
fn sort_by_address(v: &mut Vec<ScanTarget>)
    ensures
        final(v)@.to_multiset() == old(v)@.to_multiset(),
        sorted_by_ip(final(v)@),
        forall|ip: u32| #[trigger] with_ip(final(v)@, ip) == with_ip(old(v)@, ip),
{
    v.sort_by_key(|t| t.ip);
}

/// A copy of `targets` in nondecreasing address order; targets with equal
/// addresses keep their relative order.
pub fn sorted_by_address(targets: &Vec<ScanTarget>) -> (r: Vec<ScanTarget>)
    ensures
        r@.to_multiset() == targets@.to_multiset(),
        sorted_by_ip(r@),
        forall|ip: u32| #[trigger] with_ip(r@, ip) == with_ip(targets@, ip),
{
    let mut r: Vec<ScanTarget> = Vec::new();
    let mut i: usize = 0;
    while i < targets.len()
        invariant
            i <= targets@.len(),
            r@ == targets@.take(i as int),
        decreases targets@.len() - i,
    {
        r.push(copy_target(&targets[i]));
        proof {
            assert(r@ =~= targets@.take(i + 1));
        }
        i = i + 1;
    }
    proof {
        assert(r@ =~= targets@);
    }
    sort_by_address(&mut r);
    r
}

/// The output line of a target: its address, then a tab and its host name
/// if it has one, then a newline.
pub open spec fn plain_line(t: ScanTarget) -> Seq<char> {
    match t.hostname {
        Some(h) => ipv4_text(t.ip as nat) + seq!['\t'] + h@ + seq!['\n'],
        None => ipv4_text(t.ip as nat) + seq!['\n'],
    }
}

/// The plain output: one line per target, in order.
pub open spec fn plain_text(ts: Seq<ScanTarget>) -> Seq<char>
    decreases ts.len(),
{
    if ts.len() == 0 {
        Seq::empty()
    } else {
        plain_text(ts.drop_last()) + plain_line(ts.last())
    }
}

/// The plain output for `targets`, one line per target in the given order.
pub fn format_plain(targets: &[ScanTarget]) -> (r: String)
    ensures
        r@ == plain_text(targets@),
{
    let mut s = String::new();
    let mut i: usize = 0;
    while i < targets.len()
        invariant
            i <= targets@.len(),
            s@ == plain_text(targets@.take(i as int)),
        decreases targets@.len() - i,
    {
        let t = &targets[i];
        let ghost before = s@;
        push_ipv4(&mut s, t.ip);
        match &t.hostname {
            Some(h) => {
                push_char(&mut s, '\t');
                push_str(&mut s, h.as_str());
            },
            None => {},
        }
        push_char(&mut s, '\n');
        proof {
            assert(targets@.take(i + 1).drop_last() =~= targets@.take(i as int));
            assert(s@ =~= before + plain_line(*t));
        }
        i = i + 1;
    }
    proof {
        assert(targets@.take(targets@.len() as int) =~= targets@);
    }
    s
}

/// One record of the JSON output.
#[derive(Debug)]
pub struct ResultEntry {
    pub ip: String,
    pub subnet: String,
    pub label: String,
    pub hostname: Option<String>,
}

/// `r` is the JSON record of target `t`: its address, the CIDR and label of
/// its subnet (empty when the index names no subnet) and its host name.
pub open spec fn is_entry_of(r: ResultEntry, t: ScanTarget, subnets: Seq<SubnetEntry>) -> bool {
    &&& r.ip@ == ipv4_text(t.ip as nat)
    &&& r.subnet@ == if t.subnet_index < subnets.len() {
        subnets[t.subnet_index as int].cidr@
    } else {
        Seq::<char>::empty()
    }
    &&& r.label@ == if t.subnet_index < subnets.len() {
        subnets[t.subnet_index as int].label@
    } else {
        Seq::<char>::empty()
    }
    &&& r.hostname == t.hostname
}

/// The JSON records of `targets`, in the given order.
pub fn json_entries(targets: &[ScanTarget], subnets: &[SubnetEntry]) -> (r: Vec<ResultEntry>)
    ensures
        r@.len() == targets@.len(),
        forall|i: int| 0 <= i < targets@.len() ==> is_entry_of(#[trigger] r@[i], targets@[i], subnets@),
        forall|i: int| 0 <= i < targets@.len() ==> {
            &&& (#[trigger] r@[i]).ip@ == ipv4_text(targets@[i].ip as nat)
            &&& r@[i].hostname == targets@[i].hostname
            &&& targets@[i].subnet_index < subnets@.len() ==> {
                &&& r@[i].subnet@ == subnets@[targets@[i].subnet_index as int].cidr@
                &&& r@[i].label@ == subnets@[targets@[i].subnet_index as int].label@
            }
            &&& targets@[i].subnet_index >= subnets@.len() ==> {
                &&& r@[i].subnet@ == Seq::<char>::empty()
                &&& r@[i].label@ == Seq::<char>::empty()
            }
        },
{
    let mut r: Vec<ResultEntry> = Vec::new();
    let mut i: usize = 0;
    while i < targets.len()
        invariant
            i <= targets@.len(),
            r@.len() == i,
            forall|k: int| 0 <= k < i ==> is_entry_of(#[trigger] r@[k], targets@[k], subnets@),
        decreases targets@.len() - i,
    {
        let t = &targets[i];
        let (subnet, label) = if t.subnet_index < subnets.len() {
            (subnets[t.subnet_index].cidr.clone(), subnets[t.subnet_index].label.clone())
        } else {
            (String::new(), String::new())
        };
        let hostname = match &t.hostname {
            Some(h) => Some(h.clone()),
            None => None,
        };
        r.push(ResultEntry { ip: ipv4_string(t.ip), subnet, label, hostname });
        i = i + 1;
    }
    r
}

} // verus!
