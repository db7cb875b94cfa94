//! Progress reporting: the interface that the scan drives, the silent
//! reporter, and the texts that a display shows.

use vstd::prelude::*;
use crate::config::SubnetEntry;
use crate::text::{push_char, push_str, thousands, format_number};

verus! {

/// Receives the progress of a scan.
pub trait ProgressReporter: Send + Sync {
    /// One more host of subnet `subnet_index` was probed; `global_scanned`
    /// hosts have been probed in all.
    fn update(&self, subnet_index: usize, global_scanned: usize);

    /// A host of subnet `subnet_index` answered.
    fn record_hit(&self, subnet_index: usize);

    /// The scan is over.
    fn finish(&self);
}

/// No-op progress reporter for quiet mode.
pub struct SilentProgress;

impl ProgressReporter for SilentProgress {
    fn update(&self, subnet_index: usize, global_scanned: usize) {
    }

    fn record_hit(&self, subnet_index: usize) {
    }

    fn finish(&self) {
    }
}

/// The caption of a subnet: its CIDR, followed by its label in parentheses
/// when it has one.
pub open spec fn label_text(entry: SubnetEntry) -> Seq<char> {
    if entry.label@.len() == 0 {
        entry.cidr@
    } else {
        entry.cidr@ + seq![' ', '('] + entry.label@ + seq![')']
    }
}

/// The caption of a subnet's progress bar.
pub fn subnet_label(entry: &SubnetEntry) -> (r: String)
    ensures
        r@ == label_text(*entry),
{
    if entry.label.as_str().is_empty() {
        proof {
            assert(entry.label@.len() == 0);
        }
        entry.cidr.clone()
    } else {
        let mut s = entry.cidr.clone();
        push_char(&mut s, ' ');
        push_char(&mut s, '(');
        push_str(&mut s, entry.label.as_str());
        push_char(&mut s, ')');
        proof {
            assert(s@ =~= label_text(*entry));
        }
        s
    }
}

/// The hit counter text: the count with thousands separators, then " found".
pub open spec fn found_text(count: nat) -> Seq<char> {
    thousands(count) + seq![' ', 'f', 'o', 'u', 'n', 'd']
}

/// The hit counter text for `count` hits, e.g. `"1,024 found"`.
pub fn found_message(count: u64) -> (r: String)
    ensures
        r@ == found_text(count as nat),
{
    let mut s = format_number(count);
    push_char(&mut s, ' ');
    push_char(&mut s, 'f');
    push_char(&mut s, 'o');
    push_char(&mut s, 'u');
    push_char(&mut s, 'n');
    push_char(&mut s, 'd');
    proof {
        assert(s@ =~= found_text(count as nat));
    }
    s
}

} // verus!
