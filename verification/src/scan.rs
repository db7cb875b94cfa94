//! Scan planning: expanding the configured subnets into the list of hosts to
//! probe, in the order that the randomization mode asks for.

use vstd::prelude::*;
use rand::seq::SliceRandom;
use crate::config::{
    RandomizeMode, SubnetEntry, Config, config_check, cidr_texts, lemma_first_unparsable_none,
};
use crate::net::{Ipv4Cidr, cidr_parses, parsed_cidr, hosts_of, parse_cidr, hosts};

verus! {

broadcast use vstd::multiset::group_multiset_axioms;

/// One host to probe: its address, the index of the subnet it belongs to,
/// and the host name found for it, if any.
#[derive(Debug, Clone)]
pub struct ScanTarget {
    pub ip: u32,
    pub subnet_index: usize,
    pub hostname: Option<String>,
}

/// A copy of `t`.
pub fn copy_target(t: &ScanTarget) -> (r: ScanTarget)
    ensures
        r == *t,
{
    let hostname = match &t.hostname {
        Some(h) => Some(h.clone()),
        None => None,
    };
    ScanTarget { ip: t.ip, subnet_index: t.subnet_index, hostname }
}

/// A fresh target for address `ip` of subnet `k`.
pub open spec fn target_of(ip: u32, k: int) -> ScanTarget {
    ScanTarget { ip, subnet_index: k as usize, hostname: None }
}

/// The targets of subnet `k`, whose hosts are `hosts`, in that order.
pub open spec fn subnet_targets(hosts: Seq<u32>, k: int) -> Seq<ScanTarget> {
    Seq::new(hosts.len(), |i: int| target_of(hosts[i], k))
}

/// The networks of the subnet entries.
pub open spec fn subnet_nets(subnets: Seq<SubnetEntry>) -> Seq<Ipv4Cidr> {
    Seq::new(subnets.len(), |i: int| parsed_cidr(subnets[i].cidr@))
}

/// All subnet entries hold a network that parses.
pub open spec fn all_cidrs_parse(subnets: Seq<SubnetEntry>) -> bool {
    forall|i: int| 0 <= i < subnets.len() ==> #[trigger] cidr_parses(subnets[i].cidr@)
}

/// The targets of each subnet, each in address order.
pub open spec fn targets_by_subnet(subnets: Seq<SubnetEntry>) -> Seq<Seq<ScanTarget>> {
    Seq::new(subnets.len(), |k: int| subnet_targets(hosts_of(subnet_nets(subnets)[k]), k))
}

/// The concatenation of the first `m` sequences of `s`.
pub open spec fn concat_first<A>(s: Seq<Seq<A>>, m: nat) -> Seq<A>
    decreases m,
{
    if m == 0 {
        Seq::empty()
    } else {
        concat_first(s, (m - 1) as nat) + s[m - 1]
    }
}

/// The concatenation of all sequences of `s`.
pub open spec fn concat_all<A>(s: Seq<Seq<A>>) -> Seq<A> {
    concat_first(s, s.len())
}

/// All targets: subnet by subnet, each subnet in address order.
pub open spec fn sequential_targets(subnets: Seq<SubnetEntry>) -> Seq<ScanTarget> {
    concat_all(targets_by_subnet(subnets))
}

/// Row `i` of a round-robin over the first `m` sequences of `s`: the `i`-th
/// element of each of them that is long enough, in order.
pub open spec fn rr_row<A>(s: Seq<Seq<A>>, i: int, m: nat) -> Seq<A>
    decreases m,
{
    if m == 0 {
        Seq::empty()
    } else {
        rr_row(s, i, (m - 1) as nat) + if i < s[m - 1].len() {
            seq![s[m - 1][i]]
        } else {
            Seq::empty()
        }
    }
}

/// The first `r` rows of the round-robin over `s`.
pub open spec fn rr_rows<A>(s: Seq<Seq<A>>, r: nat) -> Seq<A>
    decreases r,
{
    if r == 0 {
        Seq::empty()
    } else {
        rr_rows(s, (r - 1) as nat) + rr_row(s, r - 1, s.len())
    }
}

/// The greatest length among the first `m` sequences of `s`.
pub open spec fn max_len<A>(s: Seq<Seq<A>>, m: nat) -> nat
    decreases m,
{
    if m == 0 {
        0
    } else if max_len(s, (m - 1) as nat) < s[m - 1].len() {
        s[m - 1].len()
    } else {
        max_len(s, (m - 1) as nat)
    }
}

/// Round-robin interleaving: the first element of every sequence, then the
/// second of every sequence that has one, and so on.
pub open spec fn round_robin<A>(s: Seq<Seq<A>>) -> Seq<A> {
    rr_rows(s, max_len(s, s.len()))
}

/// `shuffled` holds, for each subnet, a reordering of that subnet's targets.
pub open spec fn shuffled_by_subnet(
    shuffled: Seq<Seq<ScanTarget>>,
    subnets: Seq<SubnetEntry>,
) -> bool {
    &&& shuffled.len() == subnets.len()
    &&& forall|k: int|
        0 <= k < shuffled.len() ==> (#[trigger] shuffled[k]).to_multiset()
            == targets_by_subnet(subnets)[k].to_multiset()
}

/// Calls `rand::seq::SliceRandom::shuffle` with `rand::thread_rng()`. The
/// order that comes out is random, so the contract states only that the
/// elements are permuted.
#[verifier::external_body]
fn shuffle(v: Vec<ScanTarget>) -> (r: Vec<ScanTarget>)
    ensures
        r@.to_multiset() == v@.to_multiset(),
{
    let mut v = v;
    v.shuffle(&mut rand::thread_rng());
    v
}

/// `after` is an outcome of shuffling `before` with `rand`'s thread-local
/// generator: a value that a call of the shuffle returned on that input.
/// Only such a call establishes it; `before` itself is not one unless the
/// generator happened to return it.
pub closed spec fn is_shuffle_of(after: Seq<ScanTarget>, before: Seq<ScanTarget>) -> bool {
    exists|a: Vec<ScanTarget>, b: Vec<ScanTarget>|
        #![trigger call_ensures(shuffle, (b,), a)]
        a@ == after && b@ == before && call_ensures(shuffle, (b,), a)
}

/// The outcome of a shuffle is a reordering of its input.
pub proof fn lemma_shuffle_permutes(after: Seq<ScanTarget>, before: Seq<ScanTarget>)
    requires
        is_shuffle_of(after, before),
    ensures
        after.to_multiset() == before.to_multiset(),
{
    let (a, b) = choose|a: Vec<ScanTarget>, b: Vec<ScanTarget>|
        #![trigger call_ensures(shuffle, (b,), a)]
        a@ == after && b@ == before && call_ensures(shuffle, (b,), a);
    assert(a@.to_multiset() == b@.to_multiset());
}

/// Shuffles `v`; the result is recorded as an outcome of the shuffle.
fn shuffle_targets(v: Vec<ScanTarget>) -> (r: Vec<ScanTarget>)
    ensures
        is_shuffle_of(r@, v@),
        r@.to_multiset() == v@.to_multiset(),
{
    let ghost before = v;
    let r = shuffle(v);
    proof {
        assert(call_ensures(shuffle, (before,), r));
    }
    r
}

/// `plan` is an order of scanning `subnets` that `mode` allows: every host
/// of every subnet exactly once; in subnet and address order for
/// `Sequential`; a round-robin over per-subnet reorderings for `PerSubnet`.
pub open spec fn is_scan_plan(plan: Seq<ScanTarget>, subnets: Seq<SubnetEntry>, mode: RandomizeMode) -> bool {
    &&& plan.to_multiset() == sequential_targets(subnets).to_multiset()
    &&& mode == RandomizeMode::Sequential ==> plan == sequential_targets(subnets)
    &&& mode == RandomizeMode::Global ==> is_shuffle_of(plan, sequential_targets(subnets))
    &&& mode == RandomizeMode::PerSubnet ==> exists|shuffled: Seq<Seq<ScanTarget>>|
        shuffled_by_subnet(shuffled, subnets) && shuffle_outcomes(shuffled, subnets) && plan
            == round_robin(shuffled)
}

/// `shuffled` holds, for each subnet, an outcome of shuffling that subnet's
/// targets.
pub open spec fn shuffle_outcomes(shuffled: Seq<Seq<ScanTarget>>, subnets: Seq<SubnetEntry>) -> bool {
    &&& shuffled.len() == subnets.len()
    &&& forall|k: int|
        0 <= k < shuffled.len() ==> is_shuffle_of(#[trigger] shuffled[k], targets_by_subnet(subnets)[k])
}

/// The prefix of length `min(r, len)` of each of the first `m` sequences of
/// `s`, concatenated.
pub open spec fn prefixes<A>(s: Seq<Seq<A>>, r: nat, m: nat) -> Seq<A>
    decreases m,
{
    if m == 0 {
        Seq::empty()
    } else {
        prefixes(s, r, (m - 1) as nat) + s[m - 1].take(
            if r < s[m - 1].len() { r as int } else { s[m - 1].len() as int },
        )
    }
}

proof fn lemma_row_extends_prefixes<A>(s: Seq<Seq<A>>, r: nat, m: nat)
    requires
        m <= s.len(),
    ensures
        prefixes(s, r + 1, m).to_multiset() == prefixes(s, r, m).to_multiset().add(
            rr_row(s, r as int, m).to_multiset(),
        ),
    decreases m,
{
    broadcast use vstd::seq_lib::lemma_multiset_commutative;

    if m > 0 {
        lemma_row_extends_prefixes(s, r, (m - 1) as nat);
        let t = s[m - 1];
        let old_take = t.take(if r < t.len() { r as int } else { t.len() as int });
        let new_take = t.take(if r + 1 < t.len() { (r + 1) as int } else { t.len() as int });
        let extra: Seq<A> = if (r as int) < t.len() { seq![t[r as int]] } else { Seq::empty() };
        assert(new_take =~= old_take + extra);
        assert(prefixes(s, r + 1, m) == prefixes(s, r + 1, (m - 1) as nat) + new_take);
        assert(prefixes(s, r, m) == prefixes(s, r, (m - 1) as nat) + old_take);
        assert(rr_row(s, r as int, m) == rr_row(s, r as int, (m - 1) as nat) + extra);
        assert(prefixes(s, r + 1, m).to_multiset() =~= prefixes(s, r, m).to_multiset().add(
            rr_row(s, r as int, m).to_multiset(),
        ));
    } else {
        broadcast use vstd::seq_lib::group_to_multiset_ensures;
        broadcast use vstd::multiset::lemma_multiset_empty_len;

        assert(Seq::<A>::empty().to_multiset().len() == 0);
        assert(prefixes(s, r + 1, m).to_multiset() =~= prefixes(s, r, m).to_multiset().add(
            rr_row(s, r as int, m).to_multiset(),
        ));
    }
}

/// Round-robin fairness: after the first `r` rows, exactly the first `r`
/// elements of each sequence (or all of a shorter one) have been emitted, so
/// every subnet makes progress at the same pace.
pub proof fn lemma_rows_are_prefixes<A>(s: Seq<Seq<A>>, r: nat)
    ensures
        rr_rows(s, r).to_multiset() == prefixes(s, r, s.len()).to_multiset(),
    decreases r,
{
    broadcast use vstd::seq_lib::lemma_multiset_commutative;

    if r == 0 {
        lemma_prefixes_zero(s, s.len());
    } else {
        lemma_rows_are_prefixes(s, (r - 1) as nat);
        lemma_row_extends_prefixes(s, (r - 1) as nat, s.len());
        assert(rr_rows(s, r).to_multiset() =~= prefixes(s, r, s.len()).to_multiset());
    }
}

proof fn lemma_prefixes_zero<A>(s: Seq<Seq<A>>, m: nat)
    requires
        m <= s.len(),
    ensures
        prefixes(s, 0, m) == Seq::<A>::empty(),
    decreases m,
{
    if m > 0 {
        lemma_prefixes_zero(s, (m - 1) as nat);
        assert(prefixes(s, 0, m) =~= Seq::<A>::empty());
    }
}

proof fn lemma_max_len<A>(s: Seq<Seq<A>>, m: nat)
    requires
        m <= s.len(),
    ensures
        forall|k: int| 0 <= k < m ==> (#[trigger] s[k]).len() <= max_len(s, m),
    decreases m,
{
    if m > 0 {
        lemma_max_len(s, (m - 1) as nat);
    }
}

proof fn lemma_full_prefixes<A>(s: Seq<Seq<A>>, r: nat, m: nat)
    requires
        m <= s.len(),
        forall|k: int| 0 <= k < m ==> (#[trigger] s[k]).len() <= r,
    ensures
        prefixes(s, r, m) == concat_first(s, m),
    decreases m,
{
    if m > 0 {
        lemma_full_prefixes(s, r, (m - 1) as nat);
        assert(s[m - 1].take(s[m - 1].len() as int) =~= s[m - 1]);
    }
}

/// Round-robin interleaving keeps every element exactly once: it is a
/// permutation of the concatenation.
pub proof fn lemma_round_robin_permutes<A>(s: Seq<Seq<A>>)
    ensures
        round_robin(s).to_multiset() == concat_all(s).to_multiset(),
{
    lemma_rows_are_prefixes(s, max_len(s, s.len()));
    lemma_max_len(s, s.len());
    lemma_full_prefixes(s, max_len(s, s.len()), s.len());
}

/// Concatenations of pointwise permuted sequences are permutations of each
/// other.
pub proof fn lemma_concat_permuted<A>(a: Seq<Seq<A>>, b: Seq<Seq<A>>, m: nat)
    requires
        m <= a.len(),
        m <= b.len(),
        forall|k: int| 0 <= k < m ==> (#[trigger] a[k]).to_multiset() == b[k].to_multiset(),
    ensures
        concat_first(a, m).to_multiset() == concat_first(b, m).to_multiset(),
    decreases m,
{
    broadcast use vstd::seq_lib::lemma_multiset_commutative;

    if m > 0 {
        lemma_concat_permuted(a, b, (m - 1) as nat);
        assert(a[m - 1].to_multiset() == b[m - 1].to_multiset());
    }
}

/// The contents of each inner vector.
pub open spec fn rows_of(v: Seq<Vec<ScanTarget>>) -> Seq<Seq<ScanTarget>> {
    Seq::new(v.len(), |k: int| v[k]@)
}

/// The targets of subnet `k`, whose network is `net`, in address order.
fn subnet_target_list(net: Ipv4Cidr, k: usize) -> (r: Vec<ScanTarget>)
    requires
        net.prefix_len <= 32,
    ensures
        r@ == subnet_targets(hosts_of(net), k as int),
{
    let ips = hosts(net);
    let mut r: Vec<ScanTarget> = Vec::new();
    let mut i: usize = 0;
    while i < ips.len()
        invariant
            ips@ == hosts_of(net),
            i <= ips@.len(),
            r@ == subnet_targets(ips@, k as int).take(i as int),
        decreases ips@.len() - i,
    {
        r.push(ScanTarget { ip: ips[i], subnet_index: k, hostname: None });
        proof {
            assert(r@ =~= subnet_targets(ips@, k as int).take(i + 1));
        }
        i = i + 1;
    }
    proof {
        assert(r@ =~= subnet_targets(ips@, k as int));
    }
    r
}

/// Interleaves the target lists round-robin: the first target of every list,
/// then the second target of every list that has one, and so on.
pub fn interleave_round_robin(lists: &Vec<Vec<ScanTarget>>) -> (r: Vec<ScanTarget>)
    ensures
        r@ == round_robin(rows_of(lists@)),
{
    let ghost rows = rows_of(lists@);
    let n = lists.len();
    let mut longest: usize = 0;
    let mut k: usize = 0;
    while k < n
        invariant
            n == lists@.len(),
            rows == rows_of(lists@),
            k <= n,
            longest == max_len(rows, k as nat),
        decreases n - k,
    {
        if longest < lists[k].len() {
            longest = lists[k].len();
        }
        k = k + 1;
    }
    let mut r: Vec<ScanTarget> = Vec::new();
    let mut i: usize = 0;
    while i < longest
        invariant
            n == lists@.len(),
            rows == rows_of(lists@),
            longest == max_len(rows, n as nat),
            i <= longest,
            r@ == rr_rows(rows, i as nat),
        decreases longest - i,
    {
        let mut k: usize = 0;
        while k < n
            invariant
                n == lists@.len(),
                rows == rows_of(lists@),
                i < longest,
                k <= n,
                r@ == rr_rows(rows, i as nat) + rr_row(rows, i as int, k as nat),
            decreases n - k,
        {
            if i < lists[k].len() {
                r.push(copy_target(&lists[k][i]));
            }
            proof {
                assert(rows[k as int] == lists@[k as int]@);
                assert(r@ =~= rr_rows(rows, i as nat) + rr_row(rows, i as int, (k + 1) as nat));
            }
            k = k + 1;
        }
        proof {
            assert(rows.len() == n);
            assert(r@ =~= rr_rows(rows, (i + 1) as nat));
        }
        i = i + 1;
    }
    r
}

/// Expands the subnets into the targets to probe, ordered as `mode` asks:
/// `Sequential` goes subnet by subnet, each in address order; `Global`
/// shuffles all targets together; `PerSubnet` shuffles each subnet on its
/// own and then interleaves the subnets round-robin. Whatever the mode,
/// every host of every subnet appears exactly once.
pub fn build_scan_targets(subnets: &[SubnetEntry], mode: &RandomizeMode) -> (r: Vec<ScanTarget>)
    requires
        all_cidrs_parse(subnets@),
    ensures
        is_scan_plan(r@, subnets@, *mode),
{
    let ghost by_subnet = targets_by_subnet(subnets@);
    let n = subnets.len();
    let mut lists: Vec<Vec<ScanTarget>> = Vec::new();
    let mut k: usize = 0;
    while k < n
        invariant
            n == subnets@.len(),
            all_cidrs_parse(subnets@),
            by_subnet == targets_by_subnet(subnets@),
            k <= n,
            lists@.len() == k,
            forall|j: int| 0 <= j < k ==> (#[trigger] lists@[j])@ == by_subnet[j],
        decreases n - k,
    {
        proof {
            assert(cidr_parses(subnets@[k as int].cidr@));
        }
        let net = parse_cidr(subnets[k].cidr.as_str()).unwrap();
        let list = subnet_target_list(net, k);
        lists.push(list);
        k = k + 1;
    }
    proof {
        assert(rows_of(lists@) =~= by_subnet);
    }
    match mode {
        RandomizeMode::Sequential => {
            let r = concat_lists(lists);
            r
        },
        RandomizeMode::Global => {
            let r = concat_lists(lists);
            let r = shuffle_targets(r);
            r
        },
        RandomizeMode::PerSubnet => {
            let mut rev_rows: Vec<Vec<ScanTarget>> = Vec::new();
            let mut lists = lists;
            let mut k: usize = n;
            let ghost full = lists@;
            while k > 0
                invariant
                    k <= n,
                    full.len() == n,
                    lists@ == full.take(k as int),
                    rev_rows@.len() == n - k,
                    forall|j: int| 0 <= j < n - k ==>
                        (#[trigger] rev_rows@[j])@.to_multiset() == full[n - 1 - j]@.to_multiset(),
                    forall|j: int| 0 <= j < n - k ==>
                        is_shuffle_of((#[trigger] rev_rows@[j])@, full[n - 1 - j]@),
                decreases k,
            {
                let list = lists.pop().unwrap();
                proof {
                    assert(list@ == full[k - 1]@);
                    assert(lists@ =~= full.take(k - 1));
                }
                let list = shuffle_targets(list);
                rev_rows.push(list);
                k = k - 1;
            }
            let mut ordered: Vec<Vec<ScanTarget>> = Vec::new();
            let mut j: usize = 0;
            let ghost rev = rev_rows@;
            while j < n
                invariant
                    j <= n,
                    rev.len() == n,
                    rev_rows@ == rev.take((n - j) as int),
                    ordered@.len() == j,
                    forall|i: int| 0 <= i < j ==> (#[trigger] ordered@[i]) == rev[n - 1 - i],
                decreases n - j,
            {
                let list = rev_rows.pop().unwrap();
                proof {
                    assert(rev_rows@ =~= rev.take((n - j - 1) as int));
                }
                ordered.push(list);
                j = j + 1;
            }
            let r = interleave_round_robin(&ordered);
            proof {
                let t = rows_of(ordered@);
                assert forall|k: int| 0 <= k < t.len() implies (#[trigger] t[k]).to_multiset()
                    == by_subnet[k].to_multiset() by {
                    assert(ordered@[k] == rev[n - 1 - k]);
                    assert(rev[n - 1 - k]@.to_multiset() == full[n - 1 - (n - 1 - k)]@.to_multiset());
                    assert(full[k]@ == by_subnet[k]);
                }
                assert forall|k: int| 0 <= k < t.len() implies is_shuffle_of(#[trigger] t[k], by_subnet[k]) by {
                    assert(ordered@[k] == rev[n - 1 - k]);
                    assert(full[k]@ == by_subnet[k]);
                }
                assert(shuffled_by_subnet(t, subnets@));
                assert(shuffle_outcomes(t, subnets@));
                lemma_round_robin_permutes(t);
                lemma_concat_permuted(t, by_subnet, n as nat);
            }
            r
        },
    }
}

/// Like `build_scan_targets`, but first checks that every subnet holds a
/// network that parses, and returns `None` if one does not.
pub fn try_build_scan_targets(subnets: &[SubnetEntry], mode: &RandomizeMode) -> (r: Option<Vec<ScanTarget>>)
    ensures
        (r is Some) == all_cidrs_parse(subnets@),
        r matches Some(v) ==> is_scan_plan(v@, subnets@, *mode),
{
    let mut k: usize = 0;
    while k < subnets.len()
        invariant
            k <= subnets@.len(),
            forall|j: int| 0 <= j < k ==> #[trigger] cidr_parses(subnets@[j].cidr@),
        decreases subnets@.len() - k,
    {
        if parse_cidr(subnets[k].cidr.as_str()).is_none() {
            proof {
                assert(!cidr_parses(subnets@[k as int].cidr@));
            }
            return None;
        }
        k = k + 1;
    }
    Some(build_scan_targets(subnets, mode))
}

/// A configuration that passes validation can be planned: every one of its
/// subnets holds a network that parses.
pub proof fn lemma_valid_config_plannable(c: Config)
    requires
        config_check(c) is Ok,
    ensures
        all_cidrs_parse(c.subnets@),
{
    let cidrs = cidr_texts(c.subnets@);
    assert forall|i: int| 0 <= i < c.subnets@.len() implies #[trigger] cidr_parses(c.subnets@[i].cidr@) by {
        lemma_first_unparsable_none(cidrs, cidrs.len(), i);
        assert(cidrs[i] == c.subnets@[i].cidr@);
    }
}

/// The number of hosts of the first `m` subnets.
pub open spec fn total_hosts(subnets: Seq<SubnetEntry>, m: nat) -> nat
    decreases m,
{
    if m == 0 {
        0
    } else {
        total_hosts(subnets, (m - 1) as nat) + hosts_of(subnet_nets(subnets)[m - 1]).len()
    }
}

proof fn lemma_concat_len(subnets: Seq<SubnetEntry>, m: nat)
    requires
        m <= subnets.len(),
    ensures
        concat_first(targets_by_subnet(subnets), m).len() == total_hosts(subnets, m),
    decreases m,
{
    if m > 0 {
        lemma_concat_len(subnets, (m - 1) as nat);
    }
}

/// Every scan plan probes as many hosts as the subnets hold in total, the
/// figure that the progress display announces.
pub proof fn lemma_plan_size(plan: Seq<ScanTarget>, subnets: Seq<SubnetEntry>, mode: RandomizeMode)
    requires
        is_scan_plan(plan, subnets, mode),
    ensures
        plan.len() == total_hosts(subnets, subnets.len()),
{
    broadcast use vstd::seq_lib::group_to_multiset_ensures;

    lemma_concat_len(subnets, subnets.len());
    assert(plan.to_multiset().len() == plan.len());
    assert(sequential_targets(subnets).to_multiset().len() == sequential_targets(subnets).len());
}

/// The concatenation of `lists`, in order.
fn concat_lists(lists: Vec<Vec<ScanTarget>>) -> (r: Vec<ScanTarget>)
    ensures
        r@ == concat_all(rows_of(lists@)),
{
    let ghost rows = rows_of(lists@);
    let n = lists.len();
    let mut r: Vec<ScanTarget> = Vec::new();
    let mut lists = lists;
    let mut k: usize = 0;
    let ghost full = lists@;
    let mut rev: Vec<Vec<ScanTarget>> = Vec::new();
    while k < n
        invariant
            n == full.len(),
            k <= n,
            lists@ == full.take((n - k) as int),
            rev@.len() == k,
            forall|i: int| 0 <= i < k ==> (#[trigger] rev@[i]) == full[n - 1 - i],
        decreases n - k,
    {
        let list = lists.pop().unwrap();
        proof {
            assert(lists@ =~= full.take((n - k - 1) as int));
        }
        rev.push(list);
        k = k + 1;
    }
    let mut k: usize = 0;
    while k < n
        invariant
            n == full.len(),
            rows == rows_of(full),
            k <= n,
            rev@.len() == n - k,
            forall|i: int| 0 <= i < n - k ==> (#[trigger] rev@[i]) == full[n - 1 - i],
            r@ == concat_first(rows, k as nat),
        decreases n - k,
    {
        let mut list = rev.pop().unwrap();
        proof {
            assert(list == full[k as int]);
        }
        r.append(&mut list);
        proof {
            assert(r@ =~= concat_first(rows, (k + 1) as nat));
        }
        k = k + 1;
    }
    r
}

} // verus!
