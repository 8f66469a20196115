//! Beneficiary ranking: beneficiaries are served in ascending priority; those
//! of equal priority split what their tier receives by allocation bps.
use vstd::prelude::*;
use crate::amounts::{lemma_split_share, min_int};
use crate::keyed_map::{
    has_key, keys_ascending, lemma_lookup_at, lookup, position_of, BeneficiaryId, KeyedMap,
};

verus! {

/// The allocation a beneficiary gets when it is first ranked.
pub const DEFAULT_ALLOCATION_BPS: u32 = 10_000;

/// Storage key under which the ranks are kept.
pub enum RankingKey {
    BeneficiaryRanks,
}

#[derive(Clone, Copy, Debug, PartialEq, Eq)]
pub struct RankedBeneficiary {
    pub address: BeneficiaryId,
    pub priority: u32,
    pub allocation_bps: u32,
}

/// Published when a rank is set.
#[derive(Clone, Copy, Debug, PartialEq, Eq)]
pub struct RankingSetEvent {
    pub beneficiary: BeneficiaryId,
    pub priority: u32,
}

/// Published for each payout.
#[derive(Clone, Copy, Debug, PartialEq, Eq)]
pub struct DistributedByRankEvent {
    pub beneficiary: BeneficiaryId,
    pub priority: u32,
    pub amount: i128,
}

/// The ranked beneficiaries.
pub struct RankRegistry {
    pub ranks: KeyedMap<RankedBeneficiary>,
}

/// What `distribute_by_rank` hands back.
pub struct RankOutcome {
    pub distributions: KeyedMap<i128>,
    pub events: Vec<DistributedByRankEvent>,
}

/// Index of the first entry from `j` on whose priority exceeds `p`.
pub open spec fn insert_pos(s: Seq<RankedBeneficiary>, p: u32, j: int) -> int
    decreases s.len() - j,
{
    if 0 <= j < s.len() && s[j].priority <= p {
        insert_pos(s, p, j + 1)
    } else {
        j
    }
}

/// The first `n` ranked beneficiaries in serving order: each one is placed
/// after every earlier one of lower or equal priority.
pub open spec fn ordered_prefix(entries: Seq<(u64, RankedBeneficiary)>, n: int) -> Seq<
    RankedBeneficiary,
>
    decreases n,
{
    if n <= 0 {
        Seq::empty()
    } else {
        let prev = ordered_prefix(entries, n - 1);
        let x = entries[n - 1].1;
        prev.insert(insert_pos(prev, x.priority, 0), x)
    }
}

pub open spec fn serving_order(entries: Seq<(u64, RankedBeneficiary)>) -> Seq<RankedBeneficiary> {
    ordered_prefix(entries, entries.len() as int)
}

/// End of the run of entries of priority `p` that starts at `j`.
pub open spec fn tier_end(s: Seq<RankedBeneficiary>, p: u32, j: int) -> int
    decreases s.len() - j,
{
    if 0 <= j < s.len() && s[j].priority == p {
        tier_end(s, p, j + 1)
    } else {
        j
    }
}

pub open spec fn sat_add_u32(a: u32, b: u32) -> u32 {
    if a + b > u32::MAX { u32::MAX } else { (a + b) as u32 }
}

/// Allocation bps of entries `i..j`, summed with saturation.
pub open spec fn tier_bps(s: Seq<RankedBeneficiary>, i: int, j: int) -> u32
    decreases j - i,
{
    if j <= i {
        0
    } else {
        sat_add_u32(tier_bps(s, i, j - 1), s[j - 1].allocation_bps)
    }
}

/// What a tier member with `bps` of the tier's `total_bps` receives out of the
/// tier's `base`, limited by what remains.
pub open spec fn tier_share(base: int, bps: u32, total_bps: u32, remaining: int) -> int {
    let amount = if total_bps == 0 { 0 } else { base * bps / (total_bps as int) };
    min_int(amount, remaining)
}

/// Pay the tier members `k..j` out of `base`.
pub open spec fn tier_pay(
    s: Seq<RankedBeneficiary>,
    k: int,
    j: int,
    base: int,
    total_bps: u32,
    remaining: int,
    paid: Map<u64, i128>,
    events: Seq<DistributedByRankEvent>,
) -> (Map<u64, i128>, int, Seq<DistributedByRankEvent>)
    decreases j - k,
{
    if k < 0 || k >= j || k >= s.len() || remaining <= 0 {
        (paid, remaining, events)
    } else {
        let amount = tier_share(base, s[k].allocation_bps, total_bps, remaining);
        tier_pay(
            s,
            k + 1,
            j,
            base,
            total_bps,
            remaining - amount,
            paid.insert(s[k].address, amount as i128),
            events.push(
                DistributedByRankEvent {
                    beneficiary: s[k].address,
                    priority: s[k].priority,
                    amount: amount as i128,
                },
            ),
        )
    }
}

/// Serve the tiers from index `i` on, in order, while funds remain.
pub open spec fn rank_pay(
    s: Seq<RankedBeneficiary>,
    i: int,
    remaining: int,
    paid: Map<u64, i128>,
    events: Seq<DistributedByRankEvent>,
) -> (Map<u64, i128>, int, Seq<DistributedByRankEvent>)
    decreases s.len() - i,
{
    if i < 0 || i >= s.len() || remaining <= 0 {
        (paid, remaining, events)
    } else {
        let j = tier_end(s, s[i].priority, i);
        if i < j <= s.len() {
            let r = tier_pay(s, i, j, remaining, tier_bps(s, i, j), remaining, paid, events);
            rank_pay(s, j, r.1, r.0, r.2)
        } else {
            (paid, remaining, events)
        }
    }
}

/// The payouts for `total_amount`.
pub open spec fn rank_result(entries: Seq<(u64, RankedBeneficiary)>, total_amount: int) -> (
    Map<u64, i128>,
    int,
    Seq<DistributedByRankEvent>,
) {
    rank_pay(serving_order(entries), 0, total_amount, Map::empty(), Seq::empty())
}

pub open spec fn ranks_valid(entries: Seq<(u64, RankedBeneficiary)>) -> bool {
    forall|i: int| 0 <= i < entries.len() ==> (#[trigger] entries[i]).1.address == entries[i].0
}

/// `a` is served before `b`.
pub open spec fn served_before(a: RankedBeneficiary, b: RankedBeneficiary) -> bool {
    a.priority < b.priority || (a.priority == b.priority && a.address < b.address)
}

pub proof fn lemma_insert_pos(s: Seq<RankedBeneficiary>, p: u32, j: int)
    requires
        0 <= j <= s.len(),
    ensures
        j <= insert_pos(s, p, j) <= s.len(),
        forall|k: int| j <= k < insert_pos(s, p, j) ==> s[k].priority <= p,
        insert_pos(s, p, j) < s.len() ==> s[insert_pos(s, p, j)].priority > p,
    decreases s.len() - j,
{
    if j < s.len() && s[j].priority <= p {
        lemma_insert_pos(s, p, j + 1);
    }
}

pub proof fn lemma_tier_end(s: Seq<RankedBeneficiary>, p: u32, j: int)
    requires
        0 <= j <= s.len(),
    ensures
        j <= tier_end(s, p, j) <= s.len(),
        forall|k: int| j <= k < tier_end(s, p, j) ==> s[k].priority == p,
    decreases s.len() - j,
{
    if j < s.len() && s[j].priority == p {
        lemma_tier_end(s, p, j + 1);
    }
}

/// The serving order holds every ranked beneficiary once, sorted by priority and
/// then by address: lower priority values are served first.
#[verifier::spinoff_prover]
#[verifier::rlimit(40)]
pub proof fn law_serving_order_sorted(entries: Seq<(u64, RankedBeneficiary)>, n: int)
    requires
        keys_ascending(entries),
        ranks_valid(entries),
        0 <= n <= entries.len(),
    ensures
        ordered_prefix(entries, n).len() == n,
        forall|a: int, b: int|
            0 <= a < b < n ==> served_before(
                #[trigger] ordered_prefix(entries, n)[a],
                #[trigger] ordered_prefix(entries, n)[b],
            ),
        forall|k: int| 0 <= k < n ==> ordered_prefix(entries, n).contains(#[trigger] entries[k].1),
        forall|a: int|
            0 <= a < n ==> exists|k: int|
                0 <= k < n && #[trigger] ordered_prefix(entries, n)[a] == entries[k].1,
    decreases n,
{
    if n > 0 {
        law_serving_order_sorted(entries, n - 1);
        let prev = ordered_prefix(entries, n - 1);
        let x = entries[n - 1].1;
        lemma_insert_pos(prev, x.priority, 0);
        let pos = insert_pos(prev, x.priority, 0);
        let cur = ordered_prefix(entries, n);
        assert(cur == prev.insert(pos, x));
        assert(x.address == entries[n - 1].0);
        // every earlier beneficiary has a smaller address
        assert forall|a: int| 0 <= a < n - 1 implies (#[trigger] prev[a]).address < x.address by {
            let k = choose|k: int| 0 <= k < n - 1 && prev[a] == entries[k].1;
            assert(entries[k].1.address == entries[k].0);
        }
        assert forall|a: int| pos <= a < n - 1 implies (#[trigger] prev[a]).priority > x.priority by {
            if a > pos {
                assert(served_before(prev[pos], prev[a]));
            }
        }
        assert forall|a: int, b: int| 0 <= a < b < n implies served_before(
            #[trigger] cur[a],
            #[trigger] cur[b],
        ) by {
            if b < pos {
                assert(served_before(prev[a], prev[b]));
            } else if b == pos {
                assert(cur[a] == prev[a]);
            } else if a < pos {
                assert(cur[b] == prev[b - 1]);
                if a < b - 1 {
                    assert(served_before(prev[a], prev[b - 1]));
                }
            } else if a == pos {
                assert(cur[b] == prev[b - 1]);
            } else {
                assert(cur[a] == prev[a - 1]);
                assert(cur[b] == prev[b - 1]);
                assert(served_before(prev[a - 1], prev[b - 1]));
            }
        }
        assert forall|k: int| 0 <= k < n implies cur.contains(#[trigger] entries[k].1) by {
            if k == n - 1 {
                assert(cur[pos] == x);
            } else {
                assert(prev.contains(entries[k].1));
                let a = choose|a: int| 0 <= a < prev.len() && prev[a] == entries[k].1;
                if a < pos {
                    assert(cur[a] == prev[a]);
                } else {
                    assert(cur[a + 1] == prev[a]);
                }
            }
        }
        assert forall|a: int| 0 <= a < n implies exists|k: int|
            0 <= k < n && #[trigger] cur[a] == entries[k].1 by {
            if a == pos {
                assert(cur[a] == entries[n - 1].1);
            } else if a < pos {
                assert(cur[a] == prev[a]);
                let k = choose|k: int| 0 <= k < n - 1 && prev[a] == entries[k].1;
                assert(cur[a] == entries[k].1);
            } else {
                assert(cur[a] == prev[a - 1]);
                let k = choose|k: int| 0 <= k < n - 1 && prev[a - 1] == entries[k].1;
                assert(cur[a] == entries[k].1);
            }
        }
    }
}

/// A tier's saturating bps total is at least each member's bps.
proof fn lemma_tier_bps_covers(s: Seq<RankedBeneficiary>, i: int, j: int, k: int)
    requires
        i <= k < j,
    ensures
        s[k].allocation_bps <= tier_bps(s, i, j),
    decreases j - i,
{
    if k < j - 1 {
        lemma_tier_bps_covers(s, i, j - 1, k);
    }
}

/// The total of the amounts paid in `events`.
pub open spec fn paid_total(events: Seq<DistributedByRankEvent>) -> int
    decreases events.len(),
{
    if events.len() == 0 {
        0
    } else {
        paid_total(events.drop_last()) + events.last().amount
    }
}

/// `events` extends `before` with payouts of no negative amount, and the
/// payouts add up to `amount`.
pub open spec fn pays_out(before: Seq<DistributedByRankEvent>, events: Seq<DistributedByRankEvent>, amount: int) -> bool {
    &&& before.len() <= events.len()
    &&& events.subrange(0, before.len() as int) == before
    &&& forall|i: int| before.len() <= i < events.len() ==> (#[trigger] events[i]).amount >= 0
    &&& paid_total(events) == paid_total(before) + amount
}

proof fn lemma_pays_out_push(before: Seq<DistributedByRankEvent>, mid: Seq<DistributedByRankEvent>, e: DistributedByRankEvent, a: int, rest: Seq<DistributedByRankEvent>, b: int)
    requires
        e.amount >= 0,
        pays_out(mid.push(e), rest, b),
        pays_out(before, mid, a),
    ensures
        pays_out(before, rest, a + e.amount + b),
{
    let m = mid.push(e);
    assert(m.drop_last() =~= mid);
    assert(paid_total(m) == paid_total(mid) + e.amount);
    assert(rest.subrange(0, mid.len() as int) =~= m.subrange(0, mid.len() as int));
    assert(m.subrange(0, mid.len() as int) =~= mid);
    assert(rest.subrange(0, before.len() as int) =~= mid.subrange(0, before.len() as int));
    assert forall|i: int| before.len() <= i < rest.len() implies (#[trigger] rest[i]).amount >= 0 by {
        if i < mid.len() {
            assert(rest[i] == rest.subrange(0, mid.len() as int)[i]);
            assert(rest[i] == mid[i]);
        } else if i == mid.len() {
            assert(rest[i] == rest.subrange(0, m.len() as int)[i]);
            assert(rest[i] == m[i]);
        }
    }
}

proof fn lemma_pays_out_refl(events: Seq<DistributedByRankEvent>)
    ensures
        pays_out(events, events, 0),
{
    assert(events.subrange(0, events.len() as int) =~= events);
}

proof fn lemma_pays_out_trans(a: Seq<DistributedByRankEvent>, b: Seq<DistributedByRankEvent>, c: Seq<DistributedByRankEvent>, x: int, y: int)
    requires
        pays_out(a, b, x),
        pays_out(b, c, y),
    ensures
        pays_out(a, c, x + y),
{
    assert(c.subrange(0, a.len() as int) =~= c.subrange(0, b.len() as int).subrange(0, a.len() as int));
    assert forall|i: int| a.len() <= i < c.len() implies (#[trigger] c[i]).amount >= 0 by {
        if i < b.len() {
            assert(c[i] == c.subrange(0, b.len() as int)[i]);
        }
    }
}

/// A tier's payouts: none negative, none beyond what remains, and together
/// exactly what they take from the remainder.
proof fn lemma_tier_pay_accounts(
    s: Seq<RankedBeneficiary>,
    k: int,
    j: int,
    base: int,
    total_bps: u32,
    remaining: int,
    paid: Map<u64, i128>,
    events: Seq<DistributedByRankEvent>,
)
    requires
        0 <= base <= i128::MAX,
        0 <= remaining <= i128::MAX,
    ensures
        0 <= tier_pay(s, k, j, base, total_bps, remaining, paid, events).1 <= remaining,
        pays_out(
            events,
            tier_pay(s, k, j, base, total_bps, remaining, paid, events).2,
            remaining - tier_pay(s, k, j, base, total_bps, remaining, paid, events).1,
        ),
    decreases j - k,
{
    if k < 0 || k >= j || k >= s.len() || remaining <= 0 {
        lemma_pays_out_refl(events);
    } else {
        let bps = s[k].allocation_bps;
        let raw = if total_bps == 0 { 0 } else { base * bps / (total_bps as int) };
        assert(raw >= 0) by (nonlinear_arith)
            requires
                raw == (if total_bps == 0 { 0 } else { base * bps / (total_bps as int) }),
                base >= 0,
                bps >= 0,
                total_bps >= 0,
        ;
        let amount = tier_share(base, bps, total_bps, remaining);
        assert(0 <= amount <= remaining);
        let e = DistributedByRankEvent { beneficiary: s[k].address, priority: s[k].priority, amount: amount as i128 };
        assert(e.amount == amount);
        lemma_tier_pay_accounts(
            s,
            k + 1,
            j,
            base,
            total_bps,
            remaining - amount,
            paid.insert(s[k].address, amount as i128),
            events.push(e),
        );
        let r = tier_pay(s, k, j, base, total_bps, remaining, paid, events);
        lemma_pays_out_refl(events);
        assert(events.push(e).drop_last() =~= events);
        lemma_pays_out_push(events, events, e, 0, r.2, (remaining - amount) - r.1);
    }
}

proof fn lemma_rank_pay_accounts(
    s: Seq<RankedBeneficiary>,
    i: int,
    remaining: int,
    paid: Map<u64, i128>,
    events: Seq<DistributedByRankEvent>,
)
    requires
        0 <= remaining <= i128::MAX,
    ensures
        0 <= rank_pay(s, i, remaining, paid, events).1 <= remaining,
        pays_out(events, rank_pay(s, i, remaining, paid, events).2, remaining - rank_pay(s, i, remaining, paid, events).1),
    decreases s.len() - i,
{
    if i < 0 || i >= s.len() || remaining <= 0 {
        lemma_pays_out_refl(events);
    } else {
        let j = tier_end(s, s[i].priority, i);
        if i < j <= s.len() {
            let r = tier_pay(s, i, j, remaining, tier_bps(s, i, j), remaining, paid, events);
            lemma_tier_pay_accounts(s, i, j, remaining, tier_bps(s, i, j), remaining, paid, events);
            lemma_rank_pay_accounts(s, j, r.1, r.0, r.2);
            let f = rank_pay(s, j, r.1, r.0, r.2);
            lemma_pays_out_trans(events, r.2, f.2, remaining - r.1, r.1 - f.1);
        } else {
            lemma_pays_out_refl(events);
        }
    }
}

/// A distribution by rank pays nobody a negative amount, and what it pays out
/// together with what is left over is exactly the total; with nothing to
/// distribute, nobody is paid.
pub proof fn law_rank_pays_within_total(entries: Seq<(u64, RankedBeneficiary)>, total_amount: int)
    requires
        total_amount <= i128::MAX,
    ensures
        total_amount <= 0 ==> rank_result(entries, total_amount).2.len() == 0,
        total_amount > 0 ==> {
            let r = rank_result(entries, total_amount);
            &&& 0 <= r.1 <= total_amount
            &&& paid_total(r.2) + r.1 == total_amount
            &&& forall|i: int| 0 <= i < r.2.len() ==> (#[trigger] r.2[i]).amount >= 0
            &&& forall|i: int| 0 <= i < r.2.len() ==> (#[trigger] r.2[i]).amount <= total_amount
        },
{
    if total_amount > 0 {
        lemma_rank_pay_accounts(serving_order(entries), 0, total_amount, Map::empty(), Seq::empty());
        let r = rank_result(entries, total_amount);
        assert(paid_total(Seq::<DistributedByRankEvent>::empty()) == 0);
        assert forall|i: int| 0 <= i < r.2.len() implies (#[trigger] r.2[i]).amount >= 0 by {}
        assert forall|i: int| 0 <= i < r.2.len() implies (#[trigger] r.2[i]).amount <= total_amount by {
            lemma_event_within_paid_total(r.2, i);
        }
    }
}

#[verifier::spinoff_prover]
proof fn lemma_paid_total_nonneg(events: Seq<DistributedByRankEvent>)
    requires
        forall|k: int| 0 <= k < events.len() ==> (#[trigger] events[k]).amount >= 0,
    ensures
        paid_total(events) >= 0,
    decreases events.len(),
{
    if events.len() > 0 {
        let d = events.drop_last();
        assert forall|k: int| 0 <= k < d.len() implies (#[trigger] d[k]).amount >= 0 by {
            assert(d[k] == events[k]);
        }
        lemma_paid_total_nonneg(d);
        assert(paid_total(events) == paid_total(d) + events.last().amount);
    }
}

#[verifier::spinoff_prover]
proof fn lemma_event_within_paid_total(events: Seq<DistributedByRankEvent>, i: int)
    requires
        0 <= i < events.len(),
        forall|k: int| 0 <= k < events.len() ==> (#[trigger] events[k]).amount >= 0,
    ensures
        events[i].amount <= paid_total(events),
    decreases events.len(),
{
    let d = events.drop_last();
    let last = events.len() - 1;
    assert forall|k: int| 0 <= k < d.len() implies (#[trigger] d[k]).amount >= 0 by {
        assert(d[k] == events[k]);
    }
    lemma_paid_total_nonneg(d);
    assert(paid_total(events) == paid_total(d) + events.last().amount);
    assert(events.last().amount >= 0);
    if i < last {
        lemma_event_within_paid_total(d, i);
        assert(d[i] == events[i]);
    } else {
        assert(events[i] == events.last());
    }
}

/// The serving order never lists a beneficiary twice.
proof fn lemma_serving_order_distinct(entries: Seq<(u64, RankedBeneficiary)>, n: int)
    requires
        keys_ascending(entries),
        ranks_valid(entries),
        0 <= n <= entries.len(),
    ensures
        forall|a: int, b: int|
            0 <= a < b < n ==> (#[trigger] ordered_prefix(entries, n)[a]).address
                != (#[trigger] ordered_prefix(entries, n)[b]).address,
    decreases n,
{
    if n > 0 {
        lemma_serving_order_distinct(entries, n - 1);
        law_serving_order_sorted(entries, n - 1);
        let prev = ordered_prefix(entries, n - 1);
        let x = entries[n - 1].1;
        lemma_insert_pos(prev, x.priority, 0);
        let pos = insert_pos(prev, x.priority, 0);
        let cur = ordered_prefix(entries, n);
        assert(cur == prev.insert(pos, x));
        assert(x.address == entries[n - 1].0);
        assert forall|a: int| 0 <= a < n - 1 implies (#[trigger] prev[a]).address != x.address by {
            let k = choose|k: int| 0 <= k < n - 1 && prev[a] == entries[k].1;
            assert(entries[k].1.address == entries[k].0);
        }
        assert forall|a: int, b: int| 0 <= a < b < n implies (#[trigger] cur[a]).address
            != (#[trigger] cur[b]).address by {
            if b < pos {
                assert(cur[a] == prev[a] && cur[b] == prev[b]);
            } else if b == pos {
                assert(cur[a] == prev[a]);
            } else if a < pos {
                assert(cur[a] == prev[a] && cur[b] == prev[b - 1]);
            } else if a == pos {
                assert(cur[b] == prev[b - 1]);
            } else {
                assert(cur[a] == prev[a - 1] && cur[b] == prev[b - 1]);
            }
        }
    }
}

/// The payouts and events so far follow the serving order `s`: the `i`-th
/// event pays the `i`-th beneficiary served, and the payout map holds exactly
/// the amounts of the events.
pub open spec fn paid_as_served(
    s: Seq<RankedBeneficiary>,
    paid: Map<u64, i128>,
    events: Seq<DistributedByRankEvent>,
) -> bool {
    &&& events.len() <= s.len()
    &&& forall|i: int|
        0 <= i < events.len() ==> (#[trigger] events[i]).beneficiary == s[i].address && events[i].priority
            == s[i].priority && paid.contains_key(s[i].address) && paid[s[i].address] == events[i].amount
    &&& forall|k: u64| #[trigger] paid.contains_key(k) ==> exists|i: int| 0 <= i < events.len() && s[i].address == k
}

proof fn lemma_tier_pay_served(
    s: Seq<RankedBeneficiary>,
    k: int,
    j: int,
    base: int,
    total_bps: u32,
    remaining: int,
    paid: Map<u64, i128>,
    events: Seq<DistributedByRankEvent>,
)
    requires
        forall|a: int, b: int| 0 <= a < b < s.len() ==> (#[trigger] s[a]).address != (#[trigger] s[b]).address,
        paid_as_served(s, paid, events),
        events.len() == k,
        0 <= k <= j <= s.len(),
    ensures
        ({
            let r = tier_pay(s, k, j, base, total_bps, remaining, paid, events);
            &&& paid_as_served(s, r.0, r.2)
            &&& k <= r.2.len() <= j
            &&& (r.2.len() == j || r.1 <= 0)
        }),
    decreases j - k,
{
    if k < 0 || k >= j || k >= s.len() || remaining <= 0 {
    } else {
        let amount = tier_share(base, s[k].allocation_bps, total_bps, remaining);
        let e = DistributedByRankEvent { beneficiary: s[k].address, priority: s[k].priority, amount: amount as i128 };
        let paid2 = paid.insert(s[k].address, amount as i128);
        let events2 = events.push(e);
        assert forall|i: int| 0 <= i < events2.len() implies (#[trigger] events2[i]).beneficiary == s[i].address
            && events2[i].priority == s[i].priority && paid2.contains_key(s[i].address) && paid2[s[i].address]
            == events2[i].amount by {
            if i < k {
                assert(events2[i] == events[i]);
                assert(s[i].address != s[k].address);
            }
        }
        assert forall|x: u64| #[trigger] paid2.contains_key(x) implies exists|i: int|
            0 <= i < events2.len() && s[i].address == x by {
            if x == s[k].address {
                assert(s[k].address == x);
            } else {
                assert(paid.contains_key(x));
                let i = choose|i: int| 0 <= i < events.len() && s[i].address == x;
                assert(s[i].address == x);
            }
        }
        lemma_tier_pay_served(s, k + 1, j, base, total_bps, remaining - amount, paid2, events2);
    }
}

proof fn lemma_rank_pay_served(
    s: Seq<RankedBeneficiary>,
    i: int,
    remaining: int,
    paid: Map<u64, i128>,
    events: Seq<DistributedByRankEvent>,
)
    requires
        forall|a: int, b: int| 0 <= a < b < s.len() ==> (#[trigger] s[a]).address != (#[trigger] s[b]).address,
        paid_as_served(s, paid, events),
        0 <= i <= s.len(),
        events.len() <= i,
        remaining > 0 ==> events.len() == i,
    ensures
        paid_as_served(s, rank_pay(s, i, remaining, paid, events).0, rank_pay(s, i, remaining, paid, events).2),
    decreases s.len() - i,
{
    if i < 0 || i >= s.len() || remaining <= 0 {
    } else {
        let j = tier_end(s, s[i].priority, i);
        lemma_tier_end(s, s[i].priority, i);
        if i < j <= s.len() {
            lemma_tier_pay_served(s, i, j, remaining, tier_bps(s, i, j), remaining, paid, events);
            let r = tier_pay(s, i, j, remaining, tier_bps(s, i, j), remaining, paid, events);
            lemma_rank_pay_served(s, j, r.1, r.0, r.2);
        }
    }
}

/// A distribution by rank pays beneficiaries in serving order: its events
/// come in non-decreasing priority, each pays a ranked beneficiary once, the
/// returned payouts are exactly the events' amounts, and a beneficiary is
/// paid only when every beneficiary of a lower priority value is paid too.
pub proof fn law_rank_pays_in_serving_order(entries: Seq<(u64, RankedBeneficiary)>, total_amount: int)
    requires
        keys_ascending(entries),
        ranks_valid(entries),
    ensures
        ({
            let r = rank_result(entries, total_amount);
            &&& forall|a: int, b: int| 0 <= a < b < r.2.len() ==> (#[trigger] r.2[a]).priority <= (#[trigger] r.2[b]).priority
            &&& forall|a: int, b: int| 0 <= a < b < r.2.len() ==> (#[trigger] r.2[a]).beneficiary != (#[trigger] r.2[b]).beneficiary
            &&& forall|i: int|
                0 <= i < r.2.len() ==> r.0.contains_key((#[trigger] r.2[i]).beneficiary) && r.0[r.2[i].beneficiary]
                    == r.2[i].amount
            &&& forall|k: u64| #[trigger] r.0.contains_key(k) ==> exists|i: int| 0 <= i < r.2.len() && r.2[i].beneficiary == k
            &&& forall|i: int|
                0 <= i < r.2.len() ==> exists|e: int|
                    0 <= e < entries.len() && entries[e].0 == (#[trigger] r.2[i]).beneficiary
                        && entries[e].1.priority == r.2[i].priority
            &&& forall|a: int, b: int|
                0 <= a < entries.len() && 0 <= b < entries.len() && entries[a].1.priority < entries[b].1.priority
                    && r.0.contains_key(#[trigger] entries[b].0) ==> r.0.contains_key(#[trigger] entries[a].0)
        }),
{
    let n = entries.len() as int;
    let s = serving_order(entries);
    law_serving_order_sorted(entries, n);
    lemma_serving_order_distinct(entries, n);
    lemma_rank_pay_served(s, 0, total_amount, Map::empty(), Seq::empty());
    let r = rank_result(entries, total_amount);
    let m = r.2.len();
    assert forall|a: int, b: int| 0 <= a < b < m implies (#[trigger] r.2[a]).priority <= (#[trigger] r.2[b]).priority by {
        assert(served_before(s[a], s[b]));
    }
    assert forall|a: int, b: int| 0 <= a < b < m implies (#[trigger] r.2[a]).beneficiary != (#[trigger] r.2[b]).beneficiary by {
        assert(s[a].address != s[b].address);
    }
    assert forall|i: int| 0 <= i < m implies r.0.contains_key((#[trigger] r.2[i]).beneficiary) && r.0[r.2[i].beneficiary]
        == r.2[i].amount by {
        assert(r.2[i].beneficiary == s[i].address);
    }
    assert forall|k: u64| #[trigger] r.0.contains_key(k) implies exists|i: int| 0 <= i < m && r.2[i].beneficiary == k by {
        let i = choose|i: int| 0 <= i < m && s[i].address == k;
        assert(r.2[i].beneficiary == s[i].address);
    }
    assert forall|i: int| 0 <= i < m implies exists|e: int|
        0 <= e < entries.len() && entries[e].0 == (#[trigger] r.2[i]).beneficiary && entries[e].1.priority
            == r.2[i].priority by {
        let e = choose|e: int| 0 <= e < n && s[i] == entries[e].1;
        assert(entries[e].1.address == entries[e].0);
    }
    assert forall|a: int, b: int|
        0 <= a < entries.len() && 0 <= b < entries.len() && entries[a].1.priority < entries[b].1.priority
            && r.0.contains_key(#[trigger] entries[b].0) implies r.0.contains_key(#[trigger] entries[a].0) by {
        let ib = choose|i: int| 0 <= i < m && s[i].address == entries[b].0;
        assert(s.contains(entries[a].1));
        let ia = choose|i: int| 0 <= i < s.len() && s[i] == entries[a].1;
        assert(entries[a].1.address == entries[a].0);
        assert(entries[b].1.address == entries[b].0);
        let kb = choose|k: int| 0 <= k < n && s[ib] == entries[k].1;
        assert(entries[kb].1.address == entries[kb].0);
        assert(entries[kb].0 == entries[b].0);
        if kb != b {
            if kb < b {
                assert(entries[kb].0 < entries[b].0);
            } else {
                assert(entries[b].0 < entries[kb].0);
            }
        }
        assert(s[ib] == entries[b].1);
        if ia >= ib {
            if ia > ib {
                assert(served_before(s[ib], s[ia]));
            }
            assert(false);
        }
        assert(r.2[ia].beneficiary == s[ia].address);
    }
}

impl RankRegistry {
    pub open spec fn wf(&self) -> bool {
        &&& self.ranks.wf()
        &&& ranks_valid(self.ranks.entries@)
    }

    /// Nobody ranked.
    pub fn new() -> (r: Self)
        ensures
            r.wf(),
            r.ranks@ == Map::<u64, RankedBeneficiary>::empty(),
    {
        RankRegistry { ranks: KeyedMap::new() }
    }

    /// Assign or update the priority of `beneficiary`, keeping its allocation
    /// (10000 bps for a newly ranked beneficiary).
    pub fn set_rank(&mut self, beneficiary: BeneficiaryId, priority: u32) -> (ev: RankingSetEvent)
        requires
            old(self).wf(),
        ensures
            final(self).wf(),
            final(self).ranks@ == old(self).ranks@.insert(
                beneficiary,
                RankedBeneficiary {
                    address: beneficiary,
                    priority,
                    allocation_bps: if old(self).ranks@.contains_key(beneficiary) {
                        old(self).ranks@[beneficiary].allocation_bps
                    } else {
                        DEFAULT_ALLOCATION_BPS
                    },
                },
            ),
            ev == (RankingSetEvent { beneficiary, priority }),
    {
        let ghost s0 = self.ranks.entries@;
        let allocation_bps = match self.ranks.get(beneficiary) {
            Some(b) => b.allocation_bps,
            None => DEFAULT_ALLOCATION_BPS,
        };
        self.ranks.set(beneficiary, RankedBeneficiary { address: beneficiary, priority, allocation_bps });
        proof {
            let s1 = self.ranks.entries@;
            assert forall|i: int| 0 <= i < s1.len() implies (#[trigger] s1[i]).1.address == s1[i].0 by {
                lemma_lookup_at(s1, i);
                let k = s1[i].0;
                assert(self.ranks@.contains_key(k));
                assert(self.ranks@[k] == s1[i].1);
                if k != beneficiary {
                    assert(old(self).ranks@.contains_key(k));
                    assert(self.ranks@[k] == old(self).ranks@[k]);
                    let p = position_of(s0, k);
                    assert(s0[p].1.address == s0[p].0);
                }
            }
        }
        RankingSetEvent { beneficiary, priority }
    }

    /// Distribute `total_amount` in ascending priority order; beneficiaries of
    /// equal priority split what their tier starts with by allocation bps.
    pub fn distribute_by_rank(&self, total_amount: i128) -> (out: RankOutcome)
        requires
            self.wf(),
        ensures
            out.distributions.wf(),
            out.distributions@ == rank_result(self.ranks.entries@, total_amount as int).0,
            out.events@ == rank_result(self.ranks.entries@, total_amount as int).2,
    {
        let ghost entries = self.ranks.entries@;
        let n = self.ranks.entries.len();
        // serving order
        let mut ordered: Vec<RankedBeneficiary> = Vec::new();
        let mut i: usize = 0;
        while i < n
            invariant
                n == entries.len(),
                entries == self.ranks.entries@,
                0 <= i <= n,
                ordered@ == ordered_prefix(entries, i as int),
                ordered@.len() == i,
            decreases n - i,
        {
            let x = self.ranks.entries[i].1;
            let len = ordered.len();
            let mut pos: usize = 0;
            while pos < len && ordered[pos].priority <= x.priority
                invariant
                    len == ordered@.len(),
                    0 <= pos <= len,
                    insert_pos(ordered@, x.priority, pos as int) == insert_pos(ordered@, x.priority, 0),
                decreases len - pos,
            {
                pos = pos + 1;
            }
            ordered.insert(pos, x);
            i = i + 1;
        }
        let ghost s = ordered@;
        assert(s == serving_order(entries));
        // payouts
        let mut distributions: KeyedMap<i128> = KeyedMap::new();
        let mut events: Vec<DistributedByRankEvent> = Vec::new();
        let mut remaining: i128 = total_amount;
        let ghost target = rank_pay(s, 0, total_amount as int, Map::empty(), Seq::empty());
        let mut i: usize = 0;
        while i < n && remaining > 0
            invariant
                n == s.len(),
                s == ordered@,
                0 <= i <= n,
                distributions.wf(),
                rank_pay(s, i as int, remaining as int, distributions@, events@) == target,
            decreases n - i,
        {
            let priority = ordered[i].priority;
            let mut j: usize = i;
            while j < n && ordered[j].priority == priority
                invariant
                    n == s.len(),
                    s == ordered@,
                    0 <= i < n,
                    priority == s[i as int].priority,
                    i <= j <= n,
                    tier_end(s, priority, j as int) == tier_end(s, priority, i as int),
                decreases n - j,
            {
                j = j + 1;
            }
            proof {
                lemma_tier_end(s, priority, i as int);
            }
            let mut total_bps: u32 = 0;
            let mut k: usize = i;
            while k < j
                invariant
                    n == s.len(),
                    s == ordered@,
                    i <= k <= j <= n,
                    total_bps == tier_bps(s, i as int, k as int),
                decreases j - k,
            {
                let bps = ordered[k].allocation_bps;
                total_bps = if total_bps as u64 + bps as u64 > u32::MAX as u64 {
                    u32::MAX
                } else {
                    total_bps + bps
                };
                k = k + 1;
            }
            let base = remaining;
            let ghost tier_target = tier_pay(s, i as int, j as int, base as int, total_bps, remaining as int, distributions@, events@);
            let mut k: usize = i;
            while k < j && remaining > 0
                invariant
                    n == s.len(),
                    s == ordered@,
                    i <= k <= j <= n,
                    j <= tier_end(s, s[i as int].priority, i as int),
                    0 < base,
                    remaining <= base,
                    total_bps == tier_bps(s, i as int, j as int),
                    distributions.wf(),
                    tier_pay(s, k as int, j as int, base as int, total_bps, remaining as int, distributions@, events@) == tier_target,
                decreases j - k,
            {
                let member = ordered[k];
                let mut amount: i128 = 0;
                if total_bps != 0 {
                    let t = total_bps as i128;
                    let bps = member.allocation_bps as i128;
                    proof {
                        lemma_tier_bps_covers(s, i as int, j as int, k as int);
                        lemma_split_share(base as int, bps as int, t as int);
                    }
                    let q = base / t;
                    let r = base % t;
                    assert(t <= 0xffff_ffff);
                    assert(r * bps < t * t);
                    assert(t * t <= 0xffff_ffff * 0xffff_ffff) by (nonlinear_arith)
                        requires
                            0 < t <= 0xffff_ffff,
                    ;
                    amount = q * bps + (r * bps) / t;
                }
                if amount > remaining {
                    amount = remaining;
                }
                proof {
                    assert(amount == tier_share(base as int, member.allocation_bps, total_bps, remaining as int));
                    if total_bps != 0 {
                        assert(0 <= base * member.allocation_bps / (total_bps as int)) by (nonlinear_arith)
                            requires
                                0 < base,
                                total_bps > 0,
                        ;
                    }
                }
                distributions.set(member.address, amount);
                remaining = remaining - amount;
                events.push(
                    DistributedByRankEvent {
                        beneficiary: member.address,
                        priority: member.priority,
                        amount,
                    },
                );
                k = k + 1;
            }
            proof {
                assert(tier_pay(s, k as int, j as int, base as int, total_bps, remaining as int, distributions@, events@)
                    == (distributions@, remaining as int, events@));
            }
            i = j;
        }
        proof {
            assert(rank_pay(s, i as int, remaining as int, distributions@, events@) == (distributions@, remaining as int, events@));
        }
        RankOutcome { distributions, events }
    }
}

} // verus!
