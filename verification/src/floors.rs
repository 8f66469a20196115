//! Beneficiary floors: the least that a beneficiary should receive.
//!
//! Payouts below a floor are raised to it while funds remain; when the estate
//! cannot cover the floors, the distribution completes and reports the
//! shortfall.
use vstd::prelude::*;
use crate::amounts::{
    all_nonneg, amounts_of, lemma_prefix_total_monotone, max_int, min_int, prefix_total, total,
};
use crate::keyed_map::{
    has_key, keys_ascending, lemma_lookup_at, lookup, position_of, BeneficiaryId, KeyedMap,
};

verus! {

/// Storage key under which the floors are kept.
pub enum FloorsKey {
    BeneficiaryFloors,
}

/// Published when a floor is set.
#[derive(Clone, Copy, Debug, PartialEq, Eq)]
pub struct FloorSetEvent {
    pub beneficiary: BeneficiaryId,
    pub floor: i128,
}

/// Published for each beneficiary whose payout a floor concerned.
#[derive(Clone, Copy, Debug, PartialEq, Eq)]
pub struct FloorEnforcedEvent {
    pub beneficiary: BeneficiaryId,
    pub original: i128,
    pub floor: i128,
    pub shortfall: i128,
}

/// The configured floors.
pub struct FloorRegistry {
    pub floors: KeyedMap<i128>,
}

/// What `apply_floors` hands back.
pub struct FloorsOutcome {
    pub result: KeyedMap<i128>,
    pub shortfall: i128,
    pub enforced: Vec<FloorEnforcedEvent>,
}

/// The floor that applies to `a` (none means zero).
pub open spec fn floor_for(floors: Seq<(u64, i128)>, a: u64) -> i128 {
    match lookup(floors, a) {
        Some(f) => f,
        None => 0,
    }
}

pub open spec fn floors_along(floors: Seq<(u64, i128)>, d: Seq<(u64, i128)>) -> Seq<i128> {
    Seq::new(d.len(), |i: int| floor_for(floors, d[i].0))
}

/// The shortfall of a payout `actual` against `floor`.
pub open spec fn shortfall_of(floor: int, actual: int) -> int {
    if floor > 0 && actual < floor {
        floor - actual
    } else {
        0
    }
}

/// The first `n` payouts, what remains of the funds after them, and the
/// shortfall so far: each payout is its amount raised to its floor, limited by
/// what remains.
pub open spec fn floors_prefix(d: Seq<(u64, i128)>, fl: Seq<i128>, available: int, n: int) -> (
    Seq<i128>,
    int,
    int,
)
    decreases n,
{
    if n <= 0 {
        (Seq::empty(), max_int(available, 0), 0)
    } else {
        let prev = floors_prefix(d, fl, available, n - 1);
        let target = max_int(d[n - 1].1 as int, fl[n - 1] as int);
        let actual = min_int(target, prev.1);
        (prev.0.push(actual as i128), prev.1 - actual, prev.2 + shortfall_of(fl[n - 1] as int, actual))
    }
}

/// The events for the first `n` entries.
pub open spec fn floor_events(d: Seq<(u64, i128)>, fl: Seq<i128>, available: int, n: int) -> Seq<
    FloorEnforcedEvent,
>
    decreases n,
{
    if n <= 0 {
        Seq::empty()
    } else {
        let prev = floors_prefix(d, fl, available, n - 1);
        let f = fl[n - 1] as int;
        let orig = d[n - 1].1 as int;
        let actual = min_int(max_int(orig, f), prev.1);
        let short = shortfall_of(f, actual);
        if f > 0 && (orig < f || short > 0) {
            floor_events(d, fl, available, n - 1).push(
                FloorEnforcedEvent {
                    beneficiary: d[n - 1].0,
                    original: d[n - 1].1,
                    floor: fl[n - 1],
                    shortfall: short as i128,
                },
            )
        } else {
            floor_events(d, fl, available, n - 1)
        }
    }
}

pub open spec fn floors_result(floors: Seq<(u64, i128)>, d: Seq<(u64, i128)>, available: int) -> (
    Seq<i128>,
    int,
) {
    let r = floors_prefix(d, floors_along(floors, d), available, d.len() as int);
    (r.0, r.2)
}

pub open spec fn all_positive(s: Seq<(u64, i128)>) -> bool {
    forall|i: int| 0 <= i < s.len() ==> s[i].1 > 0
}

/// The floor rules' running remainder and total shortfall stay within `i128`
/// after every entry: the limit of the arithmetic that computes them.
pub open spec fn floors_in_range(floors: Seq<(u64, i128)>, d: Seq<(u64, i128)>, available: int) -> bool {
    forall|n: int|
        0 <= n <= d.len() ==> {
            &&& #[trigger] floors_prefix(d, floors_along(floors, d), available, n).1 <= i128::MAX
            &&& floors_prefix(d, floors_along(floors, d), available, n).2 <= i128::MAX
        }
}

/// Configured floors are positive, so every floor that applies is at least zero.
pub proof fn lemma_floors_along_nonneg(floors: Seq<(u64, i128)>, d: Seq<(u64, i128)>)
    requires
        all_positive(floors),
    ensures
        all_nonneg(floors_along(floors, d)),
{
    assert forall|i: int| 0 <= i < floors_along(floors, d).len() implies floors_along(floors, d)[i] >= 0 by {
        let k = d[i].0;
        if has_key(floors, k) {
            let p = position_of(floors, k);
            assert(floors[p].1 > 0);
        }
    }
}

/// Payouts stay within what remains, none is negative nor above its amount
/// raised to its floor, and the shortfall is bounded by the floors.
pub proof fn lemma_floors_prefix(d: Seq<(u64, i128)>, fl: Seq<i128>, available: int, n: int)
    requires
        fl.len() == d.len(),
        all_nonneg(fl),
        0 <= n <= d.len(),
    ensures
        ({
            let r = floors_prefix(d, fl, available, n);
            &&& r.0.len() == n
            &&& 0 <= r.1
            &&& r.1 + prefix_total(r.0, n) == max_int(available, 0)
            &&& 0 <= r.2 <= prefix_total(fl, n)
            &&& forall|i: int|
                0 <= i < n ==> 0 <= #[trigger] r.0[i] <= max_int(
                    d[i].1 as int,
                    fl[i] as int,
                )
        }),
    decreases n,
{
    if n > 0 {
        lemma_floors_prefix(d, fl, available, n - 1);
        let prev = floors_prefix(d, fl, available, n - 1);
        let r = floors_prefix(d, fl, available, n);
        crate::amounts::lemma_prefix_total_push(prev.0, r.0[n - 1]);
        assert(r.0 == prev.0.push(r.0[n - 1]));
    }
}

impl FloorRegistry {
    pub open spec fn wf(&self) -> bool {
        &&& self.floors.wf()
        &&& all_positive(self.floors.entries@)
    }

    /// No floors configured.
    pub fn new() -> (r: Self)
        ensures
            r.wf(),
            r.floors@ == Map::<u64, i128>::empty(),
    {
        FloorRegistry { floors: KeyedMap::new() }
    }

    /// Set the floor of `beneficiary`; a floor must be positive.
    pub fn set_floor(&mut self, beneficiary: BeneficiaryId, floor: i128) -> (ev: FloorSetEvent)
        requires
            old(self).wf(),
            floor > 0,
        ensures
            final(self).wf(),
            final(self).floors@ == old(self).floors@.insert(beneficiary, floor),
            ev == (FloorSetEvent { beneficiary, floor }),
    {
        let ghost s0 = self.floors.entries@;
        self.floors.set(beneficiary, floor);
        proof {
            let s1 = self.floors.entries@;
            assert forall|i: int| 0 <= i < s1.len() implies s1[i].1 > 0 by {
                lemma_lookup_at(s1, i);
                let k = s1[i].0;
                assert(self.floors@.contains_key(k));
                assert(self.floors@[k] == s1[i].1);
                if k != beneficiary {
                    assert(old(self).floors@.contains_key(k));
                    assert(self.floors@[k] == old(self).floors@[k]);
                    let p = position_of(s0, k);
                    assert(s0[p].1 > 0);
                } else {
                    assert(self.floors@[k] == floor);
                }
            }
        }
        FloorSetEvent { beneficiary, floor }
    }

    /// Whether `apply_floors` can run on `distributions` and `total_available`:
    /// its running remainder and shortfall stay within `i128`.
    pub fn floors_fit(&self, distributions: &KeyedMap<i128>, total_available: i128) -> (r: bool)
        requires
            self.wf(),
            distributions.wf(),
        ensures
            r == floors_in_range(self.floors.entries@, distributions.entries@, total_available as int),
    {
        let ghost d = distributions.entries@;
        let ghost fl = floors_along(self.floors.entries@, d);
        let ghost avail = total_available as int;
        proof {
            lemma_floors_along_nonneg(self.floors.entries@, d);
        }
        let n = distributions.entries.len();
        let mut remaining: i128 = if total_available > 0 { total_available } else { 0 };
        let mut shortfall: i128 = 0;
        let mut i: usize = 0;
        while i < n
            invariant
                n == d.len(),
                d == distributions.entries@,
                fl == floors_along(self.floors.entries@, d),
                avail == total_available as int,
                self.wf(),
                all_nonneg(fl),
                0 <= i <= n,
                remaining == floors_prefix(d, fl, avail, i as int).1,
                shortfall == floors_prefix(d, fl, avail, i as int).2,
                forall|m: int|
                    0 <= m <= i ==> #[trigger] floors_prefix(d, fl, avail, m).1 <= i128::MAX
                        && floors_prefix(d, fl, avail, m).2 <= i128::MAX,
            decreases n - i,
        {
            let (addr, original) = distributions.entries[i];
            let floor = match self.floors.get(addr) {
                Some(f) => f,
                None => 0,
            };
            proof {
                assert(floor == fl[i as int]);
                lemma_floors_prefix(d, fl, avail, i as int);
            }
            let target = if original >= floor { original } else { floor };
            let actual = if target <= remaining { target } else { remaining };
            let missing = if floor > 0 && actual < floor { floor - actual } else { 0 };
            let next_remaining = match remaining.checked_sub(actual) {
                Some(v) => v,
                None => {
                    proof {
                        assert(floors_prefix(d, fl, avail, i as int + 1).1 > i128::MAX);
                    }
                    return false;
                },
            };
            let next_shortfall = match shortfall.checked_add(missing) {
                Some(v) => v,
                None => {
                    proof {
                        assert(floors_prefix(d, fl, avail, i as int + 1).2 > i128::MAX);
                        let m = i as int + 1;
                        assert(floors_prefix(
                            distributions.entries@,
                            floors_along(self.floors.entries@, distributions.entries@),
                            total_available as int,
                            m,
                        ).1 <= i128::MAX ==> floors_prefix(
                            distributions.entries@,
                            floors_along(self.floors.entries@, distributions.entries@),
                            total_available as int,
                            m,
                        ).2 > i128::MAX);
                    }
                    return false;
                },
            };
            proof {
                assert(floors_prefix(d, fl, avail, i as int + 1).1 == next_remaining);
                assert(floors_prefix(d, fl, avail, i as int + 1).2 == next_shortfall);
                assert forall|m: int| 0 <= m <= i + 1 implies #[trigger] floors_prefix(d, fl, avail, m).1
                    <= i128::MAX && floors_prefix(d, fl, avail, m).2 <= i128::MAX by {
                    if m <= i {
                        assert(floors_prefix(d, fl, avail, m).1 <= i128::MAX);
                    }
                }
            }
            remaining = next_remaining;
            shortfall = next_shortfall;
            i = i + 1;
        }
        true
    }

    /// Raise the payouts of `distributions` to their floors while the
    /// `total_available` funds last, in key order; return the payouts and the
    /// total shortfall against the floors.
    pub fn apply_floors(&self, distributions: &KeyedMap<i128>, total_available: i128) -> (out:
        FloorsOutcome)
        requires
            self.wf(),
            distributions.wf(),
            floors_in_range(self.floors.entries@, distributions.entries@, total_available as int),
        ensures
            out.result.wf(),
            out.result.entries@.len() == distributions.entries@.len(),
            forall|i: int|
                0 <= i < distributions.entries@.len() ==> #[trigger] out.result.entries@[i].0
                    == distributions.entries@[i].0,
            amounts_of(out.result.entries@) == floors_result(
                self.floors.entries@,
                distributions.entries@,
                total_available as int,
            ).0,
            out.shortfall == floors_result(
                self.floors.entries@,
                distributions.entries@,
                total_available as int,
            ).1,
            out.enforced@ == floor_events(
                distributions.entries@,
                floors_along(self.floors.entries@, distributions.entries@),
                total_available as int,
                distributions.entries@.len() as int,
            ),
    {
        let ghost d = distributions.entries@;
        let ghost fl = floors_along(self.floors.entries@, d);
        let n = distributions.entries.len();
        proof {
            lemma_floors_along_nonneg(self.floors.entries@, d);
        }
        let mut entries: Vec<(u64, i128)> = Vec::new();
        let mut remaining: i128 = if total_available > 0 { total_available } else { 0 };
        let mut total_shortfall: i128 = 0;
        let mut enforced: Vec<FloorEnforcedEvent> = Vec::new();
        let mut i: usize = 0;
        while i < n
            invariant
                n == d.len(),
                d == distributions.entries@,
                keys_ascending(d),
                fl == floors_along(self.floors.entries@, d),
                self.wf(),
                floors_in_range(self.floors.entries@, d, total_available as int),
                all_nonneg(fl),
                0 <= i <= n,
                entries@.len() == i,
                forall|k: int| 0 <= k < i ==> #[trigger] entries@[k].0 == d[k].0,
                amounts_of(entries@) == floors_prefix(d, fl, total_available as int, i as int).0,
                remaining == floors_prefix(d, fl, total_available as int, i as int).1,
                total_shortfall == floors_prefix(d, fl, total_available as int, i as int).2,
                enforced@ == floor_events(d, fl, total_available as int, i as int),
            decreases n - i,
        {
            let (addr, original) = distributions.entries[i];
            let floor = match self.floors.get(addr) {
                Some(f) => f,
                None => 0,
            };
            proof {
                assert(floor == fl[i as int]);
                lemma_floors_prefix(d, fl, total_available as int, i as int + 1);
                assert(floors_prefix(d, fl, total_available as int, i as int + 1).1 <= i128::MAX);
            }
            let target = if original >= floor { original } else { floor };
            let actual = if target <= remaining { target } else { remaining };
            let shortfall = if floor > 0 && actual < floor { floor - actual } else { 0 };
            let ghost prev_entries = entries@;
            entries.push((addr, actual));
            remaining = remaining - actual;
            total_shortfall = total_shortfall + shortfall;
            if floor > 0 && (original < floor || shortfall > 0) {
                enforced.push(
                    FloorEnforcedEvent { beneficiary: addr, original, floor, shortfall },
                );
            }
            proof {
                assert(amounts_of(entries@) =~= amounts_of(prev_entries).push(actual));
            }
            i = i + 1;
        }
        let result = KeyedMap { entries };
        proof {
            assert(keys_ascending(result.entries@)) by {
                assert forall|a: int, b: int| 0 <= a < b < result.entries@.len() implies result.entries@[a].0 < result.entries@[b].0 by {
                    assert(result.entries@[a].0 == d[a].0);
                    assert(result.entries@[b].0 == d[b].0);
                }
            }
        }
        FloorsOutcome { result, shortfall: total_shortfall, enforced }
    }
}

/// Every payout is its amount raised to its floor, so the floors never pay
/// anyone more than the larger of the two, and never more in all than the
/// funds available.
pub proof fn law_floors_bounded(
    floors: Seq<(u64, i128)>,
    d: Seq<(u64, i128)>,
    available: int,
)
    requires
        all_positive(floors),
    ensures
        total(floors_result(floors, d, available).0) <= max_int(available, 0),
        forall|i: int|
            0 <= i < d.len() ==> 0 <= #[trigger] floors_result(
                floors,
                d,
                available,
            ).0[i] <= max_int(d[i].1 as int, floor_for(floors, d[i].0) as int),
{
    let fl = floors_along(floors, d);
    lemma_floors_along_nonneg(floors, d);
    lemma_floors_prefix(d, fl, available, d.len() as int);
}

/// When the funds cover every payout raised to its floor, each beneficiary
/// receives exactly that and no shortfall is reported.
pub proof fn law_floors_met_when_funded(
    floors: Seq<(u64, i128)>,
    d: Seq<(u64, i128)>,
    available: int,
)
    requires
        all_positive(floors),
        ({
            let fl = floors_along(floors, d);
            total(Seq::new(d.len(), |i: int| max_int(d[i].1 as int, fl[i] as int) as i128))
                <= available
        }),
    ensures
        floors_result(floors, d, available).1 == 0,
        forall|i: int|
            0 <= i < d.len() ==> #[trigger] floors_result(floors, d, available).0[i] == max_int(
                d[i].1 as int,
                floor_for(floors, d[i].0) as int,
            ),
{
    let fl = floors_along(floors, d);
    let raised = Seq::new(d.len(), |i: int| max_int(d[i].1 as int, fl[i] as int) as i128);
    lemma_floors_along_nonneg(floors, d);
    lemma_floors_funded(d, fl, available, raised, d.len() as int);
}

proof fn lemma_floors_funded(
    d: Seq<(u64, i128)>,
    fl: Seq<i128>,
    available: int,
    raised: Seq<i128>,
    n: int,
)
    requires
        fl.len() == d.len(),
        all_nonneg(fl),
        raised == Seq::new(d.len(), |i: int| max_int(d[i].1 as int, fl[i] as int) as i128),
        total(raised) <= available,
        0 <= n <= d.len(),
    ensures
        floors_prefix(d, fl, available, n).2 == 0,
        floors_prefix(d, fl, available, n).1 == available - prefix_total(raised, n),
        forall|i: int| 0 <= i < n ==> #[trigger] floors_prefix(d, fl, available, n).0[i] == raised[i],
    decreases n,
{
    assert(all_nonneg(raised)) by {
        assert forall|i: int| 0 <= i < raised.len() implies raised[i] >= 0 by {
            assert(amounts_of(d)[i] == d[i].1);
        }
    }
    lemma_prefix_total_monotone(raised, n, d.len() as int);
    if n > 0 {
        lemma_floors_funded(d, fl, available, raised, n - 1);
        lemma_floors_prefix(d, fl, available, n - 1);
        lemma_prefix_total_monotone(raised, n - 1, d.len() as int);
        assert(amounts_of(d)[n - 1] == d[n - 1].1);
        let prev = floors_prefix(d, fl, available, n - 1);
        let r = floors_prefix(d, fl, available, n);
        assert forall|i: int| 0 <= i < n implies #[trigger] r.0[i] == raised[i] by {
            if i < n - 1 {
                assert(r.0[i] == prev.0[i]);
            }
        }
    }
}

/// The shortfall of each of the first `n` payouts against its floor, summed.
pub open spec fn shortfall_sum(fl: Seq<i128>, paid: Seq<i128>, n: int) -> int
    decreases n,
{
    if n <= 0 {
        0
    } else {
        shortfall_sum(fl, paid, n - 1) + shortfall_of(fl[n - 1] as int, paid[n - 1] as int)
    }
}

proof fn lemma_shortfall_sum_agree(fl: Seq<i128>, a: Seq<i128>, b: Seq<i128>, n: int)
    requires
        0 <= n <= a.len(),
        n <= b.len(),
        forall|i: int| 0 <= i < n ==> a[i] == b[i],
    ensures
        shortfall_sum(fl, a, n) == shortfall_sum(fl, b, n),
    decreases n,
{
    if n > 0 {
        lemma_shortfall_sum_agree(fl, a, b, n - 1);
    }
}

proof fn lemma_shortfall_prefix(d: Seq<(u64, i128)>, fl: Seq<i128>, available: int, n: int)
    requires
        fl.len() == d.len(),
        all_nonneg(fl),
        0 <= n <= d.len(),
    ensures
        floors_prefix(d, fl, available, n).2 == shortfall_sum(fl, floors_prefix(d, fl, available, n).0, n),
    decreases n,
{
    if n > 0 {
        lemma_shortfall_prefix(d, fl, available, n - 1);
        lemma_floors_prefix(d, fl, available, n);
        let prev = floors_prefix(d, fl, available, n - 1);
        let r = floors_prefix(d, fl, available, n);
        lemma_shortfall_sum_agree(fl, r.0, prev.0, n - 1);
    }
}

/// The reported shortfall is the sum, over the beneficiaries, of how far each
/// payout falls below its floor.
pub proof fn law_floors_shortfall_total(floors: Seq<(u64, i128)>, d: Seq<(u64, i128)>, available: int)
    requires
        all_positive(floors),
    ensures
        floors_result(floors, d, available).1 == shortfall_sum(
            floors_along(floors, d),
            floors_result(floors, d, available).0,
            d.len() as int,
        ),
{
    lemma_floors_along_nonneg(floors, d);
    lemma_shortfall_prefix(d, floors_along(floors, d), available, d.len() as int);
}

/// Later entries never change the payouts already made.
proof fn lemma_floors_prefix_stable(d: Seq<(u64, i128)>, fl: Seq<i128>, available: int, m: int, n: int, i: int)
    requires
        0 <= i < m <= n <= d.len(),
    ensures
        floors_prefix(d, fl, available, n).0[i] == floors_prefix(d, fl, available, m).0[i],
    decreases n - m,
{
    if m < n {
        lemma_floors_prefix_stable(d, fl, available, m, n - 1, i);
        lemma_floors_len(d, fl, available, n - 1);
        lemma_floors_len(d, fl, available, n);
        let prev = floors_prefix(d, fl, available, n - 1);
        let last = floors_prefix(d, fl, available, n).0[n - 1];
        assert(floors_prefix(d, fl, available, n).0 == prev.0.push(last));
        assert(prev.0.push(last)[i] == prev.0[i]);
    }
}

proof fn lemma_floors_len(d: Seq<(u64, i128)>, fl: Seq<i128>, available: int, n: int)
    requires
        0 <= n,
    ensures
        floors_prefix(d, fl, available, n).0.len() == n,
    decreases n,
{
    if n > 0 {
        lemma_floors_len(d, fl, available, n - 1);
    }
}

/// Beneficiaries are paid in turn out of the funds available (none when they
/// are negative): each receives its amount raised to its floor, or everything
/// that the earlier payouts left when that is less.
pub proof fn law_floors_each_payout(floors: Seq<(u64, i128)>, d: Seq<(u64, i128)>, available: int)
    requires
        all_positive(floors),
    ensures
        floors_result(floors, d, available).0.len() == d.len(),
        forall|i: int|
            #![trigger floors_result(floors, d, available).0[i]]
            0 <= i < d.len() ==> {
                let paid = floors_result(floors, d, available).0;
                let amount = d[i].1 as int;
                let floor = floor_for(floors, d[i].0) as int;
                let raised = if amount >= floor { amount } else { floor };
                let funds = if available >= 0 { available } else { 0 };
                let left = funds - prefix_total(paid, i);
                paid[i] == if raised <= left { raised } else { left }
            },
{
    let fl = floors_along(floors, d);
    let n = d.len() as int;
    lemma_floors_along_nonneg(floors, d);
    lemma_floors_prefix(d, fl, available, n);
    assert forall|i: int| #![trigger floors_result(floors, d, available).0[i]] 0 <= i < d.len() implies {
        let paid = floors_result(floors, d, available).0;
        let amount = d[i].1 as int;
        let floor = floor_for(floors, d[i].0) as int;
        let raised = if amount >= floor { amount } else { floor };
        let funds = if available >= 0 { available } else { 0 };
        let left = funds - prefix_total(paid, i);
        paid[i] == if raised <= left { raised } else { left }
    } by {
        let paid = floors_prefix(d, fl, available, n).0;
        lemma_floors_prefix(d, fl, available, i);
        lemma_floors_len(d, fl, available, i);
        let before = floors_prefix(d, fl, available, i);
        lemma_floors_prefix_stable(d, fl, available, i + 1, n, i);
        assert forall|j: int| 0 <= j < i implies paid[j] == before.0[j] by {
            lemma_floors_prefix_stable(d, fl, available, i, n, j);
        }
        crate::amounts::lemma_prefix_total_agree(paid, before.0, i);
    }
}

} // verus!
