//! Beneficiary caps: the most that a beneficiary may receive.
//!
//! Amount above a cap is handed, round by round, to the beneficiaries that
//! still have room below their cap, in proportion to what they already hold;
//! what cannot be placed is returned as excess.
use vstd::prelude::*;
use crate::amounts::{amounts_of, lemma_total_update, max_int, min_int, prefix_total, total};
use crate::keyed_map::{
    has_key, keys_ascending, lemma_lookup_at, lookup, position_of, BeneficiaryId, KeyedMap,
};

verus! {

/// Storage key under which the caps are kept.
pub enum CapsKey {
    BeneficiaryCaps,
}

/// Published when a cap is set.
#[derive(Clone, Copy, Debug, PartialEq, Eq)]
pub struct CapSetEvent {
    pub beneficiary: BeneficiaryId,
    pub cap: i128,
}

/// Published for each beneficiary whose requested amount was cut to its cap.
#[derive(Clone, Copy, Debug, PartialEq, Eq)]
pub struct CapEnforcedEvent {
    pub beneficiary: BeneficiaryId,
    pub requested: i128,
    pub capped_at: i128,
    pub excess: i128,
}

/// The configured caps.
pub struct CapRegistry {
    pub caps: KeyedMap<i128>,
}

/// What `apply_caps` hands back: the capped distribution, the excess that could
/// not be placed, and the events to publish.
pub struct CapsOutcome {
    pub capped: KeyedMap<i128>,
    pub excess: i128,
    pub enforced: Vec<CapEnforcedEvent>,
}

/// The cap that applies to `a` (none means unbounded).
pub open spec fn cap_for(caps: Seq<(u64, i128)>, a: u64) -> i128 {
    match lookup(caps, a) {
        Some(c) => c,
        None => i128::MAX,
    }
}

/// The cap of each entry of a distribution, in the distribution's order.
pub open spec fn caps_along(caps: Seq<(u64, i128)>, d: Seq<(u64, i128)>) -> Seq<i128> {
    Seq::new(d.len(), |i: int| cap_for(caps, d[i].0))
}

/// Each requested amount cut to its cap.
pub open spec fn cut_to_caps(d: Seq<(u64, i128)>, cp: Seq<i128>) -> Seq<i128> {
    Seq::new(d.len(), |i: int| if d[i].1 <= cp[i] { d[i].1 } else { cp[i] })
}

/// Total amount cut off the first `n` entries.
pub open spec fn cut_excess(d: Seq<(u64, i128)>, cp: Seq<i128>, n: int) -> int
    decreases n,
{
    if n <= 0 {
        0
    } else {
        cut_excess(d, cp, n - 1) + if d[n - 1].1 > cp[n - 1] {
            d[n - 1].1 - cp[n - 1]
        } else {
            0
        }
    }
}

/// The events for the first `n` entries.
pub open spec fn cut_events(d: Seq<(u64, i128)>, cp: Seq<i128>, n: int) -> Seq<CapEnforcedEvent>
    decreases n,
{
    if n <= 0 {
        Seq::empty()
    } else if d[n - 1].1 > cp[n - 1] {
        cut_events(d, cp, n - 1).push(
            CapEnforcedEvent {
                beneficiary: d[n - 1].0,
                requested: d[n - 1].1,
                capped_at: cp[n - 1],
                excess: (d[n - 1].1 - cp[n - 1]) as i128,
            },
        )
    } else {
        cut_events(d, cp, n - 1)
    }
}

/// Number of the first `n` entries that are still below their cap.
pub open spec fn eligible_prefix(c: Seq<i128>, cp: Seq<i128>, n: int) -> int
    decreases n,
{
    if n <= 0 {
        0
    } else {
        eligible_prefix(c, cp, n - 1) + if c[n - 1] < cp[n - 1] {
            1int
        } else {
            0int
        }
    }
}

/// Total held by the first `n` entries that are still below their cap.
pub open spec fn weight_prefix(c: Seq<i128>, cp: Seq<i128>, n: int) -> int
    decreases n,
{
    if n <= 0 {
        0
    } else {
        weight_prefix(c, cp, n - 1) + if c[n - 1] < cp[n - 1] {
            max_int(c[n - 1] as int, 0)
        } else {
            0
        }
    }
}

/// The part of the excess that an entry holding `held` below `cap` receives in a
/// round whose eligible entries hold `tw` in all and number `ec`: its share in
/// proportion to what it holds (equal shares when nobody holds anything), at
/// least one unit, at most its room and at most what is left.
pub open spec fn share_for(held: int, cap: int, tw: int, ec: int, excess: int) -> int {
    let room = cap - held;
    let weight = if tw > 0 { max_int(held, 0) } else { 1 };
    let den = if tw > 0 { tw } else { ec };
    min_int(min_int(max_int(excess * weight / den, 1), room), excess)
}

/// One round of redistribution, from entry `i` on.
pub open spec fn round_from(
    c: Seq<i128>,
    cp: Seq<i128>,
    tw: int,
    ec: int,
    excess: int,
    i: int,
) -> (Seq<i128>, int)
    decreases c.len() - i,
{
    if i < 0 || i >= c.len() || excess <= 0 {
        (c, excess)
    } else if c[i] >= cp[i] {
        round_from(c, cp, tw, ec, excess, i + 1)
    } else {
        let s = share_for(c[i] as int, cp[i] as int, tw, ec, excess);
        round_from(c.update(i, (c[i] + s) as i128), cp, tw, ec, excess - s, i + 1)
    }
}

/// Rounds of redistribution until the excess is gone or nobody has room left.
pub open spec fn redistribute(c: Seq<i128>, cp: Seq<i128>, excess: int) -> (Seq<i128>, int)
    decreases excess,
{
    let n = c.len() as int;
    if excess <= 0 || eligible_prefix(c, cp, n) == 0 {
        (c, excess)
    } else {
        let r = round_from(c, cp, weight_prefix(c, cp, n), eligible_prefix(c, cp, n), excess, 0);
        if 0 <= r.1 < excess {
            redistribute(r.0, cp, r.1)
        } else {
            r
        }
    }
}

/// The amounts and excess that the caps give for distribution `d`.
pub open spec fn capped_result(caps: Seq<(u64, i128)>, d: Seq<(u64, i128)>) -> (Seq<i128>, int) {
    let cp = caps_along(caps, d);
    redistribute(cut_to_caps(d, cp), cp, cut_excess(d, cp, d.len() as int))
}

pub open spec fn all_positive(s: Seq<(u64, i128)>) -> bool {
    forall|i: int| 0 <= i < s.len() ==> s[i].1 > 0
}

pub open spec fn caps_positive(cp: Seq<i128>) -> bool {
    forall|i: int| 0 <= i < cp.len() ==> cp[i] > 0
}

pub open spec fn within_caps(c: Seq<i128>, cp: Seq<i128>) -> bool {
    forall|i: int| 0 <= i < c.len() ==> c[i] <= cp[i]
}

/// The state that a redistribution works on: amounts at most their positive
/// caps, and a non-negative excess.
pub open spec fn round_state_ok(c: Seq<i128>, cp: Seq<i128>, excess: int) -> bool {
    &&& c.len() == cp.len()
    &&& caps_positive(cp)
    &&& within_caps(c, cp)
    &&& 0 <= excess
}

/// The weight that an entry holding `held` gets in a round whose eligible
/// entries hold `tw` in all.
pub open spec fn round_weight(held: int, tw: int) -> int {
    if tw > 0 { max_int(held, 0) } else { 1 }
}

/// The arithmetic of one round, from entry `i` on, stays within `i128`: the
/// room below each cap and the product of the excess and each weight.
pub open spec fn round_fits(c: Seq<i128>, cp: Seq<i128>, tw: int, ec: int, excess: int, i: int) -> bool
    decreases c.len() - i,
{
    if i < 0 || i >= c.len() || excess <= 0 {
        true
    } else if c[i] >= cp[i] {
        round_fits(c, cp, tw, ec, excess, i + 1)
    } else {
        let s = share_for(c[i] as int, cp[i] as int, tw, ec, excess);
        &&& cp[i] - c[i] <= i128::MAX
        &&& excess * round_weight(c[i] as int, tw) <= i128::MAX
        &&& round_fits(c.update(i, (c[i] + s) as i128), cp, tw, ec, excess - s, i + 1)
    }
}

/// The arithmetic of every round of a redistribution stays within `i128`: the
/// total weight and each round's room and products.
pub open spec fn redistribute_fits(c: Seq<i128>, cp: Seq<i128>, excess: int) -> bool
    decreases excess,
{
    let n = c.len() as int;
    if excess <= 0 || eligible_prefix(c, cp, n) == 0 {
        true
    } else {
        let tw = weight_prefix(c, cp, n);
        let ec = eligible_prefix(c, cp, n);
        let r = round_from(c, cp, tw, ec, excess, 0);
        &&& tw <= i128::MAX
        &&& round_fits(c, cp, tw, ec, excess, 0)
        &&& (0 <= r.1 < excess ==> redistribute_fits(r.0, cp, r.1))
    }
}

/// The arithmetic of `apply_caps` on `d` stays within `i128`: the excess cut
/// off, and every round of its redistribution.
pub open spec fn caps_fit(caps: Seq<(u64, i128)>, d: Seq<(u64, i128)>) -> bool {
    let cp = caps_along(caps, d);
    &&& cut_excess(d, cp, d.len() as int) <= i128::MAX
    &&& redistribute_fits(cut_to_caps(d, cp), cp, cut_excess(d, cp, d.len() as int))
}

pub proof fn lemma_eligible_bounds(c: Seq<i128>, cp: Seq<i128>, n: int)
    requires
        0 <= n <= c.len(),
        c.len() == cp.len(),
    ensures
        0 <= eligible_prefix(c, cp, n) <= n,
        0 <= weight_prefix(c, cp, n),
        eligible_prefix(c, cp, n) == 0 ==> weight_prefix(c, cp, n) == 0,
    decreases n,
{
    if n > 0 {
        lemma_eligible_bounds(c, cp, n - 1);
    }
}

/// Weight sums only grow along the entries.
pub proof fn lemma_weight_prefix_monotone(c: Seq<i128>, cp: Seq<i128>, m: int, n: int)
    requires
        0 <= m <= n <= c.len(),
        c.len() == cp.len(),
    ensures
        weight_prefix(c, cp, m) <= weight_prefix(c, cp, n),
    decreases n - m,
{
    if m < n {
        lemma_weight_prefix_monotone(c, cp, m, n - 1);
    }
}

/// When no entry of the first `n` is eligible, all of them are at their cap.
pub proof fn lemma_none_eligible(c: Seq<i128>, cp: Seq<i128>, n: int)
    requires
        0 <= n <= c.len(),
        c.len() == cp.len(),
        eligible_prefix(c, cp, n) == 0,
    ensures
        forall|i: int| 0 <= i < n ==> c[i] >= cp[i],
    decreases n,
{
    if n > 0 {
        lemma_eligible_count_nonneg(c, cp, n - 1);
        lemma_none_eligible(c, cp, n - 1);
    }
}

pub proof fn lemma_eligible_count_nonneg(c: Seq<i128>, cp: Seq<i128>, n: int)
    ensures
        eligible_prefix(c, cp, n) >= 0,
    decreases n,
{
    if n > 0 {
        lemma_eligible_count_nonneg(c, cp, n - 1);
    }
}

/// A round keeps the state in range, keeps the total plus excess, never takes
/// from an entry, and leaves an excess between zero and what it started with.
pub proof fn lemma_round_from(c: Seq<i128>, cp: Seq<i128>, tw: int, ec: int, excess: int, i: int)
    requires
        round_state_ok(c, cp, excess),
        0 <= i <= c.len(),
        tw >= 0,
        ec > 0,
    ensures
        ({
            let r = round_from(c, cp, tw, ec, excess, i);
            &&& round_state_ok(r.0, cp, r.1)
            &&& total(r.0) + r.1 == total(c) + excess
            &&& 0 <= r.1 <= excess
            &&& r.0.len() == c.len()
            &&& forall|j: int| 0 <= j < c.len() ==> c[j] <= #[trigger] r.0[j]
            &&& (exists|j: int| i <= j < c.len() && c[j] < cp[j]) && excess > 0 ==> r.1 < excess
        }),
    decreases c.len() - i,
{
    if i >= c.len() || excess <= 0 {
    } else if c[i] >= cp[i] {
        lemma_round_from(c, cp, tw, ec, excess, i + 1);
        let r = round_from(c, cp, tw, ec, excess, i);
        assert((exists|j: int| i <= j < c.len() && c[j] < cp[j]) ==> (exists|j: int| i + 1 <= j < c.len() && c[j] < cp[j]));
    } else {
        let s = share_for(c[i] as int, cp[i] as int, tw, ec, excess);
        assert(1 <= s <= excess);
        assert(s <= cp[i] - c[i]);
        let c2 = c.update(i, (c[i] + s) as i128);
        lemma_total_update(c, i, (c[i] + s) as i128);
        assert(round_state_ok(c2, cp, excess - s));
        lemma_round_from(c2, cp, tw, ec, excess - s, i + 1);
        let r = round_from(c2, cp, tw, ec, excess - s, i + 1);
        assert forall|j: int| 0 <= j < c.len() implies c[j] <= #[trigger] r.0[j] by {
            assert(c2[j] <= r.0[j]);
        }
    }
}

/// Redistribution keeps the state in range and the total plus excess, never
/// takes from an entry, and leaves excess only when nobody has room left.
pub proof fn lemma_redistribute(c: Seq<i128>, cp: Seq<i128>, excess: int)
    requires
        round_state_ok(c, cp, excess),
    ensures
        ({
            let r = redistribute(c, cp, excess);
            &&& round_state_ok(r.0, cp, r.1)
            &&& total(r.0) + r.1 == total(c) + excess
            &&& r.0.len() == c.len()
            &&& forall|j: int| 0 <= j < c.len() ==> c[j] <= #[trigger] r.0[j]
            &&& r.1 > 0 ==> forall|j: int| 0 <= j < c.len() ==> #[trigger] r.0[j] == cp[j]
        }),
    decreases excess,
{
    let n = c.len() as int;
    if excess <= 0 {
    } else if eligible_prefix(c, cp, n) == 0 {
        lemma_none_eligible(c, cp, n);
    } else {
        lemma_eligible_bounds(c, cp, n);
        let tw = weight_prefix(c, cp, n);
        let ec = eligible_prefix(c, cp, n);
        lemma_round_from(c, cp, tw, ec, excess, 0);
        let r = round_from(c, cp, tw, ec, excess, 0);
        assert(exists|j: int| 0 <= j < c.len() && c[j] < cp[j]) by {
            if forall|j: int| 0 <= j < c.len() ==> !(c[j] < cp[j]) {
                lemma_all_capped_none_eligible(c, cp, n);
            }
        }
        assert(r.1 < excess);
        lemma_redistribute(r.0, cp, r.1);
        let r2 = redistribute(r.0, cp, r.1);
        assert forall|j: int| 0 <= j < c.len() implies c[j] <= #[trigger] r2.0[j] by {
            assert(r.0[j] <= r2.0[j]);
        }
    }
}

pub proof fn lemma_all_capped_none_eligible(c: Seq<i128>, cp: Seq<i128>, n: int)
    requires
        0 <= n <= c.len(),
        forall|j: int| 0 <= j < c.len() ==> !(c[j] < cp[j]),
    ensures
        eligible_prefix(c, cp, n) == 0,
    decreases n,
{
    if n > 0 {
        lemma_all_capped_none_eligible(c, cp, n - 1);
    }
}

/// Cutting each amount to its cap moves exactly the cut amount into the
/// excess, and the cut amount only grows along the entries.
pub proof fn lemma_cut(d: Seq<(u64, i128)>, cp: Seq<i128>, n: int)
    requires
        cp.len() == d.len(),
        0 <= n <= d.len(),
    ensures
        prefix_total(cut_to_caps(d, cp), n) + cut_excess(d, cp, n) == prefix_total(amounts_of(d), n),
        0 <= cut_excess(d, cp, n) <= cut_excess(d, cp, d.len() as int),
    decreases d.len() - n,
{
    if n < d.len() {
        lemma_cut(d, cp, n + 1);
    }
    lemma_cut_prefix(d, cp, n);
}

proof fn lemma_cut_prefix(d: Seq<(u64, i128)>, cp: Seq<i128>, n: int)
    requires
        cp.len() == d.len(),
        0 <= n <= d.len(),
    ensures
        prefix_total(cut_to_caps(d, cp), n) + cut_excess(d, cp, n) == prefix_total(amounts_of(d), n),
        0 <= cut_excess(d, cp, n),
    decreases n,
{
    if n > 0 {
        lemma_cut_prefix(d, cp, n - 1);
    }
}

/// Some entry of the first `n` is still below its cap when the eligible count
/// is positive.
pub proof fn lemma_some_eligible(c: Seq<i128>, cp: Seq<i128>, n: int)
    requires
        0 <= n <= c.len(),
        eligible_prefix(c, cp, n) > 0,
    ensures
        exists|j: int| 0 <= j < n && c[j] < cp[j],
    decreases n,
{
    if n > 0 {
        if c[n - 1] < cp[n - 1] {
        } else {
            lemma_some_eligible(c, cp, n - 1);
        }
    }
}

proof fn lemma_caps_along_positive(caps: Seq<(u64, i128)>, d: Seq<(u64, i128)>)
    requires
        all_positive(caps),
    ensures
        caps_positive(caps_along(caps, d)),
{
    let cp = caps_along(caps, d);
    assert forall|j: int| 0 <= j < cp.len() implies cp[j] > 0 by {
        let k = d[j].0;
        if has_key(caps, k) {
            let p = position_of(caps, k);
            assert(caps[p].1 > 0);
        }
    }
}

proof fn lemma_capped_result(caps: Seq<(u64, i128)>, d: Seq<(u64, i128)>)
    requires
        all_positive(caps),
    ensures
        ({
            let cp = caps_along(caps, d);
            let r = capped_result(caps, d);
            &&& caps_positive(cp)
            &&& round_state_ok(r.0, cp, r.1)
            &&& total(r.0) + r.1 == total(amounts_of(d))
            &&& r.0.len() == d.len()
            &&& forall|j: int| 0 <= j < d.len() ==> cut_to_caps(d, cp)[j] <= #[trigger] r.0[j]
            &&& r.1 > 0 ==> forall|j: int| 0 <= j < d.len() ==> #[trigger] r.0[j] == cp[j]
        }),
{
    let cp = caps_along(caps, d);
    lemma_caps_along_positive(caps, d);
    lemma_cut(d, cp, d.len() as int);
    let c = cut_to_caps(d, cp);
    let e = cut_excess(d, cp, d.len() as int);
    assert(round_state_ok(c, cp, e));
    lemma_redistribute(c, cp, e);
}

/// Capping moves amounts but never creates or destroys them: what the capped
/// distribution pays plus the returned excess is what was requested.
pub proof fn law_caps_conserve_total(caps: Seq<(u64, i128)>, d: Seq<(u64, i128)>)
    requires
        all_positive(caps),
    ensures
        total(capped_result(caps, d).0) + capped_result(caps, d).1 == total(amounts_of(d)),
{
    lemma_capped_result(caps, d);
}

/// No beneficiary receives more than its cap, and nobody receives less than its
/// requested amount cut to its cap.
pub proof fn law_caps_respected(caps: Seq<(u64, i128)>, d: Seq<(u64, i128)>, i: int)
    requires
        all_positive(caps),
        0 <= i < d.len(),
    ensures
        capped_result(caps, d).0[i] <= cap_for(caps, d[i].0),
        min_int(d[i].1 as int, cap_for(caps, d[i].0) as int) <= capped_result(caps, d).0[i],
{
    lemma_capped_result(caps, d);
    let cp = caps_along(caps, d);
    assert(cut_to_caps(d, cp)[i] <= capped_result(caps, d).0[i]);
}

/// Excess is returned only when no beneficiary has room left below its cap.
pub proof fn law_excess_only_when_all_capped(caps: Seq<(u64, i128)>, d: Seq<(u64, i128)>, i: int)
    requires
        all_positive(caps),
        0 <= i < d.len(),
        capped_result(caps, d).1 > 0,
    ensures
        capped_result(caps, d).0[i] == cap_for(caps, d[i].0),
{
    lemma_capped_result(caps, d);
}

/// A distribution in which nobody exceeds a cap passes through unchanged, with
/// no excess.
pub proof fn law_within_caps_unchanged(caps: Seq<(u64, i128)>, d: Seq<(u64, i128)>)
    requires
        all_positive(caps),
        forall|i: int| 0 <= i < d.len() ==> d[i].1 <= cap_for(caps, #[trigger] d[i].0),
    ensures
        capped_result(caps, d).0 == amounts_of(d),
        capped_result(caps, d).1 == 0,
{
    let cp = caps_along(caps, d);
    lemma_no_cut(d, cp, d.len() as int);
    assert(cut_to_caps(d, cp) =~= amounts_of(d));
}

/// The excess returned is never negative.  When every requested amount is
/// non-negative and their total is below `i128::MAX`, excess remains only when
/// every beneficiary of the distribution has a cap and is at it.
pub proof fn law_excess_means_every_key_capped(caps: Seq<(u64, i128)>, d: Seq<(u64, i128)>, i: int)
    requires
        all_positive(caps),
    ensures
        capped_result(caps, d).1 >= 0,
        (forall|j: int| 0 <= j < d.len() ==> #[trigger] d[j].1 >= 0) && total(amounts_of(d)) < i128::MAX
            && capped_result(caps, d).1 > 0 && 0 <= i < d.len() ==> lookup(caps, d[i].0) is Some
            && capped_result(caps, d).0[i] == cap_for(caps, d[i].0),
{
    lemma_capped_result(caps, d);
    let cp = caps_along(caps, d);
    let r = capped_result(caps, d);
    if (forall|j: int| 0 <= j < d.len() ==> #[trigger] d[j].1 >= 0) && total(amounts_of(d)) < i128::MAX
        && r.1 > 0 && 0 <= i < d.len() {
        assert(crate::amounts::all_nonneg(r.0)) by {
            assert forall|j: int| 0 <= j < r.0.len() implies r.0[j] >= 0 by {
                assert(cut_to_caps(d, cp)[j] <= r.0[j]);
                assert(d[j].1 >= 0);
                assert(cp[j] > 0);
            }
        }
        crate::amounts::lemma_prefix_total_monotone(r.0, i, i + 1);
        crate::amounts::lemma_prefix_total_monotone(r.0, i + 1, r.0.len() as int);
        crate::amounts::lemma_prefix_total_nonneg(r.0, i);
        assert(r.0[i] <= total(r.0));
        assert(r.0[i] == cp[i]);
        if lookup(caps, d[i].0) is None {
            assert(cp[i] == i128::MAX);
        }
    }
}

proof fn lemma_no_cut(d: Seq<(u64, i128)>, cp: Seq<i128>, n: int)
    requires
        0 <= n <= d.len(),
        cp.len() == d.len(),
        forall|i: int| 0 <= i < d.len() ==> d[i].1 <= cp[i],
    ensures
        cut_excess(d, cp, n) == 0,
    decreases n,
{
    if n > 0 {
        lemma_no_cut(d, cp, n - 1);
    }
}

impl CapRegistry {
    pub open spec fn wf(&self) -> bool {
        &&& self.caps.wf()
        &&& all_positive(self.caps.entries@)
    }

    /// No caps configured.
    pub fn new() -> (r: Self)
        ensures
            r.wf(),
            r.caps@ == Map::<u64, i128>::empty(),
    {
        CapRegistry { caps: KeyedMap::new() }
    }

    /// Set the cap of `beneficiary`; a cap must be positive.
    pub fn set_cap(&mut self, beneficiary: BeneficiaryId, cap: i128) -> (ev: CapSetEvent)
        requires
            old(self).wf(),
            cap > 0,
        ensures
            final(self).wf(),
            final(self).caps@ == old(self).caps@.insert(beneficiary, cap),
            ev == (CapSetEvent { beneficiary, cap }),
    {
        let ghost s0 = self.caps.entries@;
        self.caps.set(beneficiary, cap);
        proof {
            let s1 = self.caps.entries@;
            assert forall|i: int| 0 <= i < s1.len() implies s1[i].1 > 0 by {
                lemma_lookup_at(s1, i);
                let k = s1[i].0;
                assert(self.caps@.contains_key(k));
                assert(self.caps@[k] == s1[i].1);
                if k != beneficiary {
                    assert(old(self).caps@.contains_key(k));
                    assert(self.caps@[k] == old(self).caps@[k]);
                    let p = position_of(s0, k);
                    assert(s0[p].1 > 0);
                } else {
                    assert(self.caps@[k] == cap);
                }
            }
        }
        CapSetEvent { beneficiary, cap }
    }

    /// Whether `apply_caps` can run on `distributions`: its arithmetic stays
    /// within `i128`.
    pub fn caps_fit_for(&self, distributions: &KeyedMap<i128>) -> (r: bool)
        requires
            self.wf(),
            distributions.wf(),
        ensures
            r == caps_fit(self.caps.entries@, distributions.entries@),
    {
        let ghost d = distributions.entries@;
        let ghost cps = caps_along(self.caps.entries@, d);
        proof {
            lemma_caps_along_positive(self.caps.entries@, d);
        }
        let (cap_list, mut amounts, excess) = match self.cut(distributions) {
            Some(cut) => cut,
            None => {
                return false;
            },
        };
        proof {
            lemma_cut(d, cps, d.len() as int);
            assert(within_caps(amounts@, cap_list@));
        }
        redistribution_fits(&cap_list, &mut amounts, excess)
    }

    /// Each amount cut to its cap, the caps along, and the total cut off; none
    /// when that total exceeds `i128`.
    fn cut(&self, distributions: &KeyedMap<i128>) -> (r: Option<(Vec<i128>, Vec<i128>, i128)>)
        requires
            self.wf(),
            distributions.wf(),
        ensures
            ({
                let d = distributions.entries@;
                let cps = caps_along(self.caps.entries@, d);
                &&& r.is_some() == (cut_excess(d, cps, d.len() as int) <= i128::MAX)
                &&& r matches Some(t) ==> t.0@ == cps && t.1@ == cut_to_caps(d, cps) && t.2 == cut_excess(
                    d,
                    cps,
                    d.len() as int,
                )
            }),
    {
        let ghost d = distributions.entries@;
        let ghost cps = caps_along(self.caps.entries@, d);
        let n = distributions.entries.len();
        let mut cap_list: Vec<i128> = Vec::new();
        let mut amounts: Vec<i128> = Vec::new();
        let mut excess: i128 = 0;
        let mut i: usize = 0;
        while i < n
            invariant
                n == d.len(),
                d == distributions.entries@,
                cps == caps_along(self.caps.entries@, d),
                self.wf(),
                0 <= i <= n,
                cap_list@.len() == i,
                amounts@.len() == i,
                forall|j: int| 0 <= j < i ==> cap_list@[j] == cps[j],
                forall|j: int| 0 <= j < i ==> amounts@[j] == cut_to_caps(d, cps)[j],
                excess == cut_excess(d, cps, i as int),
            decreases n - i,
        {
            let (addr, amount) = distributions.entries[i];
            let cap = self.cap_of(addr);
            proof {
                lemma_caps_along_positive(self.caps.entries@, d);
                assert(cap == cps[i as int]);
            }
            let actual = if amount <= cap { amount } else { cap };
            cap_list.push(cap);
            amounts.push(actual);
            if amount > actual {
                let overage = amount - actual;
                match excess.checked_add(overage) {
                    Some(e) => {
                        excess = e;
                    },
                    None => {
                        proof {
                            lemma_cut(d, cps, i as int + 1);
                        }
                        return None;
                    },
                }
            }
            i = i + 1;
        }
        proof {
            assert(cap_list@ =~= cps);
            assert(amounts@ =~= cut_to_caps(d, cps));
        }
        Some((cap_list, amounts, excess))
    }

    /// The cap of `addr` (none means unbounded).
    fn cap_of(&self, addr: BeneficiaryId) -> (c: i128)
        requires
            self.wf(),
        ensures
            c == cap_for(self.caps.entries@, addr),
    {
        match self.caps.get(addr) {
            Some(c) => c,
            None => i128::MAX,
        }
    }

    /// Enforce the caps on `distributions`: cut each amount to its cap, then
    /// redistribute the cut excess to the beneficiaries with room left.
    pub fn apply_caps(&self, distributions: &KeyedMap<i128>) -> (out: CapsOutcome)
        requires
            self.wf(),
            distributions.wf(),
            caps_fit(self.caps.entries@, distributions.entries@),
        ensures
            out.capped.wf(),
            out.capped.entries@.len() == distributions.entries@.len(),
            forall|i: int|
                0 <= i < distributions.entries@.len() ==> #[trigger] out.capped.entries@[i].0
                    == distributions.entries@[i].0,
            amounts_of(out.capped.entries@) == capped_result(
                self.caps.entries@,
                distributions.entries@,
            ).0,
            out.excess == capped_result(self.caps.entries@, distributions.entries@).1,
            out.enforced@ == cut_events(
                distributions.entries@,
                caps_along(self.caps.entries@, distributions.entries@),
                distributions.entries@.len() as int,
            ),
    {
        let ghost d = distributions.entries@;
        let ghost cps = caps_along(self.caps.entries@, d);
        proof {
            lemma_caps_along_positive(self.caps.entries@, d);
        }
        let n = distributions.entries.len();
        let mut enforced: Vec<CapEnforcedEvent> = Vec::new();
        let mut i: usize = 0;
        while i < n
            invariant
                n == d.len(),
                d == distributions.entries@,
                cps == caps_along(self.caps.entries@, d),
                self.wf(),
                0 <= i <= n,
                enforced@ == cut_events(d, cps, i as int),
            decreases n - i,
        {
            let (addr, amount) = distributions.entries[i];
            let cap = self.cap_of(addr);
            proof {
                assert(cap == cps[i as int]);
            }
            if amount > cap {
                enforced.push(
                    CapEnforcedEvent {
                        beneficiary: addr,
                        requested: amount,
                        capped_at: cap,
                        excess: amount - cap,
                    },
                );
            }
            i = i + 1;
        }
        let (cap_list, mut amounts, excess) = match self.cut(distributions) {
            Some(cut) => cut,
            None => {
                proof {
                    assert(false);
                }
                return CapsOutcome { capped: KeyedMap::new(), excess: 0, enforced };
            },
        };
        proof {
            lemma_cut(d, cps, n as int);
            assert(within_caps(amounts@, cap_list@));
            assert(round_state_ok(amounts@, cap_list@, excess as int));
            lemma_redistribute(amounts@, cap_list@, excess as int);
        }
        let rest = redistribute_excess(&cap_list, &mut amounts, excess);
        let mut entries: Vec<(u64, i128)> = Vec::new();
        let mut j: usize = 0;
        while j < n
            invariant
                n == d.len(),
                d == distributions.entries@,
                amounts@.len() == n,
                keys_ascending(d),
                0 <= j <= n,
                entries@.len() == j,
                forall|k: int| 0 <= k < j ==> #[trigger] entries@[k] == (d[k].0, amounts@[k]),
            decreases n - j,
        {
            entries.push((distributions.entries[j].0, amounts[j]));
            j = j + 1;
        }
        let capped = KeyedMap { entries };
        proof {
            assert(amounts_of(capped.entries@) =~= amounts@);
            assert(keys_ascending(capped.entries@)) by {
                assert forall|a: int, b: int| 0 <= a < b < capped.entries@.len() implies capped.entries@[a].0 < capped.entries@[b].0 by {
                    assert(capped.entries@[a] == (d[a].0, amounts@[a]));
                    assert(capped.entries@[b] == (d[b].0, amounts@[b]));
                }
            }
        }
        CapsOutcome { capped, excess: rest, enforced }
    }
}

/// The total weight and the count of the entries below their cap.
fn eligible_weights(caps: &Vec<i128>, capped: &Vec<i128>) -> (r: Option<(i128, i128)>)
    requires
        capped@.len() == caps@.len(),
    ensures
        r.is_some() == (weight_prefix(capped@, caps@, capped@.len() as int) <= i128::MAX),
        r matches Some(t) ==> t.0 == weight_prefix(capped@, caps@, capped@.len() as int) && t.1
            == eligible_prefix(capped@, caps@, capped@.len() as int),
{
    let n = capped.len();
    let mut total_weight: i128 = 0;
    let mut eligible_count: i128 = 0;
    let mut i: usize = 0;
    while i < n
        invariant
            n == capped@.len(),
            n == caps@.len(),
            0 <= i <= n,
            total_weight == weight_prefix(capped@, caps@, i as int),
            eligible_count == eligible_prefix(capped@, caps@, i as int),
        decreases n - i,
    {
        proof {
            lemma_eligible_bounds(capped@, caps@, i as int + 1);
            lemma_weight_prefix_monotone(capped@, caps@, i as int + 1, n as int);
        }
        let amount = capped[i];
        let cap = caps[i];
        if amount < cap {
            let held = if amount > 0 { amount } else { 0 };
            total_weight = match total_weight.checked_add(held) {
                Some(w) => w,
                None => {
                    return None;
                },
            };
            eligible_count = eligible_count + 1;
        }
        i = i + 1;
    }
    Some((total_weight, eligible_count))
}

/// The share of the entry at `i` in a round, given that the round's arithmetic
/// fits.
fn round_share(amount: i128, cap: i128, total_weight: i128, eligible_count: i128, excess: i128) -> (s: i128)
    requires
        amount < cap,
        total_weight >= 0,
        eligible_count > 0,
        excess > 0,
        cap - amount <= i128::MAX,
        excess * round_weight(amount as int, total_weight as int) <= i128::MAX,
    ensures
        s == share_for(amount as int, cap as int, total_weight as int, eligible_count as int, excess as int),
{
    let room = cap - amount;
    let weight = if total_weight > 0 {
        if amount > 0 { amount } else { 0 }
    } else {
        1
    };
    let denominator = if total_weight > 0 { total_weight } else { eligible_count };
    proof {
        assert(0 <= excess * weight) by (nonlinear_arith)
            requires
                0 <= weight,
                0 < excess,
        ;
    }
    let quotient = (excess * weight) / denominator;
    let mut share = if quotient > 1 { quotient } else { 1 };
    if share > room {
        share = room;
    }
    if share > excess {
        share = excess;
    }
    share
}

/// Whether every round of handing out `excess` fits `i128`; `capped` is used
/// as scratch space.
fn redistribution_fits(caps: &Vec<i128>, capped: &mut Vec<i128>, initial_excess: i128) -> (r: bool)
    requires
        round_state_ok(old(capped)@, caps@, initial_excess as int),
    ensures
        r == redistribute_fits(old(capped)@, caps@, initial_excess as int),
{
    let n = capped.len();
    let mut excess = initial_excess;
    let ghost start = (capped@, excess as int);
    while excess > 0
        invariant
            start == (old(capped)@, initial_excess as int),
            n == capped@.len(),
            round_state_ok(capped@, caps@, excess as int),
            redistribute_fits(start.0, caps@, start.1) == redistribute_fits(capped@, caps@, excess as int),
        decreases excess,
    {
        let (total_weight, eligible_count) = match eligible_weights(caps, capped) {
            Some(t) => t,
            None => {
                proof {
                    lemma_eligible_bounds(capped@, caps@, n as int);
                    assert(!redistribute_fits(capped@, caps@, excess as int));
                }
                return false;
            },
        };
        if eligible_count == 0 {
            proof {
                assert(redistribute_fits(capped@, caps@, excess as int));
            }
            return true;
        }
        proof {
            lemma_eligible_bounds(capped@, caps@, n as int);
        }
        let ghost c0 = capped@;
        let ghost e0 = excess as int;
        let mut i: usize = 0;
        while i < n && excess > 0
            invariant
                n == capped@.len(),
                round_state_ok(capped@, caps@, excess as int),
                round_state_ok(c0, caps@, e0),
                0 <= i <= n,
                0 < e0,
                total_weight == weight_prefix(c0, caps@, n as int),
                eligible_count == eligible_prefix(c0, caps@, n as int),
                0 <= total_weight,
                eligible_count > 0,
                round_from(capped@, caps@, total_weight as int, eligible_count as int, excess as int, i as int)
                    == round_from(c0, caps@, total_weight as int, eligible_count as int, e0, 0),
                round_fits(c0, caps@, total_weight as int, eligible_count as int, e0, 0) == round_fits(
                    capped@,
                    caps@,
                    total_weight as int,
                    eligible_count as int,
                    excess as int,
                    i as int,
                ),
                redistribute_fits(start.0, caps@, start.1) == redistribute_fits(c0, caps@, e0),
                start == (old(capped)@, initial_excess as int),
            decreases n - i,
        {
            let amount = capped[i];
            let cap = caps[i];
            if amount >= cap {
                i = i + 1;
                continue;
            }
            if cap.checked_sub(amount).is_none() || !weight_product_fits(excess, amount, total_weight) {
                proof {
                    assert(!round_fits(capped@, caps@, total_weight as int, eligible_count as int, excess as int, i as int));
                    assert(!redistribute_fits(c0, caps@, e0));
                }
                return false;
            }
            let share = round_share(amount, cap, total_weight, eligible_count, excess);
            proof {
                assert(1 <= share <= excess);
                assert(share <= cap - amount);
            }
            capped.set(i, amount + share);
            excess = excess - share;
            i = i + 1;
        }
        proof {
            lemma_round_from(c0, caps@, total_weight as int, eligible_count as int, e0, 0);
            lemma_some_eligible(c0, caps@, n as int);
            assert(excess < e0);
            assert(round_from(capped@, caps@, total_weight as int, eligible_count as int, excess as int, i as int)
                == (capped@, excess as int));
            assert(round_fits(capped@, caps@, total_weight as int, eligible_count as int, excess as int, i as int));
            assert(round_fits(c0, caps@, total_weight as int, eligible_count as int, e0, 0));
            assert(redistribute_fits(c0, caps@, e0) == redistribute_fits(capped@, caps@, excess as int));
        }
    }
    true
}

/// `excess * weight` stays within `i128`, the weight of an entry holding
/// `amount` in a round of total weight `total_weight`.
fn weight_product_fits(excess: i128, amount: i128, total_weight: i128) -> (r: bool)
    requires
        excess > 0,
        total_weight >= 0,
    ensures
        r == (excess * round_weight(amount as int, total_weight as int) <= i128::MAX),
{
    let weight: i128 = if total_weight > 0 {
        if amount > 0 { amount } else { 0 }
    } else {
        1
    };
    excess.checked_mul(weight).is_some()
}

/// Hand `excess` out, round by round, to the entries still below their cap.
fn redistribute_excess(caps: &Vec<i128>, capped: &mut Vec<i128>, excess: i128) -> (rest: i128)
    requires
        round_state_ok(old(capped)@, caps@, excess as int),
        redistribute_fits(old(capped)@, caps@, excess as int),
    ensures
        (final(capped)@, rest as int) == redistribute(old(capped)@, caps@, excess as int),
{
    let n = capped.len();
    let mut excess = excess;
    let ghost target = redistribute(capped@, caps@, excess as int);
    while excess > 0
        invariant
            n == capped@.len(),
            round_state_ok(capped@, caps@, excess as int),
            redistribute_fits(capped@, caps@, excess as int),
            redistribute(capped@, caps@, excess as int) == target,
        ensures
            (capped@, excess as int) == target,
        decreases excess,
    {
        proof {
            lemma_eligible_bounds(capped@, caps@, n as int);
        }
        let (total_weight, eligible_count) = match eligible_weights(caps, capped) {
            Some(t) => t,
            None => {
                proof {
                    assert(false);
                }
                break;
            },
        };
        if eligible_count == 0 {
            proof {
                assert(redistribute(capped@, caps@, excess as int) == (capped@, excess as int));
            }
            break;
        }
        let ghost c0 = capped@;
        let ghost e0 = excess as int;
        let mut distributed: i128 = 0;
        let mut i: usize = 0;
        while i < n && excess > 0
            invariant
                n == capped@.len(),
                round_state_ok(capped@, caps@, excess as int),
                round_state_ok(c0, caps@, e0),
                0 <= i <= n,
                0 < e0,
                total_weight == weight_prefix(c0, caps@, n as int),
                eligible_count == eligible_prefix(c0, caps@, n as int),
                0 <= total_weight,
                eligible_count > 0,
                round_from(capped@, caps@, total_weight as int, eligible_count as int, excess as int, i as int)
                    == round_from(c0, caps@, total_weight as int, eligible_count as int, e0, 0),
                round_fits(capped@, caps@, total_weight as int, eligible_count as int, excess as int, i as int),
                e0 <= i128::MAX,
                distributed == e0 - excess,
            decreases n - i,
        {
            let amount = capped[i];
            let cap = caps[i];
            if amount >= cap {
                i = i + 1;
                continue;
            }
            let share = round_share(amount, cap, total_weight, eligible_count, excess);
            proof {
                assert(1 <= share <= excess);
                assert(share <= cap - amount);
                lemma_total_update(capped@, i as int, (amount + share) as i128);
            }
            capped.set(i, amount + share);
            excess = excess - share;
            distributed = distributed + share;
            i = i + 1;
        }
        proof {
            lemma_round_from(c0, caps@, total_weight as int, eligible_count as int, e0, 0);
            lemma_some_eligible(c0, caps@, n as int);
            assert(excess < e0);
            assert(round_from(capped@, caps@, total_weight as int, eligible_count as int, excess as int, i as int)
                == (capped@, excess as int));
            assert(redistribute(c0, caps@, e0) == if excess < e0 {
                redistribute(capped@, caps@, excess as int)
            } else {
                (capped@, excess as int)
            });
        }
        if distributed == 0 {
            break;
        }
    }
    excess
}

/// A round of redistribution leaves every entry before `j` as it was.
proof fn lemma_round_keeps_earlier(c: Seq<i128>, cp: Seq<i128>, tw: int, ec: int, excess: int, j: int, k: int)
    requires
        0 <= k < j,
        k < c.len(),
    ensures
        round_from(c, cp, tw, ec, excess, j).0.len() == c.len(),
        round_from(c, cp, tw, ec, excess, j).0[k] == c[k],
    decreases c.len() - j,
{
    if j < 0 || j >= c.len() || excess <= 0 {
    } else if c[j] >= cp[j] {
        lemma_round_keeps_earlier(c, cp, tw, ec, excess, j + 1, k);
    } else {
        let s = share_for(c[j] as int, cp[j] as int, tw, ec, excess);
        lemma_round_keeps_earlier(c.update(j, (c[j] + s) as i128), cp, tw, ec, excess - s, j + 1, k);
    }
}

/// In a round of redistribution, a beneficiary still below its cap, reached
/// while `excess` is left, receives its share of that excess in proportion to
/// what it holds among the `tw` held by all beneficiaries below their caps
/// (the `ec` of them share equally when they hold nothing), at least one unit,
/// and no more than its room below the cap nor more than the excess left.
/// Beneficiaries reached later in the round do not change what it ends with.
pub proof fn law_round_share(c: Seq<i128>, cp: Seq<i128>, tw: int, ec: int, excess: int, i: int)
    requires
        c.len() == cp.len(),
        0 <= i < c.len(),
        c[i] < cp[i],
        0 < excess,
        0 <= tw,
        1 <= ec,
    ensures
        ({
            let held = c[i] as int;
            let room = cp[i] - c[i];
            let proportional = if tw > 0 {
                excess * (if held > 0 { held } else { 0 }) / tw
            } else {
                excess / ec
            };
            let at_least_one = if proportional >= 1 { proportional } else { 1 };
            let share = if at_least_one <= room && at_least_one <= excess {
                at_least_one
            } else if room <= excess {
                room
            } else {
                excess
            };
            round_from(c, cp, tw, ec, excess, i).0[i] == held + share
        }),
{
    let s = share_for(c[i] as int, cp[i] as int, tw, ec, excess);
    assert(1 <= s <= cp[i] - c[i]);
    let c2 = c.update(i, (c[i] + s) as i128);
    lemma_round_keeps_earlier(c2, cp, tw, ec, excess - s, i + 1, i);
}

} // verus!
