//! Beneficiary matching: when a source beneficiary receives a payout, a matched
//! beneficiary receives a configured share of it on top.
use vstd::prelude::*;
use crate::amounts::lemma_split_share;
use crate::keyed_map::{
    keys_ascending, lemma_lookup_at, lookup, position_of, BeneficiaryId, KeyedMap,
};

verus! {

/// Basis points in one whole.
pub const FULL_BPS: u32 = 10_000;

/// Storage key under which the match pairs are kept.
pub enum MatchingKey {
    Matches,
}

/// `matched` receives `match_bps` basis points of what `source` receives.
#[derive(Clone, Copy, Debug, PartialEq, Eq)]
pub struct MatchPair {
    pub source: BeneficiaryId,
    pub matched: BeneficiaryId,
    pub match_bps: u32,
}

/// Published when a match pair is set.
#[derive(Clone, Copy, Debug, PartialEq, Eq)]
pub struct MatchSetEvent {
    pub source: BeneficiaryId,
    pub matched: BeneficiaryId,
    pub match_bps: u32,
}

/// Published for each matched payout.
#[derive(Clone, Copy, Debug, PartialEq, Eq)]
pub struct MatchedDistributionEvent {
    pub source: BeneficiaryId,
    pub matched: BeneficiaryId,
    pub source_amount: i128,
    pub matched_amount: i128,
}

/// The configured match pairs, one per source.
pub struct MatchRegistry {
    pub matches: KeyedMap<MatchPair>,
}

/// What `compute_matched_amounts` hands back.
pub struct MatchOutcome {
    pub matched: KeyedMap<i128>,
    pub events: Vec<MatchedDistributionEvent>,
}

/// What a pair adds to its matched beneficiary: its share of the source's
/// payout, rounded toward zero (nothing when the source receives nothing).
pub open spec fn match_contribution(base: Map<u64, i128>, p: MatchPair) -> int {
    if base.contains_key(p.source) && base[p.source] > 0 {
        base[p.source] * p.match_bps / 10_000
    } else {
        0
    }
}

/// The matched payouts after the first `n` pairs.
pub open spec fn matched_prefix(pairs: Seq<(u64, MatchPair)>, base: Map<u64, i128>, n: int) -> Map<
    u64,
    i128,
>
    decreases n,
{
    if n <= 0 {
        Map::empty()
    } else {
        let prev = matched_prefix(pairs, base, n - 1);
        let p = pairs[n - 1].1;
        let m = match_contribution(base, p);
        if m > 0 {
            let existing = if prev.contains_key(p.matched) { prev[p.matched] as int } else { 0 };
            prev.insert(p.matched, (existing + m) as i128)
        } else {
            prev
        }
    }
}

/// The events for the first `n` pairs.
pub open spec fn matched_events(pairs: Seq<(u64, MatchPair)>, base: Map<u64, i128>, n: int) -> Seq<
    MatchedDistributionEvent,
>
    decreases n,
{
    if n <= 0 {
        Seq::empty()
    } else {
        let p = pairs[n - 1].1;
        let m = match_contribution(base, p);
        if m > 0 {
            matched_events(pairs, base, n - 1).push(
                MatchedDistributionEvent {
                    source: p.source,
                    matched: p.matched,
                    source_amount: base[p.source],
                    matched_amount: m as i128,
                },
            )
        } else {
            matched_events(pairs, base, n - 1)
        }
    }
}

pub open spec fn pairs_valid(pairs: Seq<(u64, MatchPair)>) -> bool {
    forall|i: int|
        0 <= i < pairs.len() ==> (#[trigger] pairs[i]).1.source == pairs[i].0 && pairs[i].1.match_bps
            <= 10_000
}

/// The amount already matched to `who` after the first `n` pairs.
pub open spec fn matched_so_far(pairs: Seq<(u64, MatchPair)>, base: Map<u64, i128>, n: int, who: u64) -> int {
    let prev = matched_prefix(pairs, base, n);
    if prev.contains_key(who) {
        prev[who] as int
    } else {
        0
    }
}

/// Every running total of matched amounts, through the first `n` pairs, stays
/// within `i128`: the limit of the arithmetic that adds them up.
pub open spec fn matches_fit(pairs: Seq<(u64, MatchPair)>, base: Map<u64, i128>, n: int) -> bool
    decreases n,
{
    if n <= 0 {
        true
    } else {
        let p = pairs[n - 1].1;
        let m = match_contribution(base, p);
        &&& matches_fit(pairs, base, n - 1)
        &&& (m > 0 ==> matched_so_far(pairs, base, n - 1, p.matched) + m <= i128::MAX)
    }
}

proof fn lemma_matches_fit_prefix(pairs: Seq<(u64, MatchPair)>, base: Map<u64, i128>, m: int, n: int)
    requires
        0 <= m <= n,
        matches_fit(pairs, base, n),
    ensures
        matches_fit(pairs, base, m),
    decreases n - m,
{
    if m < n {
        lemma_matches_fit_prefix(pairs, base, m, n - 1);
    }
}

/// A pair never adds more than its source receives, nor less than nothing.
pub proof fn law_match_at_most_source(base: Map<u64, i128>, p: MatchPair)
    requires
        p.match_bps <= 10_000,
    ensures
        0 <= match_contribution(base, p),
        base.contains_key(p.source) && base[p.source] > 0 ==> match_contribution(base, p)
            <= base[p.source],
        !base.contains_key(p.source) ==> match_contribution(base, p) == 0,
{
    if base.contains_key(p.source) && base[p.source] > 0 {
        let a = base[p.source] as int;
        let b = p.match_bps as int;
        assert(0 <= a * b / 10_000 <= a) by (nonlinear_arith)
            requires
                a > 0,
                0 <= b <= 10_000,
        ;
    }
}

proof fn lemma_matched_prefix_positive(pairs: Seq<(u64, MatchPair)>, base: Map<u64, i128>, n: int)
    requires
        pairs_valid(pairs),
        matches_fit(pairs, base, n),
        0 <= n <= pairs.len(),
    ensures
        forall|k: u64|
            matched_prefix(pairs, base, n).contains_key(k) ==> 0 < #[trigger] matched_prefix(
                pairs,
                base,
                n,
            )[k],
    decreases n,
{
    if n > 0 {
        lemma_matched_prefix_positive(pairs, base, n - 1);
        let p = pairs[n - 1].1;
        law_match_at_most_source(base, p);
        let prev = matched_prefix(pairs, base, n - 1);
        assert forall|k: u64| matched_prefix(pairs, base, n).contains_key(k) implies 0 < #[trigger] matched_prefix(
            pairs,
            base,
            n,
        )[k] by {
            let m = match_contribution(base, p);
            if m > 0 && k == p.matched {
                let existing = matched_so_far(pairs, base, n - 1, p.matched);
                assert(0 <= existing);
                assert(existing + m <= i128::MAX);
                assert(matched_prefix(pairs, base, n)[k] == (existing + m) as i128);
            } else {
                assert(prev.contains_key(k));
                assert(matched_prefix(pairs, base, n)[k] == prev[k]);
            }
        }
    }
}

/// What the first `n` pairs match to `who` in all: the positive
/// contributions of the pairs whose matched beneficiary is `who`.
pub open spec fn contribution_sum(pairs: Seq<(u64, MatchPair)>, base: Map<u64, i128>, n: int, who: u64) -> int
    decreases n,
{
    if n <= 0 {
        0
    } else {
        let p = pairs[n - 1].1;
        let m = match_contribution(base, p);
        contribution_sum(pairs, base, n - 1, who) + if p.matched == who && m > 0 {
            m
        } else {
            0
        }
    }
}

/// The matched payouts are the per-beneficiary sums of the pairs' positive
/// contributions: a beneficiary appears exactly when something is matched to
/// it, with the sum of what is matched to it.
pub proof fn law_matched_is_sum_of_contributions(
    pairs: Seq<(u64, MatchPair)>,
    base: Map<u64, i128>,
    n: int,
    who: u64,
)
    requires
        pairs_valid(pairs),
        matches_fit(pairs, base, n),
        0 <= n <= pairs.len(),
    ensures
        contribution_sum(pairs, base, n, who) >= 0,
        matched_prefix(pairs, base, n).contains_key(who) <==> contribution_sum(pairs, base, n, who) > 0,
        matched_prefix(pairs, base, n).contains_key(who) ==> matched_prefix(pairs, base, n)[who]
            == contribution_sum(pairs, base, n, who),
    decreases n,
{
    if n > 0 {
        law_matched_is_sum_of_contributions(pairs, base, n - 1, who);
        let p = pairs[n - 1].1;
        law_match_at_most_source(base, p);
        let m = match_contribution(base, p);
        if m > 0 && p.matched == who {
            law_matched_is_sum_of_contributions(pairs, base, n - 1, p.matched);
            assert(matched_so_far(pairs, base, n - 1, who) == contribution_sum(pairs, base, n - 1, who));
        }
    }
}

impl MatchRegistry {
    pub open spec fn wf(&self) -> bool {
        &&& self.matches.wf()
        &&& pairs_valid(self.matches.entries@)
    }

    /// No match pairs configured.
    pub fn new() -> (r: Self)
        ensures
            r.wf(),
            r.matches@ == Map::<u64, MatchPair>::empty(),
    {
        MatchRegistry { matches: KeyedMap::new() }
    }

    /// Register (or replace) the match pair of `source`; at most 10000 bps.
    pub fn set_match(&mut self, source: BeneficiaryId, matched: BeneficiaryId, match_bps: u32) -> (ev:
        MatchSetEvent)
        requires
            old(self).wf(),
            match_bps <= FULL_BPS,
        ensures
            final(self).wf(),
            final(self).matches@ == old(self).matches@.insert(
                source,
                MatchPair { source, matched, match_bps },
            ),
            ev == (MatchSetEvent { source, matched, match_bps }),
    {
        let ghost s0 = self.matches.entries@;
        let pair = MatchPair { source, matched, match_bps };
        self.matches.set(source, pair);
        proof {
            let s1 = self.matches.entries@;
            assert forall|i: int| 0 <= i < s1.len() implies (#[trigger] s1[i]).1.source == s1[i].0
                && s1[i].1.match_bps <= 10_000 by {
                lemma_lookup_at(s1, i);
                let k = s1[i].0;
                assert(self.matches@.contains_key(k));
                assert(self.matches@[k] == s1[i].1);
                if k != source {
                    assert(old(self).matches@.contains_key(k));
                    assert(self.matches@[k] == old(self).matches@[k]);
                    let p = position_of(s0, k);
                    assert(s0[p].1.source == s0[p].0);
                }
            }
        }
        MatchSetEvent { source, matched, match_bps }
    }

    /// The share `match_bps` of a positive `source_amount`, rounded down,
    /// computed without an intermediate product beyond the source amount.
    fn matched_share(source_amount: i128, match_bps: u32) -> (m: i128)
        requires
            source_amount > 0,
            match_bps <= FULL_BPS,
        ensures
            m == source_amount * match_bps / 10_000,
            0 <= m <= source_amount,
    {
        let bps = match_bps as i128;
        let q = source_amount / 10_000;
        let r = source_amount % 10_000;
        proof {
            lemma_split_share(source_amount as int, bps as int, 10_000);
        }
        q * bps + (r * bps) / 10_000
    }

    /// Whether `compute_matched_amounts` can run on `base_distributions`: every
    /// running total of matched amounts stays within `i128`.
    pub fn matches_fit_for(&self, base_distributions: &KeyedMap<i128>) -> (r: bool)
        requires
            self.wf(),
            base_distributions.wf(),
        ensures
            r == matches_fit(
                self.matches.entries@,
                base_distributions@,
                self.matches.entries@.len() as int,
            ),
    {
        let ghost pairs = self.matches.entries@;
        let ghost base = base_distributions@;
        let n = self.matches.entries.len();
        let mut matched_amounts: KeyedMap<i128> = KeyedMap::new();
        let mut i: usize = 0;
        while i < n
            invariant
                n == pairs.len(),
                pairs == self.matches.entries@,
                base == base_distributions@,
                self.wf(),
                base_distributions.wf(),
                0 <= i <= n,
                matched_amounts.wf(),
                matched_amounts@ == matched_prefix(pairs, base, i as int),
                matches_fit(pairs, base, i as int),
            decreases n - i,
        {
            let pair = self.matches.entries[i].1;
            proof {
                lemma_matched_prefix_positive(pairs, base, i as int);
                law_match_at_most_source(base, pair);
            }
            match base_distributions.get(pair.source) {
                Some(source_amount) => {
                    if source_amount > 0 {
                        let matched_amount = Self::matched_share(source_amount, pair.match_bps);
                        if matched_amount > 0 {
                            let existing = match matched_amounts.get(pair.matched) {
                                Some(v) => v,
                                None => 0,
                            };
                            match existing.checked_add(matched_amount) {
                                Some(sum) => {
                                    matched_amounts.set(pair.matched, sum);
                                },
                                None => {
                                    proof {
                                        assert(match_contribution(base, pair) == matched_amount);
                                        assert(matched_so_far(pairs, base, i as int, pair.matched) == existing);
                                        assert(!matches_fit(pairs, base, i as int + 1));
                                        if matches_fit(pairs, base, n as int) {
                                            lemma_matches_fit_prefix(pairs, base, i as int + 1, n as int);
                                        }
                                    }
                                    return false;
                                },
                            }
                        }
                    }
                },
                None => {},
            }
            i = i + 1;
        }
        true
    }

    /// The extra payouts that the match pairs give for `base_distributions`:
    /// for each pair, in source order, the matched beneficiary receives its
    /// share of what the source receives.
    pub fn compute_matched_amounts(&self, base_distributions: &KeyedMap<i128>) -> (out:
        MatchOutcome)
        requires
            self.wf(),
            base_distributions.wf(),
            matches_fit(
                self.matches.entries@,
                base_distributions@,
                self.matches.entries@.len() as int,
            ),
        ensures
            out.matched.wf(),
            out.matched@ == matched_prefix(
                self.matches.entries@,
                base_distributions@,
                self.matches.entries@.len() as int,
            ),
            out.events@ == matched_events(
                self.matches.entries@,
                base_distributions@,
                self.matches.entries@.len() as int,
            ),
    {
        let ghost pairs = self.matches.entries@;
        let ghost base = base_distributions@;
        let n = self.matches.entries.len();
        let mut matched_amounts: KeyedMap<i128> = KeyedMap::new();
        let mut events: Vec<MatchedDistributionEvent> = Vec::new();
        let mut i: usize = 0;
        while i < n
            invariant
                n == pairs.len(),
                pairs == self.matches.entries@,
                base == base_distributions@,
                self.wf(),
                base_distributions.wf(),
                matches_fit(pairs, base, n as int),
                0 <= i <= n,
                matched_amounts.wf(),
                matched_amounts@ == matched_prefix(pairs, base, i as int),
                events@ == matched_events(pairs, base, i as int),
            decreases n - i,
        {
            let pair = self.matches.entries[i].1;
            proof {
                lemma_matches_fit_prefix(pairs, base, i as int + 1, n as int);
                lemma_matched_prefix_positive(pairs, base, i as int);
                law_match_at_most_source(base, pair);
            }
            match base_distributions.get(pair.source) {
                Some(source_amount) => {
                    if source_amount > 0 {
                        let matched_amount = Self::matched_share(source_amount, pair.match_bps);
                        if matched_amount > 0 {
                            let existing = match matched_amounts.get(pair.matched) {
                                Some(v) => v,
                                None => 0,
                            };
                            matched_amounts.set(pair.matched, existing + matched_amount);
                            events.push(
                                MatchedDistributionEvent {
                                    source: pair.source,
                                    matched: pair.matched,
                                    source_amount,
                                    matched_amount,
                                },
                            );
                        }
                    }
                },
                None => {},
            }
            i = i + 1;
        }
        MatchOutcome { matched: matched_amounts, events }
    }
}

} // verus!
