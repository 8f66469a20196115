//! Sums over sequences of token amounts, and the facts about them that the
//! distribution rules rely on.
use vstd::prelude::*;

verus! {

pub open spec fn min_int(a: int, b: int) -> int {
    if a <= b { a } else { b }
}

pub open spec fn max_int(a: int, b: int) -> int {
    if a >= b { a } else { b }
}

/// Sum of the first `n` amounts.
pub open spec fn prefix_total(s: Seq<i128>, n: int) -> int
    decreases n,
{
    if n <= 0 {
        0
    } else {
        prefix_total(s, n - 1) + s[n - 1]
    }
}

pub open spec fn total(s: Seq<i128>) -> int {
    prefix_total(s, s.len() as int)
}

pub open spec fn all_nonneg(s: Seq<i128>) -> bool {
    forall|i: int| 0 <= i < s.len() ==> s[i] >= 0
}

/// The amounts of a table's entries, in key order.
pub open spec fn amounts_of(s: Seq<(u64, i128)>) -> Seq<i128> {
    Seq::new(s.len(), |i: int| s[i].1)
}

pub proof fn lemma_prefix_total_monotone(s: Seq<i128>, m: int, n: int)
    requires
        all_nonneg(s),
        0 <= m <= n <= s.len(),
    ensures
        0 <= prefix_total(s, m) <= prefix_total(s, n),
    decreases n - m,
{
    if m < n {
        lemma_prefix_total_monotone(s, m, n - 1);
    } else {
        lemma_prefix_total_nonneg(s, m);
    }
}

pub proof fn lemma_prefix_total_nonneg(s: Seq<i128>, n: int)
    requires
        all_nonneg(s),
        0 <= n <= s.len(),
    ensures
        prefix_total(s, n) >= 0,
    decreases n,
{
    if n > 0 {
        lemma_prefix_total_nonneg(s, n - 1);
    }
}

/// Replacing one amount changes the total by the difference.
pub proof fn lemma_prefix_total_update(s: Seq<i128>, i: int, v: i128, n: int)
    requires
        0 <= i < s.len(),
        0 <= n <= s.len(),
    ensures
        prefix_total(s.update(i, v), n) == if i < n {
            prefix_total(s, n) - s[i] + v
        } else {
            prefix_total(s, n)
        },
    decreases n,
{
    if n > 0 {
        lemma_prefix_total_update(s, i, v, n - 1);
    }
}

pub proof fn lemma_total_update(s: Seq<i128>, i: int, v: i128)
    requires
        0 <= i < s.len(),
    ensures
        total(s.update(i, v)) == total(s) - s[i] + v,
{
    lemma_prefix_total_update(s, i, v, s.len() as int);
}

/// Totals only depend on the entries they cover.
pub proof fn lemma_prefix_total_push(s: Seq<i128>, v: i128)
    ensures
        prefix_total(s.push(v), s.len() as int) == prefix_total(s, s.len() as int),
        total(s.push(v)) == total(s) + v,
{
    lemma_prefix_total_agree(s.push(v), s, s.len() as int);
}

pub proof fn lemma_prefix_total_agree(a: Seq<i128>, b: Seq<i128>, n: int)
    requires
        0 <= n <= a.len(),
        n <= b.len(),
        forall|i: int| 0 <= i < n ==> a[i] == b[i],
    ensures
        prefix_total(a, n) == prefix_total(b, n),
    decreases n,
{
    if n > 0 {
        lemma_prefix_total_agree(a, b, n - 1);
    }
}

/// `base * bps / t` computed as `(base / t) * bps + (base % t) * bps / t`.
pub proof fn lemma_split_share(base: int, bps: int, t: int)
    requires
        0 <= base,
        0 <= bps <= t,
        0 < t,
    ensures
        (base / t) * bps + ((base % t) * bps) / t == base * bps / t,
        0 <= (base / t) * bps <= base,
        0 <= (base % t) * bps < t * t,
        0 <= base * bps / t <= base,
{
    let q = base / t;
    let r = base % t;
    vstd::arithmetic::div_mod::lemma_fundamental_div_mod(base, t);
    assert(0 <= r < t);
    assert(0 <= q);
    assert(base * bps == r * bps + (q * bps) * t) by (nonlinear_arith)
        requires
            base == t * q + r,
    ;
    vstd::arithmetic::div_mod::lemma_hoist_over_denominator(r * bps, q * bps, t as nat);
    assert(0 <= q * bps <= q * t) by (nonlinear_arith)
        requires
            0 <= q,
            0 <= bps <= t,
    ;
    assert(q * t <= base);
    assert(0 <= r * bps < t * t) by (nonlinear_arith)
        requires
            0 <= r < t,
            0 <= bps <= t,
    ;
    assert(0 <= base * bps <= base * t) by (nonlinear_arith)
        requires
            0 <= base,
            0 <= bps <= t,
    ;
    vstd::arithmetic::div_mod::lemma_div_is_ordered(base * bps, base * t, t);
    vstd::arithmetic::div_mod::lemma_div_by_multiple(base, t);
    vstd::arithmetic::div_mod::lemma_div_is_ordered(0, base * bps, t);
}

} // verus!
