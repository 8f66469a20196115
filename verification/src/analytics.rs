//! Vault analytics: counts by status, the total check-in interval, and a daily
//! series of created and released vaults.
//!
//! The mean check-in interval and the release rate are these counts divided;
//! the caller does that division.
use vstd::prelude::*;
use crate::models::{Vault, VaultStatus};
use crate::store::VaultStore;
use crate::outside::{spec_utc_date, utc_date};

verus! {

/// Seconds in a day.
pub const SECONDS_PER_DAY: i64 = 86_400;

#[derive(Clone, Copy, Debug, PartialEq, Eq)]
pub struct TimeSeriesPoint {
    /// Days since 1970-01-01 (UTC).
    pub day: i64,
    pub vaults_created: u64,
    pub vaults_released: u64,
}

#[derive(Clone, Debug)]
pub struct VaultAnalytics {
    pub total_vaults: u64,
    pub active_vaults: u64,
    pub released_vaults: u64,
    /// Sum of the vaults' check-in intervals, in seconds.
    pub total_check_in_interval: u128,
    /// One point per day on which a vault was created, earliest first.
    pub time_series: Vec<TimeSeriesPoint>,
}

/// The UTC day of a timestamp (days since the epoch, rounded down).
pub open spec fn day_of(ts: i64) -> int {
    ts as int / 86_400
}

pub open spec fn count_status(s: Seq<(String, Vault)>, st: VaultStatus, n: int) -> int
    decreases n,
{
    if n <= 0 {
        0
    } else {
        count_status(s, st, n - 1) + if s[n - 1].1.status == st { 1int } else { 0int }
    }
}

pub open spec fn interval_total(s: Seq<(String, Vault)>, n: int) -> int
    decreases n,
{
    if n <= 0 {
        0
    } else {
        interval_total(s, n - 1) + s[n - 1].1.check_in_interval
    }
}

/// Number of the first `n` vaults created on day `d`.
pub open spec fn created_on(s: Seq<(String, Vault)>, d: int, n: int) -> int
    decreases n,
{
    if n <= 0 {
        0
    } else {
        created_on(s, d, n - 1) + if day_of(s[n - 1].1.created_at.secs) == d { 1int } else { 0int }
    }
}

/// Number of the first `n` vaults created on day `d` that are released.
pub open spec fn released_on(s: Seq<(String, Vault)>, d: int, n: int) -> int
    decreases n,
{
    if n <= 0 {
        0
    } else {
        released_on(s, d, n - 1) + if day_of(s[n - 1].1.created_at.secs) == d && s[n - 1].1.status
            == VaultStatus::Released {
            1int
        } else {
            0int
        }
    }
}

/// The daily series of the first `n` vaults: days strictly increasing, one point
/// for each day on which one of them was created, with that day's counts.
pub open spec fn series_of(s: Seq<(String, Vault)>, n: int, points: Seq<TimeSeriesPoint>) -> bool {
    &&& forall|a: int, b: int| 0 <= a < b < points.len() ==> points[a].day < points[b].day
    &&& forall|a: int|
        0 <= a < points.len() ==> {
            &&& (#[trigger] points[a]).vaults_created == created_on(s, points[a].day as int, n)
            &&& points[a].vaults_released == released_on(s, points[a].day as int, n)
            &&& created_on(s, points[a].day as int, n) > 0
        }
    &&& forall|j: int|
        0 <= j < n ==> exists|a: int|
            0 <= a < points.len() && points[a].day == day_of(#[trigger] s[j].1.created_at.secs)
}

proof fn lemma_counts_bounded(s: Seq<(String, Vault)>, d: int, n: int)
    requires
        0 <= n,
    ensures
        0 <= released_on(s, d, n) <= created_on(s, d, n) <= n,
    decreases n,
{
    if n > 0 {
        lemma_counts_bounded(s, d, n - 1);
    }
}

proof fn lemma_status_bounded(s: Seq<(String, Vault)>, st: VaultStatus, n: int)
    requires
        0 <= n,
    ensures
        0 <= count_status(s, st, n) <= n,
        0 <= interval_total(s, n) <= n * 0xffff_ffff_ffff_ffff,
    decreases n,
{
    if n > 0 {
        lemma_status_bounded(s, st, n - 1);
        assert((n - 1) * 0xffff_ffff_ffff_ffff + 0xffff_ffff_ffff_ffff == n * 0xffff_ffff_ffff_ffff)
            by (nonlinear_arith);
    }
}

/// No vault created on a day means no point for that day.
proof fn lemma_created_zero(s: Seq<(String, Vault)>, d: int, n: int)
    requires
        0 <= n <= s.len(),
        forall|j: int| 0 <= j < n ==> day_of(s[j].1.created_at.secs) != d,
    ensures
        created_on(s, d, n) == 0,
    decreases n,
{
    if n > 0 {
        lemma_created_zero(s, d, n - 1);
    }
}

fn day_number(ts: i64) -> (d: i64)
    ensures
        d == day_of(ts),
{
    if ts >= 0 {
        ts / SECONDS_PER_DAY
    } else {
        let m: i64 = -(ts + 1);
        let q = m / SECONDS_PER_DAY;
        proof {
            let r = m % 86_400;
            assert(m == 86_400 * q + r && 0 <= r < 86_400);
            assert(ts == 86_400 * (-q - 1) + (86_400 - r - 1));
            assert(ts as int / 86_400 == -q - 1) by (nonlinear_arith)
                requires
                    ts == 86_400 * (-q - 1) + (86_400 - r - 1),
                    0 <= 86_400 - r - 1 < 86_400,
            {
                vstd::arithmetic::div_mod::lemma_fundamental_div_mod_converse(
                    ts as int,
                    86_400,
                    -q - 1,
                    86_400 - r - 1,
                );
            }
        }
        -q - 1
    }
}

/// Counts by status, the total check-in interval, and the daily series of
/// created and released vaults.
pub fn compute_vault_analytics(store: &VaultStore) -> (r: VaultAnalytics)
    ensures
        r.total_vaults == store.vaults.entries@.len(),
        r.active_vaults == count_status(
            store.vaults.entries@,
            VaultStatus::Active,
            store.vaults.entries@.len() as int,
        ),
        r.released_vaults == count_status(
            store.vaults.entries@,
            VaultStatus::Released,
            store.vaults.entries@.len() as int,
        ),
        r.total_check_in_interval == interval_total(
            store.vaults.entries@,
            store.vaults.entries@.len() as int,
        ),
        series_of(store.vaults.entries@, store.vaults.entries@.len() as int, r.time_series@),
{
    let ghost s = store.vaults.entries@;
    let n = store.vaults.entries.len();
    let mut active: u64 = 0;
    let mut released: u64 = 0;
    let mut interval_sum: u128 = 0;
    let mut points: Vec<TimeSeriesPoint> = Vec::new();
    let mut i: usize = 0;
    while i < n
        invariant
            n == s.len(),
            s == store.vaults.entries@,
            0 <= i <= n,
            active == count_status(s, VaultStatus::Active, i as int),
            released == count_status(s, VaultStatus::Released, i as int),
            interval_sum == interval_total(s, i as int),
            series_of(s, i as int, points@),
        decreases n - i,
    {
        proof {
            lemma_status_bounded(s, VaultStatus::Active, i as int);
            lemma_status_bounded(s, VaultStatus::Released, i as int);
            assert(i * 0xffff_ffff_ffff_ffff <= 0xffff_ffff_ffff_ffff * 0xffff_ffff_ffff_ffff)
                by (nonlinear_arith)
                requires
                    0 <= i <= 0xffff_ffff_ffff_ffff,
            ;
        }
        let v = &store.vaults.entries[i].1;
        if v.status == VaultStatus::Active {
            active = active + 1;
        }
        if v.status == VaultStatus::Released {
            released = released + 1;
        }
        interval_sum = interval_sum + v.check_in_interval as u128;
        let day = day_number(v.created_at.secs);
        let is_released: u64 = if v.status == VaultStatus::Released { 1 } else { 0 };
        let len = points.len();
        let mut pos: usize = 0;
        while pos < len && points[pos].day < day
            invariant
                len == points@.len(),
                0 <= pos <= len,
                forall|a: int| 0 <= a < pos ==> points@[a].day < day,
            decreases len - pos,
        {
            pos = pos + 1;
        }
        let ghost p0 = points@;
        proof {
            assert forall|a: int| pos <= a < len implies p0[a].day >= day by {
                if a > pos {
                    assert(p0[pos as int].day < p0[a].day);
                }
            }
        }
        if pos < len && points[pos].day == day {
            let old_point = points[pos];
            proof {
                lemma_counts_bounded(s, day as int, i as int);
            }
            points.set(
                pos,
                TimeSeriesPoint {
                    day,
                    vaults_created: old_point.vaults_created + 1,
                    vaults_released: old_point.vaults_released + is_released,
                },
            );
            proof {
                let p1 = points@;
                assert forall|a: int| 0 <= a < p1.len() implies {
                    &&& (#[trigger] p1[a]).vaults_created == created_on(s, p1[a].day as int, i + 1)
                    &&& p1[a].vaults_released == released_on(s, p1[a].day as int, i + 1)
                    &&& created_on(s, p1[a].day as int, i + 1) > 0
                } by {
                    if a != pos {
                        assert(p1[a] == p0[a]);
                        if a < pos {
                            assert(p0[a].day < day);
                        } else {
                            assert(p0[pos as int].day < p0[a].day);
                        }
                    }
                }
                assert forall|j: int| 0 <= j < i + 1 implies exists|a: int|
                    0 <= a < p1.len() && p1[a].day == day_of(#[trigger] s[j].1.created_at.secs) by {
                    if j < i {
                        let a = choose|a: int| 0 <= a < p0.len() && p0[a].day == day_of(s[j].1.created_at.secs);
                        assert(p1[a].day == p0[a].day);
                    } else {
                        assert(p1[pos as int].day == day);
                    }
                }
            }
        } else {
            let point = TimeSeriesPoint { day, vaults_created: 1, vaults_released: is_released };
            proof {
                assert forall|j: int| 0 <= j < i implies day_of(s[j].1.created_at.secs) != day by {
                    let a = choose|a: int| 0 <= a < p0.len() && p0[a].day == day_of(s[j].1.created_at.secs);
                    if a < pos {
                        assert(p0[a].day < day);
                    } else {
                        assert(p0[a].day >= day);
                        if a > pos {
                            assert(p0[pos as int].day < p0[a].day);
                        }
                        assert(p0[a].day != day);
                    }
                }
                lemma_created_zero(s, day as int, i as int);
                lemma_counts_bounded(s, day as int, i as int);
            }
            points.insert(pos, point);
            proof {
                let p1 = points@;
                assert forall|a: int, b: int| 0 <= a < b < p1.len() implies p1[a].day < p1[b].day by {
                    if b < pos {
                    } else if b == pos {
                    } else if a < pos {
                        assert(p1[b] == p0[b - 1]);
                    } else if a == pos {
                        assert(p1[b] == p0[b - 1]);
                        assert(p0[b - 1].day >= day);
                        assert(p0[b - 1].day != day || !(pos < len));
                        if pos < len {
                            assert(p0[pos as int].day != day);
                            if b - 1 > pos {
                                assert(p0[pos as int].day < p0[b - 1].day);
                            }
                        }
                    } else {
                        assert(p1[a] == p0[a - 1]);
                        assert(p1[b] == p0[b - 1]);
                    }
                }
                assert forall|a: int| 0 <= a < p1.len() implies {
                    &&& (#[trigger] p1[a]).vaults_created == created_on(s, p1[a].day as int, i + 1)
                    &&& p1[a].vaults_released == released_on(s, p1[a].day as int, i + 1)
                    &&& created_on(s, p1[a].day as int, i + 1) > 0
                } by {
                    if a < pos {
                        assert(p1[a] == p0[a]);
                        assert(p0[a].day < day);
                    } else if a > pos {
                        assert(p1[a] == p0[a - 1]);
                        assert(p0[a - 1].day >= day);
                        if pos < len {
                            assert(p0[pos as int].day != day);
                            if a - 1 > pos {
                                assert(p0[pos as int].day < p0[a - 1].day);
                            }
                        }
                    }
                }
                assert forall|j: int| 0 <= j < i + 1 implies exists|a: int|
                    0 <= a < p1.len() && p1[a].day == day_of(#[trigger] s[j].1.created_at.secs) by {
                    if j < i {
                        let a = choose|a: int| 0 <= a < p0.len() && p0[a].day == day_of(s[j].1.created_at.secs);
                        if a < pos {
                            assert(p1[a] == p0[a]);
                        } else {
                            assert(p1[a + 1] == p0[a]);
                        }
                    } else {
                        assert(p1[pos as int].day == day);
                    }
                }
            }
        }
        i = i + 1;
    }
    VaultAnalytics {
        total_vaults: n as u64,
        active_vaults: active,
        released_vaults: released,
        total_check_in_interval: interval_sum,
        time_series: points,
    }
}

/// The vaults created on the first `k` points' days, among the first `m`
/// vaults.
pub open spec fn created_on_days(s: Seq<(String, Vault)>, points: Seq<TimeSeriesPoint>, m: int, k: int) -> int
    decreases k,
{
    if k <= 0 {
        0
    } else {
        created_on_days(s, points, m, k - 1) + created_on(s, points[k - 1].day as int, m)
    }
}

/// How many of the first `k` points fall on day `d`.
pub open spec fn day_hits(points: Seq<TimeSeriesPoint>, d: int, k: int) -> int
    decreases k,
{
    if k <= 0 {
        0
    } else {
        day_hits(points, d, k - 1) + if points[k - 1].day as int == d { 1int } else { 0int }
    }
}

/// The vaults created over the first `k` points of a series, summed.
pub open spec fn series_created(points: Seq<TimeSeriesPoint>, k: int) -> int
    decreases k,
{
    if k <= 0 {
        0
    } else {
        series_created(points, k - 1) + points[k - 1].vaults_created
    }
}

proof fn lemma_created_on_days_step(s: Seq<(String, Vault)>, points: Seq<TimeSeriesPoint>, m: int, k: int)
    requires
        m >= 1,
    ensures
        created_on_days(s, points, m, k) == created_on_days(s, points, m - 1, k) + day_hits(
            points,
            day_of(s[m - 1].1.created_at.secs),
            k,
        ),
    decreases k,
{
    if k > 0 {
        lemma_created_on_days_step(s, points, m, k - 1);
    }
}

proof fn lemma_day_hits(points: Seq<TimeSeriesPoint>, d: int, k: int)
    requires
        0 <= k <= points.len(),
        forall|a: int, b: int| 0 <= a < b < points.len() ==> points[a].day < points[b].day,
    ensures
        0 <= day_hits(points, d, k) <= 1,
        day_hits(points, d, k) == 1 <==> exists|a: int| 0 <= a < k && points[a].day as int == d,
    decreases k,
{
    if k > 0 {
        lemma_day_hits(points, d, k - 1);
        if points[k - 1].day as int == d {
            assert forall|a: int| 0 <= a < k - 1 implies points[a].day as int != d by {
                assert(points[a].day < points[k - 1].day);
            }
        }
    }
}

proof fn lemma_created_on_days_all(s: Seq<(String, Vault)>, points: Seq<TimeSeriesPoint>, n: int, m: int)
    requires
        0 <= m <= n <= s.len(),
        series_of(s, n, points),
    ensures
        created_on_days(s, points, m, points.len() as int) == m,
    decreases m,
{
    if m == 0 {
        lemma_created_on_days_zero(s, points, points.len() as int);
    } else {
        lemma_created_on_days_all(s, points, n, m - 1);
        lemma_created_on_days_step(s, points, m, points.len() as int);
        let x = day_of(s[m - 1].1.created_at.secs);
        lemma_day_hits(points, x, points.len() as int);
        assert(exists|a: int| 0 <= a < points.len() && points[a].day == day_of(s[m - 1].1.created_at.secs));
    }
}

proof fn lemma_created_on_days_zero(s: Seq<(String, Vault)>, points: Seq<TimeSeriesPoint>, k: int)
    ensures
        created_on_days(s, points, 0, k) == 0,
    decreases k,
{
    if k > 0 {
        lemma_created_on_days_zero(s, points, k - 1);
    }
}

proof fn lemma_series_created(s: Seq<(String, Vault)>, points: Seq<TimeSeriesPoint>, n: int, k: int)
    requires
        0 <= k <= points.len(),
        series_of(s, n, points),
    ensures
        series_created(points, k) == created_on_days(s, points, n, k),
    decreases k,
{
    if k > 0 {
        lemma_series_created(s, points, n, k - 1);
        assert(points[k - 1].vaults_created == created_on(s, points[k - 1].day as int, n));
    }
}

/// The daily series accounts for every vault once: its creation counts add up
/// to the number of vaults, and on each day at least one vault was created and
/// no more were released than created.
pub proof fn law_series_counts_every_vault(s: Seq<(String, Vault)>, points: Seq<TimeSeriesPoint>)
    requires
        series_of(s, s.len() as int, points),
    ensures
        series_created(points, points.len() as int) == s.len(),
        forall|a: int|
            0 <= a < points.len() ==> 1 <= (#[trigger] points[a]).vaults_created && points[a].vaults_released
                <= points[a].vaults_created,
{
    let n = s.len() as int;
    lemma_created_on_days_all(s, points, n, n);
    lemma_series_created(s, points, n, points.len() as int);
    assert forall|a: int| 0 <= a < points.len() implies 1 <= (#[trigger] points[a]).vaults_created
        && points[a].vaults_released <= points[a].vaults_created by {
        lemma_counts_bounded(s, points[a].day as int, n);
    }
}

/// The calendar date (`YYYY-MM-DD`) of a day of the series.
pub fn day_date(day: i64) -> (r: Option<String>)
    ensures
        r.is_some() == (i64::MIN <= day * 86_400 <= i64::MAX && spec_utc_date((day * 86_400) as i64).is_some()),
        r matches Some(t) ==> spec_utc_date((day * 86_400) as i64) == Some(t@),
{
    match day.checked_mul(86_400) {
        Some(ts) => utc_date(ts),
        None => None,
    }
}

} // verus!
