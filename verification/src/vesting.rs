//! Vesting schedules: vault funds released in equal installments over time.
use vstd::prelude::*;
use crate::amounts::min_int;

verus! {

/// A vesting schedule: `num_installments` equal installments of
/// `total_amount`, one every `interval` seconds from `start_time`, none
/// claimable before `start_time + cliff_period`.
#[derive(Clone, Copy, Debug, PartialEq, Eq)]
pub struct VestingSchedule {
    pub start_time: u64,
    pub interval: u64,
    pub num_installments: u32,
    pub total_amount: i128,
    pub cliff_period: u64,
}

/// End of the cliff (saturating at the largest time).
pub open spec fn cliff_end(s: VestingSchedule) -> int {
    min_int(s.start_time + s.cliff_period, u64::MAX as int)
}

/// Installments unlocked at time `t` (at least the first one from the start).
pub open spec fn unlocked_installments(s: VestingSchedule, t: u64) -> int {
    let interval = if s.interval == 0 { 1 } else { s.interval as int };
    min_int((t - s.start_time) / interval + 1, s.num_installments as int)
}

/// The amount vested at time `t`.
pub open spec fn vested_amount(s: VestingSchedule, t: u64) -> int {
    if s.num_installments == 0 || s.total_amount <= 0 {
        0
    } else if t < s.start_time {
        0
    } else if s.cliff_period > 0 && t < cliff_end(s) {
        0
    } else if unlocked_installments(s, t) >= s.num_installments {
        s.total_amount as int
    } else {
        ((s.total_amount as int) / (s.num_installments as int)) * unlocked_installments(s, t)
    }
}

/// The count of unlocked installments is computable without overflow.
pub open spec fn vesting_computable(s: VestingSchedule, t: u64) -> bool {
    !(s.interval <= 1 && t >= s.start_time && t - s.start_time == u64::MAX)
}

/// The amount of `schedule` vested at `current_time`: nothing before the start
/// or the cliff, then one installment per interval begun, the whole amount once
/// every installment has unlocked.
pub fn compute_vested_amount(schedule: &VestingSchedule, current_time: u64) -> (r: i128)
    requires
        vesting_computable(*schedule, current_time),
    ensures
        r == vested_amount(*schedule, current_time),
{
    if schedule.num_installments == 0 || schedule.total_amount <= 0 {
        return 0;
    }
    if current_time < schedule.start_time {
        return 0;
    }
    if schedule.cliff_period > 0 && current_time < schedule.start_time.saturating_add(
        schedule.cliff_period,
    ) {
        return 0;
    }
    let interval = if schedule.interval == 0 { 1 } else { schedule.interval };
    let elapsed = current_time.saturating_sub(schedule.start_time);
    proof {
        assert(elapsed / interval <= elapsed);
        if interval > 1 {
            assert(elapsed / interval < u64::MAX) by (nonlinear_arith)
                requires
                    interval > 1,
                    elapsed <= u64::MAX,
            ;
        }
    }
    let steps = elapsed / interval + 1;
    let n = schedule.num_installments as u64;
    let unlocked: u64 = if steps < n { steps } else { n };
    let per_installment = schedule.total_amount / (schedule.num_installments as i128);
    if unlocked >= n {
        schedule.total_amount
    } else {
        proof {
            let t = schedule.total_amount as int;
            let m = schedule.num_installments as int;
            assert(0 <= per_installment * unlocked <= t) by (nonlinear_arith)
                requires
                    t > 0,
                    m > 0,
                    per_installment == t / m,
                    0 <= unlocked < m,
            {
                assert(per_installment * m <= t);
                assert(per_installment * unlocked <= per_installment * m);
            }
        }
        per_installment * (unlocked as i128)
    }
}

/// What has vested is never negative and never more than the schedule's total.
pub proof fn law_vested_within_total(s: VestingSchedule, t: u64)
    ensures
        0 <= vested_amount(s, t) <= if s.total_amount > 0 { s.total_amount as int } else { 0 },
{
    if s.num_installments > 0 && s.total_amount > 0 && t >= s.start_time && !(s.cliff_period > 0
        && t < cliff_end(s)) && unlocked_installments(s, t) < s.num_installments {
        let total = s.total_amount as int;
        let m = s.num_installments as int;
        let u = unlocked_installments(s, t);
        let interval = if s.interval == 0 { 1 } else { s.interval as int };
        assert((t - s.start_time) / interval >= 0) by (nonlinear_arith)
            requires
                t - s.start_time >= 0,
                interval > 0,
        ;
        assert(0 <= (total / m) * u <= total) by (nonlinear_arith)
            requires
                total > 0,
                m > 0,
                0 <= u < m,
        {
            assert((total / m) * m <= total);
            assert((total / m) * u <= (total / m) * m);
        }
    }
}

/// Vesting never goes backward: a later time has at least as much vested.
pub proof fn law_vesting_monotone(s: VestingSchedule, t1: u64, t2: u64)
    requires
        t1 <= t2,
    ensures
        vested_amount(s, t1) <= vested_amount(s, t2),
{
    law_vested_within_total(s, t1);
    law_vested_within_total(s, t2);
    if vested_amount(s, t1) > 0 && s.num_installments > 0 && s.total_amount > 0 {
        let interval = if s.interval == 0 { 1 } else { s.interval as int };
        vstd::arithmetic::div_mod::lemma_div_is_ordered(
            t1 - s.start_time,
            t2 - s.start_time,
            interval,
        );
        let u1 = unlocked_installments(s, t1);
        let u2 = unlocked_installments(s, t2);
        assert(u1 <= u2);
        if u2 < s.num_installments {
            let total = s.total_amount as int;
            let m = s.num_installments as int;
            assert((total / m) * u1 <= (total / m) * u2) by (nonlinear_arith)
                requires
                    total > 0,
                    m > 0,
                    u1 <= u2,
            ;
        }
    }
}

} // verus!
