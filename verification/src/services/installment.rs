//! Instalment plans: reading the short plan format and building the schedule.
use crate::models::debt::Installment;
use crate::services::clock::{
    date_in_range, local_at, local_instant, parse_date, spec_ymd_days_from_ce, DAY_SECS,
    EPOCH_DAYS_FROM_CE,
};
use crate::text::{int_from_str, parse_int, split_chars, split_on, string_of, strip_whitespace, without_whitespace};
use vstd::prelude::*;

verus! {

#[derive(Debug, Clone, PartialEq, Structural)]
pub struct InstallmentPlan {
    pub count: u32,
    pub period_days: u32,
    /// The first due instant (Unix seconds); `None`: `period_days` after today.
    pub first_due: Option<i64>,
}

/// What a plan text means, whitespace ignored: "N/D" is N payments every D days, the
/// first D days from today; "N/D/YYYY-MM-DD" is the same with the first one on that
/// date at 09:00 local time. N must be 1..=60 and D 1..=365.
pub open spec fn plan_of(s: Seq<char>) -> Option<InstallmentPlan> {
    let parts = split_on(strip_whitespace(s), '/');
    if parts.len() < 2 || parts.len() > 3 {
        None
    } else {
        match (
            int_from_str(parts[0], false, 0, u32::MAX as int),
            int_from_str(parts[1], false, 0, u32::MAX as int),
        ) {
            (Some(count), Some(period)) => {
                if count == 0 || count > 60 || period == 0 || period > 365 {
                    None
                } else if parts.len() == 3 {
                    match spec_ymd_days_from_ce(parts[2]) {
                        Some(d) => Some(
                            InstallmentPlan {
                                count: count as u32,
                                period_days: period as u32,
                                first_due: Some(
                                    local_instant(d - EPOCH_DAYS_FROM_CE, 9, 0) as i64,
                                ),
                            },
                        ),
                        None => None,
                    }
                } else {
                    Some(
                        InstallmentPlan {
                            count: count as u32,
                            period_days: period as u32,
                            first_due: None,
                        },
                    )
                }
            },
            _ => None,
        }
    }
}

/// Reads the short plan format:
///   "3/30"            → 3 payments every 30 days, the first 30 days from today
///   "3/30/2026-06-15" → 3 payments every 30 days, the first on 15 June 2026
pub fn parse_plan(s: &str) -> (r: Option<InstallmentPlan>)
    ensures
        r == plan_of(s@),
        r matches Some(p) ==> forall|today: int| date_in_range(today) ==> #[trigger] schedule_in_range(p, today),
{
    let cleaned = without_whitespace(s);
    let parts = split_chars(&cleaned, '/');
    if parts.len() < 2 || parts.len() > 3 {
        return None;
    }
    let count = match parse_int(parts[0].as_slice(), false, 0, u32::MAX as i64) {
        Some(c) => c,
        None => return None,
    };
    let period = match parse_int(parts[1].as_slice(), false, 0, u32::MAX as i64) {
        Some(p) => p,
        None => return None,
    };
    if count == 0 || count > 60 || period == 0 || period > 365 {
        return None;
    }
    assert(0 <= (count - 1) * period <= 59 * 365 && count * period <= 60 * 365) by (nonlinear_arith)
        requires
            1 <= count <= 60,
            1 <= period <= 365,
    ;
    let first = if parts.len() == 3 {
        let text = string_of(&parts[2]);
        match parse_date(text.as_str()) {
            Some(days) => Some(local_at(days, 9, 0)),
            None => return None,
        }
    } else {
        None
    };
    Some(InstallmentPlan { count: count as u32, period_days: period as u32, first_due: first })
}

/// The default first due instant: 09:00 local time, `period` days after the local
/// day `today`.
pub open spec fn default_first_due(today: int, period: int) -> int {
    local_instant(today + period, 9, 0)
}

/// Whether the instalments fall due every `period` days from `first`.
pub open spec fn due_dates_from(s: Seq<Installment>, first: int, period: int) -> bool {
    forall|i: int| 0 <= i < s.len() ==> (#[trigger] s[i]).due_date == first + i * period * DAY_SECS
}

/// The amount of instalment `i` of `n` for a total `total > 0`: the quotient, and
/// the last one also takes the remainder.
pub open spec fn installment_amount(total: int, n: int, i: int) -> int {
    if i == n - 1 { total / n + total % n } else { total / n }
}

/// The sum of the instalments' amounts.
pub open spec fn installments_total(s: Seq<Installment>) -> int
    decreases s.len(),
{
    if s.len() == 0 {
        0
    } else {
        installments_total(s.drop_last()) + s.last().amount_minor
    }
}

/// The first due instant of a plan laid out on the local day `today`: its own first
/// date, or 09:00 local time `period_days` after today.
pub open spec fn first_due_of(plan: InstallmentPlan, today: int) -> int {
    match plan.first_due {
        Some(f) => f as int,
        None => default_first_due(today, plan.period_days as int),
    }
}

/// Whether the due instants of the plan, laid out on the local day `today`, stay
/// within `i64`.
pub open spec fn schedule_in_range(plan: InstallmentPlan, today: int) -> bool {
    let first = first_due_of(plan, today);
    &&& i64::MIN <= first
    &&& first + (plan.count - 1) * plan.period_days * DAY_SECS <= i64::MAX
}

/// Whether `build_installments` can lay out the plan on the local day `today`: its
/// due instants stay within `i64`.
pub fn schedule_fits(plan: &InstallmentPlan, today: i64) -> (r: bool)
    ensures
        r == schedule_in_range(*plan, today as int),
{
    let a = plan.count as i128;
    let b = plan.period_days as i128;
    assert(-0xffff_ffff <= (a - 1) * b <= 0xffff_ffff * 0xffff_ffff) by (nonlinear_arith)
        requires
            0 <= a <= 0xffff_ffff,
            0 <= b <= 0xffff_ffff,
    ;
    let first: i128 = match plan.first_due {
        Some(f) => f as i128,
        None => (today as i128 + b) * 86400 + 9 * 3600 - 18000,
    };
    let steps = (a - 1) * b;
    i64::MIN as i128 <= first && first + steps * 86400 <= i64::MAX as i128
}

/// Builds the schedule of a plan for a debt of `total_minor`, laid out on the local
/// day `today`. Every instalment but the last gets the quotient of the division, the
/// last also the remainder, so the amounts add up to `total_minor` exactly. Due dates
/// are `period_days` apart from the first: `first_due`, or 09:00 local time
/// `period_days` after today.
pub fn build_installments(plan: &InstallmentPlan, total_minor: i64, today: i64) -> (r: Vec<Installment>)
    requires
        plan.count > 0 && total_minor > 0 ==> schedule_in_range(*plan, today as int),
    ensures
        (plan.count == 0 || total_minor <= 0) ==> r@.len() == 0,
        (plan.count > 0 && total_minor > 0) ==> {
            &&& r@.len() == plan.count
            &&& installments_total(r@) == total_minor
            &&& due_dates_from(r@, first_due_of(*plan, today as int), plan.period_days as int)
            &&& forall|i: int|
                0 <= i < r@.len() ==> {
                    &&& (#[trigger] r@[i]).amount_minor == installment_amount(
                        total_minor as int,
                        plan.count as int,
                        i,
                    )
                    &&& !r@[i].paid
                    &&& r@[i].due_notified_at is None
                    &&& r@[i].overdue_notified_at is None
                }
        },
{
    let mut out: Vec<Installment> = Vec::new();
    if plan.count == 0 || total_minor <= 0 {
        return out;
    }
    let n = plan.count as i64;
    let base = total_minor / n;
    assert(base * n <= total_minor) by (nonlinear_arith)
        requires
            total_minor > 0,
            n > 0,
            base == total_minor / n,
    ;
    let remainder = total_minor - base * n;
    assert(base == total_minor / n && remainder == total_minor % n && 0 <= base <= total_minor
        && 0 <= remainder < n && base + remainder <= total_minor) by (nonlinear_arith)
        requires
            total_minor > 0,
            n > 0,
            base == total_minor / n,
            remainder == total_minor - base * n,
    ;
    let period = plan.period_days as i64;
    let first: i64 = match plan.first_due {
        Some(f) => f,
        None => ((today as i128 + period as i128) * 86400 + 9 * 3600 - 18000) as i64,
    };
    assert(first == first_due_of(*plan, today as int));
    let mut i: u32 = 0;
    while i < plan.count
        invariant
            i <= plan.count,
            n == plan.count,
            out@.len() == i,
            total_minor > 0,
            base == total_minor / n,
            remainder == total_minor % n,
            0 <= base <= total_minor,
            base + remainder <= total_minor,
            period == plan.period_days,
            first == first_due_of(*plan, today as int),
            first + (plan.count - 1) * plan.period_days * DAY_SECS <= i64::MAX,
            forall|j: int| 0 <= j < i ==> (#[trigger] out@[j]).due_date == first + j * period * DAY_SECS,
            forall|j: int|
                0 <= j < i ==> {
                    &&& (#[trigger] out@[j]).amount_minor == installment_amount(
                        total_minor as int,
                        plan.count as int,
                        j,
                    )
                    &&& !out@[j].paid
                    &&& out@[j].due_notified_at is None
                    &&& out@[j].overdue_notified_at is None
                },
            installments_total(out@) == i * base + (if i == plan.count { remainder as int } else { 0 }),
        decreases plan.count - i,
    {
        assert((i as int) * period * DAY_SECS <= (plan.count - 1) * plan.period_days * DAY_SECS) by (nonlinear_arith)
            requires
                i < plan.count,
                period == plan.period_days,
                period >= 0,
        ;
        assert(0 <= (i as int) * period * DAY_SECS + period * DAY_SECS <= plan.count
            * plan.period_days * DAY_SECS) by (nonlinear_arith)
            requires
                i < plan.count,
                period == plan.period_days,
                0 <= period,
        ;
        let offset: i128 = (i as i128) * (period as i128) * (DAY_SECS as i128);
        let due = (first as i128 + offset) as i64;
        let amount = if i == plan.count - 1 { base + remainder } else { base };
        let ghost before = out@;
        out.push(Installment {
            due_date: due,
            amount_minor: amount,
            paid: false,
            due_notified_at: None,
            overdue_notified_at: None,
        });
        assert(out@.drop_last() == before);
        assert((i + 1) * base == i * base + base) by (nonlinear_arith);
        i += 1;
    }
    assert(n * base + remainder == total_minor) by (nonlinear_arith)
        requires
            n > 0,
            base == total_minor / n,
            remainder == total_minor % n,
    ;
    assert(due_dates_from(out@, first_due_of(*plan, today as int), plan.period_days as int));
    out
}

} // verus!
