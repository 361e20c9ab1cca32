//! Dates of the Gregorian calendar, counted from the start of 1970.

use vstd::prelude::*;

use crate::number::padded;
use crate::number::padded_of;

verus! {

pub open spec fn leap(year: nat) -> bool {
    year % 4 == 0 && (year % 100 != 0 || year % 400 == 0)
}

pub open spec fn year_days(year: nat) -> nat {
    if leap(year) {
        366
    } else {
        365
    }
}

pub open spec fn month_days(year: nat, month: nat) -> nat {
    if month == 2 {
        if leap(year) {
            29
        } else {
            28
        }
    } else if month == 4 || month == 6 || month == 9 || month == 11 {
        30
    } else {
        31
    }
}

/// The year that lies `days` days after the start of `year`, and how many of
/// the days fall into it.
pub open spec fn year_after(year: nat, days: nat) -> (nat, nat)
    decreases days,
{
    if days < year_days(year) {
        (year, days)
    } else {
        year_after(year + 1, (days - year_days(year)) as nat)
    }
}

/// The month that lies `days` days after the start of `month`, and the day of
/// it, counted from one. The last month takes what is left.
pub open spec fn month_after(year: nat, month: nat, days: nat) -> (nat, nat)
    decreases days,
{
    if month >= 12 || days < month_days(year, month) {
        (month, days + 1)
    } else {
        month_after(year, month + 1, (days - month_days(year, month)) as nat)
    }
}

/// The moment `secs` seconds after the start of 1970, in universal time.
pub open spec fn moment(secs: nat) -> Seq<char> {
    let (year, rest) = year_after(1970, secs / 86400);
    let (month, day) = month_after(year, 1, rest);
    let t = secs % 86400;
    padded(year, 10, 4) + "-"@ + padded(month, 10, 2) + "-"@ + padded(day, 10, 2) + "T"@ + padded(
        t / 3600,
        10,
        2,
    ) + ":"@ + padded((t % 3600) / 60, 10, 2) + ":"@ + padded(t % 60, 10, 2) + "Z"@
}

/// The days of `n` years from the start of `year` on.
spec fn span(year: nat, n: nat) -> nat
    decreases n,
{
    if n == 0 {
        0
    } else {
        span(year, (n - 1) as nat) + year_days((year + n - 1) as nat)
    }
}

/// The leap years before `year`.
spec fn leaps(year: nat) -> int
    recommends
        year > 0,
{
    (year - 1) / 4 - (year - 1) / 100 + (year - 1) / 400
}

proof fn span_counted(year: nat, n: nat)
    requires
        year > 0,
    ensures
        span(year, n) == 365 * n + leaps(year + n) - leaps(year),
    decreases n,
{
    if n > 0 {
        span_counted(year, (n - 1) as nat);
        let last = (year + n - 1) as nat;
        assert(leaps(last + 1) - leaps(last) == if leap(last) {
            1int
        } else {
            0
        });
    }
}

proof fn years_skipped(year: nat, n: nat, days: nat)
    requires
        days >= span(year, n),
    ensures
        year_after(year, days) == year_after(year + n, (days - span(year, n)) as nat),
    decreases n,
{
    if n > 0 {
        years_skipped(year, (n - 1) as nat, days);
    }
}

/// The calendar repeats every 400 years.
proof fn cycles_skipped(year: nat, cycles: nat, days: nat)
    requires
        year > 0,
    ensures
        year_after(year, days + 146097 * cycles) == year_after(year + 400 * cycles, days),
    decreases cycles,
{
    if cycles > 0 {
        span_counted(year, 400);
        assert(span(year, 400) == 146097);
        years_skipped(year, 400, (days + 146097 * cycles) as nat);
        cycles_skipped(year + 400, (cycles - 1) as nat, days);
    }
}

fn is_leap(year: u64) -> (r: bool)
    ensures
        r == leap(year as nat),
{
    year % 4 == 0 && (year % 100 != 0 || year % 400 == 0)
}

fn days_in_month(year: u64, month: u64) -> (r: u64)
    ensures
        r == month_days(year as nat, month as nat),
{
    if month == 2 {
        if is_leap(year) {
            29
        } else {
            28
        }
    } else if month == 4 || month == 6 || month == 9 || month == 11 {
        30
    } else {
        31
    }
}

/// The moment `secs` seconds after the start of 1970, in universal time.
pub fn moment_of(secs: u64) -> (r: String)
    ensures
        r@ == moment(secs as nat),
{
    let total: u64 = secs / 86400;
    let cycles: u64 = total / 146097;
    let mut rest: u64 = total % 146097;
    let mut year: u64 = 1970 + 400 * cycles;
    proof {
        cycles_skipped(1970, cycles as nat, rest as nat);
    }
    let ghost found = year_after(1970, total as nat);
    let ghost start = year;
    while rest >= 365
        invariant_except_break
            found == year_after(year as nat, rest as nat),
            start <= year,
            year - start + rest <= 146097,
            start <= 1_000_000_000_000,
        ensures
            found == (year as nat, rest as nat),
            rest <= 365,
        decreases rest,
    {
        let len: u64 = if is_leap(year) {
            366
        } else {
            365
        };
        if rest < len {
            break;
        }
        rest = rest - len;
        year = year + 1;
    }
    let mut month: u64 = 1;
    let ghost dated = month_after(year as nat, 1, rest as nat);
    while month < 12 && rest >= days_in_month(year, month)
        invariant
            1 <= month <= 12,
            rest <= 365,
            dated == month_after(year as nat, month as nat, rest as nat),
        decreases rest,
    {
        let len: u64 = days_in_month(year, month);
        rest = rest - len;
        month = month + 1;
    }
    let t: u64 = secs % 86400;
    let mut out = padded_of(year, 10, 4);
    out.append("-");
    out.append(padded_of(month, 10, 2).as_str());
    out.append("-");
    out.append(padded_of(rest + 1, 10, 2).as_str());
    out.append("T");
    out.append(padded_of(t / 3600, 10, 2).as_str());
    out.append(":");
    out.append(padded_of((t % 3600) / 60, 10, 2).as_str());
    out.append(":");
    out.append(padded_of(t % 60, 10, 2).as_str());
    out.append("Z");
    out
}

} // verus!
