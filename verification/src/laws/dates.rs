//! What a moment is written as.

use vstd::prelude::*;

use crate::calendar::leap;
use crate::calendar::moment;
use crate::calendar::month_after;
use crate::calendar::month_days;
use crate::calendar::year_after;
use crate::calendar::year_days;
use crate::number::padded;

verus! {

/// The days of a year: one more in every fourth, but in a full century only
/// where four hundred divides it.
pub open spec fn days_in(year: nat) -> nat {
    if year % 400 == 0 {
        366
    } else if year % 100 == 0 {
        365
    } else if year % 4 == 0 {
        366
    } else {
        365
    }
}

/// The days before a year, from the start of 1970.
pub open spec fn days_before(year: nat) -> nat
    decreases year,
{
    if year <= 1970 {
        0
    } else {
        days_before((year - 1) as nat) + days_in((year - 1) as nat)
    }
}

/// The days of each month of a year.
pub open spec fn lengths(year: nat) -> Seq<nat> {
    seq![
        31,
        if days_in(year) == 366 {
            29
        } else {
            28
        },
        31,
        30,
        31,
        30,
        31,
        31,
        30,
        31,
        30,
        31,
    ]
}

/// The days of a year before a month, counted from one.
pub open spec fn days_before_month(year: nat, month: nat) -> nat
    decreases month,
{
    if month <= 1 {
        0
    } else {
        days_before_month(year, (month - 1) as nat) + lengths(year)[month - 2]
    }
}

/// Years and months have their lengths.
pub proof fn years_and_months_have_their_lengths(year: nat, month: nat)
    ensures
        year_days(year) == days_in(year),
        leap(year) <==> days_in(year) == 366,
        1 <= month <= 12 ==> month_days(year, month) == lengths(year)[month - 1],
{
    let all = lengths(year);
    assert(all[0] == 31 && all[2] == 31 && all[3] == 30 && all[4] == 31 && all[5] == 30 && all[6]
        == 31 && all[7] == 31 && all[8] == 30 && all[9] == 31 && all[10] == 30 && all[11] == 31);
    assert(year % 400 == 0 ==> year % 100 == 0 && year % 4 == 0);
    assert(year % 100 == 0 ==> year % 4 == 0);
}

proof fn years_pass(year: nat, days: nat)
    requires
        year >= 1970,
    ensures
        ({
            let (y, rest) = year_after(year, days);
            y >= year && rest < days_in(y) && days_before(y) + rest == days_before(year) + days
        }),
    decreases days,
{
    years_and_months_have_their_lengths(year, 1);
    if days >= year_days(year) {
        years_pass(year + 1, (days - year_days(year)) as nat);
    }
}

proof fn months_pass(year: nat, month: nat, days: nat)
    requires
        1 <= month <= 12,
        days_before_month(year, month) + days < days_in(year),
    ensures
        ({
            let (m, d) = month_after(year, month, days);
            &&& month <= m <= 12
            &&& 1 <= d <= lengths(year)[m - 1]
            &&& days_before_month(year, m) + (d - 1) == days_before_month(year, month) + days
        }),
    decreases days,
{
    years_and_months_have_their_lengths(year, month);
    year_is_full(year);
    if month < 12 && days >= month_days(year, month) {
        months_pass(year, month + 1, (days - month_days(year, month)) as nat);
    }
}

proof fn year_is_full(year: nat)
    ensures
        days_before_month(year, 12) + lengths(year)[11] == days_in(year),
{
    reveal_with_fuel(days_before_month, 13);
    let all = lengths(year);
    assert(all[0] == 31 && all[2] == 31 && all[3] == 30 && all[4] == 31 && all[5] == 30 && all[6]
        == 31 && all[7] == 31 && all[8] == 30 && all[9] == 31 && all[10] == 30 && all[11] == 31);
}

/// A moment is written as the date and the time that it falls on: counted
/// back, the days of the years before, of the months before and of the month
/// before it, and the hours, minutes and seconds of its day, give its seconds.
pub proof fn moments_count_back(secs: nat) -> (r: (nat, nat, nat, nat, nat, nat))
    ensures
        ({
            let (year, month, day, hour, minute, second) = r;
            &&& year >= 1970
            &&& 1 <= month <= 12
            &&& 1 <= day <= lengths(year)[month - 1]
            &&& hour < 24
            &&& minute < 60
            &&& second < 60
            &&& (days_before(year) + days_before_month(year, month) + day - 1) * 86400 + hour * 3600
                + minute * 60 + second == secs
            &&& moment(secs) == padded(year, 10, 4) + "-"@ + padded(month, 10, 2) + "-"@ + padded(
                day,
                10,
                2,
            ) + "T"@ + padded(hour, 10, 2) + ":"@ + padded(minute, 10, 2) + ":"@ + padded(
                second,
                10,
                2,
            ) + "Z"@
        }),
{
    let days = secs / 86400;
    years_pass(1970, days);
    let (year, rest) = year_after(1970, days);
    assert(days_before_month(year, 1) == 0);
    months_pass(year, 1, rest);
    let (month, day) = month_after(year, 1, rest);
    let t = secs % 86400;
    (year, month, day, t / 3600, (t % 3600) / 60, t % 60)
}

} // verus!
