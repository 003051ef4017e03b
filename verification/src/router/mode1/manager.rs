//! Quantile grouping and trading-day resolution shared by the mode-one factors.
use vstd::prelude::*;

use crate::date::{days_in_month, is_leap_year, lemma_date_order, triple, Date};
use crate::db::dataframe::{count_not_after, dates_sorted};

verus! {

/// First position of quantile `index` among `len` rows sorted by factor. When
/// there are fewer rows than quantiles every quantile holds all rows.
pub open spec fn quantile_start(index: int, len: int, count: int) -> int {
    if len < count {
        0
    } else {
        index * len / count
    }
}

/// One past the last position of quantile `index`.
pub open spec fn quantile_end(index: int, len: int, count: int) -> int {
    if len < count {
        len
    } else {
        (index + 1) * len / count
    }
}

/// The positions `start, start + 1, ..., end - 1`.
pub open spec fn positions(start: int, end: int) -> Seq<usize> {
    Seq::new((end - start) as nat, |k: int| (start + k) as usize)
}

/// Bounds of quantile `index` (below `count`) over `len` sorted rows.
pub fn quantile_range(index: usize, len: usize, count: usize) -> (r: (usize, usize))
    requires
        index < count,
        count * len <= usize::MAX,
    ensures
        r.0 == quantile_start(index as int, len as int, count as int),
        r.1 == quantile_end(index as int, len as int, count as int),
{
    if len < count {
        (0, len)
    } else {
        proof {
            assert(index * len <= count * len) by (nonlinear_arith)
                requires
                    index < count,
            ;
            assert((index + 1) * len <= count * len) by (nonlinear_arith)
                requires
                    index < count,
            ;
        }
        (index * len / count, (index + 1) * len / count)
    }
}

/// Splits `len` rows, already sorted by ascending factor, into `count`
/// quantiles and returns the positions of each quantile.
pub fn split_quantiles(count: usize, len: usize) -> (r: Vec<Vec<usize>>)
    requires
        count * len <= usize::MAX,
    ensures
        r@.len() == count,
        forall|g: int|
            0 <= g < count ==> #[trigger] r@[g]@ == positions(
                quantile_start(g, len as int, count as int),
                quantile_end(g, len as int, count as int),
            ),
{
    let mut groups: Vec<Vec<usize>> = Vec::new();
    let mut g: usize = 0;
    while g < count
        invariant
            g <= count,
            count * len <= usize::MAX,
            groups@.len() == g,
            forall|h: int|
                0 <= h < g ==> #[trigger] groups@[h]@ == positions(
                    quantile_start(h, len as int, count as int),
                    quantile_end(h, len as int, count as int),
                ),
        decreases count - g,
    {
        let (start, end) = quantile_range(g, len, count);
        proof {
            lemma_quantile_bounds(g as int, len as int, count as int);
        }
        let mut group: Vec<usize> = Vec::new();
        let mut k: usize = start;
        while k < end
            invariant
                start <= k <= end,
                group@ == positions(start as int, k as int),
            decreases end - k,
        {
            group.push(k);
            proof {
                assert(group@ =~= positions(start as int, k + 1));
            }
            k = k + 1;
        }
        groups.push(group);
        g = g + 1;
    }
    groups
}

/// Each quantile range lies inside `0..len`.
proof fn lemma_quantile_bounds(g: int, len: int, count: int)
    requires
        0 <= g < count,
        0 <= len,
    ensures
        0 <= quantile_start(g, len, count) <= quantile_end(g, len, count) <= len,
{
    if len >= count {
        assert(0 <= g * len) by (nonlinear_arith)
            requires
                0 <= g,
                0 <= len,
        ;
        assert(g * len <= (g + 1) * len) by (nonlinear_arith)
            requires
                0 <= len,
        ;
        assert((g + 1) * len <= count * len) by (nonlinear_arith)
            requires
                g < count,
                0 <= len,
        ;
        lemma_div_monotone(g * len, (g + 1) * len, count);
        lemma_div_monotone((g + 1) * len, count * len, count);
        assert(count * len / count == len) by (nonlinear_arith)
            requires
                count > 0,
        ;
        assert(0 <= g * len / count) by (nonlinear_arith)
            requires
                0 <= g * len,
                count > 0,
        ;
    }
}

proof fn lemma_div_monotone(a: int, b: int, d: int)
    requires
        0 <= a <= b,
        d > 0,
    ensures
        a / d <= b / d,
{
    vstd::arithmetic::div_mod::lemma_div_is_ordered(a, b, d);
}

/// With fewer rows than quantiles, every quantile holds all the rows; with
/// any rows at all, no quantile is empty and each lies within the rows.
pub proof fn lemma_quantiles_never_empty(len: int, count: int)
    requires
        0 < count,
        0 <= len,
    ensures
        len < count ==> forall|g: int|
            0 <= g < count ==> #[trigger] quantile_start(g, len, count) == 0 && quantile_end(g, len, count) == len,
        forall|g: int|
            0 <= g < count ==> 0 <= #[trigger] quantile_start(g, len, count) <= quantile_end(g, len, count) <= len,
        len > 0 ==> forall|g: int| 0 <= g < count ==> #[trigger] quantile_start(g, len, count) < quantile_end(g, len, count),
{
    assert forall|g: int| 0 <= g < count implies 0 <= #[trigger] quantile_start(g, len, count) <= quantile_end(g, len, count) <= len by {
        lemma_quantile_bounds(g, len, count);
    }
    if len >= count && len > 0 {
        lemma_quantiles_partition(len, count);
    }
}

/// With at least as many rows as quantiles, the quantiles cut the sorted
/// rows into consecutive, non-empty runs that cover every row once, and their
/// sizes differ by at most one.
pub proof fn lemma_quantiles_partition(len: int, count: int)
    requires
        0 < count <= len,
    ensures
        quantile_start(0, len, count) == 0,
        quantile_end(count - 1, len, count) == len,
        forall|g: int|
            0 <= g < count - 1 ==> #[trigger] quantile_end(g, len, count) == quantile_start(
                g + 1,
                len,
                count,
            ),
        forall|g: int|
            0 <= g < count ==> len / count <= #[trigger] quantile_end(g, len, count) - quantile_start(
                g,
                len,
                count,
            ) <= len / count + 1,
        forall|g: int|
            0 <= g < count ==> #[trigger] quantile_start(g, len, count) < quantile_end(g, len, count),
{
    assert(count * len / count == len) by (nonlinear_arith)
        requires
            count > 0,
    ;
    assert forall|g: int| 0 <= g < count implies len / count <= #[trigger] quantile_end(
        g,
        len,
        count,
    ) - quantile_start(g, len, count) <= len / count + 1 by {
        lemma_floor_step(g * len, len, count);
        assert((g + 1) * len == g * len + len) by (nonlinear_arith);
    }
    assert forall|g: int| 0 <= g < count implies #[trigger] quantile_start(g, len, count)
        < quantile_end(g, len, count) by {
        lemma_floor_step(g * len, len, count);
        assert((g + 1) * len == g * len + len) by (nonlinear_arith);
        assert(len / count >= 1) by (nonlinear_arith)
            requires
                len >= count,
                count > 0,
        ;
    }
}

/// `(a + b) / d` exceeds `a / d` by `b / d` or `b / d + 1`.
proof fn lemma_floor_step(a: int, b: int, d: int)
    requires
        d > 0,
    ensures
        b / d <= (a + b) / d - a / d <= b / d + 1,
{
    assert(b / d <= (a + b) / d - a / d <= b / d + 1) by (nonlinear_arith)
        requires
            d > 0,
    {
        vstd::arithmetic::div_mod::lemma_fundamental_div_mod(a, d);
        vstd::arithmetic::div_mod::lemma_fundamental_div_mod(b, d);
        vstd::arithmetic::div_mod::lemma_fundamental_div_mod(a + b, d);
    }
}

} // verus!

verus! {

/// The target day of a one-day detail query: the given day, or else the last
/// trading day of `index` not later than `end`, or `start` when there is none.
/// `index` is the chronologically sorted trading calendar of the data.
pub fn resolve_detail_date(date: Option<Date>, index: &[Date], start: Date, end: Date) -> (r: Date)
    requires
        dates_sorted(index@),
    ensures
        date matches Some(d) ==> r == d,
        date is None ==> {
            &&& (forall|j: int| 0 <= j < index@.len() ==> !(#[trigger] index@[j]).spec_le(end)) ==> r == start
            &&& (exists|j: int| 0 <= j < index@.len() && (#[trigger] index@[j]).spec_le(end)) ==> {
                &&& index@.contains(r)
                &&& r.spec_le(end)
                &&& forall|j: int| 0 <= j < index@.len() && (#[trigger] index@[j]).spec_le(end) ==> index@[j].spec_le(r)
            }
        },
{
    match date {
        Some(d) => d,
        None => {
            let count = count_not_after(index, end);
            if count == 0 {
                start
            } else {
                proof {
                    assert forall|j: int| 0 <= j < index@.len() && (#[trigger] index@[j]).spec_le(end) implies index@[j].spec_le(index@[count - 1]) by {
                        if j == count - 1 {
                            lemma_date_order(index@[j], index@[j], end);
                        }
                    }
                    assert(index@[count - 1] == index@[count - 1 as int]);
                }
                index[count - 1]
            }
        },
    }
}

/// Number of a day (year, month, day) in a count of the days of the
/// proleptic Gregorian calendar, one more for each next day: years are
/// counted from March, so that the leap day ends its year.
pub open spec fn day_number(d: (i32, u8, u8)) -> int {
    let y: int = if d.1 <= 2 {
        d.0 - 1
    } else {
        d.0 as int
    };
    let m: int = (d.1 + 9) % 12;
    365 * y + y / 4 - y / 100 + y / 400 + (153 * m + 2) / 5 + d.2 - 1
}

/// Whole days from the day `start` to the day `end`.
pub open spec fn days_between(start: (i32, u8, u8), end: (i32, u8, u8)) -> int {
    day_number(end) - day_number(start)
}

/// Of the years before `y` and before `y - 1`, one more is a multiple of
/// `d` exactly when `y` is.
proof fn lemma_multiples_step(y: int, d: int)
    requires
        d > 0,
    ensures
        y / d - (y - 1) / d == (if y % d == 0 { 1int } else { 0int }),
{
    vstd::arithmetic::div_mod::lemma_fundamental_div_mod(y, d);
    vstd::arithmetic::div_mod::lemma_fundamental_div_mod(y - 1, d);
    assert(y / d - (y - 1) / d == (if y % d == 0 { 1int } else { 0int })) by (nonlinear_arith)
        requires
            d > 0,
            y == d * (y / d) + y % d,
            y - 1 == d * ((y - 1) / d) + (y - 1) % d,
            0 <= y % d < d,
            0 <= (y - 1) % d < d,
    ;
}

/// The day count runs on without gaps or overlaps over the calendar: the
/// last day of each month, by its Gregorian length, is followed one day
/// later by the first day of the next month, or of the next year after
/// December; within a month each day follows the one before.
pub proof fn lemma_day_number_continuous(year: i32, month: u8, day: u8)
    requires
        1 <= month <= 12,
        1 <= day,
        year < i32::MAX,
    ensures
        day < days_in_month(year as int, month as int) ==> day_number((year, month, (day + 1) as u8))
            == day_number((year, month, day)) + 1,
        day == days_in_month(year as int, month as int) ==> day_number((year, month, day)) + 1 == (if month == 12 {
            day_number(((year + 1) as i32, 1u8, 1u8))
        } else {
            day_number((year, (month + 1) as u8, 1u8))
        }),
{
    if month == 2 && day == days_in_month(year as int, month as int) {
        lemma_multiples_step(year as int, 4);
        lemma_multiples_step(year as int, 100);
        lemma_multiples_step(year as int, 400);
        assert(is_leap_year(year as int) <==> (year % 4 == 0 && (year % 100 != 0 || year % 400 == 0)));
    }
}

/// Builds both days with `time::Date::from_calendar_date` (the month through
/// `time::Month::try_from`), subtracts them and takes `whole_days` of the
/// difference. The crate subtracts the days' Julian day numbers, which grow
/// by one from each day to the next; so the contract claims that the result
/// is `days_between` of the two days, hence zero for the same day, positive
/// when `start` comes first and negative when `end` does. Both calls succeed
/// on valid days of the supported year range.
#[verifier::external_body]
fn whole_days_between(start: Date, end: Date) -> (r: i64)
    requires
        start.wf(),
        end.wf(),
    ensures
        r == days_between(triple(start), triple(end)),
        start == end ==> r == 0,
        start.spec_le(end) && start != end ==> r > 0,
        end.spec_le(start) && start != end ==> r < 0,
{
    let first_month = time::Month::try_from(start.month).unwrap();
    let last_month = time::Month::try_from(end.month).unwrap();
    let first = time::Date::from_calendar_date(start.year, first_month, start.day).unwrap();
    let last = time::Date::from_calendar_date(end.year, last_month, end.day).unwrap();
    (last - first).whole_days()
}

/// The span that annualizes profits, from a day count: the count itself when
/// it is positive, `None` otherwise.
pub fn positive_span(days: i64) -> (r: Option<i64>)
    ensures
        r == (if days <= 0 { None::<i64> } else { Some(days) }),
{
    if days <= 0 {
        None
    } else {
        Some(days)
    }
}

/// Days between the first and the last date of a result series, by which
/// profits are annualized; `None` for an empty series or one whose last date
/// is not after its first.
pub fn annualized_days(dates: &[Date]) -> (r: Option<i64>)
    requires
        forall|i: int| 0 <= i < dates@.len() ==> (#[trigger] dates@[i]).wf(),
    ensures
        dates@.len() == 0 ==> r is None,
        dates@.len() > 0 ==> {
            let days = days_between(triple(dates@[0]), triple(dates@.last()));
            r == (if days <= 0 { None::<i64> } else { Some(days as i64) })
        },
        r is Some <==> dates@.len() > 0 && dates@[0].spec_le(dates@.last()) && dates@[0] != dates@.last(),
{
    if dates.len() == 0 {
        return None;
    }
    let first = dates[0];
    let last = dates[dates.len() - 1];
    proof {
        lemma_date_order(first, last, last);
    }
    let days = whole_days_between(first, last);
    positive_span(days)
}

} // verus!
