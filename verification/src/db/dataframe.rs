//! Trading-day selection over a data frame's calendar, and stock selection.
use vstd::prelude::*;

use crate::date::{lemma_date_order, Date};
use crate::text::{any_contained, shares_text};
use vstd::string::*;

verus! {

/// Dates in chronological order (repeats allowed).
pub open spec fn dates_sorted(s: Seq<Date>) -> bool {
    forall|i: int, j: int| 0 <= i < j < s.len() ==> (#[trigger] s[i]).spec_le(#[trigger] s[j])
}

/// Whether `d` lies in the closed range `start..=end`.
pub open spec fn within(d: Date, start: Date, end: Date) -> bool {
    start.spec_le(d) && d.spec_le(end)
}

/// The dates of `index` that lie in `start..=end`, in their order.
pub open spec fn dates_within_spec(index: Seq<Date>, start: Date, end: Date) -> Seq<Date> {
    index.filter(within_pred(start, end))
}

/// A range includes both its ends, and no day before its start or after its
/// end.
pub proof fn lemma_range_inclusive(d: Date, start: Date, end: Date)
    ensures
        start.spec_le(end) ==> within(start, start, end) && within(end, start, end),
        within(d, start, end) ==> start.spec_le(d) && d.spec_le(end),
        (d.spec_le(start) && d != start) || (end.spec_le(d) && d != end) ==> !within(d, start, end),
{
    lemma_date_order(start, start, start);
    lemma_date_order(end, end, end);
    lemma_date_order(d, start, end);
    lemma_date_order(start, d, end);
    lemma_date_order(d, end, start);
    lemma_date_order(end, d, start);
}

/// `within` as a predicate on dates.
pub open spec fn within_pred(start: Date, end: Date) -> spec_fn(Date) -> bool {
    |d: Date| within(d, start, end)
}

/// The dates of `index` that lie in `start..=end` (both ends included), in
/// their order.
pub fn dates_within(index: &[Date], start: Date, end: Date) -> (r: Vec<Date>)
    ensures
        r@ == dates_within_spec(index@, start, end),
{
    let mut res: Vec<Date> = Vec::new();
    let mut i: usize = 0;
    while i < index.len()
        invariant
            i <= index@.len(),
            res@ == index@.take(i as int).filter(within_pred(start, end)),
        decreases index@.len() - i,
    {
        reveal_with_fuel(Seq::<_>::filter, 1);
        let d = index[i];
        assert(index@.take(i + 1).drop_last() =~= index@.take(i as int));
        assert(index@.take(i + 1).last() == d);
        assert(within_pred(start, end)(d) == within(d, start, end));
        if start.le(&d) && d.le(&end) {
            res.push(d);
        }
        i = i + 1;
    }
    assert(index@.take(index@.len() as int) =~= index@);
    res
}

/// Positions of the rows whose dates lie in `start..=end`; `None` when there
/// is no such row.
pub fn positions_within(dates: &[Date], start: Date, end: Date) -> (r: Option<Vec<usize>>)
    ensures
        r is None <==> (forall|k: int| 0 <= k < dates@.len() ==> !within(#[trigger] dates@[k], start, end)),
        r matches Some(p) ==> {
            &&& forall|j: int| 0 <= j < p@.len() ==> #[trigger] p@[j] < dates@.len() && within(dates@[p@[j] as int], start, end)
            &&& forall|j1: int, j2: int| 0 <= j1 < j2 < p@.len() ==> #[trigger] p@[j1] < #[trigger] p@[j2]
            &&& forall|k: int| 0 <= k < dates@.len() && within(#[trigger] dates@[k], start, end) ==> p@.contains(k as usize)
        },
{
    let mut res: Vec<usize> = Vec::new();
    let mut i: usize = 0;
    while i < dates.len()
        invariant
            i <= dates@.len(),
            forall|j: int| 0 <= j < res@.len() ==> #[trigger] res@[j] < i && within(dates@[res@[j] as int], start, end),
            forall|j1: int, j2: int| 0 <= j1 < j2 < res@.len() ==> #[trigger] res@[j1] < #[trigger] res@[j2],
            forall|k: int| 0 <= k < i && within(#[trigger] dates@[k], start, end) ==> res@.contains(k as usize),
        decreases dates@.len() - i,
    {
        let d = dates[i];
        if start.le(&d) && d.le(&end) {
            let ghost before = res@;
            res.push(i);
            proof {
                assert forall|k: int| 0 <= k < i + 1 && within(#[trigger] dates@[k], start, end) implies res@.contains(k as usize) by {
                    if k < i {
                        let j = choose|j: int| 0 <= j < before.len() && before[j] == k as usize;
                        assert(res@[j] == k as usize);
                    } else {
                        assert(res@[res@.len() - 1] == i);
                    }
                }
            }
        }
        i = i + 1;
    }
    if res.len() == 0 {
        proof {
            assert forall|k: int| 0 <= k < dates@.len() implies !within(#[trigger] dates@[k], start, end) by {
                if within(dates@[k], start, end) {
                    assert(res@.contains(k as usize));
                }
            }
        }
        None
    } else {
        proof {
            assert(within(dates@[res@[0] as int], start, end));
        }
        Some(res)
    }
}

/// Whether a stock passes the pool conditions of a filter: Beijing-exchange
/// stocks are dropped when `filter_bz` is set; when sectors or indices are
/// named, the stock must belong to at least one of them (union of both lists).
/// ST status is left to the daily market data.
pub fn contract_selected(
    exchange: &String,
    members: &[String],
    filter_bz: bool,
    sector: &[String],
    indice: &[String],
) -> (r: bool)
    ensures
        r == (!(filter_bz && exchange@ == "北交所"@) && (sector@.len() == 0 && indice@.len() == 0
            || shares_text(members@, sector@) || shares_text(members@, indice@))),
{
    let beijing = String::from_str("北交所");
    if filter_bz && *exchange == beijing {
        return false;
    }
    if sector.len() == 0 && indice.len() == 0 {
        return true;
    }
    any_contained(members, sector) || any_contained(members, indice)
}

/// `j` is the position of the last entry of `dates` on `day`: the position a
/// table from day to position built in order keeps.
pub open spec fn last_position_of(dates: Seq<Date>, day: Date, j: int) -> bool {
    &&& 0 <= j < dates.len()
    &&& dates[j] == day
    &&& forall|l: int| j < l < dates.len() ==> dates[l] != day
}

/// Position of the last entry of `dates` on `day`; `None` when no entry is.
pub fn last_position(dates: &Vec<Date>, day: Date) -> (r: Option<usize>)
    ensures
        r is None <==> !dates@.contains(day),
        r matches Some(j) ==> last_position_of(dates@, day, j as int),
{
    let mut j: usize = dates.len();
    while j > 0
        invariant
            j <= dates@.len(),
            forall|l: int| j <= l < dates@.len() ==> dates@[l] != day,
        decreases j,
    {
        if dates[j - 1] == day {
            return Some(j - 1);
        }
        j = j - 1;
    }
    proof {
        if dates@.contains(day) {
            let l = choose|l: int| 0 <= l < dates@.len() && dates@[l] == day;
            assert(dates@[l] != day);
        }
    }
    None
}

/// For a market snapshot on `day`: given the bar dates of each stock, the
/// stocks, in list order, that have a bar on that day, each with the
/// position of its bar; stocks without one are left out.
pub fn snapshot_positions(dates: &[Vec<Date>], day: Date) -> (r: Vec<(usize, usize)>)
    ensures
        forall|k: int|
            0 <= k < r@.len() ==> (#[trigger] r@[k]).0 < dates@.len() && last_position_of(
                dates@[r@[k].0 as int]@,
                day,
                r@[k].1 as int,
            ),
        forall|k1: int, k2: int| 0 <= k1 < k2 < r@.len() ==> (#[trigger] r@[k1]).0 < (#[trigger] r@[k2]).0,
        forall|i: int|
            0 <= i < dates@.len() && (#[trigger] dates@[i])@.contains(day) ==> exists|k: int|
                0 <= k < r@.len() && r@[k].0 == i,
{
    let mut res: Vec<(usize, usize)> = Vec::new();
    let mut i: usize = 0;
    while i < dates.len()
        invariant
            i <= dates@.len(),
            forall|k: int|
                0 <= k < res@.len() ==> (#[trigger] res@[k]).0 < i && last_position_of(
                    dates@[res@[k].0 as int]@,
                    day,
                    res@[k].1 as int,
                ),
            forall|k1: int, k2: int| 0 <= k1 < k2 < res@.len() ==> (#[trigger] res@[k1]).0 < (#[trigger] res@[k2]).0,
            forall|l: int|
                0 <= l < i && (#[trigger] dates@[l])@.contains(day) ==> exists|k: int|
                    0 <= k < res@.len() && res@[k].0 == l,
        decreases dates@.len() - i,
    {
        match last_position(&dates[i], day) {
            Some(j) => {
                let ghost before = res@;
                res.push((i, j));
                proof {
                    assert forall|l: int| 0 <= l < i + 1 && (#[trigger] dates@[l])@.contains(day) implies exists|k: int|
                        0 <= k < res@.len() && res@[k].0 == l by {
                        if l < i {
                            let k = choose|k: int| 0 <= k < before.len() && before[k].0 == l;
                            assert(res@[k] == before[k]);
                        } else {
                            assert(res@[res@.len() - 1].0 == l);
                        }
                    }
                }
            },
            None => {},
        }
        i = i + 1;
    }
    res
}

} // verus!

verus! {

/// A trading day of a data frame and its position in the frame's calendar.
#[derive(Debug, Clone, Copy, PartialEq, Eq, Structural)]
pub struct Index {
    pub index: usize,
    pub datetime: Date,
}

impl Index {
    pub fn new(index: usize, datetime: Date) -> (r: Index)
        ensures
            r.index == index,
            r.datetime == datetime,
    {
        Index { index, datetime }
    }
}

/// Dates in strictly increasing chronological order.
pub open spec fn dates_strictly_sorted(s: Seq<Date>) -> bool {
    forall|i: int, j: int| 0 <= i < j < s.len() ==> (#[trigger] s[i]).spec_le(#[trigger] s[j]) && s[i] != s[j]
}

/// Adds a trading day to a calendar kept in strictly increasing order; a day
/// already present is not added again.
pub fn insert_date(index: &mut Vec<Date>, d: Date)
    requires
        dates_strictly_sorted(old(index)@),
    ensures
        dates_strictly_sorted(final(index)@),
        forall|e: Date| #[trigger] final(index)@.contains(e) <==> (e == d || old(index)@.contains(e)),
        old(index)@.contains(d) ==> final(index)@ == old(index)@,
{
    let ghost before = index@;
    let mut p: usize = 0;
    while p < index.len() && !d.le(&index[p])
        invariant
            index@ == before,
            p <= index@.len(),
            forall|i: int| 0 <= i < p ==> (#[trigger] index@[i]).spec_le(d) && index@[i] != d,
        decreases index@.len() - p,
    {
        p = p + 1;
    }
    if p < index.len() && index[p] == d {
        return;
    }
    proof {
        if before.contains(d) {
            let k = choose|k: int| 0 <= k < before.len() && before[k] == d;
            if k < p {
                assert(before[k] != d);
            } else if k > p {
                assert(p < before.len());
                lemma_date_order(before[p as int], before[k], d);
                assert(before[p as int].spec_le(before[k]) && before[p as int] != before[k]);
                lemma_date_order(d, before[p as int], before[k]);
            }
        }
    }
    proof {
        assert forall|i: int, j: int| 0 <= i < j < before.len() + 1 implies (#[trigger] before.insert(p as int, d)[i]).spec_le(
            #[trigger] before.insert(p as int, d)[j],
        ) && before.insert(p as int, d)[i] != before.insert(p as int, d)[j] by {
            let w = before.insert(p as int, d);
            if i == p && j > p {
                lemma_date_order(d, before[p as int], before[j - 1]);
                if j - 1 > p {
                    assert(before[p as int].spec_le(before[j - 1]) && before[p as int] != before[j - 1]);
                    lemma_date_order(before[p as int], before[j - 1], d);
                }
            } else if i < p && j == p {
            } else if i < p && j > p {
                assert(before[i].spec_le(before[j - 1]));
            } else if i > p {
                assert(before[i - 1].spec_le(before[j - 1]));
            }
        }
    }
    index.insert(p, d);
    proof {
        assert forall|e: Date| #[trigger] index@.contains(e) <==> (e == d || before.contains(e)) by {
            if index@.contains(e) {
                let k = choose|k: int| 0 <= k < index@.len() && index@[k] == e;
                if k < p {
                    assert(before[k] == e);
                } else if k > p {
                    assert(before[k - 1] == e);
                }
            }
            if before.contains(e) {
                let k = choose|k: int| 0 <= k < before.len() && before[k] == e;
                if k < p {
                    assert(index@[k] == e);
                } else {
                    assert(index@[k + 1] == e);
                }
            }
            if e == d {
                assert(index@[p as int] == d);
            }
        }
    }
}

/// How many days of the sorted calendar `index` are not later than `end`;
/// they are the first ones.
pub fn count_not_after(index: &[Date], end: Date) -> (r: usize)
    requires
        dates_sorted(index@),
    ensures
        r <= index@.len(),
        forall|j: int| 0 <= j < r ==> (#[trigger] index@[j]).spec_le(end),
        forall|j: int| r <= j < index@.len() ==> !(#[trigger] index@[j]).spec_le(end),
{
    let mut lo: usize = 0;
    let mut hi: usize = index.len();
    while lo < hi
        invariant
            lo <= hi <= index@.len(),
            dates_sorted(index@),
            forall|j: int| 0 <= j < lo ==> (#[trigger] index@[j]).spec_le(end),
            forall|j: int| hi <= j < index@.len() ==> !(#[trigger] index@[j]).spec_le(end),
        decreases hi - lo,
    {
        let mid = lo + (hi - lo) / 2;
        if index[mid].le(&end) {
            proof {
                assert forall|j: int| 0 <= j < mid + 1 implies (#[trigger] index@[j]).spec_le(end) by {
                    if j < mid {
                        lemma_date_order(index@[j], index@[mid as int], end);
                    }
                }
            }
            lo = mid + 1;
        } else {
            proof {
                assert forall|j: int| mid <= j < index@.len() implies !(#[trigger] index@[j]).spec_le(end) by {
                    if j > mid {
                        lemma_date_order(index@[mid as int], index@[j], end);
                    }
                }
            }
            hi = mid;
        }
    }
    lo
}

/// First day fed to a one-day detail query on `date` that needs `warmup`
/// earlier trading days: the trading day `warmup` days before the last
/// trading day not later than `date` (or the first trading day when there are
/// fewer), or `start` when no trading day precedes `date`.
pub fn warmup_start(index: &[Date], start: Date, date: Date, warmup: usize) -> (r: Date)
    requires
        dates_sorted(index@),
    ensures
        (forall|j: int| 0 <= j < index@.len() ==> !(#[trigger] index@[j]).spec_le(date)) ==> r == start,
        (exists|j: int| 0 <= j < index@.len() && (#[trigger] index@[j]).spec_le(date)) ==> exists|last: int|
            {
                &&& 0 <= last < index@.len()
                &&& (#[trigger] index@[last]).spec_le(date)
                &&& (last + 1 == index@.len() || !index@[last + 1].spec_le(date))
                &&& r == index@[if last >= warmup { last - warmup } else { 0 }]
            },
{
    let count = count_not_after(index, date);
    if count == 0 {
        start
    } else {
        let last = count - 1;
        let first = if last >= warmup { last - warmup } else { 0 };
        proof {
            assert(index@[last as int].spec_le(date));
        }
        index[first]
    }
}

/// Adds every day of `row` to a calendar kept in strictly increasing order.
fn add_dates(calendar: &mut Vec<Date>, row: &Vec<Date>)
    requires
        dates_strictly_sorted(old(calendar)@),
    ensures
        dates_strictly_sorted(final(calendar)@),
        forall|e: Date| #[trigger] final(calendar)@.contains(e) <==> (old(calendar)@.contains(e) || row@.contains(e)),
{
    let ghost start = calendar@;
    let mut j: usize = 0;
    while j < row.len()
        invariant
            j <= row@.len(),
            dates_strictly_sorted(calendar@),
            forall|e: Date| #[trigger] calendar@.contains(e) <==> (start.contains(e) || row@.take(j as int).contains(e)),
        decreases row@.len() - j,
    {
        insert_date(calendar, row[j]);
        proof {
            assert forall|e: Date| #[trigger] row@.take(j + 1).contains(e) <==> (row@.take(j as int).contains(e) || e == row@[j as int]) by {
                if row@.take(j + 1).contains(e) {
                    let k = choose|k: int| 0 <= k < j + 1 && #[trigger] row@.take(j + 1)[k] == e;
                    if k < j {
                        assert(row@.take(j as int)[k] == e);
                    }
                }
                if row@.take(j as int).contains(e) {
                    let k = choose|k: int| 0 <= k < j && #[trigger] row@.take(j as int)[k] == e;
                    assert(row@.take(j + 1)[k] == e);
                }
                if e == row@[j as int] {
                    assert(row@.take(j + 1)[j as int] == e);
                }
            }
        }
        j = j + 1;
    }
    assert(row@.take(row@.len() as int) =~= row@);
}

/// Whether some list of `lists` holds the day `d`.
pub open spec fn on_some_list(lists: Seq<Vec<Date>>, d: Date) -> bool {
    exists|i: int| 0 <= i < lists.len() && (#[trigger] lists[i])@.contains(d)
}

/// The trading calendar of a data frame, from the bar dates of each stock:
/// every day on which some stock has a bar, in strictly increasing order;
/// `None` when no stock has a bar at all.
pub fn trading_calendar(bar_dates: &[Vec<Date>]) -> (r: Option<Vec<Date>>)
    ensures
        r is None <==> forall|d: Date| !on_some_list(bar_dates@, d),
        r matches Some(c) ==> {
            &&& c@.len() > 0
            &&& dates_strictly_sorted(c@)
            &&& forall|d: Date| #[trigger] c@.contains(d) <==> on_some_list(bar_dates@, d)
        },
{
    let mut calendar: Vec<Date> = Vec::new();
    let mut i: usize = 0;
    while i < bar_dates.len()
        invariant
            i <= bar_dates@.len(),
            dates_strictly_sorted(calendar@),
            forall|d: Date| #[trigger] calendar@.contains(d) <==> on_some_list(bar_dates@.take(i as int), d),
        decreases bar_dates@.len() - i,
    {
        let ghost before = calendar@;
        add_dates(&mut calendar, &bar_dates[i]);
        proof {
            let p = bar_dates@.take(i + 1);
            assert forall|d: Date| #[trigger] calendar@.contains(d) <==> on_some_list(p, d) by {
                if on_some_list(p, d) {
                    let k = choose|k: int| 0 <= k < p.len() && (#[trigger] p[k])@.contains(d);
                    if k < i {
                        assert(bar_dates@.take(i as int)[k] == p[k]);
                        assert(on_some_list(bar_dates@.take(i as int), d));
                    } else {
                        assert(p[k] == bar_dates@[i as int]);
                    }
                }
                if before.contains(d) {
                    assert(on_some_list(bar_dates@.take(i as int), d));
                    let k = choose|k: int| 0 <= k < i && (#[trigger] bar_dates@.take(i as int)[k])@.contains(d);
                    assert(p[k] == bar_dates@.take(i as int)[k]);
                }
                if bar_dates@[i as int]@.contains(d) {
                    assert(p[i as int] == bar_dates@[i as int]);
                }
            }
        }
        i = i + 1;
    }
    assert(bar_dates@.take(bar_dates@.len() as int) =~= bar_dates@);
    if calendar.len() == 0 {
        proof {
            assert forall|d: Date| !on_some_list(bar_dates@, d) by {
                if on_some_list(bar_dates@, d) {
                    assert(calendar@.contains(d));
                }
            }
        }
        None
    } else {
        proof {
            assert(calendar@.contains(calendar@[0]));
        }
        Some(calendar)
    }
}

/// Position `days` entries before `position` in a list of `len` entries;
/// `None` when that goes before the first entry or past the list.
pub fn position_before(position: usize, days: usize, len: usize) -> (r: Option<usize>)
    ensures
        r == (if days <= position && position - days < len {
            Some((position - days) as usize)
        } else {
            None::<usize>
        }),
{
    if days <= position && position - days < len {
        Some(position - days)
    } else {
        None
    }
}

/// Position `days` entries after `position` in a list of `len` entries;
/// `None` when that goes past the list.
pub fn position_after(position: usize, days: usize, len: usize) -> (r: Option<usize>)
    ensures
        r == (if position + days < len {
            Some((position + days) as usize)
        } else {
            None::<usize>
        }),
{
    if days < len && position < len - days {
        Some(position + days)
    } else {
        None
    }
}

/// Whether a day's market data is kept under the ST condition: always when
/// `filter_st` is off, otherwise only when the stock is not under ST
/// treatment that day.
pub fn keeps_day(filter_st: bool, is_st: bool) -> (r: bool)
    ensures
        r == (!filter_st || !is_st),
{
    !filter_st || !is_st
}

} // verus!
