//! Export of the stocks under ST treatment, grouped by trading day.
use vstd::prelude::*;

use crate::date::{lemma_date_order, Date};

verus! {

/// Groups with strictly increasing dates.
pub open spec fn groups_sorted(v: Seq<(Date, Vec<String>)>) -> bool {
    forall|i: int, j: int|
        0 <= i < j < v.len() ==> (#[trigger] v[i]).0.spec_le((#[trigger] v[j]).0) && v[i].0 != v[j].0
}

/// Records that stock `code` was under ST treatment on `date`: the code is
/// appended to the group of that date, which is created, at its place in date
/// order, when missing.
pub fn add_st_record(groups: &mut Vec<(Date, Vec<String>)>, date: Date, code: String)
    requires
        groups_sorted(old(groups)@),
    ensures
        groups_sorted(final(groups)@),
        (exists|k: int| 0 <= k < old(groups)@.len() && old(groups)@[k].0 == date) ==> {
            &&& final(groups)@.len() == old(groups)@.len()
            &&& forall|k: int|
                0 <= k < old(groups)@.len() ==> if (#[trigger] old(groups)@[k]).0 == date {
                    final(groups)@[k].0 == date && final(groups)@[k].1@ == old(groups)@[k].1@.push(code)
                } else {
                    final(groups)@[k] == old(groups)@[k]
                }
        },
        (forall|k: int| 0 <= k < old(groups)@.len() ==> (#[trigger] old(groups)@[k]).0 != date) ==> exists|p: int|
            {
                &&& 0 <= p <= old(groups)@.len()
                &&& final(groups)@.len() == old(groups)@.len() + 1
                &&& final(groups)@[p].0 == date
                &&& final(groups)@[p].1@ == seq![code]
                &&& forall|k: int| 0 <= k < p ==> #[trigger] final(groups)@[k] == old(groups)@[k]
                &&& forall|k: int| p < k < final(groups)@.len() ==> #[trigger] final(groups)@[k] == old(groups)@[k - 1]
            },
{
    let ghost before = groups@;
    let mut p: usize = 0;
    while p < groups.len() && !date.le(&groups[p].0)
        invariant
            groups@ == before,
            p <= groups@.len(),
            forall|i: int| 0 <= i < p ==> (#[trigger] groups@[i]).0.spec_le(date) && groups@[i].0 != date,
        decreases groups@.len() - p,
    {
        p = p + 1;
    }
    if p < groups.len() && groups[p].0 == date {
        let (d, mut codes) = groups.remove(p);
        codes.push(code);
        groups.insert(p, (d, codes));
        proof {
            assert forall|k: int| 0 <= k < before.len() && k != p implies before[k].0 != date by {
                if k > p {
                    assert(before[p as int].0 != before[k].0);
                }
            }
            assert forall|i: int, j: int| 0 <= i < j < groups@.len() implies (#[trigger] groups@[i]).0.spec_le((#[trigger] groups@[j]).0) && groups@[i].0 != groups@[j].0 by {
                assert(groups@[i].0 == before[i].0 && groups@[j].0 == before[j].0);
            }
        }
        return;
    }
    proof {
        assert forall|k: int| 0 <= k < before.len() implies (#[trigger] before[k]).0 != date by {
            if k >= p {
                assert(p < before.len());
                assert(date.spec_le(before[p as int].0) && before[p as int].0 != date);
                if k > p {
                    assert(before[p as int].0.spec_le(before[k].0));
                    lemma_date_order(date, before[p as int].0, before[k].0);
                    lemma_date_order(before[k].0, date, before[p as int].0);
                }
            }
        }
    }
    let mut codes: Vec<String> = Vec::new();
    codes.push(code);
    let ghost entry = (date, codes);
    proof {
        assert forall|i: int, j: int| 0 <= i < j < before.len() + 1 implies (#[trigger] before.insert(p as int, entry)[i]).0.spec_le(
            (#[trigger] before.insert(p as int, entry)[j]).0,
        ) && before.insert(p as int, entry)[i].0 != before.insert(p as int, entry)[j].0 by {
            if i == p && j > p {
                lemma_date_order(date, before[p as int].0, before[j - 1].0);
                if j - 1 > p {
                    assert(before[p as int].0.spec_le(before[j - 1].0));
                }
            } else if i < p && j > p {
                assert(before[i].0.spec_le(before[j - 1].0));
            } else if i > p {
                assert(before[i - 1].0.spec_le(before[j - 1].0));
            }
        }
    }
    groups.insert(p, (date, codes));
    proof {
        assert(groups@ == before.insert(p as int, entry));
        assert(groups@[p as int].1@ == seq![code]);
    }
}

} // verus!
