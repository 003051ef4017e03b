//! Stock metadata and stock codes.
use std::collections::HashSet;

use vstd::prelude::*;
use vstd::string::*;
use vstd::multiset::Multiset;

use crate::text::{bytes_less, has_text, lemma_lex_order, lex_lt, same_text, text_bytes};

verus! {

/// Metadata of one stock.
pub struct Metadata {
    /// Exchange name.
    pub exchange: String,
    /// Stock name.
    pub name: String,
    /// Bare stock code, without the exchange suffix.
    pub code: String,
    /// Listing date as written by the data source.
    pub listing_date: String,
    /// Sectors and indices the stock belongs to.
    pub members: HashSet<String>,
}

/// Whether `code` ends with `.` followed by the two letters `a`, `b`.
pub open spec fn has_suffix(code: Seq<char>, a: char, b: char) -> bool {
    code.len() >= 3 && code[code.len() - 3] == '.' && code[code.len() - 2] == a && code[code.len()
        - 1] == b
}

/// The code without its exchange suffix `.SH`, `.SZ` or `.BJ`; other codes
/// are left as they are.
pub open spec fn bare_code(code: Seq<char>) -> Seq<char> {
    if has_suffix(code, 'S', 'H') || has_suffix(code, 'S', 'Z') || has_suffix(code, 'B', 'J') {
        code.subrange(0, code.len() - 3)
    } else {
        code
    }
}

/// Strips the exchange suffix (`.SH`, `.SZ`, `.BJ`) of a stock code.
pub fn normalize_code(code: &str) -> (r: &str)
    ensures
        r@ == bare_code(code@),
{
    let n = code.unicode_len();
    if n >= 3 && code.get_char(n - 3) == '.' {
        let a = code.get_char(n - 2);
        let b = code.get_char(n - 1);
        if (a == 'S' && (b == 'H' || b == 'Z')) || (a == 'B' && b == 'J') {
            return code.substring_char(0, n - 3);
        }
    }
    code
}

/// Every code ending in `.SH`, `.SZ` or `.BJ` loses exactly that suffix,
/// whatever the code before it.
pub proof fn lemma_bare_code_strips_exchange(code: Seq<char>)
    ensures
        bare_code(code + ".SH"@) == code,
        bare_code(code + ".SZ"@) == code,
        bare_code(code + ".BJ"@) == code,
{
    reveal_strlit(".SH");
    reveal_strlit(".SZ");
    reveal_strlit(".BJ");
    assert((code + ".SH"@).subrange(0, code.len() as int) =~= code);
    assert((code + ".SZ"@).subrange(0, code.len() as int) =~= code);
    assert((code + ".BJ"@).subrange(0, code.len() as int) =~= code);
}

/// A code with none of the three suffixes is kept as it is, and a bare
/// code never keeps one of them.
pub proof fn lemma_bare_code_keeps_others(code: Seq<char>)
    ensures
        !(code.len() >= 3 && code[code.len() - 3] == '.' && (code[code.len() - 2] == 'S' && (code[code.len() - 1]
            == 'H' || code[code.len() - 1] == 'Z') || code[code.len() - 2] == 'B' && code[code.len() - 1] == 'J'))
            ==> bare_code(code) == code,
        bare_code(code).len() + 3 == code.len() || bare_code(code) == code,
{
}

/// Codes in non-decreasing byte order.
pub open spec fn codes_sorted(v: Seq<Metadata>) -> bool {
    forall|i: int, j: int|
        0 <= i < j < v.len() ==> !lex_lt(text_bytes((#[trigger] v[j]).code@), text_bytes((#[trigger] v[i]).code@))
}

/// Inserting an element into a sequence adds it to the multiset of elements.
pub proof fn lemma_insert_to_multiset<A>(s: Seq<A>, p: int, x: A)
    requires
        0 <= p <= s.len(),
    ensures
        s.insert(p, x).to_multiset() =~= s.to_multiset().insert(x),
{
    broadcast use vstd::multiset::group_multiset_axioms;
    let t = s.insert(p, x);
    assert(t.remove(p) =~= s);
    t.to_multiset_ensures();
    assert(t.contains(x)) by {
        assert(t[p] == x);
    }
    assert(t.to_multiset().count(x) > 0);
}

/// The entries sorted by code in UTF-8 byte order.
pub fn sort_by_code(entries: Vec<Metadata>) -> (r: Vec<Metadata>)
    ensures
        r@.to_multiset() =~= entries@.to_multiset(),
        codes_sorted(r@),
{
    broadcast use vstd::multiset::group_multiset_axioms;
    let ghost original = entries@;
    let mut rest = entries;
    let mut sorted: Vec<Metadata> = Vec::new();
    proof {
        original.to_multiset_ensures();
        assert(original.skip(0) =~= original);
        assert(Seq::<Metadata>::empty().to_multiset() =~= Multiset::empty()) by {
            Seq::<Metadata>::empty().to_multiset_ensures();
        }
    }
    while rest.len() > 0
        invariant
            sorted@.to_multiset().add(rest@.to_multiset()) =~= original.to_multiset(),
            codes_sorted(sorted@),
        decreases rest@.len(),
    {
        let ghost rest_before = rest@;
        let item = rest.remove(0);
        proof {
            rest_before.to_multiset_ensures();
        }
        let key = item.code.as_str().as_bytes();
        let mut p: usize = 0;
        while p < sorted.len() && !bytes_less(key, sorted[p].code.as_str().as_bytes())
            invariant
                p <= sorted@.len(),
                key@ == text_bytes(item.code@),
                forall|i: int| 0 <= i < p ==> !lex_lt(text_bytes(item.code@), text_bytes((#[trigger] sorted@[i]).code@)),
            decreases sorted@.len() - p,
        {
            p = p + 1;
        }
        let ghost before = sorted@;
        proof {
            lemma_insert_to_multiset(before, p as int, item);
            let w = before.insert(p as int, item);
            assert forall|i: int, j: int| 0 <= i < j < w.len() implies !lex_lt(
                text_bytes((#[trigger] w[j]).code@),
                text_bytes((#[trigger] w[i]).code@),
            ) by {
                if i < p && j == p {
                } else if i == p && j > p {
                    let x = text_bytes(item.code@);
                    let y = text_bytes(before[p as int].code@);
                    let z = text_bytes(before[j - 1].code@);
                    lemma_lex_order(z, x, y);
                    lemma_lex_order(y, x, z);
                    lemma_lex_order(x, y, z);
                    if j - 1 > p {
                        assert(!lex_lt(z, y));
                    }
                } else if i < p && j > p {
                    assert(!lex_lt(text_bytes(before[j - 1].code@), text_bytes(before[i].code@)));
                } else if i > p {
                    assert(!lex_lt(text_bytes(before[j - 1].code@), text_bytes(before[i - 1].code@)));
                }
            }
        }
        sorted.insert(p, item);
    }
    proof {
        assert(rest@.len() == 0);
        assert(rest@.to_multiset() =~= Multiset::empty()) by {
            rest@.to_multiset_ensures();
        }
    }
    sorted
}

/// Whether some code of `codes`, stripped of its exchange suffix, is `code`.
pub open spec fn lists_code(codes: Seq<String>, code: Seq<char>) -> bool {
    exists|j: int| 0 <= j < codes.len() && bare_code(#[trigger] codes[j]@) == code
}

/// Whether some group of `groups` (a name with its member codes) is named
/// `name` and lists `code`.
pub open spec fn in_group_named(groups: Seq<(String, Vec<String>)>, name: Seq<char>, code: Seq<char>) -> bool {
    exists|i: int| 0 <= i < groups.len() && (#[trigger] groups[i]).0@ == name && lists_code(groups[i].1@, code)
}

/// Whether `codes` holds a code whose bare form is `code`.
fn lists(codes: &Vec<String>, code: &str) -> (r: bool)
    ensures
        r == lists_code(codes@, code@),
{
    let mut j: usize = 0;
    while j < codes.len()
        invariant
            j <= codes@.len(),
            forall|k: int| 0 <= k < j ==> bare_code((#[trigger] codes@[k])@) != code@,
        decreases codes@.len() - j,
    {
        if same_text(normalize_code(codes[j].as_str()), code) {
            return true;
        }
        j = j + 1;
    }
    false
}

/// Names of the sectors or indices, each given with its member codes, that
/// list the bare stock code `code`: the groups the stock belongs to.
pub fn member_groups(groups: &[(String, Vec<String>)], code: &str) -> (r: Vec<String>)
    ensures
        forall|t: Seq<char>| #[trigger] has_text(r@, t) <==> in_group_named(groups@, t, code@),
{
    let mut names: Vec<String> = Vec::new();
    let mut i: usize = 0;
    while i < groups.len()
        invariant
            i <= groups@.len(),
            forall|t: Seq<char>| #[trigger] has_text(names@, t) <==> in_group_named(groups@.take(i as int), t, code@),
        decreases groups@.len() - i,
    {
        let ghost before = names@;
        let found = lists(&groups[i].1, code);
        if found {
            names.push(groups[i].0.clone());
        }
        proof {
            let prefix = groups@.take(i + 1);
            assert forall|t: Seq<char>| #[trigger] has_text(names@, t) <==> in_group_named(prefix, t, code@) by {
                if in_group_named(prefix, t, code@) {
                    let k = choose|k: int| 0 <= k < prefix.len() && (#[trigger] prefix[k]).0@ == t && lists_code(prefix[k].1@, code@);
                    if k < i {
                        assert(groups@.take(i as int)[k] == prefix[k]);
                        assert(in_group_named(groups@.take(i as int), t, code@));
                        assert(has_text(before, t));
                        let m = choose|m: int| 0 <= m < before.len() && #[trigger] before[m]@ == t;
                        assert(names@[m] == before[m]);
                    } else {
                        assert(names@[names@.len() - 1]@ == t);
                    }
                }
                if has_text(names@, t) {
                    let m = choose|m: int| 0 <= m < names@.len() && #[trigger] names@[m]@ == t;
                    if m < before.len() {
                        assert(before[m]@ == t);
                        assert(has_text(before, t));
                        let k = choose|k: int| 0 <= k < i && (#[trigger] groups@.take(i as int)[k]).0@ == t && lists_code(groups@.take(i as int)[k].1@, code@);
                        assert(prefix[k] == groups@.take(i as int)[k]);
                    } else {
                        assert(prefix[i as int] == groups@[i as int]);
                    }
                }
            }
        }
        i = i + 1;
    }
    assert(groups@.take(groups@.len() as int) =~= groups@);
    names
}

} // verus!
