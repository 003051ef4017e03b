//! Basic data interface: data date ranges and index histories.
use vstd::prelude::*;
use vstd::string::*;

use crate::args::string_from_chars;

verus! {

/// First and last trading day of some data, written `YYYY-MM-DD`.
#[derive(Debug, Clone)]
pub struct DataRange {
    /// First trading day.
    pub min_date: String,
    /// Last trading day.
    pub max_date: String,
}

/// Request for the return history of an index.
#[derive(Debug)]
pub struct HistoryReq {
    /// Index name; the history lives in `{name}.json` of the index directory.
    pub name: String,
}

/// Whether `char::is_alphanumeric` holds of `c` (Unicode `Alphabetic` or `Numeric`).
pub uninterp spec fn is_alphanumeric(c: char) -> bool;

/// Calls `char::is_alphanumeric`; the result is the name `is_alphanumeric`.
/// On ASCII characters the Unicode `Alphabetic` and `Numeric` properties hold
/// exactly of the Latin letters and the decimal digits, as the std
/// documentation of `is_alphanumeric` and `is_ascii_alphanumeric` shows.
#[verifier::external_body]
fn char_is_alphanumeric(c: char) -> (r: bool)
    ensures
        r == is_alphanumeric(c),
        (c as u32) < 128 ==> (r <==> ('a' <= c <= 'z' || 'A' <= c <= 'Z' || '0' <= c <= '9')),
{
    c.is_alphanumeric()
}

/// Characters an index file name keeps: alphanumerics, `_`, `-` and `·`.
pub open spec fn file_name_char(c: char) -> bool {
    is_alphanumeric(c) || c == '_' || c == '-' || c == '·'
}

/// Characters an index file name keeps among the ASCII ones: Latin letters,
/// decimal digits, `_` and `-`.
pub open spec fn ascii_file_name_char(c: char) -> bool {
    'a' <= c <= 'z' || 'A' <= c <= 'Z' || '0' <= c <= '9' || c == '_' || c == '-'
}

/// `file_name_char` as a predicate.
pub open spec fn file_name_char_pred() -> spec_fn(char) -> bool {
    |c: char| file_name_char(c)
}

/// File name of the history of index `name`: the name stripped of every
/// other character, so that it cannot leave the index directory, plus `.json`.
pub fn indice_file_name(name: &str) -> (r: String)
    ensures
        r@ == name@.filter(file_name_char_pred()) + ".json"@,
        forall|k: int|
            0 <= k < name@.filter(file_name_char_pred()).len() ==> #[trigger] r@[k] != '/' && r@[k]
                != '\\' && r@[k] != '.',
        forall|k: int|
            0 <= k < name@.len() && (name@[k] as u32) < 128 ==> (file_name_char(#[trigger] name@[k])
                <==> ascii_file_name_char(name@[k])),
{
    let n = name.unicode_len();
    let mut kept: Vec<char> = Vec::new();
    let mut i: usize = 0;
    while i < n
        invariant
            n == name@.len(),
            i <= n,
            kept@ == name@.take(i as int).filter(file_name_char_pred()),
            forall|k: int| 0 <= k < kept@.len() ==> #[trigger] kept@[k] != '/' && kept@[k] != '\\' && kept@[k] != '.',
            forall|k: int|
                0 <= k < i && (name@[k] as u32) < 128 ==> (file_name_char(#[trigger] name@[k])
                    <==> ascii_file_name_char(name@[k])),
        decreases n - i,
    {
        reveal_with_fuel(Seq::<_>::filter, 1);
        let c = name.get_char(i);
        assert(name@.take(i + 1).drop_last() =~= name@.take(i as int));
        assert(name@.take(i + 1).last() == c);
        assert(file_name_char_pred()(c) == file_name_char(c));
        if char_is_alphanumeric(c) || c == '_' || c == '-' || c == '·' {
            kept.push(c);
        }
        i = i + 1;
    }
    assert(name@.take(n as int) =~= name@);
    let safe = string_from_chars(kept.as_slice());
    let r = safe.concat(".json");
    assert forall|k: int| 0 <= k < kept@.len() implies #[trigger] r@[k] == kept@[k] by {}
    r
}

} // verus!
