//! Named request arguments and the cache key of a request.
use vstd::prelude::*;
use vstd::string::*;

verus! {

/// Integer argument with a display name.
#[derive(Debug)]
pub struct IntArg {
    pub name: String,
    pub value: i64,
}

impl IntArg {
    pub fn new(name: &str, value: i64) -> (r: IntArg)
        ensures
            r.name@ == name@,
            r.value == value,
    {
        IntArg { name: name.to_owned(), value }
    }
}

impl std::ops::Deref for IntArg {
    type Target = i64;

    fn deref(&self) -> (r: &i64)
        ensures
            *r == self.value,
    {
        &self.value
    }
}

/// Unsigned argument with a display name, such as a period in trading days.
#[derive(Debug)]
pub struct UntArg {
    pub name: String,
    pub value: usize,
}

impl UntArg {
    pub fn new(name: &str, value: usize) -> (r: UntArg)
        ensures
            r.name@ == name@,
            r.value == value,
    {
        UntArg { name: name.to_owned(), value }
    }
}

impl std::ops::Deref for UntArg {
    type Target = usize;

    fn deref(&self) -> (r: &usize)
        ensures
            *r == self.value,
    {
        &self.value
    }
}

/// Text argument with a display name.
#[derive(Debug)]
pub struct StrArg {
    pub name: String,
    pub value: String,
}

impl StrArg {
    pub fn new(name: &str, value: &str) -> (r: StrArg)
        ensures
            r.name@ == name@,
            r.value@ == value@,
    {
        StrArg { name: name.to_owned(), value: value.to_owned() }
    }
}

impl std::ops::Deref for StrArg {
    type Target = String;

    fn deref(&self) -> (r: &String)
        ensures
            *r == self.value,
    {
        &self.value
    }
}

/// The 32-byte BLAKE3 digest of a byte string, as `blake3::hash` computes it.
pub uninterp spec fn blake3_hash(input: Seq<u8>) -> Seq<u8>;

/// Calls `blake3::hash` and hands back the digest bytes, which the name
/// `blake3_hash` gives as a function of the input.
#[verifier::external_body]
fn blake3_digest(input: &[u8]) -> (r: [u8; 32])
    ensures
        r@ == blake3_hash(input@),
{
    *blake3::hash(input).as_bytes()
}

/// Calls `FromIterator<char>` of `String`: the text made of `chars` in order.
#[verifier::external_body]
pub(crate) fn string_from_chars(chars: &[char]) -> (r: String)
    ensures
        r@ == chars@,
{
    chars.iter().collect::<String>()
}

/// The lowercase hexadecimal digits.
pub open spec fn hex_digits() -> Seq<char> {
    seq!['0', '1', '2', '3', '4', '5', '6', '7', '8', '9', 'a', 'b', 'c', 'd', 'e', 'f']
}

/// Lowercase hexadecimal text of a byte string, high nibble first.
pub open spec fn hex_lower(bytes: Seq<u8>) -> Seq<char> {
    Seq::new(
        2 * bytes.len(),
        |i: int|
            hex_digits()[if i % 2 == 0 {
                bytes[i / 2] / 16
            } else {
                bytes[i / 2] % 16
            } as int],
    )
}

/// Value of a lowercase hexadecimal digit.
pub open spec fn hex_value(c: char) -> int {
    if '0' <= c <= '9' {
        c as int - '0' as int
    } else {
        c as int - 'a' as int + 10
    }
}

/// The hexadecimal text holds two lowercase digits per byte, high digit
/// first, from which each byte is read back.
pub proof fn lemma_hex_lower_reads_back(bytes: Seq<u8>)
    ensures
        hex_lower(bytes).len() == 2 * bytes.len(),
        forall|k: int|
            0 <= k < hex_lower(bytes).len() ==> ('0' <= #[trigger] hex_lower(bytes)[k] <= '9' || 'a' <= hex_lower(
                bytes,
            )[k] <= 'f'),
        forall|i: int|
            0 <= i < bytes.len() ==> 16 * hex_value(hex_lower(bytes)[2 * i]) + hex_value(hex_lower(bytes)[2 * i + 1])
                == #[trigger] bytes[i],
{
    assert forall|k: int| 0 <= k < hex_lower(bytes).len() implies ('0' <= #[trigger] hex_lower(bytes)[k] <= '9'
        || 'a' <= hex_lower(bytes)[k] <= 'f') by {
        let v: int = if k % 2 == 0 { bytes[k / 2] / 16 } else { bytes[k / 2] % 16 } as int;
        assert(0 <= v < 16);
        assert(hex_lower(bytes)[k] == hex_digits()[v]);
    }
    assert forall|i: int| 0 <= i < bytes.len() implies 16 * hex_value(hex_lower(bytes)[2 * i]) + hex_value(
        hex_lower(bytes)[2 * i + 1],
    ) == #[trigger] bytes[i] by {
        let b = bytes[i];
        assert((2 * i) / 2 == i && (2 * i) % 2 == 0);
        assert((2 * i + 1) / 2 == i && (2 * i + 1) % 2 == 1);
        let hi: int = (b / 16) as int;
        let lo: int = (b % 16) as int;
        assert(hex_lower(bytes)[2 * i] == hex_digits()[hi]);
        assert(hex_lower(bytes)[2 * i + 1] == hex_digits()[lo]);
        assert(hex_value(hex_digits()[hi]) == hi);
        assert(hex_value(hex_digits()[lo]) == lo);
        assert(16 * hi + lo == b);
    }
}

/// Cache key of a request: the lowercase hexadecimal BLAKE3 digest of the
/// request's JSON form.
pub fn hashcode(json: &[u8]) -> (r: String)
    ensures
        r@ == hex_lower(blake3_hash(json@)),
        r@.len() == 64,
{
    let digest = blake3_digest(json);
    let table: [char; 16] = ['0', '1', '2', '3', '4', '5', '6', '7', '8', '9', 'a', 'b', 'c', 'd', 'e', 'f'];
    let mut chars: Vec<char> = Vec::new();
    let mut i: usize = 0;
    while i < 32
        invariant
            i <= 32,
            digest@ == blake3_hash(json@),
            table@ == hex_digits(),
            chars@.len() == 2 * i,
            forall|k: int| 0 <= k < 2 * i ==> #[trigger] chars@[k] == hex_lower(digest@)[k],
        decreases 32 - i,
    {
        let b = digest[i];
        chars.push(table[(b / 16) as usize]);
        chars.push(table[(b % 16) as usize]);
        proof {
            assert forall|k: int| 0 <= k < 2 * (i + 1) implies #[trigger] chars@[k] == hex_lower(digest@)[k] by {
                if k >= 2 * i {
                    assert(k / 2 == i);
                }
            }
        }
        i = i + 1;
    }
    let r = string_from_chars(chars.as_slice());
    assert(r@ =~= hex_lower(digest@));
    r
}

} // verus!

verus! {

/// Stock pool and date conditions of an analysis request.
#[derive(Debug)]
pub struct Filter {
    /// First day.
    pub start: crate::date::Date,
    /// Last day.
    pub end: crate::date::Date,
    /// Drop Beijing-exchange stocks.
    pub filter_bz: bool,
    /// Drop the days a stock is under ST treatment.
    pub filter_st: bool,
    /// Sectors to keep (none: no sector condition).
    pub sector: std::collections::HashSet<String>,
    /// Indices to keep (none: no index condition).
    pub indice: std::collections::HashSet<String>,
}

impl Filter {
    /// The whole market between `start` and `end`.
    pub fn new(start: crate::date::Date, end: crate::date::Date) -> (r: Filter)
        ensures
            r.start == start,
            r.end == end,
            !r.filter_bz,
            !r.filter_st,
            r.sector@.len() == 0,
            r.indice@.len() == 0,
    {
        Filter {
            start,
            end,
            filter_bz: false,
            filter_st: false,
            sector: std::collections::HashSet::new(),
            indice: std::collections::HashSet::new(),
        }
    }

    /// The whole market over the first configured period.
    pub fn from_periods(periods: &Vec<crate::config::Period>) -> (r: Filter)
        requires
            periods@.len() > 0,
        ensures
            r.start == periods@[0].start,
            r.end == periods@[0].end,
            !r.filter_bz,
            !r.filter_st,
            r.sector@.len() == 0,
            r.indice@.len() == 0,
    {
        let period = &periods[0];
        Filter::new(period.start, period.end)
    }
}

} // verus!
