//! Extraction of the records of a TBF file.
//!
//! A TBF file holds records framed by a left and a right boundary marker. Each
//! marker is recognised by a [`Symbol`], a matcher that advances on equal bytes
//! and falls back to the start of the marker on any other byte.
use vstd::prelude::*;
use vstd::utf8::*;

use crate::text::{gbk_decode, gbk_text, has_text, insert_sorted_text, texts_strictly_sorted, utf8_text};

verus! {

/// One step of a marker matcher: the position after reading `b` at `position`,
/// and whether `b` completed the marker.
pub open spec fn symbol_step(pattern: Seq<u8>, position: nat, b: u8) -> (nat, bool) {
    if pattern[position as int] == b {
        if position + 1 == pattern.len() {
            (0, true)
        } else {
            ((position + 1) as nat, false)
        }
    } else {
        (0, false)
    }
}

/// Position of a matcher for `pattern` started at 0 after reading `bytes`.
pub open spec fn symbol_run(pattern: Seq<u8>, bytes: Seq<u8>) -> nat
    decreases bytes.len(),
{
    if bytes.len() == 0 {
        0
    } else {
        symbol_step(pattern, symbol_run(pattern, bytes.drop_last()), bytes.last()).0
    }
}

/// Whether the last byte of `bytes` completed the marker.
pub open spec fn symbol_hit(pattern: Seq<u8>, bytes: Seq<u8>) -> bool {
    bytes.len() > 0 && symbol_step(pattern, symbol_run(pattern, bytes.drop_last()), bytes.last()).1
}

/// Matcher of one boundary marker.
pub struct Symbol {
    data: Vec<u8>,
    state: (usize, Ghost<Seq<u8>>),
}

impl Symbol {
    #[verifier::type_invariant]
    spec fn inv(self) -> bool {
        &&& 0 < self.data@.len()
        &&& self.state.0 < self.data@.len()
        &&& self.state.0 == symbol_run(self.data@, self.state.1@)
    }

    /// The marker this matcher recognises.
    pub closed spec fn pattern(self) -> Seq<u8> {
        self.data@
    }

    /// How many bytes of the marker have been matched so far.
    pub closed spec fn position(self) -> nat {
        self.state.0 as nat
    }

    /// The bytes read since the matcher was created or last restarted.
    pub closed spec fn history(self) -> Seq<u8> {
        self.state.1@
    }

    /// Creates a matcher for a non-empty marker.
    pub fn new(data: Vec<u8>) -> (r: Symbol)
        requires
            data@.len() > 0,
        ensures
            r.pattern() == data@,
            r.position() == 0,
            r.history() == Seq::<u8>::empty(),
    {
        Symbol { data, state: (0, Ghost(Seq::empty())) }
    }

    /// Reads one byte; returns whether it completed the marker, which is
    /// exactly when the bytes read end with the whole marker as matched
    /// byte by byte from a fresh start of the marker.
    pub fn update(&mut self, b: u8) -> (r: bool)
        ensures
            final(self).pattern() == old(self).pattern(),
            final(self).history() == old(self).history().push(b),
            final(self).position() == symbol_run(final(self).pattern(), final(self).history()),
            (final(self).position(), r) == symbol_step(old(self).pattern(), old(self).position(), b),
            r == symbol_hit(final(self).pattern(), final(self).history()),
            r ==> final(self).history().len() >= final(self).pattern().len() && final(self).history().subrange(
                final(self).history().len() - final(self).pattern().len(),
                final(self).history().len() as int,
            ) == final(self).pattern(),
    {
        proof {
            use_type_invariant(&*self);
        }
        let ghost h = self.state.1@.push(b);
        proof {
            assert(h.drop_last() =~= self.state.1@);
            lemma_symbol_sound(self.data@, h);
        }
        let len = self.data.len();
        let index = self.state.0;
        if self.data[index] == b {
            let next = index + 1;
            if next == len {
                self.state = (0, Ghost(h));
                return true;
            }
            self.state = (next, Ghost(h));
        } else {
            self.state = (0, Ghost(h));
        }
        false
    }

    /// Restarts the matcher at the beginning of the marker.
    fn reset(&mut self)
        ensures
            final(self).pattern() == old(self).pattern(),
            final(self).position() == 0,
            final(self).history() == Seq::<u8>::empty(),
    {
        proof {
            use_type_invariant(&*self);
        }
        self.state = (0, Ghost(Seq::empty()));
    }
}

/// After reading `bytes`, a matcher at position `p` has just read the first `p`
/// bytes of its marker, and whenever it reports a match the input ends with the
/// whole marker.
pub proof fn lemma_symbol_sound(pattern: Seq<u8>, bytes: Seq<u8>)
    requires
        pattern.len() > 0,
    ensures
        symbol_run(pattern, bytes) < pattern.len(),
        symbol_run(pattern, bytes) <= bytes.len(),
        bytes.subrange(bytes.len() - symbol_run(pattern, bytes), bytes.len() as int)
            == pattern.subrange(0, symbol_run(pattern, bytes) as int),
        symbol_hit(pattern, bytes) ==> pattern.len() <= bytes.len() && bytes.subrange(
            bytes.len() - pattern.len(),
            bytes.len() as int,
        ) == pattern,
    decreases bytes.len(),
{
    if bytes.len() > 0 {
        let prefix = bytes.drop_last();
        lemma_symbol_sound(pattern, prefix);
        let p = symbol_run(pattern, prefix) as int;
        let b = bytes.last();
        let n = bytes.len() as int;
        assert(prefix.subrange(prefix.len() - p, prefix.len() as int) == pattern.subrange(0, p));
        if pattern[p] == b {
            assert forall|j: int| 0 <= j < p + 1 implies #[trigger] bytes.subrange(n - (p + 1), n)[j]
                == pattern.subrange(0, p + 1)[j] by {
                if j < p {
                    assert(bytes.subrange(n - (p + 1), n)[j] == prefix.subrange(
                        prefix.len() - p,
                        prefix.len() as int,
                    )[j]);
                }
            }
            assert(bytes.subrange(n - (p + 1), n) =~= pattern.subrange(0, p + 1));
            if p + 1 == pattern.len() {
                assert(pattern.subrange(0, p + 1) =~= pattern);
            }
        }
        assert(bytes.subrange(n - symbol_run(pattern, bytes), n) =~= pattern.subrange(
            0,
            symbol_run(pattern, bytes) as int,
        ));
    }
}

} // verus!

verus! {

/// The state of a TBF scan after some prefix of the input.
pub ghost struct TbfScan {
    /// Matcher position within the left marker.
    pub left_pos: nat,
    /// Matcher position within the right marker.
    pub right_pos: nat,
    /// Whether the scan is inside a record.
    pub inside: bool,
    /// Bytes read since the current record began.
    pub pending: Seq<u8>,
    /// Raw records completed so far, in input order.
    pub records: Seq<Seq<u8>>,
}


/// The scan state before any byte was read.
pub open spec fn tbf_start() -> TbfScan {
    TbfScan { left_pos: 0, right_pos: 0, inside: false, pending: seq![], records: seq![] }
}

/// Reads one byte. A completed marker closes the pending record, which is
/// kept without the marker bytes it holds when it is longer than the right
/// marker minus one byte; a completed left marker opens a record, a completed
/// right marker closes it. Inside a record every other byte is kept.
pub open spec fn tbf_step(left: Seq<u8>, right: Seq<u8>, s: TbfScan, b: u8) -> TbfScan {
    let (left_pos, left_hit) = symbol_step(left, s.left_pos, b);
    let (right_pos, right_hit) = symbol_step(right, s.right_pos, b);
    let inside = if right_hit {
        false
    } else if left_hit {
        true
    } else {
        s.inside
    };
    if left_hit || right_hit {
        let records = if s.pending.len() < right.len() {
            s.records
        } else {
            s.records.push(s.pending.subrange(0, s.pending.len() - right.len() + 1))
        };
        TbfScan { left_pos, right_pos, inside, pending: seq![], records }
    } else if inside {
        TbfScan { left_pos, right_pos, inside, pending: s.pending.push(b), records: s.records }
    } else {
        TbfScan { left_pos, right_pos, inside, pending: s.pending, records: s.records }
    }
}

/// The scan state after reading `bytes` from the start state.
pub open spec fn tbf_scan(left: Seq<u8>, right: Seq<u8>, bytes: Seq<u8>) -> TbfScan
    decreases bytes.len(),
{
    if bytes.len() == 0 {
        tbf_start()
    } else {
        tbf_step(left, right, tbf_scan(left, right, bytes.drop_last()), bytes.last())
    }
}

/// The matcher positions of a scan are those of the two markers' matchers
/// run over the same bytes.
proof fn lemma_scan_positions(left: Seq<u8>, right: Seq<u8>, bytes: Seq<u8>)
    ensures
        tbf_scan(left, right, bytes).left_pos == symbol_run(left, bytes),
        tbf_scan(left, right, bytes).right_pos == symbol_run(right, bytes),
    decreases bytes.len(),
{
    if bytes.len() > 0 {
        lemma_scan_positions(left, right, bytes.drop_last());
    }
}

/// Whether `marker` completes on the `i`-th byte of `bytes`.
pub open spec fn marker_hit(marker: Seq<u8>, bytes: Seq<u8>, i: int) -> bool {
    symbol_hit(marker, bytes.take(i))
}

/// The bodies framed by consecutive pairs of marker positions in `hits`:
/// the bytes from the end of a left marker to the start of the following
/// right marker (of `right_len` bytes), for each pair where they are not
/// empty.
pub open spec fn framed_bodies(bytes: Seq<u8>, hits: Seq<int>, right_len: int) -> Seq<Seq<u8>>
    decreases hits.len(),
{
    if hits.len() < 2 {
        seq![]
    } else {
        let a = hits[hits.len() - 2];
        let b = hits[hits.len() - 1];
        let earlier = framed_bodies(bytes, hits.take(hits.len() - 2), right_len);
        if b - right_len > a {
            earlier.push(bytes.subrange(a, b - right_len))
        } else {
            earlier
        }
    }
}

/// The markers alternate: `hits` lists in increasing order every byte at
/// which a marker completes; at the first, third, ... of them the left
/// marker alone completes, at the second, fourth, ... the right marker does.
#[verifier::opaque]
pub open spec fn alternating_markers(left: Seq<u8>, right: Seq<u8>, bytes: Seq<u8>, hits: Seq<int>) -> bool {
    &&& forall|k: int| 0 <= k < hits.len() ==> 1 <= #[trigger] hits[k] <= bytes.len()
    &&& forall|k1: int, k2: int| 0 <= k1 < k2 < hits.len() ==> #[trigger] hits[k1] < #[trigger] hits[k2]
    &&& forall|i: int|
        1 <= i <= bytes.len() ==> ((#[trigger] marker_hit(left, bytes, i) || marker_hit(right, bytes, i))
            <==> hits.contains(i))
    &&& forall|k: int|
        0 <= k < hits.len() && k % 2 == 0 ==> marker_hit(left, bytes, #[trigger] hits[k]) && !marker_hit(
            right,
            bytes,
            hits[k],
        )
    &&& forall|k: int| 0 <= k < hits.len() && k % 2 == 1 ==> marker_hit(right, bytes, #[trigger] hits[k])
}

/// A byte that completes no marker leaves the records alone and, inside a
/// record, is kept.
proof fn lemma_step_plain(left: Seq<u8>, right: Seq<u8>, s: TbfScan, b: u8)
    requires
        !symbol_step(left, s.left_pos, b).1,
        !symbol_step(right, s.right_pos, b).1,
    ensures
        tbf_step(left, right, s, b).inside == s.inside,
        tbf_step(left, right, s, b).records == s.records,
        tbf_step(left, right, s, b).pending == (if s.inside {
            s.pending.push(b)
        } else {
            s.pending
        }),
{
}

/// A left marker alone, outside a record, opens one.
proof fn lemma_step_open(left: Seq<u8>, right: Seq<u8>, s: TbfScan, b: u8)
    requires
        right.len() > 0,
        s.pending.len() == 0,
        symbol_step(left, s.left_pos, b).1,
        !symbol_step(right, s.right_pos, b).1,
    ensures
        tbf_step(left, right, s, b).inside,
        tbf_step(left, right, s, b).records == s.records,
        tbf_step(left, right, s, b).pending == Seq::<u8>::empty(),
{
}

/// A right marker closes the record, keeping the pending bytes without the
/// marker's first bytes when they are more than those.
proof fn lemma_step_close(left: Seq<u8>, right: Seq<u8>, s: TbfScan, b: u8)
    requires
        symbol_step(right, s.right_pos, b).1,
    ensures
        !tbf_step(left, right, s, b).inside,
        tbf_step(left, right, s, b).pending == Seq::<u8>::empty(),
        tbf_step(left, right, s, b).records == (if s.pending.len() < right.len() {
            s.records
        } else {
            s.records.push(s.pending.subrange(0, s.pending.len() - right.len() + 1))
        }),
{
}

/// `framed_bodies` over the first `k` hits, unfolded once.
proof fn lemma_framed_pair(bytes: Seq<u8>, hits: Seq<int>, right_len: int, k: int)
    requires
        2 <= k <= hits.len(),
    ensures
        framed_bodies(bytes, hits.take(k), right_len) == (if hits[k - 1] - right_len > hits[k - 2] {
            framed_bodies(bytes, hits.take(k - 2), right_len).push(
                bytes.subrange(hits[k - 2], hits[k - 1] - right_len),
            )
        } else {
            framed_bodies(bytes, hits.take(k - 2), right_len)
        }),
{
    assert(hits.take(k).take(k - 2) =~= hits.take(k - 2));
}

/// What completes on the `i`-th byte, given the `k` hits up to it.
proof fn lemma_hit_facts(left: Seq<u8>, right: Seq<u8>, bytes: Seq<u8>, hits: Seq<int>, i: int, k: int)
    requires
        alternating_markers(left, right, bytes, hits),
        1 <= i <= bytes.len(),
        0 <= k <= hits.len(),
        k > 0 ==> hits[k - 1] <= i,
        k < hits.len() ==> hits[k] > i,
    ensures
        k > 0 && hits[k - 1] == i && (k - 1) % 2 == 0 ==> marker_hit(left, bytes, i) && !marker_hit(right, bytes, i),
        k > 0 && hits[k - 1] == i && (k - 1) % 2 == 1 ==> marker_hit(right, bytes, i),
        k > 0 && hits[k - 1] == i && k >= 2 ==> hits[k - 2] < i,
        !(k > 0 && hits[k - 1] == i) ==> !marker_hit(left, bytes, i) && !marker_hit(right, bytes, i),
        k > 0 ==> 1 <= hits[k - 1],
        k >= 2 ==> 1 <= hits[k - 2],
{
    reveal(alternating_markers);
    if k >= 2 {
        assert(1 <= hits[k - 2]);
    }
    if k > 0 {
        assert(1 <= hits[k - 1]);
        if hits[k - 1] == i && k >= 2 {
            assert(hits[k - 2] < hits[k - 1]);
        }
    }
    if !(k > 0 && hits[k - 1] == i) {
        if hits.contains(i) {
            let j = choose|j: int| 0 <= j < hits.len() && hits[j] == i;
            if j < k - 1 {
                assert(hits[j] < hits[k - 1]);
            } else if j > k {
                assert(hits[k] < hits[j]);
            } else if j == k {
                assert(hits[k] == i);
            }
        }
        assert(marker_hit(left, bytes, i) || marker_hit(right, bytes, i) ==> hits.contains(i));
    } else {
        assert(hits[k - 1] == hits[k - 1]);
    }
}

/// The scan of the first `i` bytes, with `k` marker hits among them.
proof fn lemma_tbf_prefix(left: Seq<u8>, right: Seq<u8>, bytes: Seq<u8>, hits: Seq<int>, i: int, k: int)
    requires
        left.len() > 0,
        right.len() > 0,
        alternating_markers(left, right, bytes, hits),
        0 <= i <= bytes.len(),
        0 <= k <= hits.len(),
        k > 0 ==> hits[k - 1] <= i,
        k > 0 ==> 1 <= hits[k - 1],
        k < hits.len() ==> hits[k] > i,
    ensures
        tbf_scan(left, right, bytes.take(i)).inside == (k % 2 == 1),
        k % 2 == 0 ==> tbf_scan(left, right, bytes.take(i)).pending == Seq::<u8>::empty()
            && tbf_scan(left, right, bytes.take(i)).records == framed_bodies(bytes, hits.take(k), right.len() as int),
        k % 2 == 1 ==> tbf_scan(left, right, bytes.take(i)).pending == bytes.subrange(hits[k - 1], i)
            && tbf_scan(left, right, bytes.take(i)).records == framed_bodies(bytes, hits.take(k - 1), right.len() as int),
    decreases i,
{
    let rlen = right.len() as int;
    if i == 0 {
        assert(bytes.take(0) =~= Seq::<u8>::empty());
        assert(hits.take(0) =~= Seq::<int>::empty());
    } else {
        lemma_hit_facts(left, right, bytes, hits, i, k);
        let hit_here = k > 0 && hits[k - 1] == i;
        let k2 = if hit_here { k - 1 } else { k };
        if hit_here && k2 > 0 {
            lemma_hit_facts(left, right, bytes, hits, i, k);
        }
        lemma_tbf_prefix(left, right, bytes, hits, i - 1, k2);
        let prev = bytes.take(i - 1);
        let cur = bytes.take(i);
        let b = bytes[i - 1];
        assert(cur.drop_last() =~= prev);
        lemma_scan_positions(left, right, prev);
        let s = tbf_scan(left, right, prev);
        assert(tbf_scan(left, right, cur) == tbf_step(left, right, s, b));
        assert(symbol_step(left, s.left_pos, b).1 == marker_hit(left, bytes, i));
        assert(symbol_step(right, s.right_pos, b).1 == marker_hit(right, bytes, i));
        if hit_here {
            if (k - 1) % 2 == 0 {
                lemma_step_open(left, right, s, b);
                assert(bytes.subrange(hits[k - 1], i) =~= Seq::<u8>::empty());
            } else {
                lemma_step_close(left, right, s, b);
                lemma_framed_pair(bytes, hits, rlen, k);
                let a = hits[k - 2];
                assert(1 <= a < i);
                let pending = bytes.subrange(a, i - 1);
                assert(s.pending == pending);
                assert(pending.len() == i - 1 - a);
                if i - rlen > a {
                    assert(pending.subrange(0, pending.len() - rlen + 1) =~= bytes.subrange(a, i - rlen));
                }
            }
        } else {
            lemma_step_plain(left, right, s, b);
            if k % 2 == 1 {
                assert(bytes.subrange(hits[k - 1], i - 1).push(b) =~= bytes.subrange(hits[k - 1], i));
            }
        }
    }
}

/// When the markers alternate, the records a scan collects are exactly the
/// non-empty bodies between each left marker and the following right
/// marker, and the scan ends inside a record exactly when the last left
/// marker has no right marker after it.
pub proof fn lemma_tbf_records_between_markers(left: Seq<u8>, right: Seq<u8>, bytes: Seq<u8>, hits: Seq<int>)
    requires
        left.len() > 0,
        right.len() > 0,
        alternating_markers(left, right, bytes, hits),
    ensures
        tbf_scan(left, right, bytes).inside == (hits.len() % 2 == 1),
        tbf_scan(left, right, bytes).records == framed_bodies(
            bytes,
            hits.take(hits.len() - hits.len() % 2),
            right.len() as int,
        ),
{
    reveal(alternating_markers);
    if hits.len() > 0 {
        assert(1 <= hits[hits.len() - 1] <= bytes.len());
    }
    lemma_tbf_prefix(left, right, bytes, hits, bytes.len() as int, hits.len() as int);
    assert(bytes.take(bytes.len() as int) =~= bytes);
}

/// The text of a raw record: its UTF-8 reading when it is valid UTF-8, else
/// its GBK reading unless that met malformed bytes.
pub open spec fn record_text(raw: Seq<u8>) -> Option<Seq<char>> {
    if valid_utf8(raw) {
        Some(decode_utf8(raw))
    } else if !gbk_decode(raw).1 {
        Some(gbk_decode(raw).0)
    } else {
        None
    }
}

/// A record holding UTF-8 text is read as that text, whatever a GBK reading
/// of its bytes would give.
pub proof fn lemma_utf8_record_text(text: Seq<char>)
    ensures
        record_text(encode_utf8(text)) == Some(text),
{
    encode_utf8_valid_utf8(text);
    encode_utf8_decode_utf8(text);
}

/// Valid UTF-8 bytes are read as UTF-8; only other bytes fall back to GBK,
/// and those GBK finds malformed give no text.
pub proof fn lemma_record_text_fallback(raw: Seq<u8>)
    ensures
        valid_utf8(raw) ==> record_text(raw) == Some(decode_utf8(raw)),
        record_text(raw) is None ==> !valid_utf8(raw) && gbk_decode(raw).1,
        !valid_utf8(raw) && !gbk_decode(raw).1 ==> record_text(raw) == Some(gbk_decode(raw).0),
{
}

/// Whether `t` is the text of one of the raw records.
pub open spec fn is_record_text(records: Seq<Seq<u8>>, t: Seq<char>) -> bool {
    exists|k: int| 0 <= k < records.len() && #[trigger] record_text(records[k]) == Some(t)
}

/// Why a TBF input was refused.
#[derive(Clone, Copy, Debug, PartialEq, Eq, Structural)]
pub enum TbfError {
    /// The input ended inside a record.
    UnclosedRecord,
}

/// Scanner of TBF records framed by a left and a right marker.
pub struct ParseTbf {
    left: Symbol,
    right: Symbol,
    flag: bool,
}

impl ParseTbf {
    /// The left marker.
    pub closed spec fn left(self) -> Seq<u8> {
        self.left.pattern()
    }

    /// The right marker.
    pub closed spec fn right(self) -> Seq<u8> {
        self.right.pattern()
    }

    /// The matcher positions and the inside flag.
    pub closed spec fn state(self) -> (nat, nat, bool) {
        (self.left.position(), self.right.position(), self.flag)
    }

    /// Creates a scanner for two non-empty markers.
    pub fn new(left: &str, right: &str) -> (r: ParseTbf)
        requires
            left@.len() > 0,
            right@.len() > 0,
        ensures
            r.left() == encode_utf8(left@),
            r.right() == encode_utf8(right@),
            r.state() == (0nat, 0nat, false),
    {
        let left_bytes = vstd::slice::slice_to_vec(left.as_bytes());
        let right_bytes = vstd::slice::slice_to_vec(right.as_bytes());
        proof {
            reveal_with_fuel(encode_utf8, 2);
        }
        ParseTbf { left: Symbol::new(left_bytes), right: Symbol::new(right_bytes), flag: false }
    }

    /// Reads one byte; returns whether it completed either marker.
    pub fn update(&mut self, b: u8) -> (r: bool)
        ensures
            old(self).left().len() > 0,
            old(self).right().len() > 0,
            final(self).left() == old(self).left(),
            final(self).right() == old(self).right(),
            ({
                let (lp, lh) = symbol_step(old(self).left(), old(self).state().0, b);
                let (rp, rh) = symbol_step(old(self).right(), old(self).state().1, b);
                &&& r == (lh || rh)
                &&& final(self).state() == (lp, rp, if rh {
                    false
                } else if lh {
                    true
                } else {
                    old(self).state().2
                })
            }),
    {
        proof {
            use_type_invariant(&self.left);
            use_type_invariant(&self.right);
        }
        let left = self.left.update(b);
        let right = self.right.update(b);
        if left {
            self.flag = true;
        }
        if right {
            self.flag = false;
        }
        left || right
    }

    /// Text of a raw record, as `record_text` states.
    fn decode(raw: &[u8]) -> (r: Option<String>)
        requires
            raw@.len() < usize::MAX / 8,
        ensures
            r matches Some(t) ==> record_text(raw@) == Some(t@),
            r is None ==> record_text(raw@) is None,
    {
        match utf8_text(raw) {
            Some(text) => Some(text.to_owned()),
            None => {
                let (text, malformed) = gbk_text(raw);
                if malformed {
                    None
                } else {
                    Some(text)
                }
            },
        }
    }

    /// Scans a whole TBF input from the start state. Fails when the input
    /// ends inside a record; otherwise returns the texts of the records,
    /// without repeats, in the byte order of their UTF-8 form.
    pub fn parse(&mut self, data: &[u8]) -> (r: Result<Vec<String>, TbfError>)
        requires
            data@.len() < usize::MAX / 8,
        ensures
            old(self).left().len() > 0,
            old(self).right().len() > 0,
            final(self).left() == old(self).left(),
            final(self).right() == old(self).right(),
            ({
                let scan = tbf_scan(old(self).left(), old(self).right(), data@);
                &&& final(self).state() == (scan.left_pos, scan.right_pos, scan.inside)
                &&& r is Err <==> scan.inside
                &&& r matches Ok(v) ==> {
                    &&& texts_strictly_sorted(v@)
                    &&& forall|t: Seq<char>| #[trigger] has_text(v@, t) <==> is_record_text(scan.records, t)
                }
            }),
    {
        proof {
            use_type_invariant(&self.left);
            use_type_invariant(&self.right);
        }
        let ghost left = self.left();
        let ghost right = self.right();
        self.left.reset();
        self.right.reset();
        self.flag = false;
        let right_len = self.right.data.len();
        proof {
            use_type_invariant(&self.right);
        }
        let mut temp: Vec<u8> = Vec::new();
        let mut res: Vec<String> = Vec::new();
        let mut i: usize = 0;
        proof {
            assert(data@.subrange(0, 0) =~= Seq::<u8>::empty());
        }
        while i < data.len()
            invariant
                i <= data@.len(),
                data@.len() < usize::MAX / 8,
                self.left() == left,
                self.right() == right,
                right_len == right.len(),
                right_len > 0,
                ({
                    let scan = tbf_scan(left, right, data@.subrange(0, i as int));
                    &&& self.state() == (scan.left_pos, scan.right_pos, scan.inside)
                    &&& temp@ == scan.pending
                    &&& temp@.len() <= i
                    &&& texts_strictly_sorted(res@)
                    &&& forall|t: Seq<char>| #[trigger] has_text(res@, t) <==> is_record_text(scan.records, t)
                }),
            decreases data@.len() - i,
        {
            let ghost prev = tbf_scan(left, right, data@.subrange(0, i as int));
            let b = data[i];
            proof {
                assert(data@.subrange(0, i + 1).drop_last() =~= data@.subrange(0, i as int));
            }
            let ghost next = tbf_scan(left, right, data@.subrange(0, i + 1));
            proof {
                assert(data@.subrange(0, i + 1).last() == b);
                assert(next == tbf_step(left, right, prev, b));
            }
            let ghost old_temp = temp@;
            let hit = self.update(b);
            if hit {
                if temp.len() < right_len {
                    temp.clear();
                    proof {
                        assert forall|t: Seq<char>| #[trigger] has_text(res@, t) <==> is_record_text(next.records, t) by {
                            assert(next.records == prev.records);
                        }
                    }
                } else {
                    let mut raw: Vec<u8> = Vec::new();
                    std::mem::swap(&mut raw, &mut temp);
                    proof {
                        assert(raw@ == old_temp);
                    }
                    raw.truncate(raw.len() - right_len + 1);
                    let ghost before = res@;
                    proof {
                        assert(old_temp == prev.pending);
                        assert(raw@ == prev.pending.subrange(0, prev.pending.len() - right.len() + 1));
                        assert(next.records == prev.records.push(raw@));
                    }
                    match Self::decode(raw.as_slice()) {
                        Some(text) => {
                            insert_sorted_text(&mut res, text);
                            proof {
                                assert forall|t: Seq<char>| #[trigger] has_text(res@, t) <==> is_record_text(next.records, t) by {
                                    if has_text(res@, t) {
                                        if has_text(before, t) {
                                            let k = choose|k: int| 0 <= k < prev.records.len() && #[trigger] record_text(prev.records[k]) == Some(t);
                                            assert(next.records[k] == prev.records[k]);
                                        } else {
                                            assert(record_text(next.records[prev.records.len() as int]) == Some(t));
                                        }
                                    }
                                    if is_record_text(next.records, t) {
                                        let k = choose|k: int| 0 <= k < next.records.len() && #[trigger] record_text(next.records[k]) == Some(t);
                                        if k < prev.records.len() {
                                            assert(record_text(prev.records[k]) == Some(t));
                                        }
                                    }
                                }
                            }
                        },
                        None => {
                            proof {
                                assert forall|t: Seq<char>| #[trigger] has_text(res@, t) <==> is_record_text(next.records, t) by {
                                    if has_text(res@, t) {
                                        let k = choose|k: int| 0 <= k < prev.records.len() && #[trigger] record_text(prev.records[k]) == Some(t);
                                        assert(next.records[k] == prev.records[k]);
                                    }
                                    if is_record_text(next.records, t) {
                                        let k = choose|k: int| 0 <= k < next.records.len() && #[trigger] record_text(next.records[k]) == Some(t);
                                        if k < prev.records.len() {
                                            assert(record_text(prev.records[k]) == Some(t));
                                        }
                                    }
                                }
                            }
                        },
                    }
                }
            } else if self.flag {
                temp.push(b);
            }
            i = i + 1;
        }
        proof {
            assert(data@.subrange(0, data@.len() as int) =~= data@);
        }
        if self.flag {
            Err(TbfError::UnclosedRecord)
        } else {
            Ok(res)
        }
    }
}

} // verus!
