//! Byte-wise ordering of text and conversions between bytes and text.
use vstd::prelude::*;
use vstd::utf8::*;
use vstd::string::*;

verus! {

broadcast use {vstd::utf8::encode_utf8_decode_utf8, vstd::utf8::encode_utf8_valid_utf8};

/// Lexicographic order of byte strings: `a` sorts strictly before `b`.
pub open spec fn lex_lt(a: Seq<u8>, b: Seq<u8>) -> bool
    decreases a.len(),
{
    if a.len() == 0 {
        b.len() > 0
    } else if b.len() == 0 {
        false
    } else if a[0] != b[0] {
        a[0] < b[0]
    } else {
        lex_lt(a.drop_first(), b.drop_first())
    }
}

/// The byte string of a text, in UTF-8; `String` orders by it.
pub open spec fn text_bytes(s: Seq<char>) -> Seq<u8> {
    encode_utf8(s)
}

proof fn lemma_lex_irreflexive(a: Seq<u8>)
    ensures
        !lex_lt(a, a),
    decreases a.len(),
{
    if a.len() > 0 {
        lemma_lex_irreflexive(a.drop_first());
    }
}

proof fn lemma_lex_total(a: Seq<u8>, b: Seq<u8>)
    ensures
        a != b ==> lex_lt(a, b) || lex_lt(b, a),
        lex_lt(a, b) ==> !lex_lt(b, a),
    decreases a.len(),
{
    if a.len() > 0 && b.len() > 0 {
        lemma_lex_total(a.drop_first(), b.drop_first());
        if a != b && a[0] == b[0] {
            assert(a =~= seq![a[0]] + a.drop_first());
            assert(b =~= seq![b[0]] + b.drop_first());
        }
    } else if a.len() == 0 && b.len() == 0 {
        assert(a =~= b);
    }
}

proof fn lemma_lex_transitive(a: Seq<u8>, b: Seq<u8>, c: Seq<u8>)
    ensures
        lex_lt(a, b) && lex_lt(b, c) ==> lex_lt(a, c),
    decreases a.len(),
{
    if a.len() > 0 && b.len() > 0 && c.len() > 0 {
        lemma_lex_transitive(a.drop_first(), b.drop_first(), c.drop_first());
    }
}

/// `lex_lt` is a strict total order.
pub proof fn lemma_lex_order(a: Seq<u8>, b: Seq<u8>, c: Seq<u8>)
    ensures
        !lex_lt(a, a),
        a != b ==> lex_lt(a, b) || lex_lt(b, a),
        lex_lt(a, b) ==> !lex_lt(b, a),
        lex_lt(a, b) && lex_lt(b, c) ==> lex_lt(a, c),
{
    lemma_lex_irreflexive(a);
    lemma_lex_total(a, b);
    lemma_lex_transitive(a, b, c);
}

/// Comparing after a common prefix gives the same answer.
proof fn lemma_lex_skip(a: Seq<u8>, b: Seq<u8>, i: int)
    requires
        0 <= i <= a.len(),
        i <= b.len(),
        a.subrange(0, i) == b.subrange(0, i),
    ensures
        lex_lt(a, b) == lex_lt(a.skip(i), b.skip(i)),
    decreases i,
{
    if i > 0 {
        assert(a[0] == a.subrange(0, i)[0]);
        assert(b[0] == b.subrange(0, i)[0]);
        assert(a.drop_first().subrange(0, i - 1) =~= a.subrange(0, i).drop_first());
        assert(b.drop_first().subrange(0, i - 1) =~= b.subrange(0, i).drop_first());
        lemma_lex_skip(a.drop_first(), b.drop_first(), i - 1);
        assert(a.drop_first().skip(i - 1) =~= a.skip(i));
        assert(b.drop_first().skip(i - 1) =~= b.skip(i));
    } else {
        assert(a.skip(0) =~= a);
        assert(b.skip(0) =~= b);
    }
}

/// Whether `a` sorts strictly before `b` byte by byte.
pub fn bytes_less(a: &[u8], b: &[u8]) -> (r: bool)
    ensures
        r == lex_lt(a@, b@),
{
    let mut i: usize = 0;
    while i < a.len() && i < b.len() && a[i] == b[i]
        invariant
            i <= a@.len(),
            i <= b@.len(),
            a@.subrange(0, i as int) == b@.subrange(0, i as int),
        decreases a@.len() - i,
    {
        proof {
            assert(a@.subrange(0, i + 1) =~= a@.subrange(0, i as int).push(a@[i as int]));
            assert(b@.subrange(0, i + 1) =~= b@.subrange(0, i as int).push(b@[i as int]));
        }
        i = i + 1;
    }
    proof {
        lemma_lex_skip(a@, b@, i as int);
    }
    if i == a.len() {
        i < b.len()
    } else if i == b.len() {
        false
    } else {
        a[i] < b[i]
    }
}

/// Whether two texts are equal, compared byte by byte.
pub fn same_text(a: &str, b: &str) -> (r: bool)
    ensures
        r == (a@ == b@),
{
    let x = a.as_bytes();
    let y = b.as_bytes();
    proof {
        assert(x@ == text_bytes(a@));
        assert(y@ == text_bytes(b@));
    }
    if x.len() != y.len() {
        return false;
    }
    let mut i: usize = 0;
    while i < x.len()
        invariant
            i <= x@.len(),
            x@.len() == y@.len(),
            x@ == text_bytes(a@),
            y@ == text_bytes(b@),
            forall|j: int| 0 <= j < i ==> x@[j] == y@[j],
        decreases x@.len() - i,
    {
        if x[i] != y[i] {
            return false;
        }
        i = i + 1;
    }
    proof {
        assert(x@ =~= y@);
        assert(decode_utf8(encode_utf8(a@)) == a@);
        assert(decode_utf8(encode_utf8(b@)) == b@);
    }
    true
}

/// Texts ordered strictly by their UTF-8 bytes, hence without repeats.
pub open spec fn texts_strictly_sorted(v: Seq<String>) -> bool {
    forall|i: int, j: int|
        0 <= i < j < v.len() ==> lex_lt(text_bytes(#[trigger] v[i]@), text_bytes(#[trigger] v[j]@))
}

/// Whether some entry of `v` holds the text `t`.
pub open spec fn has_text(v: Seq<String>, t: Seq<char>) -> bool {
    exists|i: int| 0 <= i < v.len() && #[trigger] v[i]@ == t
}

/// Whether some entry of `v` equals `t`.
pub fn contains_text(v: &[String], t: &String) -> (r: bool)
    ensures
        r == has_text(v@, t@),
{
    let mut i: usize = 0;
    while i < v.len()
        invariant
            i <= v@.len(),
            forall|j: int| 0 <= j < i ==> (#[trigger] v@[j])@ != t@,
        decreases v@.len() - i,
    {
        if v[i] == *t {
            assert(v@[i as int]@ == t@);
            return true;
        }
        i = i + 1;
    }
    false
}

/// Whether some entry of `wanted` is an entry of `v`.
pub open spec fn shares_text(v: Seq<String>, wanted: Seq<String>) -> bool {
    exists|i: int| 0 <= i < wanted.len() && has_text(v, #[trigger] wanted[i]@)
}

/// Whether some entry of `wanted` is an entry of `v`.
pub fn any_contained(v: &[String], wanted: &[String]) -> (r: bool)
    ensures
        r == shares_text(v@, wanted@),
{
    let mut i: usize = 0;
    while i < wanted.len()
        invariant
            i <= wanted@.len(),
            forall|j: int| 0 <= j < i ==> !has_text(v@, #[trigger] wanted@[j]@),
        decreases wanted@.len() - i,
    {
        if contains_text(v, &wanted[i]) {
            return true;
        }
        i = i + 1;
    }
    false
}

/// Inserts `s` into a strictly sorted list of texts unless it is already there.
pub fn insert_sorted_text(v: &mut Vec<String>, s: String)
    requires
        texts_strictly_sorted(old(v)@),
    ensures
        texts_strictly_sorted(final(v)@),
        forall|t: Seq<char>| #[trigger] has_text(final(v)@, t) <==> (t == s@ || has_text(old(v)@, t)),
        has_text(old(v)@, s@) ==> final(v)@ == old(v)@,
{
    let ghost old_v = v@;
    let key = s.as_str().as_bytes();
    let mut p: usize = 0;
    while p < v.len() && bytes_less(v[p].as_str().as_bytes(), key)
        invariant
            v@ == old_v,
            p <= v@.len(),
            key@ == text_bytes(s@),
            forall|i: int| 0 <= i < p ==> lex_lt(text_bytes(#[trigger] v@[i]@), text_bytes(s@)),
        decreases v@.len() - p,
    {
        p = p + 1;
    }
    if p < v.len() && !bytes_less(key, v[p].as_str().as_bytes()) {
        proof {
            lemma_lex_order(text_bytes(v@[p as int]@), text_bytes(s@), text_bytes(s@));
            assert(decode_utf8(text_bytes(v@[p as int]@)) == decode_utf8(text_bytes(s@)));
            assert(v@[p as int]@ == s@);
            assert(has_text(v@, s@));
        }
        return;
    }
    proof {
        if has_text(v@, s@) {
            let k = choose|k: int| 0 <= k < v@.len() && #[trigger] v@[k]@ == s@;
            if k < p {
                lemma_lex_order(text_bytes(s@), text_bytes(s@), text_bytes(s@));
            } else {
                assert(p < v@.len());
                if k > p {
                    lemma_lex_order(text_bytes(v@[p as int]@), text_bytes(s@), text_bytes(s@));
                }
            }
        }
    }
    proof {
        assert forall|i: int, j: int| 0 <= i < j < v@.len() + 1 implies lex_lt(
            text_bytes(#[trigger] v@.insert(p as int, s)[i]@),
            text_bytes(#[trigger] v@.insert(p as int, s)[j]@),
        ) by {
            let w = v@.insert(p as int, s);
            if i < p && j == p {
            } else if i == p && j > p {
                lemma_lex_order(text_bytes(s@), text_bytes(v@[p as int]@), text_bytes(w[j]@));
                lemma_lex_order(text_bytes(v@[p as int]@), text_bytes(s@), text_bytes(s@));
                if j > p + 1 {
                    assert(lex_lt(text_bytes(v@[p as int]@), text_bytes(v@[j - 1]@)));
                }
            } else if i < p && j > p {
                assert(lex_lt(text_bytes(v@[i]@), text_bytes(v@[j - 1]@)));
            } else if i > p {
                assert(lex_lt(text_bytes(v@[i - 1]@), text_bytes(v@[j - 1]@)));
            }
        }
    }
    v.insert(p, s);
    proof {
        let w = v@;
        assert forall|t: Seq<char>| #[trigger] has_text(w, t) implies (t == w[p as int]@ || has_text(old_v, t)) by {
            let i = choose|i: int| 0 <= i < w.len() && #[trigger] w[i]@ == t;
            if i < p {
                assert(old_v[i]@ == t);
            } else if i > p {
                assert(old_v[i - 1]@ == t);
            }
        }
        assert forall|t: Seq<char>| #[trigger] has_text(old_v, t) implies has_text(w, t) by {
            let i = choose|i: int| 0 <= i < old_v.len() && #[trigger] old_v[i]@ == t;
            if i < p {
                assert(w[i]@ == t);
            } else {
                assert(w[i + 1]@ == t);
            }
        }
        assert(w[p as int]@ == s@);
        assert(has_text(w, s@));
    }
}

} // verus!

verus! {

/// What `encoding_rs::GBK.decode` returns for a byte string: the decoded text,
/// and whether malformed sequences were met (and replaced).
pub uninterp spec fn gbk_decode(bytes: Seq<u8>) -> (Seq<char>, bool);

/// Calls `std::str::from_utf8`: the bytes read as UTF-8 text, `None` exactly
/// when they are not valid UTF-8 (as the std documentation states).
#[verifier::external_body]
pub(crate) fn utf8_text(bytes: &[u8]) -> (r: Option<&str>)
    ensures
        r is Some <==> valid_utf8(bytes@),
        r matches Some(t) ==> t@ == decode_utf8(bytes@),
{
    std::str::from_utf8(bytes).ok()
}

/// Calls `encoding_rs::GBK.decode` (which first sniffs a byte order mark):
/// the decoded text and the flag for malformed input, both given by the name
/// `gbk_decode` of the input bytes. The length bound keeps the crate's buffer
/// size computation from overflowing.
#[verifier::external_body]
pub(crate) fn gbk_text(bytes: &[u8]) -> (r: (String, bool))
    requires
        bytes@.len() < usize::MAX / 8,
    ensures
        (r.0@, r.1) == gbk_decode(bytes@),
{
    let (text, _, had_errors) = encoding_rs::GBK.decode(bytes);
    (text.into_owned(), had_errors)
}

} // verus!

verus! {

/// The texts of `v` without repeats, in the byte order of their UTF-8 form.
pub fn sorted_texts(v: Vec<String>) -> (r: Vec<String>)
    ensures
        texts_strictly_sorted(r@),
        forall|t: Seq<char>| #[trigger] has_text(r@, t) <==> has_text(v@, t),
{
    let mut res: Vec<String> = Vec::new();
    let mut i: usize = 0;
    while i < v.len()
        invariant
            i <= v@.len(),
            texts_strictly_sorted(res@),
            forall|t: Seq<char>| #[trigger] has_text(res@, t) <==> has_text(v@.take(i as int), t),
        decreases v@.len() - i,
    {
        let ghost before = res@;
        insert_sorted_text(&mut res, v[i].clone());
        proof {
            let prefix = v@.take(i + 1);
            assert forall|t: Seq<char>| #[trigger] has_text(res@, t) <==> has_text(prefix, t) by {
                if has_text(prefix, t) {
                    let k = choose|k: int| 0 <= k < prefix.len() && #[trigger] prefix[k]@ == t;
                    if k < i {
                        assert(v@.take(i as int)[k]@ == t);
                    }
                }
                if has_text(v@.take(i as int), t) {
                    let k = choose|k: int| 0 <= k < i && #[trigger] v@.take(i as int)[k]@ == t;
                    assert(prefix[k]@ == t);
                }
                assert(prefix[i as int]@ == v@[i as int]@);
            }
        }
        i = i + 1;
    }
    assert(v@.take(v@.len() as int) =~= v@);
    res
}

} // verus!
