//! Psychological line: the share of rising days in a trailing window.
use vstd::prelude::*;

use crate::args::UntArg;
use crate::window::lemma_mod_distinct;

verus! {

/// Parameters of the psychological-line factor.
#[derive(Debug)]
pub struct Core {
    /// Window length in trading days.
    pub period: UntArg,
}

impl Core {
    pub fn new(period: usize) -> (r: Core)
        ensures
            r.period.name@ == "心理线周期"@,
            r.period.value == period,
    {
        Core { period: UntArg::new("心理线周期", period) }
    }
}

/// Number of `true` entries of `s`.
pub open spec fn count_true(s: Seq<bool>) -> nat
    decreases s.len(),
{
    if s.len() == 0 {
        0
    } else {
        count_true(s.drop_last()) + if s.last() {
            1nat
        } else {
            0nat
        }
    }
}

/// The last `len` entries of `history`, or all of them when there are fewer.
pub open spec fn window(history: Seq<bool>, len: nat) -> Seq<bool> {
    if history.len() <= len {
        history
    } else {
        history.subrange(history.len() - len, history.len() as int)
    }
}

proof fn lemma_count_true_drop_first(s: Seq<bool>)
    requires
        s.len() > 0,
    ensures
        count_true(s) == count_true(s.drop_first()) + if s[0] {
            1nat
        } else {
            0nat
        },
    decreases s.len(),
{
    if s.len() > 1 {
        lemma_count_true_drop_first(s.drop_last());
        assert(s.drop_last().drop_first() =~= s.drop_first().drop_last());
        assert(s.drop_first().last() == s.last());
        assert(s.drop_last()[0] == s[0]);
        assert(count_true(s) == count_true(s.drop_last()) + (if s.last() { 1nat } else { 0nat }));
        assert(count_true(s.drop_first()) == count_true(s.drop_first().drop_last()) + (if s.drop_first().last() { 1nat } else { 0nat }));
    } else {
        assert(s.drop_first().len() == 0);
        assert(s.drop_last().len() == 0);
        assert(s.last() == s[0]);
        assert(count_true(s.drop_first()) == 0);
        assert(count_true(s.drop_last()) == 0);
        assert(count_true(s) == count_true(s.drop_last()) + (if s.last() { 1nat } else { 0nat }));
    }
}

/// Counter of rising days over a ring buffer of the last `len` days.
pub struct PsyCounter {
    idx: usize,
    len: usize,
    count: usize,
    buf: Vec<bool>,
    history: Ghost<Seq<bool>>,
}

impl PsyCounter {
    /// The buffer holds the last `len` days and `count` counts their rises.
    pub closed spec fn wf(self) -> bool {
        &&& self.len >= 2
        &&& self.buf@.len() == self.len
        &&& self.idx == self.history@.len()
        &&& self.count == count_true(window(self.history@, self.len as nat))
        &&& forall|j: int|
            0 <= j < self.idx && j >= self.idx - self.len ==> self.buf@[#[trigger] (j % self.len as int)]
                == self.history@[j]
        &&& forall|p: int| self.idx <= p < self.len ==> !(#[trigger] self.buf@[p])
    }

    /// The days fed so far, oldest first (`true` for a rising day).
    pub closed spec fn history(self) -> Seq<bool> {
        self.history@
    }

    /// Window length in trading days.
    pub closed spec fn period(self) -> nat {
        self.len as nat
    }

    /// Creates a counter over windows of `len` days (`len >= 2`).
    pub fn new(len: usize) -> (r: PsyCounter)
        requires
            len >= 2,
        ensures
            r.wf(),
            r.period() == len,
            r.history() == Seq::<bool>::empty(),
    {
        let mut buf: Vec<bool> = Vec::new();
        let mut i: usize = 0;
        while i < len
            invariant
                i <= len,
                buf@.len() == i,
                forall|p: int| 0 <= p < i ==> !(#[trigger] buf@[p]),
            decreases len - i,
        {
            buf.push(false);
            i = i + 1;
        }
        PsyCounter { idx: 0, len, count: 0, buf, history: Ghost(Seq::empty()) }
    }

    /// Feeds one day; once `period()` days have been fed, returns how many of
    /// the last `period()` days rose.
    pub fn next(&mut self, up: bool) -> (r: Option<usize>)
        requires
            old(self).wf(),
            old(self).history().len() < usize::MAX,
        ensures
            final(self).wf(),
            final(self).period() == old(self).period(),
            final(self).history() == old(self).history().push(up),
            r is Some <==> final(self).history().len() >= final(self).period(),
            r matches Some(c) ==> c == count_true(
                window(final(self).history(), final(self).period()),
            ),
    {
        let ghost h = self.history@;
        let ghost n = self.len as int;
        let pos = self.idx % self.len;
        let ghost old_buf = self.buf@;
        proof {
            let w = window(h, n as nat);
            let w2 = window(h.push(up), n as nat);
            if h.len() >= n {
                let j = h.len() - n;
                assert(j % n == pos) by {
                    vstd::arithmetic::div_mod::lemma_mod_sub_multiples_vanish(h.len() as int, n);
                }
                assert(old_buf[pos as int] == h[j]);
                assert(w[0] == h[j]);
                lemma_count_true_drop_first(w);
                lemma_count_true_bound(w.drop_first());
                assert(w2 =~= w.drop_first().push(up));
                assert(w2.drop_last() =~= w.drop_first());
            } else {
                assert(pos == h.len()) by {
                    vstd::arithmetic::div_mod::lemma_small_mod(h.len() as nat, n as nat);
                }
                assert(!old_buf[pos as int]);
                lemma_count_true_bound(h);
                assert(w2 =~= h.push(up));
                assert(w2.drop_last() =~= w);
            }
        }
        let mut count = self.count;
        if self.buf[pos] {
            count = count - 1;
        }
        if up {
            count = count + 1;
        }
        self.buf.set(pos, up);
        let idx = self.idx + 1;
        let ghost h2 = h.push(up);
        proof {
            assert(count_true(window(h2, n as nat)) <= window(h2, n as nat).len()) by {
                lemma_count_true_bound(window(h2, n as nat));
            }
            assert forall|j: int| 0 <= j < idx && j >= idx - n implies self.buf@[#[trigger] (j % n)] == h2[j] by {
                if j == h.len() {
                } else {
                    assert(j % n != pos) by {
                        vstd::arithmetic::div_mod::lemma_fundamental_div_mod(j, n);
                        vstd::arithmetic::div_mod::lemma_fundamental_div_mod(h.len() as int, n);
                        lemma_mod_distinct(j, h.len() as int, n);
                    }
                }
            }
            assert forall|p: int| idx <= p < n implies !(#[trigger] self.buf@[p]) by {
                assert(p != pos) by {
                    if h.len() < n {
                        vstd::arithmetic::div_mod::lemma_small_mod(h.len() as nat, n as nat);
                    } else {
                    }
                }
            }
        }
        self.idx = idx;
        self.count = count;
        self.history = Ghost(h2);
        if idx >= self.len {
            Some(count)
        } else {
            None
        }
    }
}

proof fn lemma_count_true_bound(s: Seq<bool>)
    ensures
        count_true(s) <= s.len(),
    decreases s.len(),
{
    if s.len() > 0 {
        lemma_count_true_bound(s.drop_last());
    }
}

} // verus!
