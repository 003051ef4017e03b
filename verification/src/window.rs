//! Highest or lowest of the last few values of a series, kept in a ring
//! buffer. Values are integer keys that order as the values they stand for.
use vstd::prelude::*;

use vstd::arithmetic::div_mod::{
    lemma_fundamental_div_mod, lemma_fundamental_div_mod_converse, lemma_mod_sub_multiples_vanish,
    lemma_small_mod,
};

verus! {

/// `a` is at least as high as `b` (at least as low when `highest` is false).
pub open spec fn at_least(a: i64, b: i64, highest: bool) -> bool {
    if highest {
        a >= b
    } else {
        a <= b
    }
}

/// Index of the first of the last `n` entries of a series of `len` entries
/// (of its first entry when it has fewer).
pub open spec fn window_start(len: int, n: int) -> int {
    if len >= n {
        len - n
    } else {
        0
    }
}

/// `m` is the highest (the lowest when `highest` is false) of the last `n`
/// entries of `s`, or of all of them when there are fewer.
pub open spec fn is_extreme(s: Seq<i64>, n: int, m: i64, highest: bool) -> bool {
    &&& exists|j: int| window_start(s.len() as int, n) <= j < s.len() && #[trigger] s[j] == m
    &&& forall|j: int|
        window_start(s.len() as int, n) <= j < s.len() ==> at_least(m, #[trigger] s[j], highest)
}

/// Value of a slot that no entry has reached yet.
pub open spec fn blank(highest: bool) -> i64 {
    if highest {
        i64::MIN
    } else {
        i64::MAX
    }
}

/// Two indices less than `n` apart have different remainders.
pub proof fn lemma_mod_distinct(a: int, b: int, n: int)
    requires
        n > 0,
        0 <= a < b,
        b - a < n,
    ensures
        a % n != b % n,
{
    lemma_fundamental_div_mod(a, n);
    lemma_fundamental_div_mod(b, n);
    assert(a % n != b % n) by (nonlinear_arith)
        requires
            n > 0,
            0 <= a < b,
            b - a < n,
            a == n * (a / n) + a % n,
            b == n * (b / n) + b % n,
            0 <= a % n < n,
            0 <= b % n < n,
    ;
}

/// Slot of the `i`-th of the last `n` entries of a series of `len >= n`
/// entries, counted from the ring position `len % n` onwards.
proof fn lemma_slot(len: int, n: int, i: int)
    requires
        n > 0,
        len >= n,
        0 <= i < n,
    ensures
        (len - n + i) % n == (if i < n - len % n {
            len % n + i
        } else {
            i - (n - len % n)
        }),
{
    let s = len % n;
    let q = len / n;
    lemma_fundamental_div_mod(len, n);
    if i < n - s {
        assert(len - n + i == (q - 1) * n + (s + i)) by (nonlinear_arith)
            requires
                len == n * q + s,
        ;
        lemma_fundamental_div_mod_converse(len - n + i, n, q - 1, s + i);
    } else {
        assert(len - n + i == q * n + (s + i - n)) by (nonlinear_arith)
            requires
                len == n * q + s,
        ;
        lemma_fundamental_div_mod_converse(len - n + i, n, q, s + i - n);
    }
}

/// Highest (or lowest) of the last `len` values fed, over a ring buffer of
/// `len` slots. The extreme is found again only when it leaves the window.
#[derive(Clone)]
pub struct WindowExtreme {
    idx: usize,
    len: usize,
    hit: usize,
    highest: bool,
    buf: Vec<i64>,
    history: Ghost<Seq<i64>>,
    hit_at: Ghost<int>,
}

impl WindowExtreme {
    /// The slots hold the entries of the current window; slots no entry has
    /// reached hold the blank value.
    pub closed spec fn slots_ok(self) -> bool {
        let h = self.history@;
        let n = self.len as int;
        &&& self.len >= 2
        &&& self.buf@.len() == n
        &&& self.idx == h.len()
        &&& forall|j: int|
            window_start(h.len() as int, n) <= j < h.len() ==> self.buf@[#[trigger] (j % n)] == h[j]
        &&& forall|p: int| self.idx <= p < n ==> #[trigger] self.buf@[p] == blank(self.highest)
    }

    /// Slot `hit` holds the extreme of the window, fed as entry `hit_at`.
    pub closed spec fn wf(self) -> bool {
        let h = self.history@;
        let n = self.len as int;
        &&& self.slots_ok()
        &&& self.hit < self.len
        &&& h.len() == 0 ==> self.hit == 0
        &&& h.len() > 0 ==> {
            &&& window_start(h.len() as int, n) <= self.hit_at@ < h.len()
            &&& self.hit == self.hit_at@ % n
            &&& self.buf@[self.hit as int] == h[self.hit_at@]
            &&& is_extreme(h, n, self.buf@[self.hit as int], self.highest)
        }
    }

    /// The values fed so far, oldest first.
    pub closed spec fn history(self) -> Seq<i64> {
        self.history@
    }

    /// Window length.
    pub closed spec fn period(self) -> nat {
        self.len as nat
    }

    /// Whether the highest value is tracked (the lowest otherwise).
    pub closed spec fn highest(self) -> bool {
        self.highest
    }

    /// Tracks the highest (`highest`) or lowest value of windows of `len`
    /// values (`len >= 2`).
    pub fn new(len: usize, highest: bool) -> (r: WindowExtreme)
        requires
            len >= 2,
        ensures
            r.wf(),
            r.period() == len,
            r.highest() == highest,
            r.history() == Seq::<i64>::empty(),
    {
        let init: i64 = if highest {
            i64::MIN
        } else {
            i64::MAX
        };
        let mut buf: Vec<i64> = Vec::new();
        let mut i: usize = 0;
        while i < len
            invariant
                i <= len,
                buf@.len() == i,
                init == blank(highest),
                forall|p: int| 0 <= p < i ==> #[trigger] buf@[p] == init,
            decreases len - i,
        {
            buf.push(init);
            i = i + 1;
        }
        WindowExtreme {
            idx: 0,
            len,
            hit: 0,
            highest,
            buf,
            history: Ghost(Seq::empty()),
            hit_at: Ghost(0),
        }
    }

    /// The extreme of the last `period()` values, once that many were fed.
    pub fn value(&self) -> (r: Option<i64>)
        requires
            self.wf(),
        ensures
            r is Some <==> self.history().len() >= self.period(),
            r matches Some(m) ==> is_extreme(self.history(), self.period() as int, m, self.highest()),
    {
        if self.idx >= self.len {
            Some(self.buf[self.hit])
        } else {
            None
        }
    }

    /// Scans a full window from its oldest to its newest entry for the
    /// extreme, keeping the newest of equal ones; starts from the newest.
    fn rescan(&mut self)
        requires
            old(self).slots_ok(),
            old(self).history@.len() >= old(self).len,
            old(self).hit as int == (old(self).history@.len() - 1) % (old(self).len as int),
        ensures
            final(self).wf(),
            final(self).history@ == old(self).history@,
            final(self).len == old(self).len,
            final(self).highest == old(self).highest,
    {
        let ghost h = self.history@;
        let ghost total = h.len() as int;
        let ghost n = self.len as int;
        let n_slots = self.len;
        let start = self.idx % n_slots;
        let mut hit = self.hit;
        let ghost mut hit_at: int = total - 1;
        proof {
            assert(self.buf@[hit as int] == h[hit_at]);
        }
        let mut i: usize = 0;
        while i < n_slots
            invariant
                self.slots_ok(),
                self.history@ == h,
                self.len == n_slots,
                n == n_slots,
                total == h.len(),
                total >= n,
                start == total % n,
                i <= n_slots,
                hit < n_slots,
                total - n <= hit_at < total,
                hit == hit_at % n,
                self.buf@[hit as int] == h[hit_at],
                at_least(self.buf@[hit as int], h[total - 1], self.highest),
                forall|k: int| total - n <= k < total - n + i ==> at_least(self.buf@[hit as int], #[trigger] h[k], self.highest),
            decreases n_slots - i,
        {
            let current = if i < n_slots - start {
                start + i
            } else {
                i - (n_slots - start)
            };
            proof {
                lemma_slot(total, n, i as int);
                assert(self.buf@[current as int] == h[total - n + i]);
            }
            let better = if self.highest {
                self.buf[current] >= self.buf[hit]
            } else {
                self.buf[current] <= self.buf[hit]
            };
            if better {
                hit = current;
                proof {
                    hit_at = total - n + i;
                }
            }
            i = i + 1;
        }
        self.hit = hit;
        self.hit_at = Ghost(hit_at);
        proof {
            assert(window_start(total, n) == total - n);
            assert(h[hit_at] == self.buf@[hit as int]);
        }
    }

    /// Feeds one value; once `period()` values have been fed, returns the
    /// extreme of the last `period()` of them.
    pub fn next(&mut self, key: i64) -> (r: Option<i64>)
        requires
            old(self).wf(),
            old(self).history().len() < usize::MAX,
        ensures
            final(self).wf(),
            final(self).period() == old(self).period(),
            final(self).highest() == old(self).highest(),
            final(self).history() == old(self).history().push(key),
            r is Some <==> final(self).history().len() >= final(self).period(),
            r matches Some(m) ==> is_extreme(final(self).history(), final(self).period() as int, m, final(self).highest()),
    {
        let ghost h = self.history@;
        let ghost total = h.len() as int;
        let ghost n = self.len as int;
        let ghost h2 = h.push(key);
        let ghost old_buf = self.buf@;
        let ghost old_hit_at = self.hit_at@;
        let pos = self.idx % self.len;
        let current = self.buf[self.hit];
        let take = if self.highest {
            key >= current
        } else {
            key <= current
        };
        proof {
            if total >= n {
                assert((total - n) % n == pos) by {
                    lemma_mod_sub_multiples_vanish(total, n);
                }
            } else {
                lemma_small_mod(total as nat, n as nat);
            }
            if total == 0 {
                assert(old_buf[0] == blank(self.highest));
                assert(take);
            }
        }
        self.buf.set(pos, key);
        self.idx = self.idx + 1;
        self.history = Ghost(h2);
        proof {
            assert forall|j: int| window_start(h2.len() as int, n) <= j < h2.len() implies self.buf@[#[trigger] (j % n)] == h2[j] by {
                if j < total {
                    lemma_mod_distinct(j, total, n);
                    lemma_fundamental_div_mod(total, n);
                }
            }
            assert forall|p: int| self.idx <= p < n implies #[trigger] self.buf@[p] == blank(self.highest) by {
                assert(p != pos);
            }
            assert(self.slots_ok());
        }
        if take {
            self.hit = pos;
            self.hit_at = Ghost(total);
            proof {
                assert(h2[total] == key);
                assert forall|j: int| window_start(h2.len() as int, n) <= j < h2.len() implies at_least(key, #[trigger] h2[j], self.highest) by {
                    if j < total {
                        assert(h[j] == h2[j]);
                        assert(at_least(current, h[j], self.highest));
                    }
                }
            }
        } else if self.hit == pos {
            proof {
                if total < n {
                    assert(old_hit_at < total);
                    lemma_small_mod(old_hit_at as nat, n as nat);
                }
                assert(total >= n);
                lemma_fundamental_div_mod(total, n);
            }
            self.rescan();
        } else {
            proof {
                if total >= n && old_hit_at == total - n {
                    assert(false);
                }
                assert(self.buf@[self.hit as int] == current);
                assert(h2[old_hit_at] == current);
                assert forall|j: int| window_start(h2.len() as int, n) <= j < h2.len() implies at_least(current, #[trigger] h2[j], self.highest) by {
                    if j < total {
                        assert(h[j] == h2[j]);
                    }
                }
            }
        }
        self.value()
    }
}

} // verus!
