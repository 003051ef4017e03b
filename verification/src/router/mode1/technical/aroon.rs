//! Aroon up and down lines.
use vstd::prelude::*;

use crate::args::UntArg;
use crate::window::{at_least, lemma_mod_distinct};
use vstd::arithmetic::div_mod::{lemma_fundamental_div_mod, lemma_small_mod};

verus! {

/// Aroon line.
#[derive(Clone, Copy, Debug, PartialEq, Eq, Structural)]
pub enum AroonBand {
    /// Up line, from the position of the window high.
    Upper,
    /// Down line, from the position of the window low.
    Lower,
}

impl AroonBand {
    /// Display name of the variant.
    pub fn label(self) -> (r: &'static str)
        ensures
            r@ == match self {
            Self::Upper => "上轨"@,
            Self::Lower => "下轨"@,
            },
    {
        match self {
            Self::Upper => "上轨",
            Self::Lower => "下轨",
        }
    }
}

/// Parameters of the Aroon factor.
#[derive(Debug)]
pub struct Core {
    /// Window length in trading days.
    pub period: UntArg,
    /// Which variant of the factor.
    pub band: AroonBand,
}

impl Core {
    pub fn new(period: usize, band: AroonBand) -> (r: Core)
        ensures
            r.period.name@ == "Aroon 周期"@,
            r.period.value == period,
            r.band == band,
    {
        Core { period: UntArg::new("Aroon 周期", period), band }
    }
}

/// Entry of `s` that lies `age` entries before its newest one.
pub open spec fn back(s: Seq<i64>, age: int) -> i64 {
    s[s.len() - 1 - age]
}

/// `age` is how many entries before the newest of `s` the oldest occurrence
/// of the highest (the lowest when `highest` is false) of the last `n`
/// entries stands.
pub open spec fn is_extreme_age(s: Seq<i64>, n: int, age: int, highest: bool) -> bool {
    &&& 0 <= age < n
    &&& forall|k: int| 0 <= k < n ==> at_least(back(s, age), #[trigger] back(s, k), highest)
    &&& forall|k: int| age < k < n ==> !at_least(#[trigger] back(s, k), back(s, age), highest)
}

/// The highs of a series of (high, low) pairs.
pub open spec fn highs(s: Seq<(i64, i64)>) -> Seq<i64> {
    s.map_values(|p: (i64, i64)| p.0)
}

/// The lows of a series of (high, low) pairs.
pub open spec fn lows(s: Seq<(i64, i64)>) -> Seq<i64> {
    s.map_values(|p: (i64, i64)| p.1)
}

/// The last `len` days of highs and lows, in a ring buffer, from which the
/// distance in days to the window high and to the window low is read.
pub struct AroonWindow {
    idx: usize,
    len: usize,
    buf: Vec<(i64, i64)>,
    history: Ghost<Seq<(i64, i64)>>,
}

impl AroonWindow {
    /// The slots hold the days of the current window.
    pub closed spec fn wf(self) -> bool {
        let h = self.history@;
        let n = self.len as int;
        &&& self.len >= 2
        &&& self.buf@.len() == n
        &&& self.idx == h.len()
        &&& forall|j: int| 0 <= j < h.len() && j >= h.len() - n ==> self.buf@[#[trigger] (j % n)] == h[j]
    }

    /// The (high, low) keys fed so far, oldest first.
    pub closed spec fn history(self) -> Seq<(i64, i64)> {
        self.history@
    }

    /// Window length in trading days.
    pub closed spec fn period(self) -> nat {
        self.len as nat
    }

    /// A window of `len` days (`len >= 2`).
    pub fn new(len: usize) -> (r: AroonWindow)
        requires
            len >= 2,
        ensures
            r.wf(),
            r.period() == len,
            r.history() == Seq::<(i64, i64)>::empty(),
    {
        let mut buf: Vec<(i64, i64)> = Vec::new();
        let mut i: usize = 0;
        while i < len
            invariant
                i <= len,
                buf@.len() == i,
            decreases len - i,
        {
            buf.push((0, 0));
            i = i + 1;
        }
        AroonWindow { idx: 0, len, buf, history: Ghost(Seq::empty()) }
    }

    /// Window length in trading days.
    pub fn len(&self) -> (r: usize)
        ensures
            r == self.period(),
    {
        self.len
    }

    /// Feeds one day's high and low keys; once `period()` days have been fed,
    /// returns how many days back from this one the window's highest high
    /// and lowest low stand (the oldest of equal ones).
    pub fn next(&mut self, high: i64, low: i64) -> (r: Option<(usize, usize)>)
        requires
            old(self).wf(),
            old(self).history().len() < usize::MAX,
        ensures
            final(self).wf(),
            final(self).period() == old(self).period(),
            final(self).history() == old(self).history().push((high, low)),
            r is Some <==> final(self).history().len() >= final(self).period(),
            r matches Some((up, down)) ==> {
                &&& is_extreme_age(highs(final(self).history()), final(self).period() as int, up as int, true)
                &&& is_extreme_age(lows(final(self).history()), final(self).period() as int, down as int, false)
            },
    {
        let ghost h = self.history@;
        let ghost total = h.len() as int;
        let ghost n = self.len as int;
        let ghost h2 = h.push((high, low));
        let pos = self.idx % self.len;
        proof {
            if total < n {
                lemma_small_mod(total as nat, n as nat);
            }
        }
        self.buf.set(pos, (high, low));
        self.idx = self.idx + 1;
        self.history = Ghost(h2);
        proof {
            assert forall|j: int| 0 <= j < h2.len() && j >= h2.len() - n implies self.buf@[#[trigger] (j % n)] == h2[j] by {
                if j < total {
                    lemma_mod_distinct(j, total, n);
                    lemma_fundamental_div_mod(total, n);
                }
            }
        }
        if self.idx < self.len {
            return None;
        }
        let ghost hs = highs(h2);
        let ghost ls = lows(h2);
        let mut hi_days: usize = 0;
        let mut lo_days: usize = 0;
        let mut hi: i64 = i64::MIN;
        let mut lo: i64 = i64::MAX;
        let mut b: usize = 0;
        while b < self.len
            invariant
                self.wf(),
                self.history@ == h2,
                n == self.len,
                h2.len() >= n,
                self.idx == h2.len(),
                hs == highs(h2),
                ls == lows(h2),
                b <= n,
                b == 0 ==> hi == i64::MIN && lo == i64::MAX && hi_days == 0 && lo_days == 0,
                b > 0 ==> hi_days < b && lo_days < b && hi == back(hs, hi_days as int) && lo == back(ls, lo_days as int),
                forall|k: int| 0 <= k < b ==> at_least(hi, #[trigger] back(hs, k), true),
                forall|k: int| 0 <= k < b ==> at_least(lo, #[trigger] back(ls, k), false),
                forall|k: int| hi_days < k < b ==> !at_least(#[trigger] back(hs, k), hi, true),
                forall|k: int| lo_days < k < b ==> !at_least(#[trigger] back(ls, k), lo, false),
            decreases self.len - b,
        {
            let index = (self.idx - 1 - b) % self.len;
            let (h, l) = self.buf[index];
            proof {
                let j = h2.len() - 1 - b;
                assert(self.buf@[j % n] == h2[j]);
                assert(back(hs, b as int) == hs[j]);
                assert(h == back(hs, b as int));
                assert(l == back(ls, b as int));
            }
            if h >= hi {
                hi = h;
                hi_days = b;
            }
            if l <= lo {
                lo = l;
                lo_days = b;
            }
            b = b + 1;
        }
        Some((hi_days, lo_days))
    }
}

} // verus!
