//! A recursive moving average over a ring of recent values, with optional
//! rescaling by a fixed or an adaptive range.
//!
//! Values are unsigned fixed-point numbers with sixteen fractional bits:
//! `ONE` stands for 1.0.

use vstd::prelude::*;

verus! {

/// The fixed-point unit: 1.0.
pub const ONE: u64 = 65536;

/// How many recent values the average runs over.
pub const SMOOTHING_SIZE: usize = 12;

/// The largest value that can be written: 2^40, that is 2^24 in units of `ONE`.
pub const VALUE_MAX: u64 = 1099511627776;

/// The sum of a sequence of values.
pub open spec fn sum(s: Seq<u64>) -> int
    decreases s.len(),
{
    if s.len() == 0 {
        0
    } else {
        sum(s.drop_last()) + s.last()
    }
}

proof fn lemma_sum_update(s: Seq<u64>, i: int, v: u64)
    requires
        0 <= i < s.len(),
    ensures
        sum(s.update(i, v)) == sum(s) - s[i] + v,
    decreases s.len(),
{
    if i < s.len() - 1 {
        lemma_sum_update(s.drop_last(), i, v);
        assert(s.update(i, v).drop_last() =~= s.drop_last().update(i, v));
    } else {
        assert(s.update(i, v).drop_last() =~= s.drop_last());
    }
}

proof fn lemma_sum_bounded(s: Seq<u64>, b: int)
    requires
        forall|i: int| 0 <= i < s.len() ==> s[i] <= b,
    ensures
        0 <= sum(s) <= s.len() * b,
    decreases s.len(),
{
    if s.len() > 0 {
        lemma_sum_bounded(s.drop_last(), b);
        assert(sum(s) <= s.len() * b) by (nonlinear_arith)
            requires
                sum(s) == sum(s.drop_last()) + s.last(),
                sum(s.drop_last()) <= (s.len() - 1) * b,
                s.last() <= b,
        ;
    }
}

proof fn lemma_sum_constant(s: Seq<u64>, v: u64)
    requires
        forall|i: int| 0 <= i < s.len() ==> s[i] == v,
    ensures
        sum(s) == s.len() * v,
    decreases s.len(),
{
    if s.len() > 0 {
        lemma_sum_constant(s.drop_last(), v);
        assert(s.len() * v == (s.len() - 1) * v + v) by (nonlinear_arith);
    }
}

/// The larger of `a` and `b`.
pub open spec fn max_of(a: int, b: int) -> int {
    if a >= b { a } else { b }
}

/// The smaller of `a` and `b`.
pub open spec fn min_of(a: int, b: int) -> int {
    if a <= b { a } else { b }
}

/// What writing `value` puts in the history, before the division by
/// `SMOOTHING_SIZE`, given the ranges already widened to hold `value`: in
/// normalized mode the value over the lifetime maximum; in adaptive mode its
/// place in the adaptive range; otherwise the value itself. A range that is
/// empty or zero leaves the value as it is.
pub open spec fn scaled_value(normalized: bool, adaptive: bool, value: int, max: int, amin: int, amax: int) -> int {
    if normalized && max > 0 {
        value * ONE / max
    } else if adaptive && amax > 0 && amax > amin {
        (value - amin) * ONE / (amax - amin)
    } else {
        value
    }
}

/// A smoothed scalar: the average of the `SMOOTHING_SIZE` most recent values
/// written, each stored already divided by `SMOOTHING_SIZE`.
#[derive(Clone, Copy)]
pub struct SmoothedValue {
    pub buffer: [u64; 12],
    pub head: usize,
    pub adaptive_min: u64,
    pub adaptive_max: u64,
    pub min: u64,
    pub max: u64,
    pub adaptive: bool,
    pub normalized: bool,
    pub smoothed_val: u64,
}

impl SmoothedValue {
    /// The sum is the sum of the history, and every quantity is small enough
    /// that a write cannot overflow.
    pub open spec fn wf(&self) -> bool {
        &&& self.head < SMOOTHING_SIZE
        &&& self.smoothed_val == sum(self.buffer@)
        &&& forall|i: int| 0 <= i < SMOOTHING_SIZE ==> #[trigger] self.buffer@[i] <= (VALUE_MAX / SMOOTHING_SIZE as u64)
        &&& self.min <= VALUE_MAX
        &&& self.max <= VALUE_MAX
        &&& self.adaptive_max <= VALUE_MAX
        &&& self.adaptive_min <= 2 * VALUE_MAX
    }

    /// Where the next write goes in the history.
    pub open spec fn next_head(self) -> int {
        (self.head + 1) % (SMOOTHING_SIZE as int)
    }

    /// The state after writing `value`: the lifetime and adaptive ranges
    /// widened to hold it; the scaled value, divided by `SMOOTHING_SIZE`,
    /// replaces the oldest entry of the history and the sum follows; then the
    /// adaptive maximum shrinks by 5% and the adaptive minimum grows by 5%,
    /// neither past 1% of the lifetime maximum and 199% of the lifetime
    /// minimum respectively.
    pub open spec fn written(self, new: SmoothedValue, value: u64) -> bool {
        let max = max_of(self.max as int, value as int);
        let min = min_of(self.min as int, value as int);
        let amax = max_of(self.adaptive_max as int, value as int);
        let amin = min_of(self.adaptive_min as int, value as int);
        let entry = scaled_value(self.normalized, self.adaptive, value as int, max, amin, amax) / SMOOTHING_SIZE as int;
        &&& new.max == max
        &&& new.min == min
        &&& new.head == self.next_head()
        &&& new.buffer@ == self.buffer@.update(self.next_head(), entry as u64)
        &&& new.smoothed_val == self.smoothed_val - self.buffer@[self.next_head()] + entry
        &&& new.adaptive_max == max_of(amax * 95 / 100, max / 100)
        &&& new.adaptive_min == min_of(amin * 105 / 100, min * 199 / 100)
        &&& new.adaptive == self.adaptive
        &&& new.normalized == self.normalized
    }

    /// A value whose whole history is `starter_value` (as far as the division
    /// by `SMOOTHING_SIZE` keeps it), so that it starts settled.
    pub fn new(starter_value: u64, adaptive: bool, normalized: bool) -> (r: SmoothedValue)
        requires
            starter_value <= VALUE_MAX,
        ensures
            r.wf(),
            r.buffer@ == Seq::new(SMOOTHING_SIZE as nat, |i: int| (starter_value / SMOOTHING_SIZE as u64)),
            r.smoothed_val == SMOOTHING_SIZE * (starter_value / SMOOTHING_SIZE as u64),
            r.head == 0,
            r.min == starter_value,
            r.max == starter_value,
            r.adaptive_min == starter_value,
            r.adaptive_max == starter_value,
            r.adaptive == adaptive,
            r.normalized == normalized,
    {
        let entry = starter_value / SMOOTHING_SIZE as u64;
        let r = SmoothedValue {
            buffer: [entry; 12],
            head: 0,
            adaptive_min: starter_value,
            adaptive_max: starter_value,
            min: starter_value,
            max: starter_value,
            adaptive,
            normalized,
            smoothed_val: entry * SMOOTHING_SIZE as u64,
        };
        proof {
            assert(r.buffer@ =~= Seq::new(SMOOTHING_SIZE as nat, |i: int| entry));
            lemma_sum_constant(r.buffer@, entry);
        }
        r
    }

    /// Writes one value.
    pub fn write(&mut self, value: u64)
        requires
            old(self).wf(),
            value <= VALUE_MAX,
        ensures
            final(self).wf(),
            old(self).written(*final(self), value),
    {
        let max = if value > self.max { value } else { self.max };
        let min = if value < self.min { value } else { self.min };
        let amax = if value > self.adaptive_max { value } else { self.adaptive_max };
        let amin = if value < self.adaptive_min { value } else { self.adaptive_min };
        let scaled = scale(self.normalized, self.adaptive, value, max, amin, amax);
        let entry = scaled / SMOOTHING_SIZE as u64;
        let h = (self.head + 1) % SMOOTHING_SIZE;
        let outgoing = self.buffer[h];
        proof {
            lemma_sum_update(self.buffer@, h as int, entry);
        }
        self.buffer[h] = entry;
        proof {
            lemma_sum_bounded(self.buffer@, (VALUE_MAX / SMOOTHING_SIZE as u64) as int);
        }
        self.smoothed_val = self.smoothed_val + entry - outgoing;
        self.head = h;
        self.max = max;
        self.min = min;
        self.adaptive_max = decay_max(amax, max);
        self.adaptive_min = decay_min(amin, min);
    }
}

/// `SmoothedValue::scaled`, computed.
fn scale(normalized: bool, adaptive: bool, value: u64, max: u64, amin: u64, amax: u64) -> (r: u64)
    requires
        value <= max <= VALUE_MAX,
        amin <= value <= amax,
    ensures
        r <= VALUE_MAX,
        r == scaled_value(normalized, adaptive, value as int, max as int, amin as int, amax as int),
{
    if normalized && max > 0 {
        assert(value * ONE / max as int <= ONE as int) by (nonlinear_arith)
            requires
                value <= max,
                max > 0,
        ;
        value * ONE / max
    } else if adaptive && amax > 0 && amax > amin {
        assert((value - amin) * ONE / (amax - amin) as int <= ONE as int) by (nonlinear_arith)
            requires
                amin <= value <= amax,
                amax > amin,
        ;
        (value - amin) * ONE / (amax - amin)
    } else {
        value
    }
}

/// The adaptive maximum shrunk by 5%, but not below 1% of the lifetime maximum.
fn decay_max(amax: u64, max: u64) -> (r: u64)
    requires
        amax <= VALUE_MAX,
        max <= VALUE_MAX,
    ensures
        r == max_of(amax * 95 / 100, max as int / 100),
        r <= VALUE_MAX,
{
    let shrunk = amax * 95 / 100;
    let floor = max / 100;
    if shrunk >= floor { shrunk } else { floor }
}

/// The adaptive minimum grown by 5%, but not above 199% of the lifetime minimum.
fn decay_min(amin: u64, min: u64) -> (r: u64)
    requires
        amin <= 2 * VALUE_MAX,
        min <= VALUE_MAX,
    ensures
        r == min_of(amin * 105 / 100, min * 199 / 100),
        r <= 2 * VALUE_MAX,
{
    let grown = amin * 105 / 100;
    let ceiling = min * 199 / 100;
    if grown <= ceiling { grown } else { ceiling }
}

/// How many writes ago, counting the next one as zero, history slot `j` is
/// overwritten when the write after the one at `head` goes to `head + 1`.
pub open spec fn ring_distance(head: int, j: int) -> int {
    (j - head - 1 + SMOOTHING_SIZE as int) % (SMOOTHING_SIZE as int)
}

proof fn lemma_ring_step(h0: int, k: int, j: int)
    requires
        0 <= h0 < SMOOTHING_SIZE,
        1 <= k <= SMOOTHING_SIZE,
        0 <= j < SMOOTHING_SIZE,
    ensures
        (((h0 + k - 1) % (SMOOTHING_SIZE as int)) + 1) % (SMOOTHING_SIZE as int) == (h0 + k) % (SMOOTHING_SIZE as int),
        (ring_distance(h0, j) < k) == (ring_distance(h0, j) < k - 1 || j == (h0 + k) % (SMOOTHING_SIZE as int)),
{
}

proof fn lemma_repeated_writes_prefix(states: Seq<SmoothedValue>, v: u64, k: int)
    requires
        states.len() == SMOOTHING_SIZE + 1,
        states[0].wf(),
        !states[0].adaptive,
        !states[0].normalized,
        v <= VALUE_MAX,
        forall|i: int| 0 <= i < SMOOTHING_SIZE ==> #[trigger] states[i].written(states[i + 1], v),
        0 <= k <= SMOOTHING_SIZE,
    ensures
        states[k].head == (states[0].head + k) % (SMOOTHING_SIZE as int),
        !states[k].adaptive,
        !states[k].normalized,
        states[k].smoothed_val == sum(states[k].buffer@),
        forall|j: int| 0 <= j < SMOOTHING_SIZE ==> #[trigger] states[k].buffer@[j] == if ring_distance(states[0].head as int, j) < k {
            (v / SMOOTHING_SIZE as u64)
        } else {
            states[0].buffer@[j]
        },
    decreases k,
{
    if k > 0 {
        lemma_repeated_writes_prefix(states, v, k - 1);
        let i = k - 1;
        let p = states[i];
        assert(p.written(states[i + 1], v));
        lemma_sum_update(p.buffer@, p.next_head(), (v / SMOOTHING_SIZE as u64));
        assert forall|j: int| 0 <= j < SMOOTHING_SIZE implies #[trigger] states[k].buffer@[j] == if ring_distance(states[0].head as int, j) < k {
            (v / SMOOTHING_SIZE as u64)
        } else {
            states[0].buffer@[j]
        } by {
            lemma_ring_step(states[0].head as int, k, j);
        }
        lemma_ring_step(states[0].head as int, k, 0);
    }
}

/// Writing the same value `SMOOTHING_SIZE` times in a row to a value that
/// neither normalizes nor adapts leaves it equal to that value, up to the
/// rounding of the division by `SMOOTHING_SIZE`: `states[i + 1]` is
/// `states[i]` after writing `v`.
pub proof fn lemma_repeated_write_settles(states: Seq<SmoothedValue>, v: u64)
    requires
        states.len() == SMOOTHING_SIZE + 1,
        states[0].wf(),
        !states[0].adaptive,
        !states[0].normalized,
        v <= VALUE_MAX,
        forall|i: int| 0 <= i < SMOOTHING_SIZE ==> #[trigger] states[i].written(states[i + 1], v),
    ensures
        states[SMOOTHING_SIZE as int].smoothed_val == SMOOTHING_SIZE * (v / SMOOTHING_SIZE as u64),
        v - SMOOTHING_SIZE < states[SMOOTHING_SIZE as int].smoothed_val <= v,
{
    let n = SMOOTHING_SIZE as int;
    lemma_repeated_writes_prefix(states, v, n);
    let last = states[n];
    assert forall|j: int| 0 <= j < last.buffer@.len() implies last.buffer@[j] == (v / SMOOTHING_SIZE as u64) by {
        assert(ring_distance(states[0].head as int, j) < n);
    }
    lemma_sum_constant(last.buffer@, (v / SMOOTHING_SIZE as u64));
}

} // verus!
