//! Settings: the palette, how long each animation runs, and which
//! animations run in which order.

use vstd::prelude::*;
use crate::colors::Color;

verus! {

/// The typed settings of the display.
pub struct Config {
    pub color_1: Color,
    pub color_2: Color,
    pub color_3: Color,
    pub bg_color: Color,
    pub bg_alt_color: Color,
    /// Seconds each animation runs before the next one.
    pub animation_length: i64,
    /// Names of the animations, in the order in which they run.
    pub animations: Vec<String>,
}

/// How many `j < m` satisfy `p`.
pub open spec fn count_where(p: spec_fn(int) -> bool, m: int) -> int
    decreases m,
{
    if m <= 0 {
        0
    } else if p(m - 1) {
        count_where(p, m - 1) + 1
    } else {
        count_where(p, m - 1)
    }
}

proof fn lemma_count_bounds(p: spec_fn(int) -> bool, m: int)
    requires
        m >= 0,
    ensures
        0 <= count_where(p, m) <= m,
    decreases m,
{
    if m > 0 {
        lemma_count_bounds(p, m - 1);
    }
}

/// Counting a property that implies another, and fails at some `j0` where the
/// other holds, counts strictly fewer.
proof fn lemma_count_strictly_less(p: spec_fn(int) -> bool, q: spec_fn(int) -> bool, m: int, j0: int)
    requires
        0 <= j0 < m,
        forall|j: int| 0 <= j < m && #[trigger] p(j) ==> q(j),
        q(j0),
        !p(j0),
    ensures
        count_where(p, m) < count_where(q, m),
    decreases m,
{
    if m - 1 > j0 {
        lemma_count_strictly_less(p, q, m - 1, j0);
    } else {
        lemma_count_at_most(p, q, m - 1);
    }
}

proof fn lemma_count_at_most(p: spec_fn(int) -> bool, q: spec_fn(int) -> bool, m: int)
    requires
        forall|j: int| 0 <= j < m && #[trigger] p(j) ==> q(j),
    ensures
        count_where(p, m) <= count_where(q, m),
    decreases m,
{
    if m > 0 {
        lemma_count_at_most(p, q, m - 1);
    }
}

/// Entry `j` runs before entry `k`: it is enabled (a positive priority), and
/// has a lower priority, or the same priority and comes first.
pub open spec fn runs_before(es: Seq<(String, i32)>, j: int, k: int) -> bool {
    es[j].1 > 0 && (es[j].1 < es[k].1 || (es[j].1 == es[k].1 && j < k))
}

/// The entries that run before entry `k`.
pub open spec fn before_entry(es: Seq<(String, i32)>, k: int) -> spec_fn(int) -> bool {
    |j: int| runs_before(es, j, k)
}

/// The entries that are enabled.
pub open spec fn enabled(es: Seq<(String, i32)>) -> spec_fn(int) -> bool {
    |j: int| es[j].1 > 0
}

/// How many entries are enabled.
pub open spec fn enabled_count(es: Seq<(String, i32)>) -> int {
    count_where(enabled(es), es.len() as int)
}

/// The place of entry `k` in the running order.
pub open spec fn run_position(es: Seq<(String, i32)>, k: int) -> int {
    count_where(before_entry(es, k), es.len() as int)
}

proof fn lemma_run_position(es: Seq<(String, i32)>, k: int)
    requires
        0 <= k < es.len(),
        es[k].1 > 0,
    ensures
        0 <= run_position(es, k) < enabled_count(es),
{
    let n = es.len() as int;
    lemma_count_bounds(before_entry(es, k), n);
    lemma_count_strictly_less(before_entry(es, k), enabled(es), n, k);
}

proof fn lemma_run_positions_distinct(es: Seq<(String, i32)>, k1: int, k2: int)
    requires
        0 <= k1 < es.len(),
        0 <= k2 < es.len(),
        es[k1].1 > 0,
        es[k2].1 > 0,
        k1 != k2,
    ensures
        run_position(es, k1) != run_position(es, k2),
{
    let n = es.len() as int;
    if runs_before(es, k1, k2) {
        lemma_count_strictly_less(before_entry(es, k1), before_entry(es, k2), n, k1);
    } else {
        lemma_count_strictly_less(before_entry(es, k2), before_entry(es, k1), n, k2);
    }
}

/// The names of the enabled animations (positive priority), lowest priority
/// first, entries of equal priority in the order given.
pub fn ordered_animations(entries: &Vec<(String, i32)>) -> (r: Vec<String>)
    ensures
        r@.len() == enabled_count(entries@),
        forall|k: int| 0 <= k < entries@.len() && entries@[k].1 > 0 ==> (#[trigger] r@[run_position(entries@, k)])@ == entries@[k].0@,
{
    let ghost es = entries@;
    let n = entries.len();
    let mut count: usize = 0;
    let mut i: usize = 0;
    while i < n
        invariant
            i <= n == es.len(),
            entries@ == es,
            count == count_where(enabled(es), i as int),
            count <= i,
        decreases n - i,
    {
        if entries[i].1 > 0 {
            count = count + 1;
        }
        i = i + 1;
    }
    let mut r: Vec<String> = Vec::new();
    while r.len() < count
        invariant
            r@.len() <= count,
        decreases count - r@.len(),
    {
        r.push(String::new());
    }
    let mut k: usize = 0;
    while k < n
        invariant
            k <= n == es.len(),
            entries@ == es,
            r@.len() == count == enabled_count(es),
            forall|k1: int| 0 <= k1 < k && es[k1].1 > 0 ==> (#[trigger] r@[run_position(es, k1)])@ == es[k1].0@,
        decreases n - k,
    {
        if entries[k].1 > 0 {
            let mut pos: usize = 0;
            let mut j: usize = 0;
            while j < n
                invariant
                    j <= n == es.len(),
                    entries@ == es,
                    0 <= k < n,
                    pos == count_where(before_entry(es, k as int), j as int),
                    pos <= j,
                decreases n - j,
            {
                let pj = entries[j].1;
                let pk = entries[k].1;
                if pj > 0 && (pj < pk || (pj == pk && j < k)) {
                    pos = pos + 1;
                }
                j = j + 1;
            }
            proof {
                lemma_run_position(es, k as int);
            }
            assert(pos == run_position(es, k as int));
            let name = entries[k].0.clone();
            let ghost prev = r@;
            r.set(pos, name);
            proof {
                assert forall|k1: int| 0 <= k1 < k + 1 && es[k1].1 > 0 implies (#[trigger] r@[run_position(es, k1)])@ == es[k1].0@ by {
                    if k1 < k {
                        lemma_run_positions_distinct(es, k1, k as int);
                        lemma_run_position(es, k1);
                        assert(r@[run_position(es, k1)] == prev[run_position(es, k1)]);
                    }
                }
            }
        }
        k = k + 1;
    }
    r
}

} // verus!
