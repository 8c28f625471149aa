//! The per-window audio measures: loudness as a root mean square, noisiness
//! as a zero-crossing rate, the frequency of each spectral bin, and how the
//! bins fall into low, middle and high bands.
//!
//! Samples are signed fixed-point numbers with sixteen fractional bits, and
//! results are unsigned ones on the same scale (`ONE` stands for 1.0).

use vstd::prelude::*;
use crate::smoothed_value::ONE;

verus! {

/// Samples per window, and points of the spectral transform.
pub const FFT_SIZE: usize = 1024;

/// Spectral bins kept: the half of the transform that is not mirrored.
pub const NUM_BINS: usize = 512;

/// Sample rate in hertz.
pub const FS: u64 = 48000;

/// Width of one spectral bin in microhertz: `FS / FFT_SIZE` hertz.
pub const BIN_WIDTH_UHZ: u128 = 46875000;

/// Upper edge of the low band, in microhertz (130 Hz).
pub const LO_CUTOFF_UHZ: u128 = 130000000;

/// Upper edge of the middle band, in microhertz (1200 Hz).
pub const MID_CUTOFF_UHZ: u128 = 1200000000;

/// The floor of the square root of `n`.
pub open spec fn floor_sqrt(n: nat) -> nat
    decreases n,
{
    if n == 0 {
        0
    } else if (floor_sqrt((n - 1) as nat) + 1) * (floor_sqrt((n - 1) as nat) + 1) <= n {
        floor_sqrt((n - 1) as nat) + 1
    } else {
        floor_sqrt((n - 1) as nat)
    }
}

proof fn lemma_isqrt(n: nat)
    ensures
        floor_sqrt(n) * floor_sqrt(n) <= n,
        n < (floor_sqrt(n) + 1) * (floor_sqrt(n) + 1),
    decreases n,
{
    if n > 0 {
        lemma_isqrt((n - 1) as nat);
        let r = floor_sqrt((n - 1) as nat);
        let s = floor_sqrt(n);
        if (r + 1) * (r + 1) <= n {
            assert(s == r + 1);
            assert(n < (r + 2) * (r + 2)) by (nonlinear_arith)
                requires
                    n - 1 < (r + 1) * (r + 1),
                    r >= 0,
            ;
            assert((s + 1) * (s + 1) == (r + 2) * (r + 2));
        } else {
            assert(s == r);
        }
        assert(s * s <= n);
        assert(n < (s + 1) * (s + 1));
    } else {
        let s = floor_sqrt(n);
        assert(s == 0);
        assert(n < (s + 1) * (s + 1)) by (nonlinear_arith)
            requires
                s == 0,
                n == 0,
        ;
    }
}

proof fn lemma_isqrt_unique(n: nat, r: nat)
    requires
        r * r <= n < (r + 1) * (r + 1),
    ensures
        r == floor_sqrt(n),
{
    lemma_isqrt(n);
    let s = floor_sqrt(n);
    if r < s {
        assert((r + 1) * (r + 1) <= s * s) by (nonlinear_arith)
            requires
                r < s,
                r >= 0,
        ;
    } else if s < r {
        assert((s + 1) * (s + 1) <= r * r) by (nonlinear_arith)
            requires
                s < r,
                s >= 0,
        ;
    }
}

/// The floor of the square root of `n`.
pub fn integer_sqrt(n: u64) -> (r: u64)
    ensures
        r == floor_sqrt(n as nat),
{
    let mut lo: u64 = 0;
    let mut hi: u64 = 4294967296;
    assert(n < hi * hi);
    while hi - lo > 1
        invariant
            lo < hi <= 4294967296,
            lo * lo <= n,
            n < hi * hi,
        decreases hi - lo,
    {
        let mid = lo + (hi - lo) / 2;
        assert((mid as u128) * (mid as u128) <= 0x1_0000_0000 * 0x1_0000_0000) by (nonlinear_arith)
            requires
                mid <= 0x1_0000_0000,
        ;
        if (mid as u128) * (mid as u128) <= n as u128 {
            lo = mid;
        } else {
            hi = mid;
        }
    }
    proof {
        lemma_isqrt_unique(n as nat, lo as nat);
    }
    lo
}

/// The sum of the squares of the samples.
pub open spec fn sum_of_squares(s: Seq<i32>) -> int
    decreases s.len(),
{
    if s.len() == 0 {
        0
    } else {
        sum_of_squares(s.drop_last()) + s.last() * s.last()
    }
}

/// The root mean square of the samples: the floor of the square root of
/// the floor of the mean of their squares.
pub open spec fn rms_of(s: Seq<i32>) -> int {
    floor_sqrt((sum_of_squares(s) / s.len() as int) as nat) as int
}

proof fn lemma_sum_of_squares_bounds(s: Seq<i32>)
    ensures
        0 <= sum_of_squares(s) <= s.len() * 0x4000_0000_0000_0000,
    decreases s.len(),
{
    if s.len() > 0 {
        lemma_sum_of_squares_bounds(s.drop_last());
        let x = s.last();
        assert(0 <= x * x <= 0x4000_0000_0000_0000) by (nonlinear_arith)
            requires
                -0x8000_0000 <= x < 0x8000_0000,
        ;
    }
}

/// Loudness of a window: the root mean square of its samples.
pub fn root_mean_square(samples: &[i32]) -> (r: u64)
    requires
        0 < samples@.len(),
    ensures
        r == rms_of(samples@),
        r <= 0x8000_0000,
{
    let mut total: u128 = 0;
    let mut i: usize = 0;
    let n = samples.len();
    while i < n
        invariant
            n == samples@.len(),
            i <= n,
            total == sum_of_squares(samples@.subrange(0, i as int)),
        decreases n - i,
    {
        let x = samples[i];
        proof {
            let sub = samples@.subrange(0, i as int + 1);
            assert(sub.drop_last() =~= samples@.subrange(0, i as int));
            lemma_sum_of_squares_bounds(sub);
            assert((i + 1) * 0x4000_0000_0000_0000 <= 0x1_0000_0000_0000_0000 * 0x4000_0000_0000_0000)
                by (nonlinear_arith)
                requires
                    i < n <= usize::MAX,
            ;
            assert(0 <= x * x <= 0x4000_0000_0000_0000) by (nonlinear_arith)
                requires
                    -0x8000_0000 <= x < 0x8000_0000,
            ;
        }
        let sq = x as i64 * x as i64;
        total = total + sq as u128;
        i = i + 1;
    }
    assert(samples@.subrange(0, samples@.len() as int) =~= samples@);
    proof {
        lemma_sum_of_squares_bounds(samples@);
    }
    let mean = total / samples.len() as u128;
    proof {
        let len = samples@.len() as int;
        vstd::arithmetic::div_mod::lemma_div_is_ordered(total as int, len * 0x4000_0000_0000_0000, len);
        vstd::arithmetic::div_mod::lemma_div_multiples_vanish(0x4000_0000_0000_0000, len);
    }
    let r = integer_sqrt(mean as u64);
    proof {
        lemma_isqrt(mean as nat);
        if r > 0x8000_0000 {
            assert(r * r > 0x4000_0000_0000_0000) by (nonlinear_arith)
                requires
                    r > 0x8000_0000,
            ;
        }
    }
    r
}

/// Samples `a` and `b` lie strictly on opposite sides of zero.
pub open spec fn crosses(a: i32, b: i32) -> bool {
    (b > 0 && a < 0) || (b < 0 && a > 0)
}

/// How many neighbouring pairs of samples cross zero.
pub open spec fn zero_crossings(s: Seq<i32>) -> int
    decreases s.len(),
{
    if s.len() <= 1 {
        0
    } else {
        zero_crossings(s.drop_last()) + if crosses(s[s.len() - 2], s.last()) { 1int } else { 0 }
    }
}

/// The zero crossings per sample, in units of `ONE`.
pub open spec fn zcr_of(s: Seq<i32>) -> int {
    zero_crossings(s) * ONE / s.len() as int
}

proof fn lemma_zero_crossings_bound(s: Seq<i32>)
    ensures
        0 <= zero_crossings(s) <= s.len(),
    decreases s.len(),
{
    if s.len() > 1 {
        lemma_zero_crossings_bound(s.drop_last());
    }
}

/// Noisiness of a window: the share of neighbouring samples that cross zero.
pub fn zero_crossing_rate(samples: &[i32]) -> (r: u64)
    requires
        0 < samples@.len(),
    ensures
        r == zcr_of(samples@),
        r <= ONE,
{
    let mut count: usize = 0;
    let mut prev = samples[0];
    let mut i: usize = 1;
    let n = samples.len();
    assert(zero_crossings(samples@.subrange(0, 1)) == 0);
    while i < n
        invariant
            n == samples@.len(),
            1 <= i <= n,
            prev == samples@[i - 1],
            count == zero_crossings(samples@.subrange(0, i as int)),
            count <= i,
        decreases samples@.len() - i,
    {
        let sample = samples[i];
        proof {
            let sub = samples@.subrange(0, i as int + 1);
            assert(sub.drop_last() =~= samples@.subrange(0, i as int));
        }
        if (sample > 0 && prev < 0) || (sample < 0 && prev > 0) {
            count = count + 1;
        }
        prev = sample;
        i = i + 1;
    }
    assert(samples@.subrange(0, samples@.len() as int) =~= samples@);
    proof {
        lemma_zero_crossings_bound(samples@);
    }
    assert(count * ONE / samples@.len() as int <= ONE as int) by (nonlinear_arith)
        requires
            count <= samples@.len(),
            samples@.len() > 0,
    ;
    assert(count * ONE <= 0x1_0000_0000_0000_0000 * ONE) by (nonlinear_arith)
        requires
            count <= usize::MAX,
    ;
    (count as u128 * ONE as u128 / n as u128) as u64
}

/// A window that is silent has no loudness and no noisiness.
pub proof fn lemma_silent_window(s: Seq<i32>)
    requires
        s.len() > 0,
        forall|i: int| 0 <= i < s.len() ==> s[i] == 0,
    ensures
        rms_of(s) == 0,
        zcr_of(s) == 0,
{
    lemma_silent_sums(s);
    assert(floor_sqrt(0) == 0);
}

proof fn lemma_silent_sums(s: Seq<i32>)
    requires
        forall|i: int| 0 <= i < s.len() ==> s[i] == 0,
    ensures
        sum_of_squares(s) == 0,
        zero_crossings(s) == 0,
    decreases s.len(),
{
    if s.len() > 0 {
        lemma_silent_sums(s.drop_last());
    }
}

/// The frequency of the lower edge of bin `bin`, in microhertz.
pub open spec fn bin_freq(bin: int) -> int {
    bin * BIN_WIDTH_UHZ
}

/// The frequency of the lower edge of bin `bin_idx`, in microhertz.
pub fn bin_idx_to_freq(bin_idx: usize) -> (r: u128)
    ensures
        r == bin_freq(bin_idx as int),
{
    assert(bin_idx * BIN_WIDTH_UHZ <= 0xFFFF_FFFF_FFFF_FFFF * BIN_WIDTH_UHZ) by (nonlinear_arith)
        requires
            bin_idx <= 0xFFFF_FFFF_FFFF_FFFF,
    ;
    bin_idx as u128 * BIN_WIDTH_UHZ
}

/// The frequency of the center of bin `bin_idx`, in microhertz.
pub fn bin_idx_to_center_freq(bin_idx: usize) -> (r: u128)
    ensures
        r == bin_freq(bin_idx as int) + BIN_WIDTH_UHZ / 2,
{
    bin_idx_to_freq(bin_idx) + BIN_WIDTH_UHZ / 2
}

/// A bin is exactly `FS / FFT_SIZE` hertz wide; bin 0 starts at 0 Hz and each
/// later bin starts higher.
pub proof fn lemma_bin_freq_increasing(a: int, b: int)
    requires
        0 <= a < b,
    ensures
        BIN_WIDTH_UHZ * FFT_SIZE == FS * 1000000,
        bin_freq(0) == 0,
        bin_freq(a) < bin_freq(b),
{
    assert(a * BIN_WIDTH_UHZ < b * BIN_WIDTH_UHZ) by (nonlinear_arith)
        requires
            a < b,
    ;
}

/// The three frequency bands.
#[derive(Clone, Copy, Debug, PartialEq, Eq, Structural)]
pub enum Band {
    Low,
    Mid,
    High,
}

/// The band of bin `bin`, by the frequency of its lower edge: up to 130 Hz
/// low, up to 1200 Hz middle, above that high.
pub open spec fn band_of(bin: int) -> Band {
    if bin_freq(bin) <= LO_CUTOFF_UHZ {
        Band::Low
    } else if bin_freq(bin) <= MID_CUTOFF_UHZ {
        Band::Mid
    } else {
        Band::High
    }
}

pub fn band_of_bin(bin_idx: usize) -> (r: Band)
    ensures
        r == band_of(bin_idx as int),
{
    let f = bin_idx_to_freq(bin_idx);
    if f <= LO_CUTOFF_UHZ {
        Band::Low
    } else if f <= MID_CUTOFF_UHZ {
        Band::Mid
    } else {
        Band::High
    }
}

/// The largest of the first `k` magnitudes, and never less than `ONE`.
pub open spec fn peak_upto(m: Seq<u64>, k: int) -> int
    decreases k,
{
    if k <= 0 {
        ONE as int
    } else if m[k - 1] > peak_upto(m, k - 1) {
        m[k - 1] as int
    } else {
        peak_upto(m, k - 1)
    }
}

/// The first `NUM_BINS` magnitudes of a spectrum, each divided by the largest
/// of them, that largest taken as at least 1.0.
pub open spec fn normalized_spectrum(m: Seq<u64>) -> Seq<u64> {
    Seq::new(NUM_BINS as nat, |i: int| (m[i] * ONE / peak_upto(m, NUM_BINS as int)) as u64)
}

proof fn lemma_peak_bounds(m: Seq<u64>, k: int)
    requires
        0 <= k <= m.len(),
    ensures
        ONE <= peak_upto(m, k) <= u64::MAX,
        forall|i: int| 0 <= i < k ==> m[i] <= peak_upto(m, k),
    decreases k,
{
    if k > 0 {
        lemma_peak_bounds(m, k - 1);
    }
}

/// Keeps the half of a spectrum that is not mirrored and scales it so that no
/// magnitude exceeds 1.0, without amplifying a spectrum whose peak is below 1.0.
pub fn normalize_magnitudes(spectrum: &Vec<u64>) -> (r: Vec<u64>)
    requires
        spectrum@.len() == FFT_SIZE,
    ensures
        r@ == normalized_spectrum(spectrum@),
        forall|i: int| 0 <= i < NUM_BINS ==> #[trigger] r@[i] <= ONE,
{
    let mut max_mag: u64 = ONE;
    let mut i: usize = 0;
    while i < NUM_BINS
        invariant
            i <= NUM_BINS,
            spectrum@.len() == FFT_SIZE,
            max_mag == peak_upto(spectrum@, i as int),
        decreases NUM_BINS - i,
    {
        if spectrum[i] > max_mag {
            max_mag = spectrum[i];
        }
        i = i + 1;
    }
    proof {
        lemma_peak_bounds(spectrum@, NUM_BINS as int);
    }
    let mut r: Vec<u64> = Vec::new();
    let mut i: usize = 0;
    while i < NUM_BINS
        invariant
            i <= NUM_BINS,
            spectrum@.len() == FFT_SIZE,
            max_mag == peak_upto(spectrum@, NUM_BINS as int),
            ONE <= max_mag,
            forall|k: int| 0 <= k < NUM_BINS ==> spectrum@[k] <= max_mag,
            r@ == normalized_spectrum(spectrum@).subrange(0, i as int),
            forall|k: int| 0 <= k < i ==> #[trigger] r@[k] <= ONE,
        decreases NUM_BINS - i,
    {
        let m = spectrum[i];
        assert(m as int * ONE / max_mag as int <= ONE as int) by (nonlinear_arith)
            requires
                m <= max_mag,
                max_mag >= 1,
        ;
        let scaled = (m as u128 * ONE as u128 / max_mag as u128) as u64;
        r.push(scaled);
        i = i + 1;
        assert(r@ =~= normalized_spectrum(spectrum@).subrange(0, i as int));
    }
    assert(r@ =~= normalized_spectrum(spectrum@));
    r
}

/// Every normalized magnitude lies between 0 and 1.0: none exceeds the
/// window's own peak.
pub proof fn lemma_normalized_in_unit_range(m: Seq<u64>, i: int)
    requires
        m.len() == FFT_SIZE,
        0 <= i < NUM_BINS,
    ensures
        0 <= normalized_spectrum(m)[i] <= ONE,
{
    lemma_peak_bounds(m, NUM_BINS as int);
    let p = peak_upto(m, NUM_BINS as int);
    assert(m[i] * ONE / p <= ONE as int) by (nonlinear_arith)
        requires
            m[i] <= p,
            p >= 1,
    ;
}

/// The floor of the base-2 logarithm of `p`, and 0 for 0.
pub open spec fn log2_floor(p: nat) -> nat
    decreases p,
{
    if p <= 1 {
        0
    } else {
        1 + log2_floor(p / 2)
    }
}

proof fn lemma_log2_floor_below(p: nat, k: nat)
    requires
        k >= 1,
        p < vstd::arithmetic::power2::pow2(k),
    ensures
        log2_floor(p) < k,
    decreases k,
{
    if p > 1 {
        vstd::arithmetic::power2::lemma_pow2_unfold(k);
        if k == 1 {
            vstd::arithmetic::power2::lemma2_to64();
        } else {
            lemma_log2_floor_below(p / 2, (k - 1) as nat);
        }
    }
}

/// `n` to the eighth power.
pub open spec fn eighth_power(n: int) -> int {
    (n * n) * (n * n) * ((n * n) * (n * n))
}

/// The base-2 logarithm of `n` in eighths, rounded down: the floor of the
/// logarithm of `n` to the eighth power.
pub fn log2_eighths(n: u64) -> (r: u64)
    requires
        n <= 65535,
    ensures
        r == log2_floor(eighth_power(n as int) as nat),
        r < 128,
{
    assert(n * n <= 65535 * 65535) by (nonlinear_arith)
        requires
            n <= 65535,
    ;
    let sq = n as u128 * n as u128;
    assert(sq * sq <= (65535 * 65535) * (65535 * 65535)) by (nonlinear_arith)
        requires
            sq <= 65535 * 65535,
    ;
    let q4 = sq * sq;
    assert(q4 * q4 <= ((65535 * 65535) * (65535 * 65535)) * ((65535 * 65535) * (65535 * 65535))) by (nonlinear_arith)
        requires
            q4 <= (65535 * 65535) * (65535 * 65535),
    ;
    let p = q4 * q4;
    proof {
        vstd::arithmetic::power2::lemma2_to64();
        vstd::arithmetic::power2::lemma_pow2_adds(64, 64);
        lemma_log2_floor_below(p as nat, 128);
    }
    let mut q = p;
    let mut r: u64 = 0;
    while q > 1
        invariant
            r + log2_floor(q as nat) == log2_floor(p as nat),
            log2_floor(p as nat) < 128,
        decreases q,
    {
        q = q / 2;
        r = r + 1;
    }
    r
}

/// Sum of the magnitudes of the first `k` bins that fall in band `b`.
pub open spec fn band_sum_upto(m: Seq<u64>, b: Band, k: int) -> int
    decreases k,
{
    if k <= 0 {
        0
    } else if band_of(k - 1) == b {
        band_sum_upto(m, b, k - 1) + m[k - 1]
    } else {
        band_sum_upto(m, b, k - 1)
    }
}

/// How many of the first `k` bins fall in band `b`.
pub open spec fn band_hits_upto(b: Band, k: int) -> int
    decreases k,
{
    if k <= 0 {
        0
    } else if band_of(k - 1) == b {
        band_hits_upto(b, k - 1) + 1
    } else {
        band_hits_upto(b, k - 1)
    }
}

/// What a band sum is divided by: the base-2 logarithm of the band's hit
/// count, in units of `ONE` and to an eighth, and never less than 1.0.
pub open spec fn band_divisor(hits: int) -> int {
    let l = log2_floor(eighth_power(hits) as nat) * (ONE / 8) as int;
    if l < ONE { ONE as int } else { l }
}

/// The energy of band `b` in normalized magnitudes `m`.
pub open spec fn band_energy(m: Seq<u64>, b: Band) -> int {
    band_sum_upto(m, b, NUM_BINS as int) * ONE / band_divisor(band_hits_upto(b, NUM_BINS as int))
}

} // verus!
