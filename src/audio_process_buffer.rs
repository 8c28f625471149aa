//! Accumulates samples into a fixed window and, once per full window, turns
//! it into a set of smoothed features.

use vstd::prelude::*;
use crate::features::{
    band_energy, band_hits_upto, band_of_bin, band_sum_upto, band_divisor, log2_eighths,
    normalize_magnitudes, normalized_spectrum, rms_of, root_mean_square, zcr_of,
    zero_crossing_rate, Band, FFT_SIZE, NUM_BINS,
};
use crate::smoothed_value::{SmoothedValue, ONE, VALUE_MAX};

verus! {

/// Samples per window.
pub const BUFFER_SIZE: usize = 1024;

/// One time-slice of audio character, every measure smoothed.
#[derive(Clone, Copy)]
pub struct AudioFeatures {
    /// Loudness, rescaled into its adaptive range.
    pub root_mean_squared: SmoothedValue,
    /// Noisiness.
    pub zero_crossing_rate: SmoothedValue,
    /// The normalized magnitude of each spectral bin.
    pub fft_bins: [SmoothedValue; 512],
    /// Energy of the low band.
    pub lo: SmoothedValue,
    /// Energy of the middle band.
    pub mi: SmoothedValue,
    /// Energy of the high band.
    pub hi: SmoothedValue,
}

impl SmoothedValue {
    /// Just created from a starting value of zero.
    pub open spec fn is_silent_start(self, adaptive: bool) -> bool {
        &&& self.wf()
        &&& self.smoothed_val == 0
        &&& self.head == 0
        &&& forall|i: int| 0 <= i < 12 ==> #[trigger] self.buffer@[i] == 0
        &&& self.min == 0 && self.max == 0 && self.adaptive_min == 0 && self.adaptive_max == 0
        &&& self.adaptive == adaptive
        &&& !self.normalized
    }
}

impl AudioFeatures {
    pub open spec fn wf(&self) -> bool {
        &&& self.root_mean_squared.wf()
        &&& self.zero_crossing_rate.wf()
        &&& forall|i: int| 0 <= i < NUM_BINS ==> (#[trigger] self.fft_bins@[i]).wf()
        &&& self.lo.wf()
        &&& self.mi.wf()
        &&& self.hi.wf()
    }

    /// Every feature at zero; loudness adapts its range, the others do not.
    pub fn new() -> (r: AudioFeatures)
        ensures
            r.wf(),
            r.root_mean_squared.is_silent_start(true),
            r.zero_crossing_rate.is_silent_start(false),
            forall|i: int| 0 <= i < NUM_BINS ==> (#[trigger] r.fft_bins@[i]).is_silent_start(false),
            r.lo.is_silent_start(false),
            r.mi.is_silent_start(false),
            r.hi.is_silent_start(false),
    {
        let raw = SmoothedValue::new(0, false, false);
        AudioFeatures {
            root_mean_squared: SmoothedValue::new(0, true, false),
            zero_crossing_rate: raw,
            fft_bins: [raw; 512],
            lo: raw,
            mi: raw,
            hi: raw,
        }
    }
}

/// A window of samples being filled, and the features of the windows so far.
pub struct AudioProcessBuffer {
    pub buffer: [i32; 1024],
    pub head: usize,
    pub features: AudioFeatures,
}

impl AudioProcessBuffer {
    pub open spec fn wf(&self) -> bool {
        &&& self.head <= BUFFER_SIZE
        &&& self.features.wf()
    }

    pub fn new() -> (r: AudioProcessBuffer)
        ensures
            r.wf(),
            r.head == 0,
            r.features.root_mean_squared.is_silent_start(true),
            r.features.zero_crossing_rate.is_silent_start(false),
    {
        AudioProcessBuffer { buffer: [0; 1024], head: 0, features: AudioFeatures::new() }
    }
    /// How many samples the window still has room for.
    pub fn remaining_cap(&self) -> (r: usize)
        requires
            self.wf(),
        ensures
            r == BUFFER_SIZE - self.head,
    {
        BUFFER_SIZE - self.head
    }

    /// Appends one sample to a window that has room; a full window is
    /// emptied by `process_full_buffer`.
    pub fn push(&mut self, value: i32)
        requires
            old(self).wf(),
            old(self).head < BUFFER_SIZE,
        ensures
            final(self).wf(),
            final(self).buffer@ == old(self).buffer@.update(old(self).head as int, value),
            final(self).head == old(self).head + 1,
            final(self).features == old(self).features,
    {
        self.buffer[self.head] = value;
        self.head = self.head + 1;
    }

    /// Processes the window and empties it: loudness and noisiness of its
    /// samples, then the spectrum `spectrum` (the magnitude of each point of
    /// the window's transform) normalized per bin, then the energy of each
    /// band, each written into its smoothed feature.
    pub fn process_full_buffer(&mut self, spectrum: &Vec<u64>)
        requires
            old(self).wf(),
            spectrum@.len() == FFT_SIZE,
        ensures
            final(self).wf(),
            final(self).head == 0,
            final(self).buffer == old(self).buffer,
            old(self).features.root_mean_squared.written(final(self).features.root_mean_squared,
                rms_of(old(self).buffer@) as u64),
            old(self).features.zero_crossing_rate.written(final(self).features.zero_crossing_rate,
                zcr_of(old(self).buffer@) as u64),
            forall|i: int| 0 <= i < NUM_BINS ==> (#[trigger] old(self).features.fft_bins@[i]).written(
                final(self).features.fft_bins@[i], normalized_spectrum(spectrum@)[i]),
            old(self).features.lo.written(final(self).features.lo,
                band_energy(normalized_spectrum(spectrum@), Band::Low) as u64),
            old(self).features.mi.written(final(self).features.mi,
                band_energy(normalized_spectrum(spectrum@), Band::Mid) as u64),
            old(self).features.hi.written(final(self).features.hi,
                band_energy(normalized_spectrum(spectrum@), Band::High) as u64),
    {
        self.head = 0;
        let rms = root_mean_square(self.buffer.as_slice());
        self.features.root_mean_squared.write(rms);
        let zcr = zero_crossing_rate(self.buffer.as_slice());
        self.features.zero_crossing_rate.write(zcr);
        let magnitudes = normalize_magnitudes(spectrum);
        let ghost mid = self.features;
        assert(mid.fft_bins == old(self).features.fft_bins);
        self.write_bins(&magnitudes);
        assert(forall|i: int| 0 <= i < NUM_BINS ==> (#[trigger] mid.fft_bins@[i]).written(
            self.features.fft_bins@[i], normalized_spectrum(spectrum@)[i]));
        self.write_bands(&magnitudes);
    }

    fn write_bins(&mut self, magnitudes: &Vec<u64>)
        requires
            old(self).wf(),
            magnitudes@.len() == NUM_BINS,
            forall|i: int| 0 <= i < NUM_BINS ==> #[trigger] magnitudes@[i] <= ONE,
        ensures
            final(self).wf(),
            final(self).head == old(self).head,
            final(self).buffer == old(self).buffer,
            final(self).features.root_mean_squared == old(self).features.root_mean_squared,
            final(self).features.zero_crossing_rate == old(self).features.zero_crossing_rate,
            final(self).features.lo == old(self).features.lo,
            final(self).features.mi == old(self).features.mi,
            final(self).features.hi == old(self).features.hi,
            forall|i: int| 0 <= i < NUM_BINS ==> (#[trigger] old(self).features.fft_bins@[i]).written(
                final(self).features.fft_bins@[i], magnitudes@[i]),
    {
        let ghost before = self.features;
        let mut i: usize = 0;
        while i < NUM_BINS
            invariant
                i <= NUM_BINS,
                magnitudes@.len() == NUM_BINS,
                forall|k: int| 0 <= k < NUM_BINS ==> #[trigger] magnitudes@[k] <= ONE,
                self.head == old(self).head,
                self.buffer == old(self).buffer,
                old(self).features == before,
                before.wf(),
                self.features.root_mean_squared == before.root_mean_squared,
                self.features.zero_crossing_rate == before.zero_crossing_rate,
                self.features.lo == before.lo,
                self.features.mi == before.mi,
                self.features.hi == before.hi,
                forall|k: int| 0 <= k < i ==> (#[trigger] before.fft_bins@[k]).written(
                    self.features.fft_bins@[k], magnitudes@[k]),
                forall|k: int| 0 <= k < NUM_BINS ==> (#[trigger] self.features.fft_bins@[k]).wf(),
                forall|k: int| i <= k < NUM_BINS ==> #[trigger] self.features.fft_bins@[k] == before.fft_bins@[k],
            decreases NUM_BINS - i,
        {
            let mut bin = self.features.fft_bins[i];
            bin.write(magnitudes[i]);
            self.features.fft_bins[i] = bin;
            i = i + 1;
        }
    }

    fn write_bands(&mut self, magnitudes: &Vec<u64>)
        requires
            old(self).wf(),
            magnitudes@.len() == NUM_BINS,
            forall|i: int| 0 <= i < NUM_BINS ==> #[trigger] magnitudes@[i] <= ONE,
        ensures
            final(self).wf(),
            final(self).head == old(self).head,
            final(self).buffer == old(self).buffer,
            final(self).features.root_mean_squared == old(self).features.root_mean_squared,
            final(self).features.zero_crossing_rate == old(self).features.zero_crossing_rate,
            final(self).features.fft_bins == old(self).features.fft_bins,
            old(self).features.lo.written(final(self).features.lo, band_energy(magnitudes@, Band::Low) as u64),
            old(self).features.mi.written(final(self).features.mi, band_energy(magnitudes@, Band::Mid) as u64),
            old(self).features.hi.written(final(self).features.hi, band_energy(magnitudes@, Band::High) as u64),
    {
        let mut lo: u64 = 0;
        let mut mi: u64 = 0;
        let mut hi: u64 = 0;
        let mut lo_hits: u64 = 0;
        let mut mi_hits: u64 = 0;
        let mut hi_hits: u64 = 0;
        let mut i: usize = 0;
        while i < NUM_BINS
            invariant
                i <= NUM_BINS,
                magnitudes@.len() == NUM_BINS,
                forall|k: int| 0 <= k < NUM_BINS ==> #[trigger] magnitudes@[k] <= ONE,
                lo == band_sum_upto(magnitudes@, Band::Low, i as int),
                mi == band_sum_upto(magnitudes@, Band::Mid, i as int),
                hi == band_sum_upto(magnitudes@, Band::High, i as int),
                lo_hits == band_hits_upto(Band::Low, i as int),
                mi_hits == band_hits_upto(Band::Mid, i as int),
                hi_hits == band_hits_upto(Band::High, i as int),
                lo <= i * ONE,
                mi <= i * ONE,
                hi <= i * ONE,
                lo_hits <= i,
                mi_hits <= i,
                hi_hits <= i,
            decreases NUM_BINS - i,
        {
            let m = magnitudes[i];
            match band_of_bin(i) {
                Band::Low => {
                    lo = lo + m;
                    lo_hits = lo_hits + 1;
                },
                Band::Mid => {
                    mi = mi + m;
                    mi_hits = mi_hits + 1;
                },
                Band::High => {
                    hi = hi + m;
                    hi_hits = hi_hits + 1;
                },
            }
            i = i + 1;
        }
        self.features.lo.write(band_value(lo, lo_hits));
        self.features.mi.write(band_value(mi, mi_hits));
        self.features.hi.write(band_value(hi, hi_hits));
    }
}

/// A band's sum of magnitudes over the base-2 logarithm of its hit count.
fn band_value(sum: u64, hits: u64) -> (r: u64)
    requires
        sum <= NUM_BINS * ONE,
        hits <= NUM_BINS,
    ensures
        r == sum * ONE / band_divisor(hits as int),
        r <= VALUE_MAX,
{
    let l = log2_eighths(hits) * 8192;
    assert(ONE / 8 == 8192);
    let divisor = if l < ONE { ONE } else { l };
    assert(sum * ONE / divisor as int <= sum as int) by (nonlinear_arith)
        requires
            divisor >= ONE,
    ;
    sum * ONE / divisor
}

} // verus!
