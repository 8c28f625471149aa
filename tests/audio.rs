use audioviz::audio_process_buffer::{AudioFeatures, AudioProcessBuffer, BUFFER_SIZE};
use audioviz::features::{
    band_of_bin, bin_idx_to_center_freq, bin_idx_to_freq, integer_sqrt, log2_eighths,
    normalize_magnitudes, root_mean_square, zero_crossing_rate, Band, FFT_SIZE, NUM_BINS,
};
use audioviz::smoothed_value::{SmoothedValue, ONE, SMOOTHING_SIZE};

fn fill_window(buf: &mut AudioProcessBuffer, sample: impl Fn(usize) -> i32) {
    for i in 0..BUFFER_SIZE {
        buf.push(sample(i));
    }
}

#[test]
fn silent_window_has_no_loudness_or_noisiness() {
    let window = vec![0i32; 1024];
    assert_eq!(root_mean_square(&window), 0);
    assert_eq!(zero_crossing_rate(&window), 0);
}

#[test]
fn rms_of_constant_and_mixed_windows() {
    assert_eq!(root_mean_square(&vec![65536; 1024]), 65536);
    assert_eq!(root_mean_square(&vec![-65536; 16]), 65536);
    // Mean of squares (9 + 16) / 2 = 12.5 in units squared: sqrt is 3.5355...
    let w = vec![3 * 65536, 4 * 65536];
    assert_eq!(root_mean_square(&w), 231704);
}

#[test]
fn alternating_samples_cross_zero_everywhere() {
    let window: Vec<i32> = (0..512).map(|i| if i % 2 == 0 { 65536 } else { -65536 }).collect();
    // 511 of the 512 neighbouring pairs cross zero.
    assert_eq!(zero_crossing_rate(&window), 511 * 65536 / 512);
    assert!(zero_crossing_rate(&window) > ONE * 99 / 100);
}

#[test]
fn zero_is_not_a_crossing() {
    assert_eq!(zero_crossing_rate(&vec![1, 0, -1, 0, 1]), 0);
    assert_eq!(zero_crossing_rate(&vec![1, -1, -1, 1]), 32768);
}

#[test]
fn integer_sqrt_rounds_down() {
    assert_eq!(integer_sqrt(0), 0);
    assert_eq!(integer_sqrt(15), 3);
    assert_eq!(integer_sqrt(16), 4);
    assert_eq!(integer_sqrt(u64::MAX), 4294967295);
}

#[test]
fn bin_frequency_is_exact_and_increasing() {
    assert_eq!(bin_idx_to_freq(0), 0);
    assert_eq!(bin_idx_to_freq(1), 46_875_000);
    assert_eq!(bin_idx_to_freq(512), 24_000_000_000);
    assert_eq!(bin_idx_to_center_freq(0), 23_437_500);
    for k in 0..NUM_BINS {
        assert!(bin_idx_to_freq(k) < bin_idx_to_freq(k + 1));
    }
}

#[test]
fn bins_fall_into_bands_by_cutoff() {
    assert_eq!(band_of_bin(0), Band::Low);
    assert_eq!(band_of_bin(2), Band::Low);
    assert_eq!(band_of_bin(3), Band::Mid);
    assert_eq!(band_of_bin(25), Band::Mid);
    assert_eq!(band_of_bin(26), Band::High);
    assert_eq!(band_of_bin(511), Band::High);
}

#[test]
fn log2_in_eighths() {
    assert_eq!(log2_eighths(0), 0);
    assert_eq!(log2_eighths(1), 0);
    assert_eq!(log2_eighths(2), 8);
    assert_eq!(log2_eighths(3), 12);
    assert_eq!(log2_eighths(23), 36);
    assert_eq!(log2_eighths(486), 71);
    assert_eq!(log2_eighths(512), 72);
}

#[test]
fn normalized_spectrum_stays_in_unit_range() {
    let mut spectrum = vec![0u64; FFT_SIZE];
    spectrum[3] = 4 * ONE;
    spectrum[7] = 2 * ONE;
    spectrum[600] = 100 * ONE;
    let m = normalize_magnitudes(&spectrum);
    assert_eq!(m.len(), NUM_BINS);
    assert_eq!(m[3], ONE);
    assert_eq!(m[7], ONE / 2);
    assert!(m.iter().all(|x| *x <= ONE));
}

#[test]
fn quiet_spectrum_is_not_amplified() {
    let mut spectrum = vec![0u64; FFT_SIZE];
    spectrum[1] = ONE / 4;
    let m = normalize_magnitudes(&spectrum);
    assert_eq!(m[1], ONE / 4);
    assert_eq!(normalize_magnitudes(&vec![0u64; FFT_SIZE]), vec![0u64; NUM_BINS]);
}

#[test]
fn smoothed_value_starts_settled() {
    let sv = SmoothedValue::new(120, false, false);
    assert_eq!(sv.smoothed_val, 120);
    let sv = SmoothedValue::new(125, false, false);
    assert_eq!(sv.smoothed_val, 120);
}

#[test]
fn repeated_writes_converge_to_the_value() {
    let mut sv = SmoothedValue::new(0, false, false);
    let v = 3 * ONE + 5;
    for _ in 0..SMOOTHING_SIZE {
        sv.write(v);
    }
    assert_eq!(sv.smoothed_val, 12 * (v / 12));
    assert!(v - sv.smoothed_val < 12);
    sv.write(v);
    assert_eq!(sv.smoothed_val, 12 * (v / 12));
}

#[test]
fn one_write_moves_the_average_by_a_twelfth() {
    let mut sv = SmoothedValue::new(0, false, false);
    sv.write(12 * ONE);
    assert_eq!(sv.smoothed_val, ONE);
    assert_eq!(sv.head, 1);
    assert_eq!(sv.max, 12 * ONE);
}

#[test]
fn adaptive_value_rescales_into_its_range() {
    let mut sv = SmoothedValue::new(0, true, false);
    sv.write(1200);
    // Range [0, 1200]: the value is at its top, 1.0, stored as a twelfth.
    assert_eq!(sv.smoothed_val, ONE / 12);
    // The adaptive maximum decays by 5%.
    assert_eq!(sv.adaptive_max, 1140);
    assert_eq!(sv.adaptive_min, 0);
    sv.write(570);
    // 570 of 1140 is one half.
    assert_eq!(sv.smoothed_val, ONE / 12 + ONE / 2 / 12);
}

#[test]
fn adaptive_maximum_does_not_decay_below_a_hundredth() {
    let mut sv = SmoothedValue::new(0, true, false);
    sv.write(10000);
    for _ in 0..200 {
        sv.write(0);
    }
    assert_eq!(sv.adaptive_max, 100);
    assert_eq!(sv.smoothed_val, 0);
}

#[test]
fn normalized_value_divides_by_lifetime_maximum() {
    let mut sv = SmoothedValue::new(0, false, true);
    sv.write(4 * ONE);
    sv.write(2 * ONE);
    assert_eq!(sv.smoothed_val, ONE / 12 + ONE / 2 / 12);
}

#[test]
fn new_features_are_silent() {
    let f = AudioFeatures::new();
    assert_eq!(f.root_mean_squared.smoothed_val, 0);
    assert!(f.root_mean_squared.adaptive);
    assert!(!f.zero_crossing_rate.adaptive);
    assert!(f.fft_bins.iter().all(|b| b.smoothed_val == 0));
    assert_eq!(f.lo.smoothed_val + f.mi.smoothed_val + f.hi.smoothed_val, 0);
}

#[test]
fn window_fills_then_empties() {
    let mut buf = AudioProcessBuffer::new();
    assert_eq!(buf.remaining_cap(), BUFFER_SIZE);
    buf.push(7);
    assert_eq!(buf.remaining_cap(), BUFFER_SIZE - 1);
    assert_eq!(buf.buffer[0], 7);
    for _ in 1..BUFFER_SIZE {
        buf.push(0);
    }
    assert_eq!(buf.remaining_cap(), 0);
}

#[test]
fn silent_window_leaves_features_at_zero() {
    let mut buf = AudioProcessBuffer::new();
    fill_window(&mut buf, |_| 0);
    assert_eq!(buf.remaining_cap(), 0);
    buf.process_full_buffer(&vec![0u64; FFT_SIZE]);
    assert_eq!(buf.remaining_cap(), BUFFER_SIZE);
    assert_eq!(buf.features.root_mean_squared.smoothed_val, 0);
    assert_eq!(buf.features.zero_crossing_rate.smoothed_val, 0);
    assert!(buf.features.fft_bins.iter().all(|b| b.smoothed_val == 0));
    assert_eq!(buf.features.lo.smoothed_val, 0);
    assert_eq!(buf.features.mi.smoothed_val, 0);
    assert_eq!(buf.features.hi.smoothed_val, 0);
}

#[test]
fn alternating_windows_approach_full_noisiness() {
    let mut buf = AudioProcessBuffer::new();
    for _ in 0..SMOOTHING_SIZE {
        fill_window(&mut buf, |i| if i % 2 == 0 { ONE as i32 } else { -(ONE as i32) });
        buf.process_full_buffer(&vec![0u64; FFT_SIZE]);
    }
    let zcr = 1023 * ONE / 1024;
    assert_eq!(buf.features.zero_crossing_rate.smoothed_val, 12 * (zcr / 12));
    assert!(buf.features.zero_crossing_rate.smoothed_val > ONE * 99 / 100);
}

#[test]
fn loud_window_raises_loudness() {
    let mut buf = AudioProcessBuffer::new();
    fill_window(&mut buf, |_| (ONE / 2) as i32);
    buf.process_full_buffer(&vec![0u64; FFT_SIZE]);
    // The first loud window is the top of the adaptive range: 1.0.
    assert_eq!(buf.features.root_mean_squared.smoothed_val, ONE / 12);
    assert_eq!(buf.features.root_mean_squared.max, ONE / 2);
}

#[test]
fn spectrum_feeds_bins_and_bands() {
    let mut buf = AudioProcessBuffer::new();
    fill_window(&mut buf, |_| 0);
    let mut spectrum = vec![0u64; FFT_SIZE];
    spectrum[1] = 2 * ONE;
    spectrum[10] = ONE;
    spectrum[100] = ONE;
    spectrum[1000] = 50 * ONE;
    buf.process_full_buffer(&spectrum);
    assert_eq!(buf.features.fft_bins[1].smoothed_val, ONE / 12);
    assert_eq!(buf.features.fft_bins[10].smoothed_val, ONE / 2 / 12);
    assert_eq!(buf.features.fft_bins[0].smoothed_val, 0);
    // Low band: 1.0 over log2(3) taken as 12/8.
    assert_eq!(buf.features.lo.smoothed_val, (ONE * ONE / (12 * 8192)) / 12);
    // Middle band: 0.5 over log2(23) taken as 36/8.
    assert_eq!(buf.features.mi.smoothed_val, ((ONE / 2) * ONE / (36 * 8192)) / 12);
    // High band: 0.5 over log2(486) taken as 71/8.
    assert_eq!(buf.features.hi.smoothed_val, ((ONE / 2) * ONE / (71 * 8192)) / 12);
}
