use audio_visualizer_rs::framing::{frame_count, frame_windows};
use audio_visualizer_rs::temporal::{
    audible_levels, frame_peaks, peak_amplitude, sort_levels, zero_crossing_counts,
};
use std::f32::consts::PI;

fn sine_wave(freq: f32, sample_rate: u32, duration: f32) -> Vec<f32> {
    let n = (sample_rate as f32 * duration) as usize;
    (0..n)
        .map(|i| (2.0 * PI * freq * i as f32 / sample_rate as f32).sin())
        .collect()
}

fn bits(samples: &[f32]) -> Vec<u32> {
    samples.iter().map(|s| s.to_bits()).collect()
}

fn rates(counts: &[usize], frame_size: usize) -> Vec<f32> {
    counts.iter().map(|&c| c as f32 / (frame_size - 1) as f32).collect()
}

fn mean(v: &[f32]) -> f32 {
    v.iter().sum::<f32>() / v.len() as f32
}

#[test]
fn test_zcr_sine_wave() {
    // A 440 Hz sine at 44100 Hz crosses zero about 880 times a second:
    // about 40.9 crossings in a 2048-sample frame, a rate of about 0.020.
    let samples = bits(&sine_wave(440.0, 44100, 1.0));
    let zcr = rates(&zero_crossing_counts(&samples, 2048, 512), 2048);

    assert!(!zcr.is_empty());
    let avg_zcr = mean(&zcr);
    assert!(
        avg_zcr > 0.01 && avg_zcr < 0.05,
        "440 Hz sine ZCR should be ~0.02, got {:.4}",
        avg_zcr
    );
}

#[test]
fn test_zcr_high_freq_higher() {
    let low = bits(&sine_wave(100.0, 44100, 0.5));
    let high = bits(&sine_wave(4000.0, 44100, 0.5));

    let zcr_low = rates(&zero_crossing_counts(&low, 2048, 512), 2048);
    let zcr_high = rates(&zero_crossing_counts(&high, 2048, 512), 2048);

    let avg_low = mean(&zcr_low);
    let avg_high = mean(&zcr_high);

    assert!(
        avg_high > avg_low * 5.0,
        "4000 Hz ZCR ({:.4}) should be much higher than 100 Hz ({:.4})",
        avg_high,
        avg_low
    );
}

#[test]
fn test_zcr_frame_count() {
    let samples = bits(&sine_wave(440.0, 44100, 1.0));
    let zcr = zero_crossing_counts(&samples, 2048, 512);
    let expected = (44100 - 2048) / 512 + 1;
    assert_eq!(zcr.len(), expected);
}

#[test]
fn test_short_input() {
    // Input shorter than frame_size should return empty
    let samples = bits(&vec![0.0; 100]);
    assert_eq!(frame_count(100, 2048, 512), 0);
    assert!(frame_windows(100, 2048, 512).is_empty());
    assert!(frame_peaks(&samples, 2048, 512).is_empty());
    assert!(zero_crossing_counts(&samples, 2048, 512).is_empty());
}

#[test]
fn test_peak_dbfs() {
    // Full-scale sine (amplitude 1.0) should have peak near 0 dBFS
    let samples = bits(&sine_wave(440.0, 44100, 0.5));
    let peak = f32::from_bits(peak_amplitude(&samples));
    let peak_dbfs = 20.0 * peak.max(1e-10).log10();
    assert!(
        (peak_dbfs - 0.0).abs() < 0.5,
        "Full-scale sine peak should be near 0 dBFS, got {:.2}",
        peak_dbfs
    );
}

#[test]
fn frame_count_matches_spectrogram_axis() {
    assert_eq!(frame_count(44100, 2048, 512), 83);
    assert_eq!(frame_count(2048, 2048, 512), 1);
    assert_eq!(frame_count(2047, 2048, 512), 0);
    assert_eq!(frame_count(2048 + 511, 2048, 512), 1);
    assert_eq!(frame_count(2048 + 512, 2048, 512), 2);
    assert_eq!(frame_count(10, 0, 3), 4);
}

#[test]
fn zero_crossings_count_sign_changes_per_frame() {
    let samples: Vec<f32> = vec![1.0, -1.0, 2.0, 0.0, -0.0, -3.0, 4.0, 5.0];
    // frames of 4 every 2 samples: [1,-1,2,0], [2,0,-0,-3], [-0,-3,4,5]
    let counts = zero_crossing_counts(&bits(&samples), 4, 2);
    assert_eq!(counts, vec![2, 1, 2]);
}

#[test]
fn zero_crossings_treat_nan_as_negative() {
    // `NaN >= 0.0` is false, so NaN sits on the negative side.
    let samples: Vec<f32> = vec![1.0, f32::NAN, 1.0, -1.0, f32::NAN];
    let counts = zero_crossing_counts(&bits(&samples), 5, 1);
    assert_eq!(counts, vec![3]);
}

#[test]
fn zero_crossings_of_silence_are_zero() {
    let samples = bits(&vec![0.0; 4096]);
    let counts = zero_crossing_counts(&samples, 2048, 512);
    assert_eq!(counts.len(), 5);
    assert!(counts.iter().all(|&c| c == 0));
}

#[test]
fn zero_crossing_counts_never_exceed_frame_size_minus_one() {
    let alternating: Vec<f32> = (0..64).map(|i| if i % 2 == 0 { 1.0 } else { -1.0 }).collect();
    let counts = zero_crossing_counts(&bits(&alternating), 16, 4);
    assert!(counts.iter().all(|&c| c == 15));
}

#[test]
fn frame_peaks_take_largest_magnitude() {
    let samples: Vec<f32> = vec![0.25, -0.75, 0.5, f32::NAN, -0.125, 0.0];
    let peaks: Vec<f32> = frame_peaks(&bits(&samples), 3, 3)
        .into_iter()
        .map(f32::from_bits)
        .collect();
    assert_eq!(peaks, vec![0.75, 0.125]);
}

#[test]
fn frame_peaks_match_fold_of_max() {
    let samples = sine_wave(330.0, 8000, 0.3);
    let peaks = frame_peaks(&bits(&samples), 256, 100);
    assert_eq!(peaks.len(), frame_count(samples.len(), 256, 100));
    for (f, &p) in peaks.iter().enumerate() {
        let expected = samples[f * 100..f * 100 + 256]
            .iter()
            .map(|&s| s.abs())
            .fold(0.0_f32, f32::max);
        assert_eq!(p, expected.to_bits());
    }
}

#[test]
fn peak_of_only_nan_is_zero() {
    let samples = bits(&[f32::NAN, -f32::NAN]);
    assert_eq!(peak_amplitude(&samples), 0);
    assert_eq!(peak_amplitude(&[]), 0);
}

#[test]
fn global_peak_bounds_frame_peaks() {
    let mut samples = sine_wave(440.0, 44100, 0.2);
    samples[3000] = -1.5;
    let b = bits(&samples);
    let global = peak_amplitude(&b);
    assert_eq!(f32::from_bits(global), 1.5);
    assert!(frame_peaks(&b, 1024, 256).iter().all(|&p| p <= global));
}

#[test]
fn audible_levels_drop_silence() {
    let levels: Vec<f32> = vec![0.0, 1e-10, 2e-10, 0.5, f32::NAN, 1e-11, 0.25];
    let kept: Vec<f32> = audible_levels(&bits(&levels))
        .into_iter()
        .map(f32::from_bits)
        .collect();
    assert_eq!(kept, vec![2e-10, 0.5, 0.25]);
}

#[test]
fn sort_levels_orders_like_partial_cmp() {
    let levels: Vec<f32> = vec![
        -3.5, 12.0, 0.0, -60.25, -0.0, 7.0, -0.5, f32::INFINITY, -3.5, 0.0, 1e-3, -0.0,
    ];
    let sorted = sort_levels(&bits(&levels));
    let mut expected = levels.clone();
    expected.sort_by(|a, b| a.partial_cmp(b).unwrap());
    assert_eq!(sorted, bits(&expected));
}

#[test]
fn quiet_then_loud_levels_spread_percentiles() {
    // rms in dB of a signal that is quiet (-23 dB) then loud (-3 dB)
    let mut levels: Vec<f32> = vec![-3.0; 40];
    levels.extend(vec![-23.0; 40]);
    let sorted: Vec<f32> = sort_levels(&bits(&levels))
        .into_iter()
        .map(f32::from_bits)
        .collect();
    let idx_5 = (sorted.len() as f32 * 0.05) as usize;
    let idx_95 = ((sorted.len() as f32 * 0.95) as usize).min(sorted.len() - 1);
    assert!(sorted[idx_95] - sorted[idx_5] > 10.0);
}

#[test]
fn frame_windows_step_by_hop() {
    assert_eq!(frame_windows(10, 4, 3), vec![(0, 4), (3, 7), (6, 10)]);
    assert_eq!(frame_windows(44100, 2048, 512).len(), frame_count(44100, 2048, 512));
}

#[test]
fn features_share_the_time_axis() {
    let samples = bits(&sine_wave(440.0, 8000, 0.5));
    let windows = frame_windows(samples.len(), 512, 128);
    let counts = zero_crossing_counts(&samples, 512, 128);
    let peaks = frame_peaks(&samples, 512, 128);
    assert_eq!(windows.len(), counts.len());
    assert_eq!(windows.len(), peaks.len());
    for (f, &(start, end)) in windows.iter().enumerate() {
        assert_eq!(counts[f], zero_crossing_counts(&samples[start..end], 512, 512)[0]);
        assert_eq!(peaks[f], peak_amplitude(&samples[start..end]));
    }
}
