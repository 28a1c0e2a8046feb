use tuner_core::pitch_detection::{frame_start, is_valid_fft_size, partial_search_window};
use tuner_core::tuning_curve::{has_octave_below, is_bass_half, is_overpull_outer_region};

#[test]
fn test_detector_rejects_bad_sizes() {
    assert!(!is_valid_fft_size(0));
    assert!(!is_valid_fft_size(1023));
    assert!(!is_valid_fft_size(1));
    assert!(is_valid_fft_size(2));
    assert!(is_valid_fft_size(62));
    assert!(is_valid_fft_size(64));
    assert!(is_valid_fft_size(8192));
}

#[test]
fn analysis_frame_is_the_newest_samples() {
    assert_eq!(frame_start(1000, 8192), None);
    assert_eq!(frame_start(16384, 8192), Some(8192));
    assert_eq!(frame_start(8192, 8192), Some(0));
}

#[test]
fn keyboard_regions_match_positions() {
    for k in 0..88usize {
        let t = k as f64 / 87.0;
        assert_eq!(is_bass_half(k), t < 0.5, "key {}", k);
        assert_eq!(is_overpull_outer_region(k), !(0.3..=0.85).contains(&t), "key {}", k);
        assert_eq!(has_octave_below(k), k >= 12);
    }
    assert!(is_overpull_outer_region(0));
    assert!(!is_overpull_outer_region(44));
    assert!(is_overpull_outer_region(87));
}

#[test]
fn partial_search_window_is_clamped() {
    assert_eq!(partial_search_window(100, 6, 4096), Some((94, 106)));
    assert_eq!(partial_search_window(3, 6, 4096), Some((1, 9)));
    assert_eq!(partial_search_window(4092, 6, 4096), Some((4086, 4094)));
    assert_eq!(partial_search_window(1, 0, 8), None);
    assert_eq!(partial_search_window(0, 1, 4), None);
}
