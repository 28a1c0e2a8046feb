use tuner_core::state::{
    active_key, detected_key_after, measurement_key, position_by_name, resolve_temperament_index,
    select_or_append, tap_key, toggle_lock, MeasurementError, Screen,
};

#[test]
fn key_selection_follows_lock() {
    assert_eq!(active_key(Some(0), Some(48)), Some(0));
    assert_eq!(active_key(None, Some(48)), Some(48));
    assert_eq!(active_key(None, None), None);
    assert_eq!(detected_key_after(Some(0), Some(10), Some(48)), Some(10));
    assert_eq!(detected_key_after(None, Some(10), Some(48)), Some(48));
    assert_eq!(detected_key_after(None, Some(10), None), None);
}

#[test]
fn lock_button_and_key_taps() {
    assert_eq!(toggle_lock(Some(5), Some(7)), None);
    assert_eq!(toggle_lock(None, Some(7)), Some(7));
    assert_eq!(toggle_lock(None, None), None);
    assert_eq!(tap_key(None, 3), Some(3));
    assert_eq!(tap_key(Some(3), 3), None);
    assert_eq!(tap_key(Some(2), 3), Some(3));
    assert_eq!(tap_key(tap_key(None, 9), 9), None);
}

#[test]
fn temperament_selection_falls_back_to_first() {
    assert_eq!(resolve_temperament_index(3, 7), 3);
    assert_eq!(resolve_temperament_index(7, 7), 0);
    let names = vec!["Equal".to_string(), "Young".to_string(), "Young".to_string()];
    assert_eq!(position_by_name(&names, "Young"), Some(1));
    assert_eq!(position_by_name(&names, "young"), None);
    assert_eq!(position_by_name(&names, "Historic Weirdness"), None);
}

#[test]
fn measurement_key_cases() {
    assert_eq!(measurement_key(None, 6), Err(MeasurementError::NoNoteDetected));
    assert_eq!(measurement_key(Some(48), 1), Err(MeasurementError::TooFewPartials));
    assert_eq!(measurement_key(Some(48), 2), Ok(48));
}

#[test]
fn screens_compare_by_variant() {
    assert_eq!(Screen::Tuner, Screen::Tuner);
    assert_ne!(Screen::Tuner, Screen::Library);
}

#[test]
fn test_locked_key_overrides_detection() {
    // Locked to A0, then 441 Hz (nearest key A4) is detected.
    let locked = Some(0);
    let detected = detected_key_after(locked, None, Some(48));
    assert_eq!(active_key(locked, detected), Some(0));
}

#[test]
fn test_store_measurement_requires_partials() {
    // Nothing detected yet.
    assert!(measurement_key(active_key(None, None), 0).is_err());
    // 440 Hz detected with a single partial.
    let detected = detected_key_after(None, None, Some(48));
    assert!(measurement_key(active_key(None, detected), 1).is_err());
    // Six partials.
    assert_eq!(measurement_key(active_key(None, detected), 6), Ok(48));
}

#[test]
fn unknown_temperament_is_appended_and_selected() {
    let mut names = vec!["Equal".to_string(), "Young".to_string()];
    let found = position_by_name(&names, "Young");
    assert_eq!(select_or_append(&mut names, found, "Young".to_string()), 1);
    assert_eq!(names.len(), 2);
    let found = position_by_name(&names, "Historic Weirdness");
    assert_eq!(
        select_or_append(&mut names, found, "Historic Weirdness".to_string()),
        2
    );
    assert_eq!(names.len(), 3);
    assert_eq!(names[2], "Historic Weirdness");
    assert_eq!(select_or_append(&mut names, Some(7), "x".to_string()), 3);
}
