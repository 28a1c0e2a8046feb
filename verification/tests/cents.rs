use tuner_core::cents::{key_index_from_name, key_name};
use tuner_core::NUM_KEYS;

#[test]
fn test_key_name_a0() {
    assert_eq!(key_name(0), "A0");
}

#[test]
fn test_key_name_c1() {
    assert_eq!(key_name(3), "C1");
}

#[test]
fn test_key_name_a4() {
    assert_eq!(key_name(48), "A4");
}

#[test]
fn test_key_name_c8() {
    assert_eq!(key_name(87), "C8");
}

#[test]
fn test_key_name_roundtrip() {
    for k in 0..NUM_KEYS {
        assert_eq!(key_index_from_name(&key_name(k)), Some(k), "key {}", k);
    }
}

#[test]
fn test_key_index_from_name_flats_and_errors() {
    assert_eq!(key_index_from_name("Bb0"), key_index_from_name("A#0"));
    assert_eq!(key_index_from_name("H4"), None);
    assert_eq!(key_index_from_name("C9"), None);
    assert_eq!(key_index_from_name(""), None);
    assert_eq!(key_index_from_name("Cx"), None);
}

#[test]
fn key_names_of_every_pitch_class() {
    let names: Vec<String> = (36..48).map(key_name).collect();
    assert_eq!(
        names,
        vec!["A3", "A#3", "B3", "C4", "C#4", "D4", "D#4", "E4", "F4", "F#4", "G4", "G#4"]
    );
}

#[test]
fn key_name_beyond_the_keyboard() {
    assert_eq!(key_name(88), "C#8");
    assert_eq!(key_name(120), "A10");
}

#[test]
fn key_index_parses_lower_case_and_whitespace() {
    assert_eq!(key_index_from_name("  a4 "), Some(48));
    assert_eq!(key_index_from_name("c#4\n"), Some(40));
    assert_eq!(key_index_from_name("\u{3000}C4\u{a0}"), Some(39));
}

#[test]
fn key_index_octave_signs_and_limits() {
    assert_eq!(key_index_from_name("C+4"), Some(39));
    assert_eq!(key_index_from_name("A-0"), Some(0));
    assert_eq!(key_index_from_name("A-1"), None);
    assert_eq!(key_index_from_name("C"), None);
    assert_eq!(key_index_from_name("C#"), None);
    assert_eq!(key_index_from_name("C+"), None);
    assert_eq!(key_index_from_name("C4 4"), None);
    assert_eq!(key_index_from_name("C99999999999"), None);
    assert_eq!(key_index_from_name("A2147483647"), None);
    assert_eq!(key_index_from_name("A-2147483648"), None);
    assert_eq!(key_index_from_name("A004"), Some(48));
}

#[test]
fn key_index_flats_shift_down_a_semitone() {
    assert_eq!(key_index_from_name("Db4"), key_index_from_name("C#4"));
    assert_eq!(key_index_from_name("Ab0"), None);
    // Octaves roll over at C: Cb4 is B3 and B#3 is C4.
    assert_eq!(key_index_from_name("Cb4"), Some(38));
    assert_eq!(key_index_from_name("Cb4"), key_index_from_name("B3"));
    assert_eq!(key_index_from_name("B#3"), Some(39));
    assert_eq!(key_index_from_name("B#3"), key_index_from_name("C4"));
    assert_eq!(key_index_from_name("Cb1"), Some(2));
    assert_eq!(key_index_from_name("B#7"), Some(87));
    // Only a lower-case `b` marks a flat.
    assert_eq!(key_index_from_name("BB0"), None);
}

#[test]
fn key_index_range_ends() {
    assert_eq!(key_index_from_name("A0"), Some(0));
    assert_eq!(key_index_from_name("C8"), Some(87));
    assert_eq!(key_index_from_name("C#8"), None);
    assert_eq!(key_index_from_name("G#0"), None);
}
