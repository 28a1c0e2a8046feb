use tuner_core::tuning_file::{
    format_iso8601, inharmonicity_by_key, now_iso8601, sort_by_key, timestamp_from_clock,
    validate_facts, FileFacts,
    ValidationError, CURRENT_FORMAT_VERSION,
};

#[test]
fn test_timestamp_format() {
    assert_eq!(format_iso8601(0), "1970-01-01T00:00:00Z");
    assert_eq!(format_iso8601(1_700_000_000), "2023-11-14T22:13:20Z");
    let now = now_iso8601();
    assert_eq!(now.len(), 20);
    assert!(now.ends_with('Z'));
}

#[test]
fn timestamps_around_the_epoch_and_leap_days() {
    assert_eq!(format_iso8601(-1), "1969-12-31T23:59:59Z");
    assert_eq!(format_iso8601(86_399), "1970-01-01T23:59:59Z");
    assert_eq!(format_iso8601(951_782_400), "2000-02-29T00:00:00Z");
    assert_eq!(format_iso8601(1_709_164_800), "2024-02-29T00:00:00Z");
    assert_eq!(format_iso8601(4_107_542_400), "2100-03-01T00:00:00Z");
    assert_eq!(format_iso8601(-2_208_988_800), "1900-01-01T00:00:00Z");
}

#[test]
fn timestamps_with_unusual_years() {
    assert_eq!(format_iso8601(-62_167_219_200), "0000-01-01T00:00:00Z");
    assert_eq!(format_iso8601(-62_167_219_201), "-001-12-31T23:59:59Z");
    assert_eq!(format_iso8601(253_402_300_800), "10000-01-01T00:00:00Z");
    assert_eq!(format_iso8601(-61_851_600_000), "0010-01-01T00:00:00Z");
}

#[test]
fn timestamps_at_the_ends_of_i64() {
    let max = format_iso8601(i64::MAX);
    assert!(max.ends_with("T15:30:07Z"));
    let min = format_iso8601(i64::MIN);
    assert!(min.starts_with('-'));
    assert!(min.ends_with("T08:29:52Z"));
}

fn good_facts() -> FileFacts {
    FileFacts {
        format_version: CURRENT_FORMAT_VERSION,
        name: "Test".to_string(),
        a4_reference_in_range: true,
        calibration_in_range: true,
        stretch_in_range: true,
        curve_len: 88,
        first_non_finite_curve_value: None,
        temperament_offsets_in_range: true,
        inharmonicity: vec![("C4".to_string(), true), ("A0".to_string(), true)],
    }
}

#[test]
fn validation_accepts_a_good_file() {
    assert_eq!(validate_facts(&good_facts()), Ok(()));
}

#[test]
fn validation_reports_each_failure() {
    let mut f = good_facts();
    f.format_version = 99;
    assert_eq!(validate_facts(&f), Err(ValidationError::UnsupportedVersion(99)));

    let mut f = good_facts();
    f.name = "   ".to_string();
    assert_eq!(validate_facts(&f), Err(ValidationError::EmptyName));

    let mut f = good_facts();
    f.a4_reference_in_range = false;
    assert_eq!(validate_facts(&f), Err(ValidationError::A4ReferenceOutOfRange));

    let mut f = good_facts();
    f.calibration_in_range = false;
    assert_eq!(validate_facts(&f), Err(ValidationError::CalibrationOutOfRange));

    let mut f = good_facts();
    f.stretch_in_range = false;
    assert_eq!(validate_facts(&f), Err(ValidationError::StretchOutOfRange));

    let mut f = good_facts();
    f.curve_len = 10;
    assert_eq!(validate_facts(&f), Err(ValidationError::WrongCurveLength(10)));

    let mut f = good_facts();
    f.first_non_finite_curve_value = Some(3);
    assert_eq!(validate_facts(&f), Err(ValidationError::NonFiniteCurveValue(3)));

    let mut f = good_facts();
    f.temperament_offsets_in_range = false;
    assert_eq!(validate_facts(&f), Err(ValidationError::TemperamentOffsetsOutOfRange));

    let mut f = good_facts();
    f.inharmonicity.push(("H9".to_string(), true));
    assert_eq!(
        validate_facts(&f),
        Err(ValidationError::UnknownNoteName("H9".to_string()))
    );

    let mut f = good_facts();
    f.inharmonicity[1].1 = false;
    assert_eq!(
        validate_facts(&f),
        Err(ValidationError::InvalidInharmonicity("A0".to_string()))
    );
}

#[test]
fn validation_reports_the_first_failure() {
    let mut f = good_facts();
    f.format_version = 2;
    f.name = String::new();
    f.curve_len = 0;
    assert_eq!(validate_facts(&f), Err(ValidationError::UnsupportedVersion(2)));

    let mut f = good_facts();
    f.stretch_in_range = false;
    f.curve_len = 0;
    assert_eq!(validate_facts(&f), Err(ValidationError::StretchOutOfRange));

    let mut f = good_facts();
    f.inharmonicity = vec![
        ("D4".to_string(), false),
        ("nonsense".to_string(), true),
    ];
    assert_eq!(
        validate_facts(&f),
        Err(ValidationError::InvalidInharmonicity("D4".to_string()))
    );
}

#[test]
fn inharmonicity_entries_sorted_by_key() {
    let entries = vec![
        ("C4".to_string(), 0.3_f64),
        ("nonsense".to_string(), 9.0),
        ("A0".to_string(), 0.1),
        ("A4".to_string(), 0.2),
    ];
    assert_eq!(
        inharmonicity_by_key(&entries),
        vec![(0, 0.1), (39, 0.3), (48, 0.2)]
    );
    let single = vec![("A4".to_string(), 0.000_02_f64)];
    assert_eq!(inharmonicity_by_key(&single), vec![(48, 0.000_02)]);
}

#[test]
fn sort_by_key_is_stable() {
    let items = vec![(5, 'a'), (1, 'b'), (5, 'c'), (0, 'd'), (1, 'e')];
    assert_eq!(
        sort_by_key(items),
        vec![(0, 'd'), (1, 'b'), (1, 'e'), (5, 'a'), (5, 'c')]
    );
    let enharmonic = vec![("Bb0".to_string(), 1u8), ("A#0".to_string(), 2u8)];
    assert_eq!(inharmonicity_by_key(&enharmonic), vec![(1, 1), (1, 2)]);
}

#[test]
fn test_wrong_version_rejected() {
    let mut f = good_facts();
    f.format_version = 99;
    let result = validate_facts(&f);
    assert!(result.is_err());
    assert_eq!(result, Err(ValidationError::UnsupportedVersion(99)));
}

#[test]
fn test_wrong_curve_length_rejected() {
    let mut f = good_facts();
    f.curve_len = 10;
    assert!(validate_facts(&f).is_err());
}

#[test]
fn test_empty_name_rejected() {
    let mut f = good_facts();
    f.name = "   ".into();
    assert!(validate_facts(&f).is_err());
}

#[test]
fn test_out_of_range_values_rejected() {
    // a4_reference_hz = 1000.0
    let mut f = good_facts();
    f.a4_reference_in_range = false;
    assert!(validate_facts(&f).is_err());

    // stretch = -1.0
    let mut f = good_facts();
    f.stretch_in_range = false;
    assert!(validate_facts(&f).is_err());

    // calibration_cents = 500.0
    let mut f = good_facts();
    f.calibration_in_range = false;
    assert!(validate_facts(&f).is_err());

    // tuning_curve_cents[3] = NaN
    let mut f = good_facts();
    f.first_non_finite_curve_value = Some(3);
    assert!(validate_facts(&f).is_err());
}

#[test]
fn test_bad_inharmonicity_entries_rejected() {
    let mut f = good_facts();
    f.inharmonicity = vec![("H9".into(), true)];
    assert!(validate_facts(&f).is_err());

    // C4 -> -1.0
    let mut f = good_facts();
    f.inharmonicity = vec![("C4".into(), false)];
    assert!(validate_facts(&f).is_err());
}

#[test]
fn timestamp_from_clock_readings() {
    assert_eq!(timestamp_from_clock(Some(1_700_000_000)), "2023-11-14T22:13:20Z");
    assert_eq!(timestamp_from_clock(None), "1970-01-01T00:00:00Z");
    assert_eq!(timestamp_from_clock(Some(0)), "1970-01-01T00:00:00Z");
    // Readings beyond i64 wrap as `as` does.
    assert_eq!(timestamp_from_clock(Some(u64::MAX)), format_iso8601(-1));
}
