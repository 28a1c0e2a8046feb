use tuner_core::temperament::{chromatic_index, Preset};

#[test]
fn test_preset_count() {
    assert_eq!(Preset::all().len(), 7);
}

#[test]
fn test_preset_names_unique() {
    let presets = Preset::all();
    for (i, a) in presets.iter().enumerate() {
        for b in presets.iter().skip(i + 1) {
            assert_ne!(a.name(), b.name());
        }
    }
}

#[test]
fn test_preset_by_name() {
    assert!(Preset::by_name("vallotti").is_some());
    assert!(Preset::by_name("Nope").is_none());
}

#[test]
fn preset_names_in_menu_order() {
    let names: Vec<String> = Preset::all().iter().map(|p| p.name()).collect();
    assert_eq!(
        names,
        vec![
            "Equal",
            "Werckmeister III",
            "Kirnberger III",
            "Vallotti",
            "Young",
            "Meantone (1/4 comma)",
            "Pythagorean"
        ]
    );
}

#[test]
fn preset_lookup_ignores_case_only() {
    assert_eq!(Preset::by_name("WERCKMEISTER iii"), Some(Preset::WerckmeisterIii));
    assert_eq!(Preset::by_name("meantone (1/4 COMMA)"), Some(Preset::MeantoneQuarterComma));
    assert_eq!(Preset::by_name("Vallotti "), None);
    for p in Preset::all() {
        assert_eq!(Preset::by_name(&p.name()), Some(p));
    }
}

#[test]
fn test_offset_for_key_a_maps_to_c_index_nine() {
    assert_eq!(chromatic_index(0), 9); // A0
    assert_eq!(chromatic_index(3), 0); // C1
    assert_eq!(chromatic_index(11), 8); // G#1
}

#[test]
fn test_offset_mapping_is_octave_invariant() {
    for k in 0..76 {
        assert_eq!(chromatic_index(k), chromatic_index(k + 12));
    }
}
