use tuner_core::storage::{
    has_tuning_extension, is_tuning_extension, library_dir, path_for, sanitize_file_stem,
    set_library_dir, StorageConfig,
};

#[test]
fn sanitize_file_stem_cases() {
    assert_eq!(sanitize_file_stem("Steinway B"), "Steinway B");
    assert_eq!(sanitize_file_stem("../../etc/passwd"), "______etc_passwd");
    assert_eq!(sanitize_file_stem("   "), "tuning");
    assert_eq!(sanitize_file_stem(""), "tuning");
    assert!(!sanitize_file_stem(&"x".repeat(200)).is_empty());
    assert_eq!(sanitize_file_stem(&"x".repeat(200)).len(), 64);
}

#[test]
fn sanitize_file_stem_trims_and_replaces() {
    assert_eq!(sanitize_file_stem("  My Piano  "), "My Piano");
    assert_eq!(sanitize_file_stem("Flügel"), "Fl_gel");
    assert_eq!(sanitize_file_stem("a.b"), "a_b");
    assert_eq!(sanitize_file_stem("\tx\t"), "_x_");
    assert_eq!(sanitize_file_stem(&"é".repeat(70)), "_".repeat(64));
}

#[test]
fn library_dir_defaults_and_can_be_set() {
    let mut config = StorageConfig::new();
    assert_eq!(library_dir(&config), "tunings");
    set_library_dir(&mut config, "/data/tunings".to_string());
    assert_eq!(library_dir(&config), "/data/tunings");
}

#[test]
fn path_for_stays_in_the_library() {
    let mut config = StorageConfig::new();
    set_library_dir(&mut config, "/data/tunings".to_string());
    assert_eq!(path_for(&config, "Test Grand"), "/data/tunings/Test Grand.ptun");
    assert_eq!(path_for(&config, "../escape"), "/data/tunings/___escape.ptun");
    let config = StorageConfig::new();
    assert_eq!(path_for(&config, ""), "tunings/tuning.ptun");
    assert_eq!(path_for(&config, "x"), "tunings/x.ptun");
    let mut config = StorageConfig::new();
    set_library_dir(&mut config, "/data/tunings/".to_string());
    assert_eq!(path_for(&config, "x"), "/data/tunings/x.ptun");
    set_library_dir(&mut config, String::new());
    assert_eq!(path_for(&config, "x"), "x.ptun");
    set_library_dir(&mut config, "tunings\\".to_string());
    let path = path_for(&config, "x");
    assert!(path == "tunings\\x.ptun" || path == "tunings\\/x.ptun");
}

#[test]
fn tuning_extension_is_case_insensitive() {
    assert!(is_tuning_extension(Some("ptun")));
    assert!(is_tuning_extension(Some("PTun")));
    assert!(!is_tuning_extension(Some("txt")));
    assert!(!is_tuning_extension(Some("ptuns")));
    assert!(!is_tuning_extension(None));
    assert!(has_tuning_extension("tunings/Test Grand.ptun"));
    assert!(has_tuning_extension("tunings/broken.PTUN"));
    assert!(!has_tuning_extension("tunings/ignored.txt"));
    assert!(!has_tuning_extension("tunings/.ptun"));
    assert!(!has_tuning_extension("tunings/ptun"));
}
