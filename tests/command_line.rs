use music_library::args::{Args, Mode};

fn words(list: &[&str]) -> Vec<String> {
    list.iter().map(|s| s.to_string()).collect()
}

#[test]
fn parses_each_mode_word() {
    assert_eq!(Mode::parse("serve".to_string()), Some(Mode::Serve));
    assert_eq!(Mode::parse("sync-rhythmdb".to_string()), Some(Mode::SyncRhythmdb));
    assert_eq!(Mode::parse("validate-library".to_string()), Some(Mode::ValidateLibrary));
    assert_eq!(Mode::parse("test-azure".to_string()), Some(Mode::TestAzure));
    assert_eq!(Mode::parse("Serve".to_string()), None);
    assert_eq!(Mode::parse("".to_string()), None);
}

#[test]
fn sync_arguments() {
    let a = Args::parse(&words(&["prog", "sync-rhythmdb", "db.xml", "/music", "--verbose"])).unwrap();
    assert_eq!(a.mode, Mode::SyncRhythmdb);
    let s = a.sync_rhythmdb.unwrap();
    assert_eq!(s.rhythmdb_file, "db.xml");
    assert_eq!(s.library_location_prefix, "/music");
    assert!(!s.dry_run);
    assert!(s.verbose);
    assert!(a.validate_library.is_none());
}

#[test]
fn validate_arguments() {
    let a = Args::parse(&words(&["prog", "validate-library", "--dry-run"])).unwrap();
    assert_eq!(a.mode, Mode::ValidateLibrary);
    let v = a.validate_library.unwrap();
    assert!(v.dry_run);
    assert!(!v.verbose);
}

#[test]
fn rejects_bad_command_lines() {
    assert!(Args::parse(&words(&["prog"])).is_none());
    assert!(Args::parse(&words(&["prog", "serve", "extra"])).is_none());
    assert!(Args::parse(&words(&["prog", "sync-rhythmdb", "db.xml"])).is_none());
    assert!(Args::parse(&words(&["prog", "validate-library", "--fast"])).is_none());
    assert!(Args::parse(&words(&["prog", "unknown"])).is_none());
    assert!(Args::parse(&words(&["prog", "serve"])).is_some());
    assert!(Args::parse(&words(&["prog", "test-azure", "anything"])).is_some());
}
