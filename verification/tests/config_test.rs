use slate::config::{
    add_recent_file, clamp_window_size, clear_recent_files, limit_recent_files,
    remove_recent_file, AutoSaveInterval, ThemeMode, MAX_RECENT_FILES, MIN_WINDOW_HEIGHT,
    MIN_WINDOW_WIDTH,
};

#[test]
fn config_enum_defaults() {
    assert_eq!(ThemeMode::default(), ThemeMode::Dark);
    assert_eq!(AutoSaveInterval::default(), AutoSaveInterval::Sec15);
}

#[test]
fn auto_save_interval_seconds() {
    assert_eq!(AutoSaveInterval::Disabled.as_seconds(), None);
    assert_eq!(AutoSaveInterval::Sec5.as_seconds(), Some(5));
    assert_eq!(AutoSaveInterval::Sec15.as_seconds(), Some(15));
    assert_eq!(AutoSaveInterval::Sec30.as_seconds(), Some(30));
    assert_eq!(AutoSaveInterval::Min1.as_seconds(), Some(60));

    assert_eq!(AutoSaveInterval::from_seconds(None), AutoSaveInterval::Disabled);
    assert_eq!(AutoSaveInterval::from_seconds(Some(0)), AutoSaveInterval::Disabled);
    assert_eq!(AutoSaveInterval::from_seconds(Some(3)), AutoSaveInterval::Sec5);
    assert_eq!(AutoSaveInterval::from_seconds(Some(15)), AutoSaveInterval::Sec15);
    assert_eq!(AutoSaveInterval::from_seconds(Some(16)), AutoSaveInterval::Sec30);
    assert_eq!(AutoSaveInterval::from_seconds(Some(3600)), AutoSaveInterval::Min1);

    for i in [
        AutoSaveInterval::Disabled,
        AutoSaveInterval::Sec5,
        AutoSaveInterval::Sec15,
        AutoSaveInterval::Sec30,
        AutoSaveInterval::Min1,
    ] {
        assert_eq!(AutoSaveInterval::from_seconds(i.as_seconds()), i);
    }
}

#[test]
fn window_size_is_raised_to_minimum() {
    assert_eq!(clamp_window_size(100, 1000), (320, 1000));
    assert_eq!(clamp_window_size(800, 10), (800, 240));
    assert_eq!(clamp_window_size(-5, -5), (MIN_WINDOW_WIDTH, MIN_WINDOW_HEIGHT));
    assert_eq!(clamp_window_size(1024, 768), (1024, 768));
}

#[test]
fn recent_files_limit_to_twenty() {
    let mut files: Vec<String> = (0..30).map(|i| format!("/tmp/note_{i}.md")).collect();
    limit_recent_files(&mut files);
    assert_eq!(files.len(), MAX_RECENT_FILES);
    assert_eq!(files[0], "/tmp/note_0.md");
    assert_eq!(files[19], "/tmp/note_19.md");
}

#[test]
fn recent_files_add_moves_to_front() {
    let mut files = vec!["/a".to_string(), "/b".to_string(), "/c".to_string()];
    add_recent_file(&mut files, "/b".to_string());
    assert_eq!(files, vec!["/b", "/a", "/c"]);
    add_recent_file(&mut files, "/d".to_string());
    assert_eq!(files, vec!["/d", "/b", "/a", "/c"]);

    let mut many: Vec<String> = (0..20).map(|i| format!("/n{i}")).collect();
    add_recent_file(&mut many, "/new".to_string());
    assert_eq!(many.len(), 20);
    assert_eq!(many[0], "/new");
    assert_eq!(many[19], "/n18");
}

#[test]
fn recent_files_remove_and_clear() {
    let mut files = vec!["/a".to_string(), "/b".to_string(), "/a".to_string()];
    remove_recent_file(&mut files, "/a");
    assert_eq!(files, vec!["/b"]);
    remove_recent_file(&mut files, "/zz");
    assert_eq!(files, vec!["/b"]);
    clear_recent_files(&mut files);
    assert!(files.is_empty());
}
