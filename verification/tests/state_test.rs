use slate::document::state::{Document, DocumentStatus};
use std::time::{Duration, SystemTime};

#[test]
fn test_untitled_document_state() {
    let mut doc = Document::new_untitled();
    assert_eq!(doc.display_name(), "Sans titre");
    assert_eq!(doc.window_title(), "Sans titre");
    assert!(!doc.is_dirty());

    doc.mark_dirty();
    assert!(doc.is_dirty());
    assert_eq!(doc.window_title(), "Sans titre *");

    doc.mark_clean(SystemTime::now());
    assert!(!doc.is_dirty());
    assert_eq!(doc.window_title(), "Sans titre");
}

#[test]
fn test_path_document_state() {
    let path = String::from("/home/user/notes/projet.md");
    let mut doc = Document::from_path(path.clone(), SystemTime::now());
    assert_eq!(doc.display_name(), "projet.md");
    assert_eq!(doc.window_title(), "projet.md");
    assert_eq!(doc.path(), Some(path.as_str()));
    assert!(!doc.is_dirty());

    doc.mark_dirty();
    assert!(doc.is_dirty());
    assert_eq!(doc.window_title(), "projet.md *");

    doc.mark_saving();
    assert_eq!(doc.status(), &DocumentStatus::Saving);

    doc.mark_error("Permission refusée");
    assert_eq!(
        doc.status(),
        &DocumentStatus::Error("Permission refusée".to_string())
    );
}

#[test]
fn document_mtime_and_path_updates() {
    let t = SystemTime::UNIX_EPOCH + Duration::from_secs(1_000);
    let mut doc = Document::new_untitled();
    assert_eq!(doc.last_mtime(), None);
    assert_eq!(doc.path(), None);

    doc.mark_clean(t);
    assert_eq!(doc.last_mtime(), Some(t));
    assert_eq!(doc.status(), &DocumentStatus::Clean);

    doc.set_path(String::from("notes/a.md"));
    assert_eq!(doc.path(), Some("notes/a.md"));
    assert_eq!(doc.display_name(), "a.md");

    doc.set_last_mtime(None);
    assert_eq!(doc.last_mtime(), None);

    let d = Document::default();
    assert_eq!(d.display_name(), "Sans titre");
    assert_eq!(d.status(), &DocumentStatus::Clean);
}

#[test]
fn display_name_edge_cases() {
    let t = SystemTime::UNIX_EPOCH;
    assert_eq!(Document::from_path(String::from("note.md"), t).display_name(), "note.md");
    assert_eq!(Document::from_path(String::from("/a/b/"), t).display_name(), "b");
    assert_eq!(Document::from_path(String::from("/"), t).display_name(), "Document");
    assert_eq!(Document::from_path(String::from("/a/.."), t).display_name(), "Document");
    assert_eq!(Document::from_path(String::from("/a/./b.md/."), t).display_name(), "b.md");
    assert_eq!(Document::from_path(String::from(""), t).display_name(), "Document");
}

#[test]
fn error_status_is_not_dirty() {
    let mut doc = Document::new_untitled();
    doc.mark_error("x");
    assert!(!doc.is_dirty());
    assert_eq!(doc.window_title(), "Sans titre");
}
