use slate::app::command_line_file;
use slate::config::AutoSaveInterval;
use slate::document::state::{Document, DocumentStatus};
use slate::editor::formatting::LineTransform;
use slate::shortcuts::Action;
use slate::window::{
    answer, close_request, command_for, conflict_answer, record_save, request, save_answer,
    save_target, saved_as, should_autosave, wrap_delimiters, Command, ConflictAnswer,
    PendingAction, SaveAnswer, SaveTarget, Step, WrapStyle, ZoomChange,
};
use std::time::{Duration, SystemTime};

#[test]
fn shortcut_commands() {
    assert_eq!(command_for(Action::Save), Command::Save);
    assert_eq!(command_for(Action::New), Command::NewDocument);
    assert_eq!(command_for(Action::FormatBold), Command::Wrap(WrapStyle::Bold));
    assert_eq!(command_for(Action::FormatNumberedList), Command::Lines(LineTransform::ToggleNumbered));
    assert_eq!(command_for(Action::ZoomOut), Command::Zoom(ZoomChange::Out));
    assert_eq!(command_for(Action::ToggleWrapMode), Command::ToggleWrapMode);
    assert_eq!(wrap_delimiters(WrapStyle::Bold), ("**", "**"));
    assert_eq!(wrap_delimiters(WrapStyle::Italic), ("*", "*"));
    assert_eq!(wrap_delimiters(WrapStyle::Strikethrough), ("~~", "~~"));
}

#[test]
fn clean_document_runs_request_at_once() {
    let doc = Document::new_untitled();
    let mut pending = None;
    assert_eq!(
        request(&doc, &mut pending, PendingAction::NewDocument),
        Step::Execute(PendingAction::NewDocument)
    );
    assert_eq!(pending, None);
    assert_eq!(close_request(&doc, &mut pending), None);
}

#[test]
fn dirty_document_asks_first() {
    let t = SystemTime::UNIX_EPOCH + Duration::from_secs(5);
    let mut doc = Document::from_path("/n/note.md".to_string(), t);
    doc.mark_dirty();
    let mut pending = None;
    assert_eq!(
        request(&doc, &mut pending, PendingAction::OpenPath("/n/autre.md".to_string())),
        Step::AskToSave(
            "Le document \"note.md\" contient des modifications non enregistrées.".to_string()
        )
    );
    assert_eq!(pending, Some(PendingAction::OpenPath("/n/autre.md".to_string())));

    // Saving a document with a file saves it, then opens the other one.
    let steps = answer(&mut doc, &mut pending, SaveAnswer::Save, t);
    assert_eq!(
        steps,
        vec![Step::Save, Step::Execute(PendingAction::OpenPath("/n/autre.md".to_string()))]
    );
    assert_eq!(pending, None);
}

#[test]
fn discard_cancel_and_save_as() {
    let t = SystemTime::UNIX_EPOCH + Duration::from_secs(9);
    let mut doc = Document::new_untitled();
    doc.mark_dirty();
    let mut pending = None;
    let _ = request(&doc, &mut pending, PendingAction::QuitApp);

    // A document without a file asks where to save, and the action waits.
    assert_eq!(answer(&mut doc, &mut pending, SaveAnswer::Save, t), vec![Step::SaveAs]);
    assert_eq!(pending, Some(PendingAction::QuitApp));
    assert_eq!(saved_as(&mut pending), vec![Step::Execute(PendingAction::QuitApp)]);
    assert_eq!(pending, None);

    let _ = request(&doc, &mut pending, PendingAction::CloseDocument);
    assert_eq!(answer(&mut doc, &mut pending, SaveAnswer::Cancel, t), vec![]);
    assert_eq!(pending, None);
    assert!(doc.is_dirty());

    assert!(close_request(&doc, &mut pending).is_some());
    assert_eq!(
        answer(&mut doc, &mut pending, SaveAnswer::Discard, t),
        vec![Step::Execute(PendingAction::QuitApp)]
    );
    assert!(!doc.is_dirty());
    assert_eq!(doc.last_mtime(), Some(t));
}

#[test]
fn dialog_responses() {
    assert_eq!(save_answer("save"), SaveAnswer::Save);
    assert_eq!(save_answer("discard"), SaveAnswer::Discard);
    assert_eq!(save_answer("cancel"), SaveAnswer::Cancel);
    assert_eq!(save_answer(""), SaveAnswer::Cancel);
    assert_eq!(conflict_answer("reload"), ConflictAnswer::Reload);
    assert_eq!(conflict_answer("keep"), ConflictAnswer::Keep);
    assert_eq!(conflict_answer("diff"), ConflictAnswer::Compare);
    assert_eq!(conflict_answer("other"), ConflictAnswer::Dismiss);
}

#[test]
fn saving_and_autosave() {
    let t = SystemTime::UNIX_EPOCH + Duration::from_secs(77);
    let mut doc = Document::new_untitled();
    assert_eq!(save_target(&doc, false), SaveTarget::AskForPath);
    assert_eq!(save_target(&doc, true), SaveTarget::Nothing);
    doc.mark_dirty();
    assert!(!should_autosave(AutoSaveInterval::Sec5, &doc));

    let mut recent = vec!["/a.md".to_string()];
    let notice = record_save(&mut doc, &mut recent, "/b.md".to_string(), "/b.md".to_string(), Ok(t), false);
    assert_eq!(notice, Some("Document enregistré.".to_string()));
    assert_eq!(doc.path(), Some("/b.md"));
    assert_eq!(doc.status(), &DocumentStatus::Clean);
    assert_eq!(recent, vec!["/b.md", "/a.md"]);
    assert_eq!(save_target(&doc, true), SaveTarget::Path("/b.md".to_string()));

    doc.mark_dirty();
    assert!(should_autosave(AutoSaveInterval::Sec5, &doc));
    assert!(!should_autosave(AutoSaveInterval::Disabled, &doc));
    let quiet = record_save(&mut doc, &mut recent, "b.md".to_string(), "/b.md".to_string(), Ok(t), true);
    assert_eq!(quiet, None);
    assert_eq!(doc.path(), Some("b.md"));

    let failed = record_save(&mut doc, &mut recent, "/c.md".to_string(), "/c.md".to_string(), Err("disque plein".to_string()), true);
    assert_eq!(failed, Some("Erreur d'enregistrement : disque plein".to_string()));
    assert_eq!(doc.status(), &DocumentStatus::Error("disque plein".to_string()));
    assert_eq!(doc.path(), Some("b.md"));
    assert_eq!(recent, vec!["/b.md", "/a.md"]);
}

#[test]
fn command_line_file_argument() {
    let args = |v: &[&str]| v.iter().map(|s| s.to_string()).collect::<Vec<String>>();
    assert_eq!(command_line_file(&args(&["slate"])), None);
    assert_eq!(command_line_file(&args(&[])), None);
    assert_eq!(
        command_line_file(&args(&["slate", "--debug", "note.md", "autre.md"])),
        Some("note.md".to_string())
    );
    assert_eq!(command_line_file(&args(&["slate", "-n"])), None);
    assert_eq!(command_line_file(&args(&["slate", ""])), Some(String::new()));
}

#[test]
fn autosave_periods() {
    use_period(AutoSaveInterval::Disabled, None);
    use_period(AutoSaveInterval::Sec5, Some(5));
    use_period(AutoSaveInterval::Sec15, Some(15));
    use_period(AutoSaveInterval::Sec30, Some(30));
    use_period(AutoSaveInterval::Min1, Some(60));
}

fn use_period(i: AutoSaveInterval, expected: Option<u32>) {
    assert_eq!(slate::window::autosave_period(i), expected);
}
