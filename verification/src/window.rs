use crate::config::{add_recent, add_recent_file, paths_view, seconds_of, AutoSaveInterval};
use crate::document::state::{display_name_of, Document, DocumentView, StatusView};
use crate::editor::formatting::LineTransform;
use crate::shortcuts::Action;
use crate::text::{chars_of, into_string, push_str};
use std::time::SystemTime;
use vstd::prelude::*;

verus! {

broadcast use vstd::string::group_string_axioms;

// ---------------------------------------------------------------------------
// Shortcuts
// ---------------------------------------------------------------------------

/// Delimiters wrapped around a selection.
#[derive(Debug, Clone, Copy, PartialEq, Eq, Structural)]
pub enum WrapStyle {
    Bold,
    Italic,
    Strikethrough,
}

/// A change of the editor's font size.
#[derive(Debug, Clone, Copy, PartialEq, Eq, Structural)]
pub enum ZoomChange {
    In,
    Out,
    Reset,
}

/// What the window does for the action of a shortcut.
#[derive(Debug, Clone, Copy, PartialEq, Eq, Structural)]
pub enum Command {
    Save,
    SaveAs,
    NewDocument,
    OpenDialog,
    CloseDocument,
    Quit,
    Undo,
    Redo,
    TogglePreview,
    OpenSearch,
    OpenReplace,
    Wrap(WrapStyle),
    Link,
    Code,
    Lines(LineTransform),
    Zoom(ZoomChange),
    ToggleConceal,
    ToggleWrapMode,
}

pub open spec fn command_of(a: Action) -> Command {
    match a {
        Action::Save => Command::Save,
        Action::SaveAs => Command::SaveAs,
        Action::New => Command::NewDocument,
        Action::Open => Command::OpenDialog,
        Action::Close => Command::CloseDocument,
        Action::Quit => Command::Quit,
        Action::Undo => Command::Undo,
        Action::Redo => Command::Redo,
        Action::TogglePreview => Command::TogglePreview,
        Action::Search => Command::OpenSearch,
        Action::Replace => Command::OpenReplace,
        Action::FormatBold => Command::Wrap(WrapStyle::Bold),
        Action::FormatItalic => Command::Wrap(WrapStyle::Italic),
        Action::FormatLink => Command::Link,
        Action::FormatStrikethrough => Command::Wrap(WrapStyle::Strikethrough),
        Action::FormatHeading => Command::Lines(LineTransform::CycleHeading),
        Action::FormatBulletList => Command::Lines(LineTransform::ToggleBullet),
        Action::FormatNumberedList => Command::Lines(LineTransform::ToggleNumbered),
        Action::FormatCode => Command::Code,
        Action::FormatBlockquote => Command::Lines(LineTransform::ToggleQuote),
        Action::Indent => Command::Lines(LineTransform::Indent),
        Action::Unindent => Command::Lines(LineTransform::Unindent),
        Action::ZoomIn => Command::Zoom(ZoomChange::In),
        Action::ZoomOut => Command::Zoom(ZoomChange::Out),
        Action::ZoomReset => Command::Zoom(ZoomChange::Reset),
        Action::ToggleConceal => Command::ToggleConceal,
        Action::ToggleWrapMode => Command::ToggleWrapMode,
    }
}

/// The command of a shortcut's action.
pub fn command_for(action: Action) -> (c: Command)
    ensures
        c == command_of(action),
{
    match action {
        Action::Save => Command::Save,
        Action::SaveAs => Command::SaveAs,
        Action::New => Command::NewDocument,
        Action::Open => Command::OpenDialog,
        Action::Close => Command::CloseDocument,
        Action::Quit => Command::Quit,
        Action::Undo => Command::Undo,
        Action::Redo => Command::Redo,
        Action::TogglePreview => Command::TogglePreview,
        Action::Search => Command::OpenSearch,
        Action::Replace => Command::OpenReplace,
        Action::FormatBold => Command::Wrap(WrapStyle::Bold),
        Action::FormatItalic => Command::Wrap(WrapStyle::Italic),
        Action::FormatLink => Command::Link,
        Action::FormatStrikethrough => Command::Wrap(WrapStyle::Strikethrough),
        Action::FormatHeading => Command::Lines(LineTransform::CycleHeading),
        Action::FormatBulletList => Command::Lines(LineTransform::ToggleBullet),
        Action::FormatNumberedList => Command::Lines(LineTransform::ToggleNumbered),
        Action::FormatCode => Command::Code,
        Action::FormatBlockquote => Command::Lines(LineTransform::ToggleQuote),
        Action::Indent => Command::Lines(LineTransform::Indent),
        Action::Unindent => Command::Lines(LineTransform::Unindent),
        Action::ZoomIn => Command::Zoom(ZoomChange::In),
        Action::ZoomOut => Command::Zoom(ZoomChange::Out),
        Action::ZoomReset => Command::Zoom(ZoomChange::Reset),
        Action::ToggleConceal => Command::ToggleConceal,
        Action::ToggleWrapMode => Command::ToggleWrapMode,
    }
}

/// The delimiters of a wrap style: `**` for bold, `*` for italic, `~~` for
/// strikethrough.
pub open spec fn style_delimiters(style: WrapStyle) -> (Seq<char>, Seq<char>) {
    match style {
        WrapStyle::Bold => ("**"@, "**"@),
        WrapStyle::Italic => ("*"@, "*"@),
        WrapStyle::Strikethrough => ("~~"@, "~~"@),
    }
}

/// The delimiters of a wrap style: `**` for bold, `*` for italic, `~~` for
/// strikethrough.
pub fn wrap_delimiters(style: WrapStyle) -> (r: (&'static str, &'static str))
    ensures
        style is Bold ==> r.0@ == "**"@ && r.1@ == "**"@,
        style is Italic ==> r.0@ == "*"@ && r.1@ == "*"@,
        style is Strikethrough ==> r.0@ == "~~"@ && r.1@ == "~~"@,
        (r.0@, r.1@) == style_delimiters(style),
{
    match style {
        WrapStyle::Bold => ("**", "**"),
        WrapStyle::Italic => ("*", "*"),
        WrapStyle::Strikethrough => ("~~", "~~"),
    }
}

/// Different actions are carried out by different commands: no shortcut's
/// action is confused with another's.
pub proof fn lemma_commands_distinct(a: Action, b: Action)
    ensures
        command_of(a) == command_of(b) ==> a == b,
{
}

/// The formatting shortcuts wrap the selection in the syntax the shortcut table
/// gives: bold in `**`, italic in `*`, strikethrough in `~~`; the other
/// formatting actions are carried out as their own line or selection change.
pub proof fn lemma_format_commands(a: Action)
    ensures
        a is FormatBold ==> (command_of(a) matches Command::Wrap(s) && style_delimiters(s) == (
            "**"@,
            "**"@,
        )),
        a is FormatItalic ==> (command_of(a) matches Command::Wrap(s) && style_delimiters(s) == (
            "*"@,
            "*"@,
        )),
        a is FormatStrikethrough ==> (command_of(a) matches Command::Wrap(s) && style_delimiters(s)
            == ("~~"@, "~~"@)),
        a is FormatLink ==> command_of(a) == Command::Link,
        a is FormatCode ==> command_of(a) == Command::Code,
        a is FormatHeading ==> command_of(a) == Command::Lines(LineTransform::CycleHeading),
        a is FormatBulletList ==> command_of(a) == Command::Lines(LineTransform::ToggleBullet),
        a is FormatNumberedList ==> command_of(a) == Command::Lines(LineTransform::ToggleNumbered),
        a is FormatBlockquote ==> command_of(a) == Command::Lines(LineTransform::ToggleQuote),
        a is Indent ==> command_of(a) == Command::Lines(LineTransform::Indent),
        a is Unindent ==> command_of(a) == Command::Lines(LineTransform::Unindent),
{
}

// ---------------------------------------------------------------------------
// Unsaved changes
// ---------------------------------------------------------------------------

/// What the user asked for that replaces the document or closes the window.
#[derive(Debug, Clone, PartialEq, Eq)]
pub enum PendingAction {
    NewDocument,
    OpenPath(String),
    OpenDialog,
    CloseDocument,
    QuitApp,
}

pub enum PendingView {
    NewDocument,
    OpenPath(Seq<char>),
    OpenDialog,
    CloseDocument,
    QuitApp,
}

impl View for PendingAction {
    type V = PendingView;

    open spec fn view(&self) -> PendingView {
        match self {
            PendingAction::NewDocument => PendingView::NewDocument,
            PendingAction::OpenPath(p) => PendingView::OpenPath(p@),
            PendingAction::OpenDialog => PendingView::OpenDialog,
            PendingAction::CloseDocument => PendingView::CloseDocument,
            PendingAction::QuitApp => PendingView::QuitApp,
        }
    }
}

pub open spec fn pending_view(p: Option<PendingAction>) -> Option<PendingView> {
    match p {
        Some(a) => Some(a@),
        None => None,
    }
}

/// A step of the window's work on the document.
#[derive(Debug, Clone, PartialEq, Eq)]
pub enum Step {
    /// Carry out the action.
    Execute(PendingAction),
    /// Ask whether to save the changes, with this message.
    AskToSave(String),
    /// Save the document to its file.
    Save,
    /// Ask where to save the document.
    SaveAs,
}

pub enum StepView {
    Execute(PendingView),
    AskToSave(Seq<char>),
    Save,
    SaveAs,
}

impl View for Step {
    type V = StepView;

    open spec fn view(&self) -> StepView {
        match self {
            Step::Execute(a) => StepView::Execute(a@),
            Step::AskToSave(m) => StepView::AskToSave(m@),
            Step::Save => StepView::Save,
            Step::SaveAs => StepView::SaveAs,
        }
    }
}

pub open spec fn steps_view(v: Seq<Step>) -> Seq<StepView> {
    v.map_values(|s: Step| s@)
}

/// The question asked about the unsaved changes of the document named `name`.
pub open spec fn unsaved_message(name: Seq<char>) -> Seq<char> {
    "Le document \""@ + name + "\" contient des modifications non enregistrées."@
}

/// Asking for `action`: it is carried out at once when the document has no
/// unsaved changes; otherwise it waits while the user is asked.
pub open spec fn requested(doc: DocumentView, pending: Option<PendingView>, action: PendingView) -> (
    Option<PendingView>,
    StepView,
) {
    if doc.status is Dirty {
        (Some(action), StepView::AskToSave(unsaved_message(display_name_of(doc.path))))
    } else {
        (pending, StepView::Execute(action))
    }
}

/// The user's answer to the question about unsaved changes.
#[derive(Debug, Clone, Copy, PartialEq, Eq, Structural)]
pub enum SaveAnswer {
    Save,
    Discard,
    Cancel,
}

/// The pending action, carried out, if there is one.
pub open spec fn run_pending(pending: Option<PendingView>) -> Seq<StepView> {
    match pending {
        Some(a) => seq![StepView::Execute(a)],
        None => seq![],
    }
}

/// After the answer: saving saves the document (or asks where, keeping the
/// action waiting) and then carries out the action; discarding marks the
/// document clean as of `now` and carries out the action; anything else
/// forgets the action.
pub open spec fn answered(doc: DocumentView, pending: Option<PendingView>, answer: SaveAnswer, now: SystemTime) -> (
    DocumentView,
    Option<PendingView>,
    Seq<StepView>,
) {
    match answer {
        SaveAnswer::Save => if doc.path is Some {
            (doc, None, seq![StepView::Save] + run_pending(pending))
        } else {
            (doc, pending, seq![StepView::SaveAs])
        },
        SaveAnswer::Discard => (
            DocumentView { status: StatusView::Clean, last_mtime: Some(now), ..doc },
            None,
            run_pending(pending),
        ),
        SaveAnswer::Cancel => (doc, None, seq![]),
    }
}

/// `a` and `b` hold the same characters.
fn same_text(a: &str, b: &str) -> (r: bool)
    ensures
        r == (a@ == b@),
{
    let x = chars_of(a);
    let y = chars_of(b);
    if x.len() != y.len() {
        return false;
    }
    let mut i: usize = 0;
    while i < x.len()
        invariant
            i <= x.len() == y.len(),
            x@ == a@,
            y@ == b@,
            forall|k: int| 0 <= k < i ==> x@[k] == y@[k],
        decreases x.len() - i,
    {
        if x[i] != y[i] {
            assert(x@[i as int] != y@[i as int]);
            return false;
        }
        i += 1;
    }
    assert(x@ =~= y@);
    true
}

/// Reads the dialog's response: `save`, `discard`, and anything else cancels.
pub fn save_answer(response: &str) -> (a: SaveAnswer)
    ensures
        a == (if response@ == "save"@ {
            SaveAnswer::Save
        } else if response@ == "discard"@ {
            SaveAnswer::Discard
        } else {
            SaveAnswer::Cancel
        }),
{
    if same_text(response, "save") {
        SaveAnswer::Save
    } else if same_text(response, "discard") {
        SaveAnswer::Discard
    } else {
        SaveAnswer::Cancel
    }
}

fn unsaved_question(doc: &Document) -> (r: String)
    ensures
        r@ == unsaved_message(display_name_of(doc@.path)),
{
    let name = doc.display_name();
    let mut out = chars_of("Le document \"");
    push_str(&mut out, name.as_str());
    push_str(&mut out, "\" contient des modifications non enregistrées.");
    into_string(out)
}

/// Asks for `action` on the window showing `doc`, with `pending` the action
/// that waits for an answer.
pub fn request(doc: &Document, pending: &mut Option<PendingAction>, action: PendingAction) -> (r: Step)
    ensures
        (pending_view(*final(pending)), r@) == requested(doc@, pending_view(*old(pending)), action@),
{
    if !doc.is_dirty() {
        return Step::Execute(action);
    }
    *pending = Some(action);
    Step::AskToSave(unsaved_question(doc))
}

fn take_pending(pending: &mut Option<PendingAction>, steps: &mut Vec<Step>)
    ensures
        pending_view(*final(pending)) is None,
        steps_view(final(steps)@) == steps_view(old(steps)@) + run_pending(pending_view(*old(pending))),
{
    let ghost before = steps_view(steps@);
    match pending.take() {
        Some(a) => {
            let ghost av = a@;
            steps.push(Step::Execute(a));
            assert(steps_view(steps@) =~= before + seq![StepView::Execute(av)]);
        },
        None => {
            assert(steps_view(steps@) =~= before + seq![]);
        },
    }
}

/// Carries out the user's answer about unsaved changes; `now` is the time at
/// which discarded changes leave the document clean.
pub fn answer(doc: &mut Document, pending: &mut Option<PendingAction>, reply: SaveAnswer, now: SystemTime) -> (r: Vec<Step>)
    ensures
        (final(doc)@, pending_view(*final(pending)), steps_view(r@)) == answered(
            old(doc)@,
            pending_view(*old(pending)),
            reply,
            now,
        ),
{
    let mut steps: Vec<Step> = Vec::new();
    match reply {
        SaveAnswer::Save => {
            if doc.path().is_some() {
                steps.push(Step::Save);
                assert(steps_view(steps@) =~= seq![StepView::Save]);
                take_pending(pending, &mut steps);
            } else {
                steps.push(Step::SaveAs);
                assert(steps_view(steps@) =~= seq![StepView::SaveAs]);
            }
        },
        SaveAnswer::Discard => {
            doc.mark_clean(now);
            assert(steps_view(steps@) =~= Seq::<StepView>::empty());
            take_pending(pending, &mut steps);
            assert(steps_view(steps@) =~= run_pending(pending_view(*old(pending))));
        },
        SaveAnswer::Cancel => {
            *pending = None;
            assert(steps_view(steps@) =~= Seq::<StepView>::empty());
        },
    }
    steps
}

/// Once the document has been saved under a chosen name, the waiting action
/// is carried out.
pub fn saved_as(pending: &mut Option<PendingAction>) -> (r: Vec<Step>)
    ensures
        pending_view(*final(pending)) is None,
        steps_view(r@) == run_pending(pending_view(*old(pending))),
{
    let mut steps: Vec<Step> = Vec::new();
    assert(steps_view(steps@) =~= Seq::<StepView>::empty());
    take_pending(pending, &mut steps);
    assert(steps_view(steps@) =~= run_pending(pending_view(*old(pending))));
    steps
}

/// A request to close the window: refused while there are unsaved changes,
/// which turns it into asking for `QuitApp`; `None` lets the window close.
pub fn close_request(doc: &Document, pending: &mut Option<PendingAction>) -> (r: Option<Step>)
    ensures
        doc@.status is Dirty ==> (r matches Some(s) && (pending_view(*final(pending)), s@)
            == requested(doc@, pending_view(*old(pending)), PendingView::QuitApp)),
        !(doc@.status is Dirty) ==> r is None && *final(pending) == *old(pending),
{
    if doc.is_dirty() {
        Some(request(doc, pending, PendingAction::QuitApp))
    } else {
        None
    }
}

// ---------------------------------------------------------------------------
// Saving
// ---------------------------------------------------------------------------

/// Where a save goes.
#[derive(Debug, Clone, PartialEq, Eq)]
pub enum SaveTarget {
    /// The document's own file.
    Path(String),
    /// A file the user chooses.
    AskForPath,
    /// Nowhere: an automatic save of a document with no file.
    Nothing,
}

/// Where saving `doc` goes; an automatic save never asks for a file.
pub fn save_target(doc: &Document, is_auto: bool) -> (r: SaveTarget)
    ensures
        doc@.path matches Some(p) ==> (r matches SaveTarget::Path(q) && q@ == p),
        doc@.path is None && !is_auto ==> r is AskForPath,
        doc@.path is None && is_auto ==> r is Nothing,
{
    match doc.path() {
        Some(p) => SaveTarget::Path(p.to_owned()),
        None => if is_auto {
            SaveTarget::Nothing
        } else {
            SaveTarget::AskForPath
        },
    }
}

/// The notice shown after a save: none after an automatic save that
/// succeeded.
pub open spec fn save_notice(result: Result<SystemTime, Seq<char>>, is_auto: bool) -> Option<Seq<char>> {
    match result {
        Ok(_) => if is_auto {
            None
        } else {
            Some("Document enregistré."@)
        },
        Err(msg) => Some("Erreur d'enregistrement : "@ + msg),
    }
}

pub open spec fn result_view(r: Result<SystemTime, String>) -> Result<SystemTime, Seq<char>> {
    match r {
        Ok(t) => Ok(t),
        Err(m) => Err(m@),
    }
}

/// Records the outcome of writing `doc` to `path`: on success the document
/// takes that file, is clean as of the file's modification time, and the
/// file, listed as `listed_as`, becomes the most recent one; on failure the
/// document keeps the error. Returns the notice to show.
pub fn record_save(
    doc: &mut Document,
    recent_files: &mut Vec<String>,
    path: String,
    listed_as: String,
    result: Result<SystemTime, String>,
    is_auto: bool,
) -> (notice: Option<String>)
    ensures
        result matches Ok(mtime) ==> (final(doc)@ == (DocumentView {
            path: Some(path@),
            status: StatusView::Clean,
            last_mtime: Some(mtime),
        }) && paths_view(final(recent_files)@) == add_recent(paths_view(old(recent_files)@), listed_as@)),
        result matches Err(msg) ==> (final(doc)@ == (DocumentView {
            status: StatusView::Error(msg@),
            ..old(doc)@
        }) && final(recent_files)@ == old(recent_files)@),
        (match notice {
            Some(n) => Some(n@),
            None => None,
        }) == save_notice(result_view(result), is_auto),
{
    match result {
        Ok(mtime) => {
            doc.set_path(path);
            doc.mark_clean(mtime);
            add_recent_file(recent_files, listed_as);
            if is_auto {
                None
            } else {
                Some("Document enregistré.".to_owned())
            }
        },
        Err(msg) => {
            doc.mark_error(msg.as_str());
            let mut out = chars_of("Erreur d'enregistrement : ");
            push_str(&mut out, msg.as_str());
            Some(into_string(out))
        },
    }
}

/// An automatic save is due when automatic saving is on and the document has
/// unsaved changes and a file.
pub fn should_autosave(interval: AutoSaveInterval, doc: &Document) -> (r: bool)
    ensures
        r == (seconds_of(interval) is Some && doc@.status is Dirty && doc@.path is Some),
{
    interval.as_seconds().is_some() && doc.is_dirty() && doc.path().is_some()
}

/// How often automatic saves run: every `interval` seconds, never when
/// automatic saving is disabled.
pub fn autosave_period(interval: AutoSaveInterval) -> (r: Option<u32>)
    ensures
        r == seconds_of(interval),
{
    interval.as_seconds()
}

// ---------------------------------------------------------------------------
// Changes made elsewhere
// ---------------------------------------------------------------------------

/// The user's answer when the file changed on disk.
#[derive(Debug, Clone, Copy, PartialEq, Eq, Structural)]
pub enum ConflictAnswer {
    Reload,
    Keep,
    Compare,
    Dismiss,
}

/// Reads the dialog's response: `reload`, `keep`, `diff`, and anything else
/// dismisses it.
pub fn conflict_answer(response: &str) -> (a: ConflictAnswer)
    ensures
        a == (if response@ == "reload"@ {
            ConflictAnswer::Reload
        } else if response@ == "keep"@ {
            ConflictAnswer::Keep
        } else if response@ == "diff"@ {
            ConflictAnswer::Compare
        } else {
            ConflictAnswer::Dismiss
        }),
{
    if same_text(response, "reload") {
        ConflictAnswer::Reload
    } else if same_text(response, "keep") {
        ConflictAnswer::Keep
    } else if same_text(response, "diff") {
        ConflictAnswer::Compare
    } else {
        ConflictAnswer::Dismiss
    }
}

// ---------------------------------------------------------------------------
// Laws
// ---------------------------------------------------------------------------

/// Unsaved changes are never dropped without the user's consent: asking for
/// an action on a document with unsaved changes carries out nothing and asks
/// the user, and of the answers only discarding changes the document.
pub proof fn lemma_unsaved_changes_need_consent(
    doc: DocumentView,
    pending: Option<PendingView>,
    action: PendingView,
    a: SaveAnswer,
    now: SystemTime,
)
    requires
        doc.status is Dirty,
    ensures
        requested(doc, pending, action).1 is AskToSave,
        requested(doc, pending, action).0 == Some(action),
        !(a is Discard) ==> answered(doc, Some(action), a, now).0 == doc,
{
}

/// A waiting action is carried out at most once: whatever the answer, it is
/// carried out only as the last step, and then no longer waits.
pub proof fn lemma_pending_runs_once(doc: DocumentView, action: PendingView, a: SaveAnswer, now: SystemTime)
    ensures
        ({
            let (_, p, steps) = answered(doc, Some(action), a, now);
            (p is None ==> forall|i: int| 0 <= i < steps.len() - 1 ==> !(#[trigger] steps[i] is Execute))
            && (p is Some ==> p == Some(action) && steps == seq![StepView::SaveAs])
        }),
{
}

} // verus!
