use crate::document::state::{file_name, file_name_of};
use crate::editor::markdown::{decimal, push_decimal};
use crate::text::{chars_of, into_string, push_str};
use vstd::prelude::*;
use vstd::utf8::{decode_utf8, valid_utf8};

verus! {

broadcast use vstd::string::group_string_axioms;

#[verifier::external_type_specification]
#[verifier::external_body]
pub struct ExIoError(std::io::Error);

/// Why a note could not be read or written.
#[derive(Debug)]
pub enum StorageError {
    NotFound(String),
    PermissionDenied(String),
    InvalidUtf8(String),
    Io { path: String, source: std::io::Error },
}

impl StorageError {
    /// The message shown to the user.
    pub fn message(&self) -> (r: String)
        ensures
            self matches StorageError::NotFound(p) ==> r@ == "Le fichier n'a pas été trouvé : "@ + p@,
            self matches StorageError::PermissionDenied(p) ==> r@ == "Permission refusée pour le fichier : "@ + p@,
            self matches StorageError::InvalidUtf8(p) ==> r@ == "Le fichier n'est pas un texte UTF-8 valide : "@ + p@,
            self matches StorageError::Io { path, source } ==> exists|s: String|
                vstd::string::to_string_from_display_ensures::<std::io::Error>(&source, s)
                && r@ == "Erreur d'accès à "@ + path@ + " : "@ + s@,
    {
        match self {
            StorageError::NotFound(path) => {
                let mut out = chars_of("Le fichier n'a pas été trouvé : ");
                push_str(&mut out, path.as_str());
                into_string(out)
            },
            StorageError::PermissionDenied(path) => {
                let mut out = chars_of("Permission refusée pour le fichier : ");
                push_str(&mut out, path.as_str());
                into_string(out)
            },
            StorageError::InvalidUtf8(path) => {
                let mut out = chars_of("Le fichier n'est pas un texte UTF-8 valide : ");
                push_str(&mut out, path.as_str());
                into_string(out)
            },
            StorageError::Io { path, source } => {
                let detail = source.to_string();
                let mut out = chars_of("Erreur d'accès à ");
                push_str(&mut out, path.as_str());
                push_str(&mut out, " : ");
                push_str(&mut out, detail.as_str());
                into_string(out)
            },
        }
    }
}

// ---------------------------------------------------------------------------
// Reading
// ---------------------------------------------------------------------------

/// Calls `String::from_utf8`.
///
/// Trusted: std documents that it succeeds exactly on valid UTF-8, and then
/// holds the characters that the bytes encode.
#[verifier::external_body]
fn utf8_string(bytes: Vec<u8>) -> (r: Option<String>)
    ensures
        r is Some <==> valid_utf8(bytes@),
        r matches Some(s) ==> s@ == decode_utf8(bytes@),
{
    String::from_utf8(bytes).ok()
}

/// The text of a file read from `path`: its bytes decoded as UTF-8, or
/// `InvalidUtf8` naming the path when they are not valid UTF-8.
pub fn decode_content(path: &str, bytes: Vec<u8>) -> (r: Result<String, StorageError>)
    ensures
        valid_utf8(bytes@) ==> (r matches Ok(s) && s@ == decode_utf8(bytes@)),
        !valid_utf8(bytes@) ==> (r matches Err(StorageError::InvalidUtf8(p)) && p@ == path@),
{
    match utf8_string(bytes) {
        Some(s) => Ok(s),
        None => Err(StorageError::InvalidUtf8(path.to_owned())),
    }
}

// ---------------------------------------------------------------------------
// Writing
// ---------------------------------------------------------------------------

/// The name of the temporary file written beside `path` by process `pid`:
/// `.tmp_slate_NAME.PID`, where NAME is the file name of `path` (`slate_note`
/// when it has none).
pub open spec fn temp_name(path: Seq<char>, pid: u32) -> Seq<char> {
    let stem = match file_name(path) {
        Some(n) => n,
        None => "slate_note"@,
    };
    ".tmp_slate_"@ + stem + "."@ + decimal(pid as nat)
}

pub fn temp_file_name(path: &str, pid: u32) -> (r: String)
    ensures
        r@ == temp_name(path@, pid),
{
    let mut out = chars_of(".tmp_slate_");
    match file_name_of(path) {
        Some(name) => push_str(&mut out, name.as_str()),
        None => push_str(&mut out, "slate_note"),
    }
    push_str(&mut out, ".");
    push_decimal(&mut out, pid as u64);
    into_string(out)
}

// ---------------------------------------------------------------------------
// Differences
// ---------------------------------------------------------------------------

/// The kind of a line in a line diff.
#[derive(Debug, Clone, Copy, PartialEq, Eq, Structural)]
pub enum DiffTag {
    Equal,
    Delete,
    Insert,
}

/// One line of a line diff, with its line terminator.
#[derive(Debug, Clone)]
pub struct DiffLine {
    pub tag: DiffTag,
    pub text: String,
}

pub open spec fn diff_view(v: Seq<DiffLine>) -> Seq<(DiffTag, Seq<char>)> {
    v.map_values(|l: DiffLine| (l.tag, l.text@))
}

/// The lines that `similar` reports when diffing `old` against `new` line by line.
pub uninterp spec fn line_diff(old: Seq<char>, new: Seq<char>) -> Seq<(DiffTag, Seq<char>)>;

/// The text of the diff lines other than those tagged `excluded`, in order.
pub open spec fn side_text(d: Seq<(DiffTag, Seq<char>)>, excluded: DiffTag) -> Seq<char>
    decreases d.len(),
{
    if d.len() == 0 {
        seq![]
    } else if d.last().0 == excluded {
        side_text(d.drop_last(), excluded)
    } else {
        side_text(d.drop_last(), excluded) + d.last().1
    }
}

/// A line as similar cuts a text: not empty, with a line feed only as its last
/// character and a carriage return only at its end or just before a final
/// line feed.
pub open spec fn line_piece(t: Seq<char>) -> bool {
    &&& t.len() > 0
    &&& forall|i: int| 0 <= i < t.len() - 1 ==> #[trigger] t[i] != '\n'
    &&& forall|i: int|
        0 <= i < t.len() - 1 && #[trigger] t[i] == '\r' ==> i == t.len() - 2 && t[i + 1] == '\n'
}

/// The line ends with its terminator (`\n`, `\r` or `\r\n`).
pub open spec fn ends_line(t: Seq<char>) -> bool {
    t.len() > 0 && (t.last() == '\n' || t.last() == '\r')
}

/// Of the diff lines not tagged `excluded`, all but the last end with their
/// terminator.
pub open spec fn side_terminated(d: Seq<(DiffTag, Seq<char>)>, excluded: DiffTag) -> bool {
    forall|k: int, m: int|
        0 <= k < m < d.len() && (#[trigger] d[k]).0 != excluded && (#[trigger] d[m]).0 != excluded
            ==> ends_line(d[k].1)
}

/// Calls `similar::TextDiff::from_lines(old, new).iter_all_changes()`.
///
/// Trusted: the lines are `line_diff(old, new)`; as the crate's source builds
/// them, each is one line of `old` (equal and deleted lines) or of `new`
/// (inserted lines), cut after `\n`, `\r\n` or a lone `\r`, so the equal and
/// deleted lines spell `old`, the equal and inserted lines spell `new`, and on
/// each side only the last line may lack its terminator.
#[verifier::external_body]
fn diff_by_lines(old: &str, new: &str) -> (r: Vec<DiffLine>)
    ensures
        diff_view(r@) == line_diff(old@, new@),
        side_text(diff_view(r@), DiffTag::Insert) == old@,
        side_text(diff_view(r@), DiffTag::Delete) == new@,
        forall|k: int| 0 <= k < r@.len() ==> line_piece(#[trigger] diff_view(r@)[k].1),
        side_terminated(diff_view(r@), DiffTag::Insert),
        side_terminated(diff_view(r@), DiffTag::Delete),
{
    similar::TextDiff::from_lines(old, new).iter_all_changes().map(
        |c| DiffLine {
            tag: match c.tag() {
                similar::ChangeTag::Equal => DiffTag::Equal,
                similar::ChangeTag::Delete => DiffTag::Delete,
                similar::ChangeTag::Insert => DiffTag::Insert,
            },
            text: c.value().to_string(),
        },
    ).collect()
}

/// The mark before a diff line.
pub open spec fn sign_of(t: DiffTag) -> Seq<char> {
    match t {
        DiffTag::Delete => "- "@,
        DiffTag::Insert => "+ "@,
        DiffTag::Equal => "  "@,
    }
}

/// A diff as text: every line after its mark.
pub open spec fn render_diff(d: Seq<(DiffTag, Seq<char>)>) -> Seq<char>
    decreases d.len(),
{
    if d.len() == 0 {
        seq![]
    } else {
        render_diff(d.drop_last()) + sign_of(d.last().0) + d.last().1
    }
}

/// Writes out diff lines, each after its mark.
pub fn render_diff_lines(lines: &Vec<DiffLine>) -> (r: String)
    ensures
        r@ == render_diff(diff_view(lines@)),
{
    let ghost d = diff_view(lines@);
    let mut out: Vec<char> = Vec::new();
    let mut k: usize = 0;
    while k < lines.len()
        invariant
            k <= lines.len(),
            d == diff_view(lines@),
            out@ == render_diff(d.take(k as int)),
        decreases lines.len() - k,
    {
        let line = &lines[k];
        let sign = match line.tag {
            DiffTag::Delete => "- ",
            DiffTag::Insert => "+ ",
            DiffTag::Equal => "  ",
        };
        push_str(&mut out, sign);
        push_str(&mut out, line.text.as_str());
        assert(d.take(k + 1).drop_last() =~= d.take(k as int));
        k += 1;
    }
    assert(d.take(lines.len() as int) =~= d);
    into_string(out)
}

/// The text starts with a mark at `i`: `- `, `+ ` or two spaces.
pub open spec fn mark_at(s: Seq<char>, i: int) -> bool {
    &&& 0 <= i && i + 2 <= s.len()
    &&& (s[i] == '-' || s[i] == '+' || s[i] == ' ')
    &&& s[i + 1] == ' '
}

/// Every line of the text (the start, and each place after a line feed but the
/// end) begins with a mark.
pub open spec fn marked_lines(s: Seq<char>) -> bool {
    &&& s.len() > 0 ==> mark_at(s, 0)
    &&& forall|i: int| 0 <= i < s.len() - 1 && #[trigger] s[i] == '\n' ==> mark_at(s, i + 1)
}

/// A diff made of lines as similar cuts them is written out with a mark at the
/// start of every line.
pub proof fn lemma_render_marked(d: Seq<(DiffTag, Seq<char>)>)
    requires
        forall|k: int| 0 <= k < d.len() ==> line_piece(#[trigger] d[k].1),
    ensures
        marked_lines(render_diff(d)),
    decreases d.len(),
{
    reveal_strlit("- ");
    reveal_strlit("+ ");
    reveal_strlit("  ");
    if d.len() > 0 {
        let p = d.drop_last();
        assert forall|k: int| 0 <= k < p.len() implies line_piece(#[trigger] p[k].1) by {
            assert(p[k] == d[k]);
        }
        lemma_render_marked(p);
        let prev = render_diff(p);
        let sign = sign_of(d.last().0);
        let t = d.last().1;
        assert(line_piece(d[d.len() - 1].1));
        let s = render_diff(d);
        let l = prev.len() as int;
        assert(s == prev + sign + t);
        assert(sign.len() == 2);
        assert(s[l] == sign[0] && s[l + 1] == sign[1]);
        assert(mark_at(s, l));
        assert forall|i: int| 0 <= i < s.len() - 1 && #[trigger] s[i] == '\n' implies mark_at(s, i + 1) by {
            if i < l - 1 {
                assert(prev[i] == s[i]);
                assert(mark_at(prev, i + 1));
                assert(s[i + 1] == prev[i + 1] && s[i + 2] == prev[i + 2]);
            } else if i == l - 1 {
            } else if i < l + 2 {
                assert(s[i] == sign[i - l]);
            } else {
                assert(s[i] == t[i - l - 2]);
            }
        }
        if l > 0 {
            assert(mark_at(prev, 0));
            assert(s[0] == prev[0] && s[1] == prev[1]);
        }
    }
}

/// The line diff between the text on disk and the text in memory: its equal
/// and deleted lines spell the text on disk, its equal and inserted lines the
/// text in memory, each is one line of its text and only the last line of each
/// side may lack its terminator, and every line of the result begins with
/// `- `, `+ ` or two spaces.
pub fn generate_diff(disk_content: &str, memory_content: &str) -> (r: String)
    ensures
        r@ == render_diff(line_diff(disk_content@, memory_content@)),
        side_text(line_diff(disk_content@, memory_content@), DiffTag::Insert) == disk_content@,
        side_text(line_diff(disk_content@, memory_content@), DiffTag::Delete) == memory_content@,
        forall|k: int|
            0 <= k < line_diff(disk_content@, memory_content@).len() ==> line_piece(
                #[trigger] line_diff(disk_content@, memory_content@)[k].1,
            ),
        side_terminated(line_diff(disk_content@, memory_content@), DiffTag::Insert),
        side_terminated(line_diff(disk_content@, memory_content@), DiffTag::Delete),
        marked_lines(r@),
{
    let lines = diff_by_lines(disk_content, memory_content);
    proof {
        lemma_render_marked(diff_view(lines@));
    }
    render_diff_lines(&lines)
}

} // verus!
