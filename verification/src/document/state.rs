use crate::text::{chars_of, into_string, push_range, push_str};
use std::time::SystemTime;
use vstd::prelude::*;

verus! {

broadcast use vstd::string::group_string_axioms;

#[verifier::external_type_specification]
#[verifier::external_body]
pub struct ExSystemTime(SystemTime);

/// Where a document stands with respect to its file.
#[derive(Debug, Clone, PartialEq, Eq)]
pub enum DocumentStatus {
    Clean,
    Dirty,
    Saving,
    Error(String),
}

/// The mathematical value of a `DocumentStatus`.
pub enum StatusView {
    Clean,
    Dirty,
    Saving,
    Error(Seq<char>),
}

impl View for DocumentStatus {
    type V = StatusView;

    open spec fn view(&self) -> StatusView {
        match self {
            DocumentStatus::Clean => StatusView::Clean,
            DocumentStatus::Dirty => StatusView::Dirty,
            DocumentStatus::Saving => StatusView::Saving,
            DocumentStatus::Error(e) => StatusView::Error(e@),
        }
    }
}

/// The note being edited: its file, if it has one, its status, and the
/// modification time of the file when it was last read or written.
#[derive(Debug, Clone)]
pub struct Document {
    path: Option<String>,
    status: DocumentStatus,
    last_mtime: Option<SystemTime>,
}

/// The mathematical value of a `Document`.
pub struct DocumentView {
    pub path: Option<Seq<char>>,
    pub status: StatusView,
    pub last_mtime: Option<SystemTime>,
}

impl View for Document {
    type V = DocumentView;

    closed spec fn view(&self) -> DocumentView {
        DocumentView {
            path: match self.path {
                Some(p) => Some(p@),
                None => None,
            },
            status: self.status@,
            last_mtime: self.last_mtime,
        }
    }
}

impl Default for Document {
    fn default() -> (d: Self)
        ensures
            d@ == (DocumentView { path: None, status: StatusView::Clean, last_mtime: None }),
    {
        Self::new_untitled()
    }
}

impl Document {
    /// A new document with no file.
    pub fn new_untitled() -> (d: Self)
        ensures
            d@ == (DocumentView { path: None, status: StatusView::Clean, last_mtime: None }),
    {
        Self { path: None, status: DocumentStatus::Clean, last_mtime: None }
    }

    /// A document just read from `path`, whose modification time was `mtime`.
    pub fn from_path(path: String, mtime: SystemTime) -> (d: Self)
        ensures
            d@ == (DocumentView {
                path: Some(path@),
                status: StatusView::Clean,
                last_mtime: Some(mtime),
            }),
    {
        Self { path: Some(path), status: DocumentStatus::Clean, last_mtime: Some(mtime) }
    }

    pub fn path(&self) -> (r: Option<&str>)
        ensures
            r matches Some(p) ==> self@.path == Some(p@),
            r is None ==> self@.path is None,
    {
        match &self.path {
            Some(p) => Some(p.as_str()),
            None => None,
        }
    }

    pub fn set_path(&mut self, path: String)
        ensures
            final(self)@ == (DocumentView { path: Some(path@), ..old(self)@ }),
    {
        self.path = Some(path);
    }

    pub fn status(&self) -> (r: &DocumentStatus)
        ensures
            r@ == self@.status,
    {
        &self.status
    }

    pub fn is_dirty(&self) -> (r: bool)
        ensures
            r == (self@.status is Dirty),
    {
        matches!(self.status, DocumentStatus::Dirty)
    }

    /// The document now matches its file, last modified at `mtime`.
    pub fn mark_clean(&mut self, mtime: SystemTime)
        ensures
            final(self)@ == (DocumentView {
                status: StatusView::Clean,
                last_mtime: Some(mtime),
                ..old(self)@
            }),
    {
        self.status = DocumentStatus::Clean;
        self.last_mtime = Some(mtime);
    }

    pub fn mark_dirty(&mut self)
        ensures
            final(self)@ == (DocumentView { status: StatusView::Dirty, ..old(self)@ }),
    {
        if !matches!(self.status, DocumentStatus::Dirty) {
            self.status = DocumentStatus::Dirty;
        }
    }

    pub fn mark_saving(&mut self)
        ensures
            final(self)@ == (DocumentView { status: StatusView::Saving, ..old(self)@ }),
    {
        self.status = DocumentStatus::Saving;
    }

    pub fn mark_error(&mut self, err: &str)
        ensures
            final(self)@ == (DocumentView { status: StatusView::Error(err@), ..old(self)@ }),
    {
        self.status = DocumentStatus::Error(err.to_owned());
    }

    pub fn last_mtime(&self) -> (r: Option<SystemTime>)
        ensures
            r == self@.last_mtime,
    {
        self.last_mtime
    }

    pub fn set_last_mtime(&mut self, mtime: Option<SystemTime>)
        ensures
            final(self)@ == (DocumentView { last_mtime: mtime, ..old(self)@ }),
    {
        self.last_mtime = mtime;
    }
}


// ---------------------------------------------------------------------------
// Names
// ---------------------------------------------------------------------------

/// The index of the last `c` in `s`, or -1 when there is none.
pub open spec fn last_index_of(s: Seq<char>, c: char) -> int
    decreases s.len(),
{
    if s.len() == 0 {
        -1
    } else if s.last() == c {
        s.len() - 1
    } else {
        last_index_of(s.drop_last(), c)
    }
}

pub proof fn lemma_last_index_of(s: Seq<char>, c: char)
    ensures
        -1 <= last_index_of(s, c) < s.len(),
        last_index_of(s, c) >= 0 ==> s[last_index_of(s, c)] == c,
        forall|i: int| last_index_of(s, c) < i < s.len() ==> #[trigger] s[i] != c,
    decreases s.len(),
{
    if s.len() > 0 && s.last() != c {
        lemma_last_index_of(s.drop_last(), c);
        let k = last_index_of(s, c);
        assert forall|i: int| k < i < s.len() implies #[trigger] s[i] != c by {
            if i < s.len() - 1 {
                assert(s[i] == s.drop_last()[i]);
            }
        }
    }
}

/// The final component of a Unix path, as `Path::file_name` finds it: trailing
/// `/` and `.` components are passed over, and a path ending in `..`, the root,
/// `.` or the empty path has none.
pub open spec fn file_name(p: Seq<char>) -> Option<Seq<char>>
    decreases p.len(),
{
    if p.len() == 0 {
        None
    } else if p.last() == '/' {
        file_name(p.drop_last())
    } else {
        let k = last_index_of(p, '/');
        let comp = p.skip(k + 1);
        if comp == seq!['.'] {
            if k < 0 {
                None
            } else {
                proof {
                    lemma_last_index_of(p, '/');
                }
                file_name(p.take(k))
            }
        } else if comp == seq!['.', '.'] {
            None
        } else {
            Some(comp)
        }
    }
}

/// The name shown for a document: the file name of its path, `Document` for a
/// path without one, and `Sans titre` for a document with no file.
pub open spec fn display_name_of(path: Option<Seq<char>>) -> Seq<char> {
    match path {
        Some(p) => match file_name(p) {
            Some(name) => name,
            None => "Document"@,
        },
        None => "Sans titre"@,
    }
}

/// The window title: the document's name, followed by ` *` while it has unsaved changes.
pub open spec fn window_title_of(d: DocumentView) -> Seq<char> {
    if d.status is Dirty {
        display_name_of(d.path) + " *"@
    } else {
        display_name_of(d.path)
    }
}

fn last_slash(cs: &Vec<char>, end: usize) -> (r: Option<usize>)
    requires
        end <= cs.len(),
    ensures
        r matches Some(k) ==> last_index_of(cs@.take(end as int), '/') == k as int && k < end,
        r is None ==> last_index_of(cs@.take(end as int), '/') == -1,
{
    let ghost s = cs@.take(end as int);
    let mut i = end;
    assert(s.take(end as int) =~= s);
    while i > 0 && cs[i - 1] != '/'
        invariant
            i <= end <= cs.len(),
            s == cs@.take(end as int),
            last_index_of(s.take(i as int), '/') == last_index_of(s, '/'),
        decreases i,
    {
        assert(s.take(i as int).drop_last() =~= s.take(i - 1));
        i -= 1;
    }
    if i == 0 {
        assert(s.take(0) =~= Seq::<char>::empty());
        None
    } else {
        assert(s.take(i as int).last() == '/');
        Some(i - 1)
    }
}

pub(crate) fn file_name_of(path: &str) -> (r: Option<String>)
    ensures
        r matches Some(n) ==> file_name(path@) == Some(n@),
        r is None ==> file_name(path@) is None,
{
    let cs = chars_of(path);
    let mut end = cs.len();
    assert(cs@.take(end as int) =~= cs@);
    loop
        invariant
            end <= cs.len(),
            file_name(cs@.take(end as int)) == file_name(path@),
            cs@ == path@,
        decreases end,
    {
        let ghost p = cs@.take(end as int);
        if end == 0 {
            return None;
        }
        if cs[end - 1] == '/' {
            assert(p.drop_last() =~= cs@.take(end - 1));
            end -= 1;
        } else {
            let (k, start) = match last_slash(&cs, end) {
                Some(k) => (Some(k), k + 1),
                None => (None, 0),
            };
            let ghost comp = p.skip(start as int);
            assert(comp =~= cs@.subrange(start as int, end as int));
            let len = end - start;
            if len == 1 && cs[start] == '.' {
                assert(comp =~= seq!['.']);
                match k {
                    None => {
                        return None;
                    },
                    Some(k) => {
                        assert(p.take(k as int) =~= cs@.take(k as int));
                        end = k;
                    },
                }
            } else if len == 2 && cs[start] == '.' && cs[start + 1] == '.' {
                assert(comp =~= seq!['.', '.']);
                assert(comp != seq!['.']);
                return None;
            } else {
                assert(comp != seq!['.']) by {
                    if comp == seq!['.'] {
                        assert(comp.len() == 1 && comp[0] == cs@[start as int]);
                    }
                }
                assert(comp != seq!['.', '.']) by {
                    if comp == seq!['.', '.'] {
                        assert(comp[0] == cs@[start as int] && comp[1] == cs@[start + 1]);
                    }
                }
                let mut out: Vec<char> = Vec::new();
                push_range(&mut out, &cs, start, end);
                return Some(into_string(out));
            }
        }
    }
}

impl Document {
    pub fn display_name(&self) -> (r: String)
        ensures
            r@ == display_name_of(self@.path),
    {
        match &self.path {
            Some(path) => match file_name_of(path.as_str()) {
                Some(name) => name,
                None => "Document".to_owned(),
            },
            None => "Sans titre".to_owned(),
        }
    }

    pub fn window_title(&self) -> (r: String)
        ensures
            r@ == window_title_of(self@),
    {
        let name = self.display_name();
        if self.is_dirty() {
            let mut out = chars_of(name.as_str());
            push_str(&mut out, " *");
            into_string(out)
        } else {
            name
        }
    }
}

} // verus!
