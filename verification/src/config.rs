use vstd::prelude::*;

verus! {

/// How many recently opened files the configuration remembers.
pub const MAX_RECENT_FILES: usize = 20;

/// The smallest window width the configuration accepts.
pub const MIN_WINDOW_WIDTH: i32 = 320;

/// The smallest window height the configuration accepts.
pub const MIN_WINDOW_HEIGHT: i32 = 240;

#[derive(Debug, Clone, Copy, PartialEq, Eq, Structural)]
pub enum ThemeMode {
    System,
    Light,
    Dark,
}

impl Default for ThemeMode {
    fn default() -> (t: Self)
        ensures
            t == ThemeMode::Dark,
    {
        ThemeMode::Dark
    }
}

/// How often a modified document is saved automatically.
#[derive(Debug, Clone, Copy, PartialEq, Eq, Structural)]
pub enum AutoSaveInterval {
    Disabled,
    Sec5,
    Sec15,
    Sec30,
    Min1,
}

impl Default for AutoSaveInterval {
    fn default() -> (i: Self)
        ensures
            i == AutoSaveInterval::Sec15,
    {
        AutoSaveInterval::Sec15
    }
}

/// The period of an interval in seconds; none when disabled.
pub open spec fn seconds_of(i: AutoSaveInterval) -> Option<u32> {
    match i {
        AutoSaveInterval::Disabled => None,
        AutoSaveInterval::Sec5 => Some(5),
        AutoSaveInterval::Sec15 => Some(15),
        AutoSaveInterval::Sec30 => Some(30),
        AutoSaveInterval::Min1 => Some(60),
    }
}

/// The shortest interval that is at least `secs` long, up to one minute; no
/// period (or zero) disables saving.
pub open spec fn interval_of(secs: Option<u32>) -> AutoSaveInterval {
    match secs {
        None => AutoSaveInterval::Disabled,
        Some(s) => if s == 0 {
            AutoSaveInterval::Disabled
        } else if s <= 5 {
            AutoSaveInterval::Sec5
        } else if s <= 15 {
            AutoSaveInterval::Sec15
        } else if s <= 30 {
            AutoSaveInterval::Sec30
        } else {
            AutoSaveInterval::Min1
        },
    }
}

impl AutoSaveInterval {
    pub fn as_seconds(&self) -> (r: Option<u32>)
        ensures
            r == seconds_of(*self),
    {
        match self {
            Self::Disabled => None,
            Self::Sec5 => Some(5),
            Self::Sec15 => Some(15),
            Self::Sec30 => Some(30),
            Self::Min1 => Some(60),
        }
    }

    pub fn from_seconds(secs: Option<u32>) -> (r: Self)
        ensures
            r == interval_of(secs),
    {
        match secs {
            None => Self::Disabled,
            Some(0) => Self::Disabled,
            Some(s) => if s <= 5 {
                Self::Sec5
            } else if s <= 15 {
                Self::Sec15
            } else if s <= 30 {
                Self::Sec30
            } else {
                Self::Min1
            },
        }
    }
}

/// Every interval is found again from its number of seconds.
pub proof fn lemma_interval_seconds_round_trip(i: AutoSaveInterval)
    ensures
        interval_of(seconds_of(i)) == i,
{
}

/// A requested period of at most a minute is rounded up to an interval at least
/// as long.
pub proof fn lemma_interval_rounds_up(s: u32)
    requires
        0 < s <= 60,
    ensures
        seconds_of(interval_of(Some(s))) matches Some(t) && s <= t,
{
}

// ---------------------------------------------------------------------------
// Window size
// ---------------------------------------------------------------------------

/// The window size the configuration keeps: each side raised to its minimum.
pub fn clamp_window_size(width: i32, height: i32) -> (r: (i32, i32))
    ensures
        r.0 == if width < MIN_WINDOW_WIDTH {
            MIN_WINDOW_WIDTH
        } else {
            width
        },
        r.1 == if height < MIN_WINDOW_HEIGHT {
            MIN_WINDOW_HEIGHT
        } else {
            height
        },
{
    let w = if width < MIN_WINDOW_WIDTH {
        MIN_WINDOW_WIDTH
    } else {
        width
    };
    let h = if height < MIN_WINDOW_HEIGHT {
        MIN_WINDOW_HEIGHT
    } else {
        height
    };
    (w, h)
}

// ---------------------------------------------------------------------------
// Recent files
// ---------------------------------------------------------------------------

pub open spec fn paths_view(v: Seq<String>) -> Seq<Seq<char>> {
    v.map_values(|s: String| s@)
}

/// The paths other than `path`.
pub open spec fn other_than(path: Seq<char>) -> spec_fn(Seq<char>) -> bool {
    |p: Seq<char>| p != path
}

/// `s` cut to at most `MAX_RECENT_FILES` entries.
pub open spec fn limit_recent(s: Seq<Seq<char>>) -> Seq<Seq<char>> {
    if s.len() > MAX_RECENT_FILES {
        s.take(MAX_RECENT_FILES as int)
    } else {
        s
    }
}

/// The recent files after opening `path`: `path` first, then the others in their
/// order without it, at most `MAX_RECENT_FILES` in all.
pub open spec fn add_recent(s: Seq<Seq<char>>, path: Seq<char>) -> Seq<Seq<char>> {
    limit_recent(seq![path] + s.filter(other_than(path)))
}

fn retain_other(files: &mut Vec<String>, path: &String)
    ensures
        paths_view(final(files)@) == paths_view(old(files)@).filter(other_than(path@)),
{
    let ghost s = paths_view(files@);
    let mut kept: Vec<String> = Vec::new();
    let mut i: usize = 0;
    while i < files.len()
        invariant
            i <= files.len(),
            s == paths_view(files@),
            paths_view(kept@) == s.take(i as int).filter(other_than(path@)),
        decreases files.len() - i,
    {
        assert(s.take(i + 1).drop_last() =~= s.take(i as int));
        reveal(Seq::filter);
        if files[i] != *path {
            let ghost prev = paths_view(kept@);
            kept.push(files[i].clone());
            assert(paths_view(kept@) =~= prev.push(s[i as int]));
        }
        i += 1;
    }
    assert(s.take(files.len() as int) =~= s);
    *files = kept;
}

/// Cuts the recent files to at most `MAX_RECENT_FILES`.
pub fn limit_recent_files(files: &mut Vec<String>)
    ensures
        paths_view(final(files)@) == limit_recent(paths_view(old(files)@)),
{
    if files.len() > MAX_RECENT_FILES {
        files.truncate(MAX_RECENT_FILES);
        assert(paths_view(files@) =~= limit_recent(paths_view(old(files)@)));
    }
}

/// Records `path` as the most recently used file.
pub fn add_recent_file(files: &mut Vec<String>, path: String)
    ensures
        paths_view(final(files)@) == add_recent(paths_view(old(files)@), path@),
{
    let ghost old_view = paths_view(files@);
    retain_other(files, &path);
    let ghost rest = paths_view(files@);
    files.insert(0, path);
    assert(paths_view(files@) =~= seq![path@] + rest);
    limit_recent_files(files);
}

/// Forgets `path`.
pub fn remove_recent_file(files: &mut Vec<String>, path: &str)
    ensures
        paths_view(final(files)@) == paths_view(old(files)@).filter(other_than(path@)),
{
    let p = path.to_owned();
    retain_other(files, &p);
}

/// Forgets all recent files.
pub fn clear_recent_files(files: &mut Vec<String>)
    ensures
        final(files)@.len() == 0,
{
    files.clear();
}

proof fn lemma_filter_distinct(s: Seq<Seq<char>>, pred: spec_fn(Seq<char>) -> bool)
    requires
        s.no_duplicates(),
    ensures
        s.filter(pred).no_duplicates(),
    decreases s.len(),
{
    reveal(Seq::filter);
    if s.len() > 0 {
        let rest = s.drop_last();
        assert(rest.no_duplicates()) by {
            assert forall|i: int, j: int| 0 <= i < rest.len() && 0 <= j < rest.len() && i != j implies rest[i] != rest[j] by {
                assert(rest[i] == s[i] && rest[j] == s[j]);
            }
        }
        lemma_filter_distinct(rest, pred);
        let fr = rest.filter(pred);
        if pred(s.last()) {
            let f = fr.push(s.last());
            assert(s.filter(pred) == f);
            if fr.contains(s.last()) {
                rest.lemma_filter_contains_rev(pred, s.last());
                let k = choose|k: int| 0 <= k < rest.len() && rest[k] == s.last();
                assert(s[k] == s[s.len() - 1]);
            }
            assert forall|i: int, j: int| 0 <= i < f.len() && 0 <= j < f.len() && i != j implies f[i] != f[j] by {
                if i < fr.len() && j < fr.len() {
                } else if i < fr.len() {
                    assert(fr.contains(fr[i]));
                } else {
                    assert(fr.contains(fr[j]));
                }
            }
        }
    }
}

/// After opening a file it comes first, it is listed once, at most
/// `MAX_RECENT_FILES` files are listed, and files listed once at most stay so.
pub proof fn lemma_add_recent(s: Seq<Seq<char>>, path: Seq<char>)
    ensures
        add_recent(s, path).len() <= MAX_RECENT_FILES,
        add_recent(s, path)[0] == path,
        forall|i: int| 0 < i < add_recent(s, path).len() ==> #[trigger] add_recent(s, path)[i] != path,
        s.no_duplicates() ==> add_recent(s, path).no_duplicates(),
{
    let f = s.filter(other_than(path));
    let t = seq![path] + f;
    let r = add_recent(s, path);
    assert(r.len() <= t.len());
    assert(forall|i: int| 0 <= i < r.len() ==> r[i] == #[trigger] t[i]);
    assert forall|i: int| 0 <= i < f.len() implies #[trigger] f[i] != path by {
        s.lemma_filter_pred(other_than(path), i);
    }
    assert forall|i: int| 0 < i < r.len() implies #[trigger] r[i] != path by {
        assert(t[i] == f[i - 1]);
    }
    if s.no_duplicates() {
        lemma_filter_distinct(s, other_than(path));
        assert forall|i: int, j: int| 0 <= i < r.len() && 0 <= j < r.len() && i != j implies r[i]
            != r[j] by {
            assert(r[i] == t[i]);
            assert(r[j] == t[j]);
            if i > 0 && j > 0 {
                assert(t[i] == f[i - 1] && t[j] == f[j - 1]);
            }
        }
    }
}

} // verus!
