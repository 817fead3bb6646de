use crate::editor::markdown::{
    cycle_heading, cycle_heading_prefix, indent_line, indent_text, lines_view, strings_view,
    toggle_blockquote, toggle_bullet, toggle_bullet_list, toggle_numbered, toggle_numbered_list,
    toggle_quote, unindent_line, unindent_text,
};
use crate::text::{chars_of, into_string, push_str};
use vstd::prelude::*;

verus! {

broadcast use vstd::string::group_string_axioms;

/// A Markdown change applied to each line of a block of text.
#[derive(Debug, Clone, Copy, PartialEq, Eq, Structural)]
pub enum LineTransform {
    CycleHeading,
    ToggleBullet,
    ToggleQuote,
    ToggleNumbered,
    Indent,
    Unindent,
}

/// The lines of `s`, split at each `'\n'` (`str::split('\n')`): one more line
/// than there are line breaks.
pub open spec fn split_lines(s: Seq<char>) -> Seq<Seq<char>>
    decreases s.len(),
{
    if s.len() == 0 {
        seq![seq![]]
    } else {
        let prev = split_lines(s.drop_last());
        if s.last() == '\n' {
            prev.push(seq![])
        } else {
            prev.update(prev.len() - 1, prev.last().push(s.last()))
        }
    }
}

/// The lines joined by `'\n'`.
pub open spec fn join_lines(ls: Seq<Seq<char>>) -> Seq<char>
    decreases ls.len(),
{
    if ls.len() == 0 {
        seq![]
    } else if ls.len() == 1 {
        ls[0]
    } else {
        join_lines(ls.drop_last()) + seq!['\n'] + ls.last()
    }
}

/// The lines after the change.
pub open spec fn transformed(ls: Seq<Seq<char>>, t: LineTransform) -> Seq<Seq<char>> {
    match t {
        LineTransform::CycleHeading => ls.map_values(|l: Seq<char>| cycle_heading(l)),
        LineTransform::ToggleBullet => ls.map_values(|l: Seq<char>| toggle_bullet(l)),
        LineTransform::ToggleQuote => ls.map_values(|l: Seq<char>| toggle_quote(l)),
        LineTransform::ToggleNumbered => toggle_numbered(ls),
        LineTransform::Indent => ls.map_values(|l: Seq<char>| indent_line(l)),
        LineTransform::Unindent => ls.map_values(|l: Seq<char>| unindent_line(l)),
    }
}

pub proof fn lemma_split_lines_len(s: Seq<char>)
    ensures
        split_lines(s).len() >= 1,
    decreases s.len(),
{
    if s.len() > 0 {
        lemma_split_lines_len(s.drop_last());
    }
}

/// Joining the lines of a text gives the text back.
pub proof fn lemma_join_split(s: Seq<char>)
    ensures
        join_lines(split_lines(s)) == s,
    decreases s.len(),
{
    if s.len() > 0 {
        let prev = split_lines(s.drop_last());
        lemma_split_lines_len(s.drop_last());
        lemma_join_split(s.drop_last());
        if s.last() == '\n' {
            let ls = prev.push(seq![]);
            assert(ls.drop_last() =~= prev);
            assert(join_lines(ls) =~= s.drop_last() + seq!['\n']);
            assert(s.drop_last() + seq!['\n'] =~= s);
        } else {
            let ls = prev.update(prev.len() - 1, prev.last().push(s.last()));
            if prev.len() == 1 {
                assert(join_lines(ls) == prev.last().push(s.last()));
                assert(s =~= s.drop_last().push(s.last()));
            } else {
                assert(ls.drop_last() =~= prev.drop_last());
                assert(join_lines(ls) == join_lines(prev.drop_last()) + seq!['\n'] + prev.last().push(
                    s.last(),
                ));
                assert(join_lines(prev) == join_lines(prev.drop_last()) + seq!['\n'] + prev.last());
                assert(join_lines(ls) =~= join_lines(prev).push(s.last()));
                assert(s =~= s.drop_last().push(s.last()));
            }
        }
    }
}

fn split_text(text: &str) -> (r: Vec<String>)
    ensures
        strings_view(r@) == split_lines(text@),
{
    let cs = chars_of(text);
    let ghost s = cs@;
    let mut lines: Vec<String> = Vec::new();
    let mut current: Vec<char> = Vec::new();
    let mut i: usize = 0;
    while i < cs.len()
        invariant
            i <= cs.len(),
            s == cs@,
            strings_view(lines@).push(current@) == split_lines(s.take(i as int)),
        decreases cs.len() - i,
    {
        let ghost before = strings_view(lines@).push(current@);
        assert(s.take(i + 1).drop_last() =~= s.take(i as int));
        if cs[i] == '\n' {
            let done = into_string(current);
            lines.push(done);
            current = Vec::new();
            assert(strings_view(lines@).push(current@) =~= before.push(seq![]));
        } else {
            current.push(cs[i]);
            assert(strings_view(lines@).push(current@) =~= before.update(
                before.len() - 1,
                before.last().push(cs@[i as int]),
            ));
        }
        i += 1;
    }
    assert(s.take(cs.len() as int) =~= s);
    let last = into_string(current);
    lines.push(last);
    assert(strings_view(lines@) =~= split_lines(s));
    lines
}

fn join_text(lines: &Vec<String>) -> (r: String)
    ensures
        r@ == join_lines(strings_view(lines@)),
{
    let ghost ls = strings_view(lines@);
    let mut out: Vec<char> = Vec::new();
    let mut k: usize = 0;
    while k < lines.len()
        invariant
            k <= lines.len(),
            ls == strings_view(lines@),
            out@ == join_lines(ls.take(k as int)),
        decreases lines.len() - k,
    {
        if k > 0 {
            push_str(&mut out, "\n");
            proof {
                reveal_strlit("\n");
            }
        }
        push_str(&mut out, lines[k].as_str());
        assert(ls.take(k + 1).drop_last() =~= ls.take(k as int));
        assert(k == 0 ==> ls.take(k + 1) =~= seq![ls[0]]);
        k += 1;
    }
    assert(ls.take(lines.len() as int) =~= ls);
    into_string(out)
}

/// Applies `t` to every line of `text`, keeping the line breaks.
pub fn transform_lines(text: &str, t: LineTransform) -> (r: String)
    ensures
        r@ == join_lines(transformed(split_lines(text@), t)),
{
    let lines = split_text(text);
    let ghost ls = strings_view(lines@);
    let mut refs: Vec<&str> = Vec::new();
    let mut k: usize = 0;
    while k < lines.len()
        invariant
            k <= lines.len(),
            ls == strings_view(lines@),
            lines_view(refs@) == ls.take(k as int),
        decreases lines.len() - k,
    {
        let line = lines[k].as_str();
        let ghost prev = lines_view(refs@);
        refs.push(line);
        assert(lines_view(refs@) =~= prev.push(line@));
        assert(line@ == ls[k as int]);
        assert(lines_view(refs@) =~= ls.take(k + 1));
        k += 1;
    }
    assert(ls.take(lines.len() as int) =~= ls);
    let out = match t {
        LineTransform::CycleHeading => map_lines(&refs, t),
        LineTransform::ToggleBullet => map_lines(&refs, t),
        LineTransform::ToggleQuote => map_lines(&refs, t),
        LineTransform::ToggleNumbered => toggle_numbered_list(refs.as_slice()),
        LineTransform::Indent => indent_text(refs.as_slice()),
        LineTransform::Unindent => unindent_text(refs.as_slice()),
    };
    join_text(&out)
}

fn map_lines(lines: &Vec<&str>, t: LineTransform) -> (r: Vec<String>)
    requires
        t is CycleHeading || t is ToggleBullet || t is ToggleQuote,
    ensures
        strings_view(r@) == transformed(lines_view(lines@), t),
{
    let ghost ls = lines_view(lines@);
    let mut r: Vec<String> = Vec::new();
    let mut k: usize = 0;
    while k < lines.len()
        invariant
            k <= lines.len(),
            t is CycleHeading || t is ToggleBullet || t is ToggleQuote,
            ls == lines_view(lines@),
            strings_view(r@) == transformed(ls, t).take(k as int),
        decreases lines.len() - k,
    {
        let line = match t {
            LineTransform::CycleHeading => cycle_heading_prefix(lines[k]),
            LineTransform::ToggleBullet => toggle_bullet_list(lines[k]),
            _ => toggle_blockquote(lines[k]),
        };
        let ghost prev = strings_view(r@);
        r.push(line);
        assert(strings_view(r@) =~= prev.push(line@));
        assert(strings_view(r@) =~= transformed(ls, t).take(k + 1));
        k += 1;
    }
    assert(transformed(ls, t).take(lines.len() as int) =~= transformed(ls, t));
    r
}

} // verus!
