use crate::text::{
    is_whitespace, lemma_leading_whitespace, lemma_leading_whitespace_of,
    chars_of, count_leading_whitespace, count_run, ends_with, indentation, into_string,
    least_in, leading_whitespace, lemma_least_in_found, lemma_least_in_none, lemma_run_length,
    push_range, push_str, run_length, starts_with, starts_with_at, trim_start,
};
use vstd::prelude::*;

verus! {

broadcast use vstd::string::group_string_axioms;

/// `s` is already enclosed by `prefix` and `suffix`, which do not overlap in it.
pub open spec fn is_wrapped(s: Seq<char>, prefix: Seq<char>, suffix: Seq<char>) -> bool {
    starts_with(s, prefix) && ends_with(s, suffix) && s.len() >= prefix.len() + suffix.len()
}

/// Toggling `prefix`/`suffix` around a selection: the new text and the character
/// range to select in it. An empty selection gets `prefix suffix` with the cursor
/// between them; an enclosed selection loses them; any other selection gains them.
pub open spec fn toggle_wrap_result(s: Seq<char>, prefix: Seq<char>, suffix: Seq<char>) -> (
    Seq<char>,
    int,
    int,
) {
    if s.len() == 0 {
        (prefix + suffix, prefix.len() as int, prefix.len() as int)
    } else if is_wrapped(s, prefix, suffix) {
        let inner = s.subrange(prefix.len() as int, s.len() - suffix.len());
        (inner, 0, inner.len() as int)
    } else {
        let wrapped = prefix + s + suffix;
        (wrapped, 0, wrapped.len() as int)
    }
}

pub open spec fn result_view(r: (String, usize, usize)) -> (Seq<char>, int, int) {
    (r.0@, r.1 as int, r.2 as int)
}

fn ends_with_chars(s: &Vec<char>, q: &Vec<char>) -> (r: bool)
    ensures
        r == ends_with(s@, q@),
{
    if q.len() > s.len() {
        return false;
    }
    let r = starts_with_at(s, s.len() - q.len(), q);
    assert(s@.skip(s.len() - q.len()).take(q.len() as int) =~= s@.skip(s.len() - q.len()));
    r
}

/// Adds or removes `prefix`/`suffix` around `selected`, with the range to select.
pub fn toggle_wrap(selected: &str, prefix: &str, suffix: &str) -> (r: (String, usize, usize))
    requires
        selected@.len() + prefix@.len() + suffix@.len() <= usize::MAX,
    ensures
        result_view(r) == toggle_wrap_result(selected@, prefix@, suffix@),
{
    let s = chars_of(selected);
    let p = chars_of(prefix);
    let q = chars_of(suffix);
    let mut out: Vec<char> = Vec::new();
    if s.len() == 0 {
        push_range(&mut out, &p, 0, p.len());
        push_range(&mut out, &q, 0, q.len());
        assert(out@ =~= p@ + q@);
        let cursor = p.len();
        return (into_string(out), cursor, cursor);
    }
    if starts_with_at(&s, 0, &p) && ends_with_chars(&s, &q) && s.len() >= p.len() + q.len() {
        assert(s@.skip(0) =~= s@);
        push_range(&mut out, &s, p.len(), s.len() - q.len());
        assert(out@ =~= s@.subrange(p@.len() as int, s@.len() - q@.len()));
        let len = out.len();
        (into_string(out), 0, len)
    } else {
        assert(s@.skip(0) =~= s@);
        push_range(&mut out, &p, 0, p.len());
        push_range(&mut out, &s, 0, s.len());
        push_range(&mut out, &q, 0, q.len());
        assert(out@ =~= p@ + s@ + q@);
        let len = out.len();
        (into_string(out), 0, len)
    }
}

/// Toggling again restores a selection that the first toggle wrapped.
pub proof fn lemma_toggle_wrap_round_trip(s: Seq<char>, prefix: Seq<char>, suffix: Seq<char>)
    requires
        s.len() > 0,
        !is_wrapped(s, prefix, suffix),
    ensures
        toggle_wrap_result(toggle_wrap_result(s, prefix, suffix).0, prefix, suffix).0 == s,
{
    let w = prefix + s + suffix;
    assert(w.take(prefix.len() as int) =~= prefix);
    assert(w.skip(w.len() - suffix.len()) =~= suffix);
    assert(w.subrange(prefix.len() as int, w.len() - suffix.len()) =~= s);
}


// ---------------------------------------------------------------------------
// Links and code
// ---------------------------------------------------------------------------

/// A link around the selection, with the range of the part left to fill in:
/// `[texte](url)` selecting `texte` when nothing is selected, `[lien](URL)`
/// selecting `lien` for a selected `http://` or `https://` address, and
/// `[selection](url)` selecting `url` otherwise.
pub open spec fn wrap_link_result(s: Seq<char>) -> (Seq<char>, int, int) {
    if s.len() == 0 {
        ("[texte](url)"@, 1, 6)
    } else if starts_with(s, "http://"@) || starts_with(s, "https://"@) {
        ("[lien]("@ + s + ")"@, 1, 5)
    } else {
        ("["@ + s + "](url)"@, s.len() + 3int, s.len() + 6int)
    }
}

pub fn wrap_link(selected: &str) -> (r: (String, usize, usize))
    requires
        selected@.len() + 8 <= usize::MAX,
    ensures
        result_view(r) == wrap_link_result(selected@),
{
    let s = chars_of(selected);
    if s.len() == 0 {
        return ("[texte](url)".to_owned(), 1, 6);
    }
    if starts_with_at(&s, 0, &chars_of("http://")) || starts_with_at(&s, 0, &chars_of("https://")) {
        assert(s@.skip(0) =~= s@);
        let mut out: Vec<char> = Vec::new();
        push_str(&mut out, "[lien](");
        push_range(&mut out, &s, 0, s.len());
        push_str(&mut out, ")");
        assert(out@ =~= "[lien]("@ + s@ + ")"@);
        (into_string(out), 1, 5)
    } else {
        assert(s@.skip(0) =~= s@);
        let mut out: Vec<char> = Vec::new();
        push_str(&mut out, "[");
        push_range(&mut out, &s, 0, s.len());
        push_str(&mut out, "](url)");
        assert(out@ =~= "["@ + s@ + "](url)"@);
        let start = 1 + s.len() + 2;
        (into_string(out), start, start + 3)
    }
}

/// Code around the selection: an empty fenced block with the cursor inside when
/// nothing is selected, a fenced block around a selection of several lines, and
/// inline code toggled with backquotes otherwise.
pub open spec fn wrap_code_result(s: Seq<char>) -> (Seq<char>, int, int) {
    if s.len() == 0 {
        ("```\n\n```"@, 4, 4)
    } else if s.contains('\n') {
        let block = "```\n"@ + s + "\n```"@;
        (block, 0, block.len() as int)
    } else {
        toggle_wrap_result(s, "`"@, "`"@)
    }
}

fn contains_char(s: &Vec<char>, c: char) -> (r: bool)
    ensures
        r == s@.contains(c),
{
    let mut i: usize = 0;
    while i < s.len()
        invariant
            i <= s.len(),
            forall|j: int| 0 <= j < i ==> s@[j] != c,
        decreases s.len() - i,
    {
        if s[i] == c {
            assert(s@[i as int] == c);
            return true;
        }
        i += 1;
    }
    false
}

pub fn wrap_code(selected: &str) -> (r: (String, usize, usize))
    requires
        selected@.len() + 8 <= usize::MAX,
    ensures
        result_view(r) == wrap_code_result(selected@),
{
    let s = chars_of(selected);
    if s.len() == 0 {
        return ("```\n\n```".to_owned(), 4, 4);
    }
    if contains_char(&s, '\n') {
        let mut out: Vec<char> = Vec::new();
        push_str(&mut out, "```\n");
        push_range(&mut out, &s, 0, s.len());
        push_str(&mut out, "\n```");
        assert(out@ =~= "```\n"@ + s@ + "\n```"@);
        let len = out.len();
        (into_string(out), 0, len)
    } else {
        proof {
            reveal_strlit("`");
        }
        toggle_wrap(selected, "`", "`")
    }
}

// ---------------------------------------------------------------------------
// Line prefixes
// ---------------------------------------------------------------------------

/// The heading marker of a trimmed line: the number of leading `#` when one to
/// six of them are followed by a space, else 0.
pub open spec fn heading_level(t: Seq<char>) -> int {
    let h = run_length(t, 0, '#') as int;
    if 1 <= h <= 6 && h < t.len() && t[h] == ' ' {
        h
    } else {
        0
    }
}

/// The next heading level of a line, keeping its indentation: plain text becomes
/// `# `, each level gains a `#`, and level six returns to plain text.
pub open spec fn cycle_heading(line: Seq<char>) -> Seq<char> {
    let indent = indentation(line);
    let t = trim_start(line);
    let h = heading_level(t);
    if h == 0 {
        indent + "# "@ + t
    } else if h == 6 {
        indent + t.skip(7)
    } else {
        indent + "#"@ + t
    }
}

pub proof fn lemma_run_length_skip(s: Seq<char>, k: int, from: int, ch: char)
    requires
        0 <= k <= s.len(),
        0 <= from,
    ensures
        run_length(s.skip(k), from, ch) == run_length(s, k + from, ch),
    decreases s.len() - (k + from),
{
    if k + from < s.len() && s[k + from] == ch {
        lemma_run_length_skip(s, k, from + 1, ch);
    }
}

pub fn cycle_heading_prefix(line: &str) -> (r: String)
    ensures
        r@ == cycle_heading(line@),
{
    let cs = chars_of(line);
    let k = count_leading_whitespace(&cs);
    let hashes = count_run(&cs, k, '#');
    let ghost t = cs@.skip(k as int);
    proof {
        lemma_run_length_skip(cs@, k as int, 0, '#');
        reveal_strlit("# ");
        reveal_strlit("#");
    }
    let mut out: Vec<char> = Vec::new();
    push_range(&mut out, &cs, 0, k);
    assert(out@ =~= indentation(cs@));
    let i = k + hashes;
    if hashes >= 1 && hashes <= 6 && i < cs.len() && cs[i] == ' ' {
        assert(t[hashes as int] == cs@[i as int]);
        if hashes == 6 {
            push_range(&mut out, &cs, i + 1, cs.len());
            assert(cs@.subrange(i + 1, cs@.len() as int) =~= t.skip(7));
        } else {
            push_str(&mut out, "#");
            push_range(&mut out, &cs, k, cs.len());
            assert(cs@.subrange(k as int, cs@.len() as int) =~= t);
        }
    } else {
        assert(1 <= hashes <= 6 && i < cs.len() ==> t[hashes as int] == cs@[i as int]);
        push_str(&mut out, "# ");
        push_range(&mut out, &cs, k, cs.len());
        assert(cs@.subrange(k as int, cs@.len() as int) =~= t);
    }
    into_string(out)
}

/// A bullet item (`- ` or `* `) loses its marker; any other line becomes `- ` item.
pub open spec fn toggle_bullet(line: Seq<char>) -> Seq<char> {
    let t = trim_start(line);
    if starts_with(t, "- "@) || starts_with(t, "* "@) {
        indentation(line) + t.skip(2)
    } else {
        indentation(line) + "- "@ + t
    }
}

/// A quoted line (`> `) loses its marker; any other line gains it.
pub open spec fn toggle_quote(line: Seq<char>) -> Seq<char> {
    let t = trim_start(line);
    if starts_with(t, "> "@) {
        indentation(line) + t.skip(2)
    } else {
        indentation(line) + "> "@ + t
    }
}

pub fn toggle_bullet_list(line: &str) -> (r: String)
    ensures
        r@ == toggle_bullet(line@),
{
    let cs = chars_of(line);
    let k = count_leading_whitespace(&cs);
    let ghost t = cs@.skip(k as int);
    let mut out: Vec<char> = Vec::new();
    push_range(&mut out, &cs, 0, k);
    assert(out@ =~= indentation(cs@));
    if starts_with_at(&cs, k, &chars_of("- ")) || starts_with_at(&cs, k, &chars_of("* ")) {
        proof {
            reveal_strlit("- ");
            reveal_strlit("* ");
        }
        push_range(&mut out, &cs, k + 2, cs.len());
        assert(cs@.subrange(k + 2, cs@.len() as int) =~= t.skip(2));
    } else {
        push_str(&mut out, "- ");
        push_range(&mut out, &cs, k, cs.len());
        assert(cs@.subrange(k as int, cs@.len() as int) =~= t);
    }
    into_string(out)
}

pub fn toggle_blockquote(line: &str) -> (r: String)
    ensures
        r@ == toggle_quote(line@),
{
    let cs = chars_of(line);
    let k = count_leading_whitespace(&cs);
    let ghost t = cs@.skip(k as int);
    let mut out: Vec<char> = Vec::new();
    push_range(&mut out, &cs, 0, k);
    assert(out@ =~= indentation(cs@));
    if starts_with_at(&cs, k, &chars_of("> ")) {
        proof {
            reveal_strlit("> ");
        }
        push_range(&mut out, &cs, k + 2, cs.len());
        assert(cs@.subrange(k + 2, cs@.len() as int) =~= t.skip(2));
    } else {
        push_str(&mut out, "> ");
        push_range(&mut out, &cs, k, cs.len());
        assert(cs@.subrange(k as int, cs@.len() as int) =~= t);
    }
    into_string(out)
}


// ---------------------------------------------------------------------------
// Several lines
// ---------------------------------------------------------------------------

pub open spec fn lines_view(lines: Seq<&str>) -> Seq<Seq<char>> {
    lines.map_values(|l: &str| l@)
}

pub open spec fn strings_view(v: Seq<String>) -> Seq<Seq<char>> {
    v.map_values(|s: String| s@)
}

/// A line indented by four more spaces.
pub open spec fn indent_line(line: Seq<char>) -> Seq<char> {
    "    "@ + line
}

/// A line with one level of indentation removed: four spaces, else a tab, else
/// whatever spaces it starts with.
pub open spec fn unindent_line(line: Seq<char>) -> Seq<char> {
    if starts_with(line, "    "@) {
        line.skip(4)
    } else if starts_with(line, "\t"@) {
        line.skip(1)
    } else {
        line.skip(run_length(line, 0, ' ') as int)
    }
}

pub fn indent_text(lines: &[&str]) -> (r: Vec<String>)
    ensures
        strings_view(r@) == lines_view(lines@).map_values(|l: Seq<char>| indent_line(l)),
{
    let mut r: Vec<String> = Vec::new();
    let mut i: usize = 0;
    while i < lines.len()
        invariant
            i <= lines.len(),
            strings_view(r@) == lines_view(lines@).take(i as int).map_values(
                |l: Seq<char>| indent_line(l),
            ),
        decreases lines.len() - i,
    {
        let mut out: Vec<char> = Vec::new();
        push_str(&mut out, "    ");
        push_str(&mut out, lines[i]);
        let line = into_string(out);
        let ghost prev = strings_view(r@);
        r.push(line);
        assert(strings_view(r@) =~= prev.push(indent_line(lines@[i as int]@)));
        assert(lines_view(lines@).take(i + 1) =~= lines_view(lines@).take(i as int).push(
            lines@[i as int]@,
        ));
        assert(strings_view(r@) =~= lines_view(lines@).take(i + 1).map_values(
            |l: Seq<char>| indent_line(l),
        ));
        i += 1;
    }
    assert(lines_view(lines@).take(lines.len() as int) =~= lines_view(lines@));
    r
}

fn unindent_one(line: &str) -> (r: String)
    ensures
        r@ == unindent_line(line@),
{
    let cs = chars_of(line);
    let mut out: Vec<char> = Vec::new();
    proof {
        reveal_strlit("    ");
        reveal_strlit("\t");
        assert(cs@.skip(0) =~= cs@);
    }
    if starts_with_at(&cs, 0, &chars_of("    ")) {
        push_range(&mut out, &cs, 4, cs.len());
    } else if starts_with_at(&cs, 0, &chars_of("\t")) {
        push_range(&mut out, &cs, 1, cs.len());
    } else {
        let spaces = count_run(&cs, 0, ' ');
        push_range(&mut out, &cs, spaces, cs.len());
    }
    into_string(out)
}

pub fn unindent_text(lines: &[&str]) -> (r: Vec<String>)
    ensures
        strings_view(r@) == lines_view(lines@).map_values(|l: Seq<char>| unindent_line(l)),
{
    let mut r: Vec<String> = Vec::new();
    let mut i: usize = 0;
    while i < lines.len()
        invariant
            i <= lines.len(),
            strings_view(r@) == lines_view(lines@).take(i as int).map_values(
                |l: Seq<char>| unindent_line(l),
            ),
        decreases lines.len() - i,
    {
        let line = unindent_one(lines[i]);
        let ghost prev = strings_view(r@);
        r.push(line);
        assert(strings_view(r@) =~= prev.push(unindent_line(lines@[i as int]@)));
        assert(lines_view(lines@).take(i + 1) =~= lines_view(lines@).take(i as int).push(
            lines@[i as int]@,
        ));
        assert(strings_view(r@) =~= lines_view(lines@).take(i + 1).map_values(
            |l: Seq<char>| unindent_line(l),
        ));
        i += 1;
    }
    assert(lines_view(lines@).take(lines.len() as int) =~= lines_view(lines@));
    r
}

/// The decimal digit `d` (`d < 10`).
pub open spec fn digit_char(d: nat) -> char {
    if d == 0 {
        '0'
    } else if d == 1 {
        '1'
    } else if d == 2 {
        '2'
    } else if d == 3 {
        '3'
    } else if d == 4 {
        '4'
    } else if d == 5 {
        '5'
    } else if d == 6 {
        '6'
    } else if d == 7 {
        '7'
    } else if d == 8 {
        '8'
    } else {
        '9'
    }
}

/// `n` written in decimal.
pub open spec fn decimal(n: nat) -> Seq<char>
    decreases n,
{
    if n < 10 {
        seq![digit_char(n)]
    } else {
        decimal(n / 10) + seq![digit_char(n % 10)]
    }
}

pub open spec fn is_digit(c: char) -> bool {
    '0' <= c && c <= '9'
}

/// The first `". "` in `t`.
pub open spec fn find_dot_space(t: Seq<char>) -> Option<int> {
    least_in(0, t.len() - 1, |i: int| t[i] == '.' && t[i + 1] == ' ')
}

/// After its indentation, the line starts with a digit and holds `". "`.
pub open spec fn is_numbered(line: Seq<char>) -> bool {
    let t = trim_start(line);
    t.len() > 0 && is_digit(t[0]) && find_dot_space(t) is Some
}

/// A numbered line without its number: what follows its first `". "`.
pub open spec fn unnumber(line: Seq<char>) -> Seq<char> {
    let t = trim_start(line);
    match find_dot_space(t) {
        Some(p) => indentation(line) + t.skip(p + 2),
        None => line,
    }
}

/// The line as item `n` of a numbered list.
pub open spec fn number(line: Seq<char>, n: nat) -> Seq<char> {
    indentation(line) + decimal(n) + ". "@ + trim_start(line)
}

pub open spec fn all_numbered(lines: Seq<Seq<char>>) -> bool {
    forall|i: int| 0 <= i < lines.len() ==> is_numbered(#[trigger] lines[i])
}

/// When every line is numbered the numbers are removed; otherwise the lines are
/// numbered from 1.
pub open spec fn toggle_numbered(lines: Seq<Seq<char>>) -> Seq<Seq<char>> {
    if all_numbered(lines) {
        lines.map_values(|l: Seq<char>| unnumber(l))
    } else {
        Seq::new(lines.len(), |i: int| number(lines[i], (i + 1) as nat))
    }
}

fn digit_of(d: u64) -> (c: char)
    requires
        d < 10,
    ensures
        c == digit_char(d as nat),
{
    match d {
        0 => '0',
        1 => '1',
        2 => '2',
        3 => '3',
        4 => '4',
        5 => '5',
        6 => '6',
        7 => '7',
        8 => '8',
        _ => '9',
    }
}

pub(crate) fn push_decimal(out: &mut Vec<char>, n: u64)
    ensures
        final(out)@ == old(out)@ + decimal(n as nat),
    decreases n,
{
    if n >= 10 {
        push_decimal(out, n / 10);
    }
    out.push(digit_of(n % 10));
    assert(out@ =~= old(out)@ + decimal(n as nat));
}

fn find_dot_space_exec(t: &Vec<char>) -> (r: Option<usize>)
    ensures
        r matches Some(p) ==> find_dot_space(t@) == Some(p as int) && p + 1 < t.len(),
        r is None ==> find_dot_space(t@) is None,
{
    let ghost p = |i: int| t@[i] == '.' && t@[i + 1] == ' ';
    let mut i: usize = 0;
    while i < t.len() && i + 1 < t.len()
        invariant
            i <= t.len(),
            p == (|i: int| t@[i] == '.' && t@[i + 1] == ' '),
            forall|k: int| 0 <= k < i ==> !#[trigger] p(k),
        decreases t.len() - i,
    {
        if t[i] == '.' && t[i + 1] == ' ' {
            proof {
                lemma_least_in_found(0, t@.len() - 1, p, i as int);
            }
            return Some(i);
        }
        i += 1;
    }
    proof {
        lemma_least_in_none(0, t@.len() - 1, p);
    }
    None
}

/// The trimmed characters of a line, and its indentation length.
fn split_indent(line: &str) -> (r: (Vec<char>, Vec<char>))
    ensures
        r.0@ == indentation(line@),
        r.1@ == trim_start(line@),
{
    let cs = chars_of(line);
    let k = count_leading_whitespace(&cs);
    let mut indent: Vec<char> = Vec::new();
    push_range(&mut indent, &cs, 0, k);
    let mut t: Vec<char> = Vec::new();
    push_range(&mut t, &cs, k, cs.len());
    assert(indent@ =~= indentation(cs@));
    assert(t@ =~= trim_start(cs@));
    (indent, t)
}

fn is_numbered_exec(line: &str) -> (r: bool)
    ensures
        r == is_numbered(line@),
{
    let (_indent, t) = split_indent(line);
    t.len() > 0 && '0' <= t[0] && t[0] <= '9' && find_dot_space_exec(&t).is_some()
}

fn unnumber_exec(line: &str) -> (r: String)
    ensures
        r@ == unnumber(line@),
{
    let (indent, t) = split_indent(line);
    match find_dot_space_exec(&t) {
        Some(pos) => {
            let mut out = indent;
            push_range(&mut out, &t, pos + 2, t.len());
            assert(t@.subrange(pos + 2, t@.len() as int) =~= t@.skip(pos + 2));
            into_string(out)
        },
        None => line.to_owned(),
    }
}

fn number_exec(line: &str, n: usize) -> (r: String)
    ensures
        r@ == number(line@, n as nat),
{
    let (indent, t) = split_indent(line);
    let mut out = indent;
    push_decimal(&mut out, n as u64);
    push_str(&mut out, ". ");
    push_range(&mut out, &t, 0, t.len());
    assert(t@.subrange(0, t@.len() as int) =~= t@);
    into_string(out)
}

/// Numbers the lines, or removes their numbers when all are numbered already.
pub fn toggle_numbered_list(lines: &[&str]) -> (r: Vec<String>)
    ensures
        strings_view(r@) == toggle_numbered(lines_view(lines@)),
{
    let ghost ls = lines_view(lines@);
    let mut all = true;
    let mut i: usize = 0;
    while i < lines.len() && all
        invariant
            i <= lines.len(),
            ls == lines_view(lines@),
            all ==> forall|j: int| 0 <= j < i ==> is_numbered(#[trigger] ls[j]),
            !all ==> !all_numbered(ls),
        decreases lines.len() - i,
    {
        if !is_numbered_exec(lines[i]) {
            all = false;
            assert(!is_numbered(ls[i as int]));
        }
        i += 1;
    }
    assert(all == all_numbered(ls));
    let mut r: Vec<String> = Vec::new();
    let mut i: usize = 0;
    while i < lines.len()
        invariant
            i <= lines.len(),
            ls == lines_view(lines@),
            all == all_numbered(ls),
            strings_view(r@) == toggle_numbered(ls).take(i as int),
        decreases lines.len() - i,
    {
        let line = if all {
            unnumber_exec(lines[i])
        } else {
            number_exec(lines[i], i + 1)
        };
        let ghost prev = strings_view(r@);
        assert(toggle_numbered(ls)[i as int] == line@);
        r.push(line);
        assert(strings_view(r@) =~= prev.push(line@));
        assert(strings_view(r@) =~= toggle_numbered(ls).take(i + 1));
        i += 1;
    }
    assert(toggle_numbered(ls).take(lines.len() as int) =~= toggle_numbered(ls));
    r
}


// ---------------------------------------------------------------------------
// Laws of the line transformations
// ---------------------------------------------------------------------------

/// `j` heading marks.
pub open spec fn hashes(j: nat) -> Seq<char> {
    Seq::new(j, |i: int| '#')
}

proof fn lemma_run_of_hashes(j: nat, t: Seq<char>, m: int)
    requires
        0 <= m <= j,
    ensures
        run_length(hashes(j) + seq![' '] + t, m, '#') == j - m,
    decreases j - m,
{
    let u = hashes(j) + seq![' '] + t;
    if m < j {
        assert(u[m] == '#');
        lemma_run_of_hashes(j, t, m + 1);
    } else {
        assert(u[m] == ' ');
    }
}

/// Indentation followed by text that does not start with whitespace splits back
/// into that indentation and that text.
proof fn lemma_split_indent(indent: Seq<char>, rest: Seq<char>)
    requires
        forall|i: int| 0 <= i < indent.len() ==> is_whitespace(#[trigger] indent[i]),
        rest.len() > 0 ==> !is_whitespace(rest[0]),
    ensures
        indentation(indent + rest) == indent,
        trim_start(indent + rest) == rest,
{
    lemma_leading_whitespace_of(indent, rest);
    assert((indent + rest).take(indent.len() as int) =~= indent);
    assert((indent + rest).skip(indent.len() as int) =~= rest);
}

proof fn lemma_cycle_heading_step(indent: Seq<char>, j: nat, t: Seq<char>)
    requires
        forall|i: int| 0 <= i < indent.len() ==> is_whitespace(#[trigger] indent[i]),
        1 <= j <= 6,
    ensures
        cycle_heading(indent + (hashes(j) + seq![' '] + t)) == if j < 6 {
            indent + (hashes((j + 1) as nat) + seq![' '] + t)
        } else {
            indent + t
        },
{
    reveal_strlit("#");
    let u = hashes(j) + seq![' '] + t;
    assert(u[0] == '#');
    lemma_split_indent(indent, u);
    lemma_run_of_hashes(j, t, 0);
    assert(u[j as int] == ' ');
    assert(heading_level(u) == j);
    if j < 6 {
        assert(seq!['#'] + u =~= hashes((j + 1) as nat) + seq![' '] + t);
        assert(indent + "#"@ + u =~= indent + (hashes((j + 1) as nat) + seq![' '] + t));
    } else {
        assert(u.skip(7) =~= t);
    }
}

/// Cycling the heading of a line that is not a heading seven times gives the line
/// back: `# `, `## `, ... `###### `, then plain text again.
pub proof fn lemma_cycle_heading_returns(line: Seq<char>)
    requires
        heading_level(trim_start(line)) == 0,
    ensures
        cycle_heading(
            cycle_heading(
                cycle_heading(cycle_heading(cycle_heading(cycle_heading(cycle_heading(line))))),
            ),
        ) == line,
{
    reveal_strlit("# ");
    lemma_leading_whitespace(line);
    let indent = indentation(line);
    let t = trim_start(line);
    assert forall|i: int| 0 <= i < indent.len() implies is_whitespace(#[trigger] indent[i]) by {
        assert(indent[i] == line[i]);
    }
    assert(cycle_heading(line) == indent + (hashes(1) + seq![' '] + t)) by {
        assert(indent + "# "@ + t =~= indent + (hashes(1) + seq![' '] + t));
    }
    lemma_cycle_heading_step(indent, 1, t);
    lemma_cycle_heading_step(indent, 2, t);
    lemma_cycle_heading_step(indent, 3, t);
    lemma_cycle_heading_step(indent, 4, t);
    lemma_cycle_heading_step(indent, 5, t);
    lemma_cycle_heading_step(indent, 6, t);
    assert(indent + t =~= line);
}

/// The line after `k` heading cycles.
pub open spec fn cycled(line: Seq<char>, k: nat) -> Seq<char>
    decreases k,
{
    if k == 0 {
        line
    } else {
        cycle_heading(cycled(line, (k - 1) as nat))
    }
}

/// Cycling the heading of a line that is not a heading gives, after `k` steps
/// for `k` from 1 to 6, its indentation, `k` times `#`, a space and its text;
/// the seventh step gives the line back.
pub proof fn lemma_cycle_heading_levels(line: Seq<char>, k: nat)
    requires
        heading_level(trim_start(line)) == 0,
        1 <= k <= 7,
    ensures
        k <= 6 ==> cycled(line, k) == indentation(line) + (hashes(k) + seq![' '] + trim_start(line)),
        k == 7 ==> cycled(line, k) == line,
    decreases k,
{
    reveal_strlit("# ");
    lemma_leading_whitespace(line);
    let indent = indentation(line);
    let t = trim_start(line);
    assert forall|i: int| 0 <= i < indent.len() implies is_whitespace(#[trigger] indent[i]) by {
        assert(indent[i] == line[i]);
    }
    if k == 1 {
        assert(cycled(line, 0) == line);
        assert(indent + "# "@ + t =~= indent + (hashes(1) + seq![' '] + t));
    } else {
        lemma_cycle_heading_levels(line, (k - 1) as nat);
        lemma_cycle_heading_step(indent, (k - 1) as nat, t);
        if k == 7 {
            assert(indent + t =~= line);
        }
    }
}

/// A bullet item loses its marker, whether it is `- ` or `* `: after any
/// indentation `w`, toggling `w` + `- ` + `t` or `w` + `* ` + `t` gives `w` + `t`.
pub proof fn lemma_toggle_bullet_removes_marker(w: Seq<char>, t: Seq<char>)
    requires
        forall|i: int| 0 <= i < w.len() ==> is_whitespace(#[trigger] w[i]),
    ensures
        toggle_bullet(w + ("- "@ + t)) == w + t,
        toggle_bullet(w + ("* "@ + t)) == w + t,
{
    reveal_strlit("- ");
    reveal_strlit("* ");
    let dash = "- "@ + t;
    let star = "* "@ + t;
    assert(dash[0] == '-');
    assert(star[0] == '*');
    lemma_split_indent(w, dash);
    lemma_split_indent(w, star);
    assert(dash.take(2) =~= "- "@);
    assert(dash.skip(2) =~= t);
    assert(star.take(2) =~= "* "@);
    assert(star.skip(2) =~= t);
    assert(!starts_with(star, "- "@)) by {
        assert(star.take(2)[0] == '*');
    }
}

/// A line whose text (after its indentation) is empty or does not start with a
/// digit is not a numbered item, so toggling a list that holds such a line
/// numbers every line from 1, keeping its indentation: line `i` becomes its
/// indentation, `i + 1` in decimal, `. ` and its text.
pub proof fn lemma_toggle_numbered_numbers_all(lines: Seq<Seq<char>>, j: int)
    requires
        0 <= j < lines.len(),
        trim_start(lines[j]).len() == 0 || !('0' <= trim_start(lines[j])[0] && trim_start(lines[j])[0] <= '9'),
    ensures
        toggle_numbered(lines).len() == lines.len(),
        forall|i: int|
            0 <= i < lines.len() ==> #[trigger] toggle_numbered(lines)[i] == indentation(lines[i])
                + decimal((i + 1) as nat) + ". "@ + trim_start(lines[i]),
{
    assert(!is_numbered(lines[j]));
    assert(!all_numbered(lines));
}

/// Toggling the bullet of a line that is not a bullet item twice gives the line back.
pub proof fn lemma_toggle_bullet_round_trip(line: Seq<char>)
    requires
        !starts_with(trim_start(line), "- "@),
        !starts_with(trim_start(line), "* "@),
    ensures
        toggle_bullet(toggle_bullet(line)) == line,
{
    reveal_strlit("- ");
    lemma_leading_whitespace(line);
    let indent = indentation(line);
    let t = trim_start(line);
    assert forall|i: int| 0 <= i < indent.len() implies is_whitespace(#[trigger] indent[i]) by {
        assert(indent[i] == line[i]);
    }
    let u = "- "@ + t;
    assert(toggle_bullet(line) =~= indent + u);
    lemma_split_indent(indent, u);
    assert(u.take(2) =~= "- "@);
    assert(u.skip(2) =~= t);
    assert(indent + t =~= line);
}

/// Toggling the quote marker of a line that is not quoted twice gives the line back.
pub proof fn lemma_toggle_quote_round_trip(line: Seq<char>)
    requires
        !starts_with(trim_start(line), "> "@),
    ensures
        toggle_quote(toggle_quote(line)) == line,
{
    reveal_strlit("> ");
    lemma_leading_whitespace(line);
    let indent = indentation(line);
    let t = trim_start(line);
    assert forall|i: int| 0 <= i < indent.len() implies is_whitespace(#[trigger] indent[i]) by {
        assert(indent[i] == line[i]);
    }
    let u = "> "@ + t;
    assert(toggle_quote(line) =~= indent + u);
    lemma_split_indent(indent, u);
    assert(u.take(2) =~= "> "@);
    assert(u.skip(2) =~= t);
    assert(indent + t =~= line);
}

/// Unindenting an indented line gives it back.
pub proof fn lemma_unindent_indent(line: Seq<char>)
    ensures
        unindent_line(indent_line(line)) == line,
{
    reveal_strlit("    ");
    assert(indent_line(line).take(4) =~= "    "@);
    assert(indent_line(line).skip(4) =~= line);
}

proof fn lemma_decimal_digits(n: nat)
    ensures
        decimal(n).len() > 0,
        forall|i: int| 0 <= i < decimal(n).len() ==> is_digit(#[trigger] decimal(n)[i]),
    decreases n,
{
    if n >= 10 {
        lemma_decimal_digits(n / 10);
        let d = decimal(n);
        assert forall|i: int| 0 <= i < d.len() implies is_digit(#[trigger] d[i]) by {
            if i < decimal(n / 10).len() {
                assert(d[i] == decimal(n / 10)[i]);
            }
        }
    }
}

/// A numbered line is numbered, and removing its number gives the line back.
proof fn lemma_number_unnumber(line: Seq<char>, n: nat)
    ensures
        is_numbered(number(line, n)),
        unnumber(number(line, n)) == line,
{
    reveal_strlit(". ");
    lemma_leading_whitespace(line);
    lemma_decimal_digits(n);
    let indent = indentation(line);
    let t = trim_start(line);
    let d = decimal(n);
    assert forall|i: int| 0 <= i < indent.len() implies is_whitespace(#[trigger] indent[i]) by {
        assert(indent[i] == line[i]);
    }
    let u = d + ". "@ + t;
    assert(number(line, n) =~= indent + u);
    assert(u[0] == d[0]);
    assert(is_digit(d[0]));
    lemma_split_indent(indent, u);
    let p = |i: int| u[i] == '.' && u[i + 1] == ' ';
    assert forall|k: int| 0 <= k < d.len() implies !#[trigger] p(k) by {
        assert(u[k] == d[k]);
        assert(is_digit(d[k]));
    }
    assert(u[d.len() as int] == '.' && u[d.len() + 1int] == ' ');
    lemma_least_in_found(0, u.len() - 1, p, d.len() as int);
    assert(find_dot_space(u) == Some(d.len() as int));
    assert(u.skip(d.len() + 2int) =~= t);
    assert(indent + t =~= line);
}

/// Numbering lines that are not all numbered, then toggling again, gives them back.
pub proof fn lemma_toggle_numbered_round_trip(lines: Seq<Seq<char>>)
    requires
        !all_numbered(lines),
    ensures
        toggle_numbered(toggle_numbered(lines)) == lines,
{
    let numbered = toggle_numbered(lines);
    assert forall|i: int| 0 <= i < numbered.len() implies is_numbered(#[trigger] numbered[i])
        && unnumber(numbered[i]) == lines[i] by {
        lemma_number_unnumber(lines[i], (i + 1) as nat);
    }
    assert(all_numbered(numbered));
    assert(toggle_numbered(numbered) =~= lines);
}

/// The range returned with a link selects its placeholder: `texte`, `lien` or `url`.
pub proof fn lemma_wrap_link_selects_placeholder(s: Seq<char>)
    ensures
        ({
            let (text, start, end) = wrap_link_result(s);
            text.subrange(start, end) == if s.len() == 0 {
                "texte"@
            } else if starts_with(s, "http://"@) || starts_with(s, "https://"@) {
                "lien"@
            } else {
                "url"@
            }
        }),
{
    reveal_strlit("[texte](url)");
    reveal_strlit("texte");
    reveal_strlit("[lien](");
    reveal_strlit(")");
    reveal_strlit("lien");
    reveal_strlit("[");
    reveal_strlit("](url)");
    reveal_strlit("url");
    let (text, start, end) = wrap_link_result(s);
    if s.len() == 0 {
        assert(text.subrange(start, end) =~= "texte"@);
    } else if starts_with(s, "http://"@) || starts_with(s, "https://"@) {
        assert(text.subrange(start, end) =~= "lien"@);
    } else {
        assert(text.subrange(start, end) =~= "url"@);
    }
}

} // verus!
