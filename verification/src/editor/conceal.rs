use crate::text::{
    alphanumeric, char_is_alphanumeric, chars_of, count_run, least_in, lemma_least_in_bounds,
    lemma_least_in_found, lemma_least_in_none, lemma_run_length, run_length,
};
use vstd::prelude::*;

verus! {

pub const CONCEAL_TAG: &'static str = "slate_conceal";

pub const BOLD_TAG: &'static str = "slate_bold";

pub const ITALIC_TAG: &'static str = "slate_italic";

pub const STRIKE_TAG: &'static str = "slate_strike";

pub const CODE_TAG: &'static str = "slate_code";

pub const LINK_TAG: &'static str = "slate_link";

pub const QUOTE_TAG: &'static str = "slate_quote";

pub const H1_TAG: &'static str = "slate_h1";

pub const H2_TAG: &'static str = "slate_h2";

pub const H3_TAG: &'static str = "slate_h3";

pub const H4_TAG: &'static str = "slate_h4";

pub const H5_TAG: &'static str = "slate_h5";

pub const H6_TAG: &'static str = "slate_h6";

/// Every tag the editor paints, the concealing one first.
pub const ALL_SLATE_TAGS: [&'static str; 13] = [
    CONCEAL_TAG,
    BOLD_TAG,
    ITALIC_TAG,
    STRIKE_TAG,
    CODE_TAG,
    LINK_TAG,
    QUOTE_TAG,
    H1_TAG,
    H2_TAG,
    H3_TAG,
    H4_TAG,
    H5_TAG,
    H6_TAG,
];

/// The styles the editor paints on a line of Markdown; `Conceal` hides a delimiter.
#[derive(Debug, Clone, Copy, PartialEq, Eq, Structural)]
pub enum SpanType {
    Conceal,
    Bold,
    Italic,
    Strike,
    Code,
    Link,
    Quote,
    H1,
    H2,
    H3,
    H4,
    H5,
    H6,
}

/// The name of the text tag that paints `t`.
pub open spec fn tag_of(t: SpanType) -> &'static str {
    match t {
        SpanType::Conceal => CONCEAL_TAG,
        SpanType::Bold => BOLD_TAG,
        SpanType::Italic => ITALIC_TAG,
        SpanType::Strike => STRIKE_TAG,
        SpanType::Code => CODE_TAG,
        SpanType::Link => LINK_TAG,
        SpanType::Quote => QUOTE_TAG,
        SpanType::H1 => H1_TAG,
        SpanType::H2 => H2_TAG,
        SpanType::H3 => H3_TAG,
        SpanType::H4 => H4_TAG,
        SpanType::H5 => H5_TAG,
        SpanType::H6 => H6_TAG,
    }
}

impl SpanType {
    pub fn tag_name(&self) -> (r: &'static str)
        ensures
            r == tag_of(*self),
    {
        match self {
            SpanType::Conceal => CONCEAL_TAG,
            SpanType::Bold => BOLD_TAG,
            SpanType::Italic => ITALIC_TAG,
            SpanType::Strike => STRIKE_TAG,
            SpanType::Code => CODE_TAG,
            SpanType::Link => LINK_TAG,
            SpanType::Quote => QUOTE_TAG,
            SpanType::H1 => H1_TAG,
            SpanType::H2 => H2_TAG,
            SpanType::H3 => H3_TAG,
            SpanType::H4 => H4_TAG,
            SpanType::H5 => H5_TAG,
            SpanType::H6 => H6_TAG,
        }
    }
}

/// A styled or concealed range of a line, in characters: `start` inclusive, `end` exclusive.
#[derive(Debug, Clone, Copy, PartialEq, Eq, Structural)]
pub struct SpanToken {
    pub start: usize,
    pub end: usize,
    pub span_type: SpanType,
}

impl View for SpanToken {
    type V = (int, int, SpanType);

    open spec fn view(&self) -> (int, int, SpanType) {
        (self.start as int, self.end as int, self.span_type)
    }
}

/// One Markdown construct recognised on a line, with the character ranges of its
/// delimiters (hidden when the cursor is away) and of its styled text.
#[derive(Debug, Clone, PartialEq, Eq)]
pub struct MarkdownElement {
    pub start: usize,
    pub end: usize,
    pub is_line_block: bool,
    pub delims: Vec<(usize, usize)>,
    pub styles: Vec<(usize, usize, SpanType)>,
}

/// The mathematical value of a `MarkdownElement`.
#[verifier::ext_equal]
pub struct ElementView {
    pub start: int,
    pub end: int,
    pub is_line_block: bool,
    pub delims: Seq<(int, int)>,
    pub styles: Seq<(int, int, SpanType)>,
}

pub open spec fn range_view(d: (usize, usize)) -> (int, int) {
    (d.0 as int, d.1 as int)
}

pub open spec fn style_view(s: (usize, usize, SpanType)) -> (int, int, SpanType) {
    (s.0 as int, s.1 as int, s.2)
}

impl View for MarkdownElement {
    type V = ElementView;

    open spec fn view(&self) -> ElementView {
        ElementView {
            start: self.start as int,
            end: self.end as int,
            is_line_block: self.is_line_block,
            delims: self.delims@.map_values(|d: (usize, usize)| range_view(d)),
            styles: self.styles@.map_values(|s: (usize, usize, SpanType)| style_view(s)),
        }
    }
}

pub open spec fn elements_view(es: Seq<MarkdownElement>) -> Seq<ElementView> {
    es.map_values(|e: MarkdownElement| e@)
}

pub open spec fn option_view(o: Option<MarkdownElement>) -> Option<ElementView> {
    match o {
        Some(e) => Some(e@),
        None => None,
    }
}

// ---------------------------------------------------------------------------
// Searching for closing delimiters
// ---------------------------------------------------------------------------

/// `chars[j]` closes a single-character delimiter opened just before `start`.
pub open spec fn closes_char(chars: Seq<char>, start: int, j: int, target: char) -> bool {
    chars[j] == target && (j == start || chars[j - 1] != '\\')
}

/// `chars[j..j+2]` closes a doubled delimiter such as `**`.
pub open spec fn closes_double(chars: Seq<char>, start: int, j: int, target: char) -> bool {
    &&& chars[j] == target
    &&& chars[j + 1] == target
    &&& (j == start || chars[j - 1] != '\\')
    &&& j > start
    &&& chars[j - 1] != ' '
}

/// `chars[j..j+3]` closes a tripled delimiter `***`.
pub open spec fn closes_triple(chars: Seq<char>, start: int, j: int, target: char) -> bool {
    &&& chars[j] == target
    &&& chars[j + 1] == target
    &&& chars[j + 2] == target
    &&& (j == start || chars[j - 1] != '\\')
    &&& j > start
    &&& chars[j - 1] != ' '
}

/// `chars[j]` closes a single `*` or `_` emphasis opened just before `start`.
pub open spec fn closes_single(
    chars: Seq<char>,
    start: int,
    end: int,
    j: int,
    target: char,
) -> bool {
    &&& chars[j] == target
    &&& (j == start || chars[j - 1] != '\\')
    &&& (j == 0 || chars[j - 1] != target)
    &&& (j + 1 >= end || chars[j + 1] != target)
    &&& j > start
    &&& chars[j - 1] != ' '
}

pub open spec fn find_char(chars: Seq<char>, start: int, end: int, target: char) -> Option<int> {
    least_in(start, end, |j: int| closes_char(chars, start, j, target))
}

pub open spec fn find_double(chars: Seq<char>, start: int, end: int, target: char) -> Option<
    int,
> {
    least_in(start, end - 1, |j: int| closes_double(chars, start, j, target))
}

pub open spec fn find_triple(chars: Seq<char>, start: int, end: int, target: char) -> Option<
    int,
> {
    least_in(start, end - 2, |j: int| closes_triple(chars, start, j, target))
}

pub open spec fn find_single(chars: Seq<char>, start: int, end: int, target: char) -> Option<
    int,
> {
    least_in(start, end, |j: int| closes_single(chars, start, end, j, target))
}

fn find_closing_char(chars: &Vec<char>, start: usize, end: usize, target: char) -> (r: Option<
    usize,
>)
    requires
        start <= end <= chars.len(),
    ensures
        r matches Some(j) ==> find_char(chars@, start as int, end as int, target) == Some(
            j as int,
        ),
        r is None ==> find_char(chars@, start as int, end as int, target) is None,
        r matches Some(j) ==> start <= j < end,
{
    let ghost p = |j: int| closes_char(chars@, start as int, j, target);
    let mut j = start;
    while j < end
        invariant
            start <= j,
            p == |j: int| closes_char(chars@, start as int, j, target),
            end <= chars.len(),
            forall|k: int| start <= k < j ==> !#[trigger] p(k),
        decreases end - j,
    {
        if chars[j] == target && (j == start || chars[j - 1] != '\\') {
            proof {
                lemma_least_in_found(start as int, end as int, p, j as int);
            }
            return Some(j);
        }
        j += 1;
    }
    proof {
        lemma_least_in_none(start as int, end as int, p);
    }
    None
}

fn find_closing_double(chars: &Vec<char>, start: usize, end: usize, target: char) -> (r: Option<
    usize,
>)
    requires
        start <= end <= chars.len(),
    ensures
        r matches Some(j) ==> find_double(chars@, start as int, end as int, target) == Some(
            j as int,
        ),
        r is None ==> find_double(chars@, start as int, end as int, target) is None,
        r matches Some(j) ==> start <= j && j + 1 < end,
{
    let ghost p = |j: int| closes_double(chars@, start as int, j, target);
    let mut j = start;
    while j < end && j + 1 < end
        invariant
            start <= j,
            p == |j: int| closes_double(chars@, start as int, j, target),
            end <= chars.len(),
            forall|k: int| start <= k < j ==> !#[trigger] p(k),
        decreases end - j,
    {
        if chars[j] == target && chars[j + 1] == target && (j == start || chars[j - 1] != '\\') {
            if j > start && chars[j - 1] != ' ' {
                proof {
                    lemma_least_in_found(start as int, end - 1, p, j as int);
                }
                return Some(j);
            }
        }
        j += 1;
    }
    proof {
        lemma_least_in_none(start as int, end - 1, p);
    }
    None
}

fn find_closing_triple(chars: &Vec<char>, start: usize, end: usize, target: char) -> (r: Option<
    usize,
>)
    requires
        start <= end <= chars.len(),
    ensures
        r matches Some(j) ==> find_triple(chars@, start as int, end as int, target) == Some(
            j as int,
        ),
        r is None ==> find_triple(chars@, start as int, end as int, target) is None,
        r matches Some(j) ==> start <= j && j + 2 < end,
{
    let ghost p = |j: int| closes_triple(chars@, start as int, j, target);
    let mut j = start;
    while j < end && j + 1 < end && j + 2 < end
        invariant
            start <= j,
            p == |j: int| closes_triple(chars@, start as int, j, target),
            end <= chars.len(),
            forall|k: int| start <= k < j ==> !#[trigger] p(k),
        decreases end - j,
    {
        if chars[j] == target && chars[j + 1] == target && chars[j + 2] == target && (j == start
            || chars[j - 1] != '\\') {
            if j > start && chars[j - 1] != ' ' {
                proof {
                    lemma_least_in_found(start as int, end - 2, p, j as int);
                }
                return Some(j);
            }
        }
        j += 1;
    }
    proof {
        lemma_least_in_none(start as int, end - 2, p);
    }
    None
}

fn find_closing_single(chars: &Vec<char>, start: usize, end: usize, target: char) -> (r: Option<
    usize,
>)
    requires
        start <= end <= chars.len(),
    ensures
        r matches Some(j) ==> find_single(chars@, start as int, end as int, target) == Some(
            j as int,
        ),
        r is None ==> find_single(chars@, start as int, end as int, target) is None,
        r matches Some(j) ==> start <= j < end,
{
    let ghost p = |j: int| closes_single(chars@, start as int, end as int, j, target);
    let mut j = start;
    while j < end
        invariant
            start <= j,
            p == |j: int| closes_single(chars@, start as int, end as int, j, target),
            end <= chars.len(),
            forall|k: int| start <= k < j ==> !#[trigger] p(k),
        decreases end - j,
    {
        if chars[j] == target && (j == start || chars[j - 1] != '\\') {
            let not_prev = j == 0 || chars[j - 1] != target;
            let not_next = j + 1 >= end || chars[j + 1] != target;
            let not_preceded_by_space = j > start && chars[j - 1] != ' ';
            if not_prev && not_next && not_preceded_by_space {
                proof {
                    lemma_least_in_found(start as int, end as int, p, j as int);
                }
                return Some(j);
            }
        }
        j += 1;
    }
    proof {
        lemma_least_in_none(start as int, end as int, p);
    }
    None
}


// ---------------------------------------------------------------------------
// Inline elements
// ---------------------------------------------------------------------------

/// An inline element `start..end` whose opening delimiter ends at `open_end`, whose
/// closing delimiter starts at `close_start`, and whose text between them has style `t`.
pub open spec fn delimited(start: int, open_end: int, close_start: int, end: int, t: SpanType) -> ElementView {
    ElementView {
        start,
        end,
        is_line_block: false,
        delims: seq![(start, open_end), (close_start, end)],
        styles: seq![(open_end, close_start, t)],
    }
}

/// Inline code `` `code` `` opening at `i`.
pub open spec fn code_at(c: Seq<char>, i: int, end: int) -> Option<ElementView> {
    if c[i] == '`' {
        match find_char(c, i + 1, end, '`') {
            Some(close) => if close > i + 1 {
                Some(delimited(i, i + 1, close, close + 1, SpanType::Code))
            } else {
                None
            },
            None => None,
        }
    } else {
        None
    }
}

/// A link `[text](url)` opening at `i`; the second delimiter hides `](url)`.
pub open spec fn link_at(c: Seq<char>, i: int, end: int) -> Option<ElementView> {
    if c[i] == '[' {
        match find_char(c, i + 1, end, ']') {
            Some(cb) => if cb + 1 < end && c[cb + 1] == '(' {
                match find_char(c, cb + 2, end, ')') {
                    Some(cp) => Some(delimited(i, i + 1, cb, cp + 1, SpanType::Link)),
                    None => None,
                }
            } else {
                None
            },
            None => None,
        }
    } else {
        None
    }
}

/// Bold italic `***text***` opening at `i`.
pub open spec fn bold_italic_at(c: Seq<char>, i: int, end: int) -> Option<ElementView> {
    if i + 2 < end && c[i] == '*' && c[i + 1] == '*' && c[i + 2] == '*' {
        match find_triple(c, i + 3, end, '*') {
            Some(close) => if close > i + 3 {
                Some(
                    ElementView {
                        start: i,
                        end: close + 3,
                        is_line_block: false,
                        delims: seq![(i, i + 3), (close, close + 3)],
                        styles: seq![(i + 3, close, SpanType::Bold), (i + 3, close, SpanType::Italic)],
                    },
                )
            } else {
                None
            },
            None => None,
        }
    } else {
        None
    }
}

/// A doubled delimiter `ch ch text ch ch` opening at `i`, styling its text with `t`.
pub open spec fn double_at(c: Seq<char>, i: int, end: int, ch: char, t: SpanType) -> Option<ElementView> {
    if i + 1 < end && c[i] == ch && c[i + 1] == ch {
        match find_double(c, i + 2, end, ch) {
            Some(close) => if close > i + 2 {
                Some(delimited(i, i + 2, close, close + 2, t))
            } else {
                None
            },
            None => None,
        }
    } else {
        None
    }
}

/// Italic `*text*` opening at `i`.
pub open spec fn star_italic_at(c: Seq<char>, i: int, end: int) -> Option<ElementView> {
    if c[i] == '*' && i + 1 < end && c[i + 1] != '*' && c[i + 1] != ' ' {
        match find_single(c, i + 1, end, '*') {
            Some(close) => if close > i + 1 {
                Some(delimited(i, i + 1, close, close + 1, SpanType::Italic))
            } else {
                None
            },
            None => None,
        }
    } else {
        None
    }
}

/// Italic `_text_` opening at `i`, only between word boundaries.
pub open spec fn underscore_italic_at(c: Seq<char>, i: int, end: int) -> Option<ElementView> {
    if c[i] == '_' && i + 1 < end && c[i + 1] != '_' && c[i + 1] != ' ' && (i == 0
        || !alphanumeric(c[i - 1])) {
        match find_single(c, i + 1, end, '_') {
            Some(close) => if (close + 1 >= end || !alphanumeric(c[close + 1])) && close > i + 1 {
                Some(delimited(i, i + 1, close, close + 1, SpanType::Italic))
            } else {
                None
            },
            None => None,
        }
    } else {
        None
    }
}

/// The inline element that opens at `i`: the first of the rules above that applies.
pub open spec fn inline_at(c: Seq<char>, i: int, end: int) -> Option<ElementView> {
    if code_at(c, i, end) is Some {
        code_at(c, i, end)
    } else if link_at(c, i, end) is Some {
        link_at(c, i, end)
    } else if bold_italic_at(c, i, end) is Some {
        bold_italic_at(c, i, end)
    } else if double_at(c, i, end, '*', SpanType::Bold) is Some {
        double_at(c, i, end, '*', SpanType::Bold)
    } else if double_at(c, i, end, '_', SpanType::Bold) is Some {
        double_at(c, i, end, '_', SpanType::Bold)
    } else if double_at(c, i, end, '~', SpanType::Strike) is Some {
        double_at(c, i, end, '~', SpanType::Strike)
    } else if star_italic_at(c, i, end) is Some {
        star_italic_at(c, i, end)
    } else {
        underscore_italic_at(c, i, end)
    }
}

/// All ranges of `e` lie inside `e`, which lies inside `0..n`.
pub open spec fn element_within(e: ElementView, n: int) -> bool {
    &&& 0 <= e.start <= e.end <= n
    &&& forall|k: int|
        0 <= k < e.delims.len() ==> e.start <= (#[trigger] e.delims[k]).0 <= e.delims[k].1 <= e.end
    &&& forall|k: int|
        0 <= k < e.styles.len() ==> e.start <= (#[trigger] e.styles[k]).0 <= e.styles[k].1 <= e.end
}

proof fn lemma_delimited_within(start: int, open_end: int, close_start: int, end: int, t: SpanType, n: int)
    requires
        0 <= start <= open_end <= close_start <= end <= n,
    ensures
        element_within(delimited(start, open_end, close_start, end, t), n),
{
    let e = delimited(start, open_end, close_start, end, t);
    assert forall|k: int| 0 <= k < e.delims.len() implies e.start <= (#[trigger] e.delims[k]).0
        <= e.delims[k].1 <= e.end by {
        if k == 1 {
        }
    }
}

/// The facts about an inline element that the scan needs: it starts at `i`, ends
/// after `i`, and keeps its ranges inside `i..end`.
pub open spec fn found_at(o: Option<ElementView>, i: int, end: int) -> bool {
    o matches Some(e) ==> e.start == i && i < e.end <= end && (0 <= i ==> element_within(e, end))
}

proof fn lemma_code_at(c: Seq<char>, i: int, end: int)
    ensures
        found_at(code_at(c, i, end), i, end),
{
    lemma_least_in_bounds(i + 1, end, |j: int| closes_char(c, i + 1, j, '`'));
    if let Some(e) = code_at(c, i, end) {
        if 0 <= i {
            lemma_delimited_within(i, i + 1, e.end - 1, e.end, SpanType::Code, end);
        }
    }
}

proof fn lemma_link_at(c: Seq<char>, i: int, end: int)
    ensures
        found_at(link_at(c, i, end), i, end),
{
    lemma_least_in_bounds(i + 1, end, |j: int| closes_char(c, i + 1, j, ']'));
    if let Some(cb) = find_char(c, i + 1, end, ']') {
        lemma_least_in_bounds(cb + 2, end, |j: int| closes_char(c, cb + 2, j, ')'));
        if let Some(cp) = find_char(c, cb + 2, end, ')') {
            if 0 <= i {
                lemma_delimited_within(i, i + 1, cb, cp + 1, SpanType::Link, end);
            }
        }
    }
}

proof fn lemma_bold_italic_at(c: Seq<char>, i: int, end: int)
    ensures
        found_at(bold_italic_at(c, i, end), i, end),
{
    lemma_least_in_bounds(i + 3, end - 2, |j: int| closes_triple(c, i + 3, j, '*'));
    if let Some(e) = bold_italic_at(c, i, end) {
        assert forall|k: int| 0 <= k < e.delims.len() implies e.start <= (
        #[trigger] e.delims[k]).0 <= e.delims[k].1 <= e.end by {
            if k == 1 {
            }
        }
        assert forall|k: int| 0 <= k < e.styles.len() implies e.start <= (
        #[trigger] e.styles[k]).0 <= e.styles[k].1 <= e.end by {
            if k == 1 {
            }
        }
    }
}

proof fn lemma_double_at(c: Seq<char>, i: int, end: int, ch: char, t: SpanType)
    ensures
        found_at(double_at(c, i, end, ch, t), i, end),
{
    lemma_least_in_bounds(i + 2, end - 1, |j: int| closes_double(c, i + 2, j, ch));
    if let Some(e) = double_at(c, i, end, ch, t) {
        if 0 <= i {
            lemma_delimited_within(i, i + 2, e.end - 2, e.end, t, end);
        }
    }
}

proof fn lemma_star_italic_at(c: Seq<char>, i: int, end: int)
    ensures
        found_at(star_italic_at(c, i, end), i, end),
{
    lemma_least_in_bounds(i + 1, end, |j: int| closes_single(c, i + 1, end, j, '*'));
    if let Some(e) = star_italic_at(c, i, end) {
        if 0 <= i {
            lemma_delimited_within(i, i + 1, e.end - 1, e.end, SpanType::Italic, end);
        }
    }
}

proof fn lemma_underscore_italic_at(c: Seq<char>, i: int, end: int)
    ensures
        found_at(underscore_italic_at(c, i, end), i, end),
{
    lemma_least_in_bounds(i + 1, end, |j: int| closes_single(c, i + 1, end, j, '_'));
    if let Some(e) = underscore_italic_at(c, i, end) {
        if 0 <= i {
            lemma_delimited_within(i, i + 1, e.end - 1, e.end, SpanType::Italic, end);
        }
    }
}

/// An inline element found at `i` starts there, ends after it, and stays in bounds.
pub proof fn lemma_inline_at_bounds(c: Seq<char>, i: int, end: int)
    ensures
        found_at(inline_at(c, i, end), i, end),
{
    lemma_code_at(c, i, end);
    lemma_link_at(c, i, end);
    lemma_bold_italic_at(c, i, end);
    lemma_double_at(c, i, end, '*', SpanType::Bold);
    lemma_double_at(c, i, end, '_', SpanType::Bold);
    lemma_double_at(c, i, end, '~', SpanType::Strike);
    lemma_star_italic_at(c, i, end);
    lemma_underscore_italic_at(c, i, end);
}

/// The inline elements found scanning `c[i..end]` from left to right: at each
/// position the element that opens there, if any, after which the scan resumes
/// at its end.
pub open spec fn inline_from(c: Seq<char>, i: int, end: int) -> Seq<ElementView>
    decreases end - i,
{
    if i >= end {
        seq![]
    } else {
        match inline_at(c, i, end) {
            Some(e) => {
                proof {
                    lemma_inline_at_bounds(c, i, end);
                }
                seq![e] + inline_from(c, e.end, end)
            },
            None => inline_from(c, i + 1, end),
        }
    }
}


fn delimited_element(start: usize, open_end: usize, close_start: usize, end: usize, t: SpanType) -> (e: MarkdownElement)
    ensures
        e@ == delimited(start as int, open_end as int, close_start as int, end as int, t),
{
    let e = MarkdownElement {
        start,
        end,
        is_line_block: false,
        delims: vec![(start, open_end), (close_start, end)],
        styles: vec![(open_end, close_start, t)],
    };
    assert(e@.delims =~= seq![(start as int, open_end as int), (close_start as int, end as int)]);
    assert(e@.styles =~= seq![(open_end as int, close_start as int, t)]);
    e
}

fn match_code_at(chars: &Vec<char>, i: usize, end: usize) -> (r: Option<MarkdownElement>)
    requires
        i < end <= chars.len(),
    ensures
        option_view(r) == code_at(chars@, i as int, end as int),
{
    if chars[i] == '`' {
        if let Some(close) = find_closing_char(chars, i + 1, end, '`') {
            if close > i + 1 {
                return Some(delimited_element(i, i + 1, close, close + 1, SpanType::Code));
            }
        }
    }
    None
}

fn match_link_at(chars: &Vec<char>, i: usize, end: usize) -> (r: Option<MarkdownElement>)
    requires
        i < end <= chars.len(),
    ensures
        option_view(r) == link_at(chars@, i as int, end as int),
{
    if chars[i] == '[' {
        if let Some(close_bracket) = find_closing_char(chars, i + 1, end, ']') {
            if close_bracket + 1 < end && chars[close_bracket + 1] == '(' {
                if let Some(close_paren) = find_closing_char(chars, close_bracket + 2, end, ')') {
                    return Some(
                        delimited_element(i, i + 1, close_bracket, close_paren + 1, SpanType::Link),
                    );
                }
            }
        }
    }
    None
}

fn match_bold_italic_at(chars: &Vec<char>, i: usize, end: usize) -> (r: Option<MarkdownElement>)
    requires
        i < end <= chars.len(),
    ensures
        option_view(r) == bold_italic_at(chars@, i as int, end as int),
{
    if i + 1 < end && i + 2 < end && chars[i] == '*' && chars[i + 1] == '*' && chars[i + 2] == '*' {
        if let Some(close) = find_closing_triple(chars, i + 3, end, '*') {
            if close > i + 3 {
                let e = MarkdownElement {
                    start: i,
                    end: close + 3,
                    is_line_block: false,
                    delims: vec![(i, i + 3), (close, close + 3)],
                    styles: vec![(i + 3, close, SpanType::Bold), (i + 3, close, SpanType::Italic)],
                };
                assert(e@.delims =~= seq![(i as int, i + 3), (close as int, close + 3)]);
                assert(e@.styles =~= seq![
                    (i + 3, close as int, SpanType::Bold),
                    (i + 3, close as int, SpanType::Italic),
                ]);
                return Some(e);
            }
        }
    }
    None
}

fn match_double_at(chars: &Vec<char>, i: usize, end: usize, ch: char, t: SpanType) -> (r: Option<
    MarkdownElement,
>)
    requires
        i < end <= chars.len(),
    ensures
        option_view(r) == double_at(chars@, i as int, end as int, ch, t),
{
    if i + 1 < end && chars[i] == ch && chars[i + 1] == ch {
        if let Some(close) = find_closing_double(chars, i + 2, end, ch) {
            if close > i + 2 {
                return Some(delimited_element(i, i + 2, close, close + 2, t));
            }
        }
    }
    None
}

fn match_star_italic_at(chars: &Vec<char>, i: usize, end: usize) -> (r: Option<MarkdownElement>)
    requires
        i < end <= chars.len(),
    ensures
        option_view(r) == star_italic_at(chars@, i as int, end as int),
{
    if chars[i] == '*' && (i + 1 < end && chars[i + 1] != '*' && chars[i + 1] != ' ') {
        if let Some(close) = find_closing_single(chars, i + 1, end, '*') {
            if close > i + 1 {
                return Some(delimited_element(i, i + 1, close, close + 1, SpanType::Italic));
            }
        }
    }
    None
}

fn match_underscore_italic_at(chars: &Vec<char>, i: usize, end: usize) -> (r: Option<
    MarkdownElement,
>)
    requires
        i < end <= chars.len(),
    ensures
        option_view(r) == underscore_italic_at(chars@, i as int, end as int),
{
    if chars[i] == '_' && (i + 1 < end && chars[i + 1] != '_' && chars[i + 1] != ' ') {
        let is_boundary_before = i == 0 || !char_is_alphanumeric(chars[i - 1]);
        if is_boundary_before {
            if let Some(close) = find_closing_single(chars, i + 1, end, '_') {
                let is_boundary_after = close + 1 >= end || !char_is_alphanumeric(chars[close + 1]);
                if is_boundary_after && close > i + 1 {
                    return Some(delimited_element(i, i + 1, close, close + 1, SpanType::Italic));
                }
            }
        }
    }
    None
}

fn match_inline_at(chars: &Vec<char>, i: usize, end: usize) -> (r: Option<MarkdownElement>)
    requires
        i < end <= chars.len(),
    ensures
        option_view(r) == inline_at(chars@, i as int, end as int),
{
    let r = match_code_at(chars, i, end);
    if r.is_some() {
        return r;
    }
    let r = match_link_at(chars, i, end);
    if r.is_some() {
        return r;
    }
    let r = match_bold_italic_at(chars, i, end);
    if r.is_some() {
        return r;
    }
    let r = match_double_at(chars, i, end, '*', SpanType::Bold);
    if r.is_some() {
        return r;
    }
    let r = match_double_at(chars, i, end, '_', SpanType::Bold);
    if r.is_some() {
        return r;
    }
    let r = match_double_at(chars, i, end, '~', SpanType::Strike);
    if r.is_some() {
        return r;
    }
    let r = match_star_italic_at(chars, i, end);
    if r.is_some() {
        return r;
    }
    match_underscore_italic_at(chars, i, end)
}

fn parse_inline_elements(
    chars: &Vec<char>,
    start: usize,
    end: usize,
    elements: &mut Vec<MarkdownElement>,
)
    requires
        start <= end <= chars.len(),
    ensures
        elements_view(final(elements)@) == elements_view(old(elements)@) + inline_from(
            chars@,
            start as int,
            end as int,
        ),
{
    let ghost before = elements_view(elements@);
    let mut i = start;
    while i < end
        invariant
            start <= i <= end <= chars.len(),
            elements_view(elements@) + inline_from(chars@, i as int, end as int) == before
                + inline_from(chars@, start as int, end as int),
        decreases end - i,
    {
        let found = match_inline_at(chars, i, end);
        proof {
            lemma_inline_at_bounds(chars@, i as int, end as int);
        }
        match found {
            Some(e) => {
                let next = e.end;
                let ghost prev = elements_view(elements@);
                let ghost rest = inline_from(chars@, next as int, end as int);
                elements.push(e);
                assert(elements_view(elements@) =~= prev + seq![e@]);
                assert(inline_from(chars@, i as int, end as int) == seq![e@] + rest);
                assert(prev + seq![e@] + rest =~= prev + (seq![e@] + rest));
                i = next;
            },
            None => {
                i += 1;
            },
        }
    }
}


// ---------------------------------------------------------------------------
// Whole lines
// ---------------------------------------------------------------------------

/// The heading style for a run of `hashes` leading `#` (at most six are recognised).
pub open spec fn heading_type(hashes: int) -> SpanType {
    if hashes == 1 {
        SpanType::H1
    } else if hashes == 2 {
        SpanType::H2
    } else if hashes == 3 {
        SpanType::H3
    } else if hashes == 4 {
        SpanType::H4
    } else if hashes == 5 {
        SpanType::H5
    } else {
        SpanType::H6
    }
}

/// A task list item `- [ ] `, `* [x] `, `+ [X] `... starting at `indent`.
pub open spec fn is_checkbox(c: Seq<char>, indent: int) -> bool {
    &&& indent + 5 < c.len()
    &&& (c[indent] == '-' || c[indent] == '*' || c[indent] == '+')
    &&& c[indent + 1] == ' '
    &&& c[indent + 2] == '['
    &&& (c[indent + 3] == ' ' || c[indent + 3] == 'x' || c[indent + 3] == 'X')
    &&& c[indent + 4] == ']'
    &&& c[indent + 5] == ' '
}

/// A line-wide element `start..end` with at most one delimiter and one style.
pub open spec fn line_block(start: int, end: int, delims: Seq<(int, int)>, style: (int, int, SpanType)) -> ElementView {
    ElementView { start, end, is_line_block: true, delims, styles: seq![style] }
}

/// The Markdown elements of one line, in characters.
///
/// After leading spaces, a line is a heading (`#` to `######` then a space), a
/// quote (`> `), a task list item, or a code fence (three backquotes); headings,
/// quotes and task items also hold the inline elements of their text. Any other
/// line holds only inline elements.
pub open spec fn parse_elements(c: Seq<char>) -> Seq<ElementView> {
    let n = c.len() as int;
    let indent = run_length(c, 0, ' ') as int;
    let hashes = run_length(c, indent, '#') as int;
    let h = indent + hashes;
    if n == 0 {
        seq![]
    } else if 1 <= hashes <= 6 && h < n && c[h] == ' ' {
        seq![line_block(indent, n, seq![(indent, h + 1)], (h + 1, n, heading_type(hashes)))]
            + inline_from(c, h + 1, n)
    } else if indent + 1 < n && c[indent] == '>' && c[indent + 1] == ' ' {
        seq![line_block(indent, n, seq![(indent, indent + 2)], (indent + 2, n, SpanType::Quote))]
            + inline_from(c, indent + 2, n)
    } else if is_checkbox(c, indent) {
        (if c[indent + 3] == 'x' || c[indent + 3] == 'X' {
            seq![line_block(indent + 6, n, seq![], (indent + 6, n, SpanType::Strike))]
        } else {
            seq![]
        }) + inline_from(c, indent + 6, n)
    } else if indent + 2 < n && c[indent] == '`' && c[indent + 1] == '`' && c[indent + 2] == '`' {
        seq![line_block(indent, n, seq![], (indent, n, SpanType::Code))]
    } else {
        inline_from(c, 0, n)
    }
}

fn heading_type_of(hashes: usize) -> (t: SpanType)
    ensures
        t == heading_type(hashes as int),
{
    match hashes {
        1 => SpanType::H1,
        2 => SpanType::H2,
        3 => SpanType::H3,
        4 => SpanType::H4,
        5 => SpanType::H5,
        _ => SpanType::H6,
    }
}

fn line_block_element(start: usize, end: usize, delim: Option<(usize, usize)>, style: (usize, usize, SpanType)) -> (e: MarkdownElement)
    ensures
        e@ == line_block(
            start as int,
            end as int,
            match delim {
                Some(d) => seq![range_view(d)],
                None => seq![],
            },
            style_view(style),
        ),
{
    let delims = match delim {
        Some(d) => vec![d],
        None => Vec::new(),
    };
    let e = MarkdownElement { start, end, is_line_block: true, delims, styles: vec![style] };
    assert(e@.delims =~= match delim {
        Some(d) => seq![range_view(d)],
        None => seq![],
    });
    assert(e@.styles =~= seq![style_view(style)]);
    e
}

/// Parses a line of Markdown into its elements; every range it reports lies
/// within the line, delimiters never overlap styles, only the first element
/// may be line-wide, and the inline ones come in order without overlapping.
pub fn parse_markdown_elements(line: &str) -> (elements: Vec<MarkdownElement>)
    ensures
        elements_view(elements@) == parse_elements(line@),
        forall|k: int|
            0 <= k < elements.len() ==> element_within(#[trigger] elements@[k]@, line@.len() as int),
        well_structured(elements_view(elements@)),
        line@.len() == 0 ==> elements.len() == 0,
{
    let elements = parse_line(line);
    proof {
        lemma_parse_elements_structure(line@);
        lemma_parse_elements_within(line@);
        assert forall|k: int| 0 <= k < elements.len() implies element_within(
            #[trigger] elements@[k]@,
            line@.len() as int,
        ) by {
            assert(elements@[k]@ == elements_view(elements@)[k]);
        }
    }
    elements
}

fn parse_line(line: &str) -> (elements: Vec<MarkdownElement>)
    ensures
        elements_view(elements@) == parse_elements(line@),
{
    let mut elements: Vec<MarkdownElement> = Vec::new();
    let chars = chars_of(line);
    let n = chars.len();
    let ghost c = chars@;
    if n == 0 {
        assert(elements_view(elements@) =~= seq![]);
        return elements;
    }
    let indent = count_run(&chars, 0, ' ');
    let hashes = count_run(&chars, indent, '#');
    let i = indent + hashes;
    if hashes >= 1 && hashes <= 6 && i < n && chars[i] == ' ' {
        let delim_end = i + 1;
        let heading = heading_type_of(hashes);
        elements.push(line_block_element(indent, n, Some((indent, delim_end)), (delim_end, n, heading)));
        proof {
            assert(elements_view(elements@) =~= seq![line_block(indent as int, n as int, seq![(indent as int, delim_end as int)], (delim_end as int, n as int, heading))]);
        }
        parse_inline_elements(&chars, delim_end, n, &mut elements);
        return elements;
    }
    if n - indent > 1 && chars[indent] == '>' && chars[indent + 1] == ' ' {
        elements.push(line_block_element(indent, n, Some((indent, indent + 2)), (indent + 2, n, SpanType::Quote)));
        proof {
            assert(elements_view(elements@) =~= seq![line_block(indent as int, n as int, seq![(indent as int, indent + 2)], (indent + 2, n as int, SpanType::Quote))]);
        }
        parse_inline_elements(&chars, indent + 2, n, &mut elements);
        return elements;
    }
    if n - indent > 5 && (chars[indent] == '-' || chars[indent] == '*' || chars[indent] == '+')
        && chars[indent + 1] == ' ' && chars[indent + 2] == '[' && (chars[indent + 3] == ' '
        || chars[indent + 3] == 'x' || chars[indent + 3] == 'X') && chars[indent + 4] == ']'
        && chars[indent + 5] == ' ' {
        let is_checked = chars[indent + 3] == 'x' || chars[indent + 3] == 'X';
        if is_checked {
            elements.push(line_block_element(indent + 6, n, None, (indent + 6, n, SpanType::Strike)));
        }
        proof {
            assert(elements_view(elements@) =~= if is_checked {
                seq![line_block(indent + 6, n as int, seq![], (indent + 6, n as int, SpanType::Strike))]
            } else {
                seq![]
            });
        }
        parse_inline_elements(&chars, indent + 6, n, &mut elements);
        return elements;
    }
    if n - indent > 2 && chars[indent] == '`' && chars[indent + 1] == '`' && chars[indent + 2] == '`' {
        elements.push(line_block_element(indent, n, None, (indent, n, SpanType::Code)));
        proof {
            assert(elements_view(elements@) =~= seq![line_block(indent as int, n as int, seq![], (indent as int, n as int, SpanType::Code))]);
        }
        return elements;
    }
    proof {
        assert(elements_view(elements@) =~= seq![]);
    }
    parse_inline_elements(&chars, 0, n, &mut elements);
    proof {
        assert(elements_view(elements@) =~= inline_from(c, 0, n as int));
    }
    elements
}


// ---------------------------------------------------------------------------
// Flat spans
// ---------------------------------------------------------------------------

pub open spec fn tokens_view(ts: Seq<SpanToken>) -> Seq<(int, int, SpanType)> {
    ts.map_values(|t: SpanToken| t@)
}

/// The spans of one element: its delimiters as `Conceal`, then its styles.
pub open spec fn element_spans(e: ElementView) -> Seq<(int, int, SpanType)> {
    e.delims.map_values(|d: (int, int)| (d.0, d.1, SpanType::Conceal)) + e.styles
}

/// The spans of all elements, element after element.
pub open spec fn flatten_spans(es: Seq<ElementView>) -> Seq<(int, int, SpanType)>
    decreases es.len(),
{
    if es.len() == 0 {
        seq![]
    } else {
        flatten_spans(es.drop_last()) + element_spans(es.last())
    }
}

/// Where `x` goes in `s` so that it follows every span of `s` that starts at or
/// before it: after the last such span.
pub open spec fn insert_position(s: Seq<(int, int, SpanType)>, x: (int, int, SpanType)) -> int
    decreases s.len(),
{
    if s.len() == 0 {
        0
    } else if s.last().0 > x.0 {
        insert_position(s.drop_last(), x)
    } else {
        s.len() as int
    }
}

/// `s` ordered by start, spans with equal starts kept in their order in `s`
/// (a stable sort by start).
pub open spec fn sort_by_start(s: Seq<(int, int, SpanType)>) -> Seq<(int, int, SpanType)>
    decreases s.len(),
{
    if s.len() == 0 {
        s
    } else {
        let t = sort_by_start(s.drop_last());
        t.insert(insert_position(t, s.last()), s.last())
    }
}

/// The spans of a line: those of its elements, stably sorted by start.
pub open spec fn parse_spans(c: Seq<char>) -> Seq<(int, int, SpanType)> {
    sort_by_start(flatten_spans(parse_elements(c)))
}

proof fn lemma_insert_position(s: Seq<(int, int, SpanType)>, x: (int, int, SpanType))
    ensures
        0 <= insert_position(s, x) <= s.len(),
        forall|k: int| insert_position(s, x) <= k < s.len() ==> (#[trigger] s[k]).0 > x.0,
        insert_position(s, x) > 0 ==> s[insert_position(s, x) - 1].0 <= x.0,
    decreases s.len(),
{
    if s.len() > 0 && s.last().0 > x.0 {
        lemma_insert_position(s.drop_last(), x);
        let p = insert_position(s, x);
        assert forall|k: int| p <= k < s.len() implies (#[trigger] s[k]).0 > x.0 by {
            if k < s.len() - 1 {
                assert(s[k] == s.drop_last()[k]);
            }
        }
        if p > 0 {
            assert(s[p - 1] == s.drop_last()[p - 1]);
        }
    }
}

/// Spans ordered by start.
pub open spec fn sorted_by_start(s: Seq<(int, int, SpanType)>) -> bool {
    forall|i: int, j: int| 0 <= i < j < s.len() ==> (#[trigger] s[i]).0 <= (#[trigger] s[j]).0
}

/// Sorting by start orders the spans by start and keeps every span: the result
/// is a permutation of its input.
pub proof fn lemma_sort_by_start(s: Seq<(int, int, SpanType)>)
    ensures
        sorted_by_start(sort_by_start(s)),
        sort_by_start(s).to_multiset() == s.to_multiset(),
    decreases s.len(),
{
    broadcast use vstd::seq_lib::to_multiset_build, vstd::seq_lib::to_multiset_insert;

    if s.len() > 0 {
        let t = sort_by_start(s.drop_last());
        let x = s.last();
        lemma_sort_by_start(s.drop_last());
        lemma_insert_position(t, x);
        let p = insert_position(t, x);
        let r = t.insert(p, x);
        t.insert_ensures(p, x);
        assert forall|i: int, j: int| 0 <= i < j < r.len() implies (#[trigger] r[i]).0 <= (
        #[trigger] r[j]).0 by {
            if j < p {
                assert(r[i] == t[i] && r[j] == t[j]);
            } else if j == p {
                assert(r[i] == t[i]);
                assert(t[i].0 <= t[p - 1].0);
            } else if i < p {
                assert(r[i] == t[i] && r[j] == t[j - 1]);
            } else if i == p {
                assert(r[j] == t[j - 1]);
            } else {
                assert(r[i] == t[i - 1] && r[j] == t[j - 1]);
            }
        }
        assert(s.drop_last().push(x) =~= s);
    }
}

fn push_element_spans(e: &MarkdownElement, out: &mut Vec<SpanToken>)
    ensures
        tokens_view(final(out)@) == tokens_view(old(out)@) + element_spans(e@),
{
    let ghost before = tokens_view(out@);
    let mut k: usize = 0;
    while k < e.delims.len()
        invariant
            k <= e.delims.len(),
            tokens_view(out@) == before + e@.delims.take(k as int).map_values(
                |d: (int, int)| (d.0, d.1, SpanType::Conceal),
            ),
        decreases e.delims.len() - k,
    {
        let (d_start, d_end) = e.delims[k];
        let ghost prev = tokens_view(out@);
        out.push(SpanToken { start: d_start, end: d_end, span_type: SpanType::Conceal });
        assert(tokens_view(out@) =~= prev.push((d_start as int, d_end as int, SpanType::Conceal)));
        assert(e@.delims[k as int] == range_view(e.delims@[k as int]));
        assert(e@.delims.take(k + 1) =~= e@.delims.take(k as int).push(e@.delims[k as int]));
        assert(tokens_view(out@) =~= before + e@.delims.take(k + 1).map_values(
            |d: (int, int)| (d.0, d.1, SpanType::Conceal),
        ));
        k += 1;
    }
    assert(e@.delims.take(e.delims.len() as int) =~= e@.delims);
    let ghost middle = tokens_view(out@);
    let mut k: usize = 0;
    while k < e.styles.len()
        invariant
            k <= e.styles.len(),
            tokens_view(out@) == middle + e@.styles.take(k as int),
        decreases e.styles.len() - k,
    {
        let (s_start, s_end, span_type) = e.styles[k];
        let ghost prev = tokens_view(out@);
        out.push(SpanToken { start: s_start, end: s_end, span_type });
        assert(tokens_view(out@) =~= prev.push((s_start as int, s_end as int, span_type)));
        assert(e@.styles[k as int] == style_view(e.styles@[k as int]));
        assert(e@.styles.take(k + 1) =~= e@.styles.take(k as int).push(e@.styles[k as int]));
        assert(tokens_view(out@) =~= middle + e@.styles.take(k + 1));
        k += 1;
    }
    assert(e@.styles.take(e.styles.len() as int) =~= e@.styles);
    assert(tokens_view(out@) =~= before + element_spans(e@));
}

fn insert_by_start(sorted: &mut Vec<SpanToken>, t: SpanToken)
    ensures
        tokens_view(final(sorted)@) == tokens_view(old(sorted)@).insert(
            insert_position(tokens_view(old(sorted)@), t@),
            t@,
        ),
{
    let ghost s = tokens_view(sorted@);
    let mut p = sorted.len();
    assert(s.take(p as int) =~= s);
    while p > 0 && sorted[p - 1].start > t.start
        invariant
            p <= sorted.len(),
            s == tokens_view(sorted@),
            insert_position(s.take(p as int), t@) == insert_position(s, t@),
        decreases p,
    {
        assert(s.take(p as int).drop_last() =~= s.take(p - 1));
        p -= 1;
    }
    if p > 0 {
        assert(s.take(p as int).last() == s[p - 1]);
    }
    assert(insert_position(s.take(p as int), t@) == p);
    sorted.insert(p, t);
    assert(tokens_view(sorted@) =~= s.insert(p as int, t@));
}

/// The spans of a line of Markdown, sorted by start: each element's delimiters as
/// `Conceal` spans, then its styles.
pub fn parse_markdown_spans(line: &str) -> (spans: Vec<SpanToken>)
    ensures
        tokens_view(spans@) == parse_spans(line@),
        sorted_by_start(tokens_view(spans@)),
        tokens_view(spans@).to_multiset() == flatten_spans(parse_elements(line@)).to_multiset(),
{
    let elements = parse_markdown_elements(line);
    let ghost es = elements_view(elements@);
    let mut flat: Vec<SpanToken> = Vec::new();
    let mut k: usize = 0;
    while k < elements.len()
        invariant
            k <= elements.len(),
            es == elements_view(elements@),
            tokens_view(flat@) == flatten_spans(es.take(k as int)),
        decreases elements.len() - k,
    {
        push_element_spans(&elements[k], &mut flat);
        assert(es.take(k + 1).drop_last() =~= es.take(k as int));
        k += 1;
    }
    assert(es.take(elements.len() as int) =~= es);
    let ghost f = tokens_view(flat@);
    let mut spans: Vec<SpanToken> = Vec::new();
    let mut k: usize = 0;
    while k < flat.len()
        invariant
            k <= flat.len(),
            f == tokens_view(flat@),
            tokens_view(spans@) == sort_by_start(f.take(k as int)),
        decreases flat.len() - k,
    {
        insert_by_start(&mut spans, flat[k]);
        assert(f.take(k + 1).drop_last() =~= f.take(k as int));
        k += 1;
    }
    assert(f.take(flat.len() as int) =~= f);
    proof {
        lemma_sort_by_start(f);
    }
    spans
}


// ---------------------------------------------------------------------------
// Laws of the parser
// ---------------------------------------------------------------------------

/// Inline elements lie in the scanned range, one after the other without overlap.
pub open spec fn inline_ordered(es: Seq<ElementView>, from: int, end: int) -> bool {
    &&& forall|k: int| 0 <= k < es.len() ==> element_within(#[trigger] es[k], end)
    &&& forall|k: int| 0 <= k < es.len() ==> from <= (#[trigger] es[k]).start
    &&& forall|k: int| 0 <= k < es.len() - 1 ==> (#[trigger] es[k]).end <= es[k + 1].start
}

/// The inline scan yields elements inside `i..end`, left to right, disjoint.
pub proof fn lemma_inline_from_ordered(c: Seq<char>, i: int, end: int)
    requires
        0 <= i,
    ensures
        inline_ordered(inline_from(c, i, end), i, end),
    decreases end - i,
{
    if i < end {
        lemma_inline_at_bounds(c, i, end);
        match inline_at(c, i, end) {
            Some(e) => {
                lemma_inline_from_ordered(c, e.end, end);
                let rest = inline_from(c, e.end, end);
                let r = seq![e] + rest;
                assert(inline_from(c, i, end) == r);
                assert forall|k: int| 0 <= k < r.len() - 1 implies (#[trigger] r[k]).end <= r[k
                    + 1].start by {
                    if k > 0 {
                        assert(r[k] == rest[k - 1] && r[k + 1] == rest[k]);
                    } else {
                        assert(r[1] == rest[0]);
                    }
                }
                assert forall|k: int| 0 <= k < r.len() implies element_within(#[trigger] r[k], end)
                    && i <= r[k].start by {
                    if k > 0 {
                        assert(r[k] == rest[k - 1]);
                    }
                }
            },
            None => {
                lemma_inline_from_ordered(c, i + 1, end);
            },
        }
    }
}

/// No delimiter of `e` overlaps one of its styled ranges.
pub open spec fn apart(e: ElementView) -> bool {
    forall|k: int, m: int|
        0 <= k < e.delims.len() && 0 <= m < e.styles.len() ==> (#[trigger] e.delims[k]).1
            <= (#[trigger] e.styles[m]).0 || e.styles[m].1 <= e.delims[k].0
}

/// The elements of a line: each keeps its delimiters apart from its styles,
/// only the first may be line-wide, and the inline ones come one after the
/// other without overlapping.
pub open spec fn well_structured(es: Seq<ElementView>) -> bool {
    &&& forall|k: int| 0 <= k < es.len() ==> apart(#[trigger] es[k])
    &&& forall|k: int| 0 < k < es.len() ==> !(#[trigger] es[k]).is_line_block
    &&& forall|k: int, m: int|
        0 <= k < m < es.len() && !es[k].is_line_block ==> (#[trigger] es[k]).end <= (
        #[trigger] es[m]).start
}

proof fn lemma_delimited_apart(start: int, open_end: int, close_start: int, end: int, t: SpanType)
    ensures
        apart(delimited(start, open_end, close_start, end, t)),
        !delimited(start, open_end, close_start, end, t).is_line_block,
{
    let e = delimited(start, open_end, close_start, end, t);
    assert forall|k: int, m: int| 0 <= k < e.delims.len() && 0 <= m < e.styles.len() implies (
    #[trigger] e.delims[k]).1 <= (#[trigger] e.styles[m]).0 || e.styles[m].1 <= e.delims[k].0 by {
        assert(m == 0);
        if k == 0 {
        } else {
            assert(k == 1);
        }
    }
}

/// An inline element is not line-wide and keeps its delimiters apart from its styles.
proof fn lemma_inline_at_shape(c: Seq<char>, i: int, end: int)
    ensures
        inline_at(c, i, end) matches Some(e) ==> apart(e) && !e.is_line_block,
{
    if let Some(e) = inline_at(c, i, end) {
        if bold_italic_at(c, i, end) is Some && code_at(c, i, end) is None && link_at(c, i, end) is None {
            assert forall|k: int, m: int| 0 <= k < e.delims.len() && 0 <= m < e.styles.len() implies (
            #[trigger] e.delims[k]).1 <= (#[trigger] e.styles[m]).0 || e.styles[m].1 <= e.delims[k].0 by {
                if k == 0 {
                } else {
                    assert(k == 1);
                }
            }
        } else {
            lemma_delimited_apart(e.start, e.delims[0].1, e.delims[1].0, e.end, e.styles[0].2);
            assert(e == delimited(e.start, e.delims[0].1, e.delims[1].0, e.end, e.styles[0].2));
        }
    }
}

/// The inline scan's elements keep their delimiters apart from their styles,
/// are not line-wide, and each ends before any later one starts.
pub proof fn lemma_inline_from_structure(c: Seq<char>, i: int, end: int)
    requires
        0 <= i,
    ensures
        well_structured(inline_from(c, i, end)),
        forall|k: int| 0 <= k < inline_from(c, i, end).len() ==> !(#[trigger] inline_from(c, i, end)[k]).is_line_block,
    decreases end - i,
{
    if i < end {
        lemma_inline_at_bounds(c, i, end);
        lemma_inline_at_shape(c, i, end);
        match inline_at(c, i, end) {
            Some(e) => {
                lemma_inline_from_structure(c, e.end, end);
                lemma_inline_from_ordered(c, e.end, end);
                let rest = inline_from(c, e.end, end);
                let r = seq![e] + rest;
                assert(inline_from(c, i, end) == r);
                assert forall|k: int| 0 <= k < r.len() implies apart(#[trigger] r[k]) && !r[k].is_line_block by {
                    if k > 0 {
                        assert(r[k] == rest[k - 1]);
                    }
                }
                assert forall|k: int, m: int|
                    0 <= k < m < r.len() && !r[k].is_line_block implies (#[trigger] r[k]).end <= (
                    #[trigger] r[m]).start by {
                    assert(r[m] == rest[m - 1]);
                    if k > 0 {
                        assert(r[k] == rest[k - 1]);
                    } else {
                        assert(e.end <= rest[m - 1].start);
                    }
                }
            },
            None => {
                lemma_inline_from_structure(c, i + 1, end);
            },
        }
    }
}

/// The structure of a parsed line: an empty line has no element; every element
/// keeps its delimiters apart from its styles; only the first element may be
/// line-wide; the others, and the first when it is inline, come in order
/// without overlapping.
pub proof fn lemma_parse_elements_structure(c: Seq<char>)
    ensures
        c.len() == 0 ==> parse_elements(c).len() == 0,
        well_structured(parse_elements(c)),
{
    let n = c.len() as int;
    let indent = run_length(c, 0, ' ') as int;
    let hashes = run_length(c, indent, '#') as int;
    let h = indent + hashes;
    let r = parse_elements(c);
    let empty: Seq<(int, int)> = seq![];
    if n == 0 {
    } else if 1 <= hashes <= 6 && h < n && c[h] == ' ' {
        let head = line_block(indent, n, seq![(indent, h + 1)], (h + 1, n, heading_type(hashes)));
        lemma_line_block_apart(indent, n, seq![(indent, h + 1)], (h + 1, n, heading_type(hashes)));
        lemma_inline_from_structure(c, h + 1, n);
        lemma_structure_after_head(head, inline_from(c, h + 1, n));
    } else if indent + 1 < n && c[indent] == '>' && c[indent + 1] == ' ' {
        let head = line_block(indent, n, seq![(indent, indent + 2)], (indent + 2, n, SpanType::Quote));
        lemma_line_block_apart(indent, n, seq![(indent, indent + 2)], (indent + 2, n, SpanType::Quote));
        lemma_inline_from_structure(c, indent + 2, n);
        lemma_structure_after_head(head, inline_from(c, indent + 2, n));
    } else if is_checkbox(c, indent) {
        lemma_inline_from_structure(c, indent + 6, n);
        if c[indent + 3] == 'x' || c[indent + 3] == 'X' {
            let head = line_block(indent + 6, n, empty, (indent + 6, n, SpanType::Strike));
            lemma_line_block_apart(indent + 6, n, empty, (indent + 6, n, SpanType::Strike));
            lemma_structure_after_head(head, inline_from(c, indent + 6, n));
        } else {
            assert(r == inline_from(c, indent + 6, n));
        }
    } else if indent + 2 < n && c[indent] == '`' && c[indent + 1] == '`' && c[indent + 2] == '`' {
        lemma_line_block_apart(indent, n, empty, (indent, n, SpanType::Code));
    } else {
        lemma_inline_from_structure(c, 0, n);
    }
}

proof fn lemma_line_block_apart(start: int, end: int, delims: Seq<(int, int)>, style: (int, int, SpanType))
    requires
        forall|k: int| 0 <= k < delims.len() ==> (#[trigger] delims[k]).1 <= style.0,
    ensures
        apart(line_block(start, end, delims, style)),
        line_block(start, end, delims, style).is_line_block,
{
    let e = line_block(start, end, delims, style);
    assert forall|k: int, m: int| 0 <= k < e.delims.len() && 0 <= m < e.styles.len() implies (
    #[trigger] e.delims[k]).1 <= (#[trigger] e.styles[m]).0 || e.styles[m].1 <= e.delims[k].0 by {
        assert(e.styles[m] == style);
    }
}

proof fn lemma_structure_after_head(head: ElementView, rest: Seq<ElementView>)
    requires
        apart(head),
        well_structured(rest),
        forall|k: int| 0 <= k < rest.len() ==> !(#[trigger] rest[k]).is_line_block,
        head.is_line_block,
    ensures
        well_structured(seq![head] + rest),
{
    let r = seq![head] + rest;
    assert forall|k: int| 0 <= k < r.len() implies apart(#[trigger] r[k]) by {
        if k > 0 {
            assert(r[k] == rest[k - 1]);
        }
    }
    assert forall|k: int| 0 < k < r.len() implies !(#[trigger] r[k]).is_line_block by {
        assert(r[k] == rest[k - 1]);
    }
    assert forall|k: int, m: int| 0 <= k < m < r.len() && !r[k].is_line_block implies (
    #[trigger] r[k]).end <= (#[trigger] r[m]).start by {
        assert(k > 0);
        assert(r[k] == rest[k - 1] && r[m] == rest[m - 1]);
    }
}

proof fn lemma_run_of_spaces(c: Seq<char>, k: int)
    requires
        0 <= k < c.len(),
        forall|i: int| 0 <= i < k ==> c[i] == ' ',
        c[k] != ' ',
    ensures
        run_length(c, 0, ' ') == k,
{
    lemma_run_length(c, 0, ' ');
    let r = run_length(c, 0, ' ') as int;
    if r < k {
        assert(c[r] == ' ');
    } else if r > k {
        assert(c[k] == ' ');
    }
}

/// A quoted line: spaces `w`, `> ` and text `s`. Its elements are the quote
/// block over the line, followed by exactly the inline elements found in the
/// quoted text.
pub proof fn lemma_quote_line_elements(w: Seq<char>, s: Seq<char>)
    requires
        forall|i: int| 0 <= i < w.len() ==> w[i] == ' ',
    ensures
        ({
            let c = w + ("> "@ + s);
            let k = w.len() as int;
            let n = c.len() as int;
            parse_elements(c) == seq![line_block(k, n, seq![(k, k + 2)], (k + 2, n, SpanType::Quote))]
                + inline_from(c, k + 2, n)
        }),
{
    reveal_strlit("> ");
    let c = w + ("> "@ + s);
    let k = w.len() as int;
    assert(c[k] == '>' && c[k + 1] == ' ');
    assert forall|i: int| 0 <= i < k implies c[i] == ' ' by {
        assert(c[i] == w[i]);
    }
    lemma_run_of_spaces(c, k);
    assert(run_length(c, k, '#') == 0);
}

/// Bold text in a quoted line is found: for spaces `w` and a text `x` that is
/// not empty, holds no `*` and does not end with a space or a backslash, the
/// line `w` + `> **` + `x` + `**` holds the quote block and a bold element over
/// `**x**`, whose two `**` are its delimiters.
pub proof fn lemma_quote_finds_bold(w: Seq<char>, x: Seq<char>)
    requires
        forall|i: int| 0 <= i < w.len() ==> w[i] == ' ',
        x.len() > 0,
        forall|i: int| 0 <= i < x.len() ==> x[i] != '*',
        x.last() != ' ',
        x.last() != '\\',
    ensures
        ({
            let c = w + ("> "@ + ("**"@ + x + "**"@));
            let k = w.len() as int;
            let n = c.len() as int;
            parse_elements(c) == seq![
                line_block(k, n, seq![(k, k + 2)], (k + 2, n, SpanType::Quote)),
                delimited(k + 2, k + 4, n - 2, n, SpanType::Bold),
            ]
        }),
{
    reveal_strlit("> ");
    reveal_strlit("**");
    let body = "**"@ + x + "**"@;
    lemma_quote_line_elements(w, body);
    let c = w + ("> "@ + body);
    let k = w.len() as int;
    let n = c.len() as int;
    let p = k + 2;
    assert(n == p + x.len() + 4);
    assert(c[p] == '*' && c[p + 1] == '*');
    assert forall|i: int| 0 <= i < x.len() implies c[p + 2 + i] == x[i] by {
        assert(c[p + 2 + i] == body[2 + i]);
    }
    let close = n - 2;
    assert(c[close] == '*' && c[close + 1] == '*');
    assert(c[close - 1] == x.last());
    let pd = |j: int| closes_double(c, p + 2, j, '*');
    assert forall|j: int| p + 2 <= j < close implies !#[trigger] pd(j) by {
        assert(c[j] == x[j - p - 2]);
    }
    assert(pd(close));
    lemma_least_in_found(p + 2, n - 1, pd, close);
    assert(find_double(c, p + 2, n, '*') == Some(close));
    assert(code_at(c, p, n) is None);
    assert(link_at(c, p, n) is None);
    assert(c[p + 2] == x[0]);
    assert(bold_italic_at(c, p, n) is None);
    assert(inline_at(c, p, n) == Some(delimited(p, p + 2, close, n, SpanType::Bold)));
    assert(inline_from(c, n, n) =~= Seq::<ElementView>::empty());
    assert(inline_from(c, p, n) == seq![delimited(p, p + 2, close, n, SpanType::Bold)]);
}

proof fn lemma_run_length_bound(s: Seq<char>, from: int, ch: char)
    requires
        0 <= from <= s.len(),
    ensures
        from + run_length(s, from, ch) <= s.len(),
    decreases s.len() - from,
{
    if from < s.len() && s[from] == ch {
        lemma_run_length_bound(s, from + 1, ch);
    }
}

proof fn lemma_line_block_within(start: int, end: int, delims: Seq<(int, int)>, style: (int, int, SpanType))
    requires
        0 <= start <= end,
        forall|k: int| 0 <= k < delims.len() ==> start <= (#[trigger] delims[k]).0 <= delims[k].1 <= end,
        start <= style.0 <= style.1 <= end,
    ensures
        element_within(line_block(start, end, delims, style), end),
{
    let e = line_block(start, end, delims, style);
    assert forall|k: int| 0 <= k < e.styles.len() implies e.start <= (#[trigger] e.styles[k]).0
        <= e.styles[k].1 <= e.end by {
        assert(e.styles[k] == style);
    }
}

/// Every element of a line, and every delimiter and style in it, lies within the line.
pub proof fn lemma_parse_elements_within(c: Seq<char>)
    ensures
        forall|k: int|
            0 <= k < parse_elements(c).len() ==> element_within(#[trigger] parse_elements(c)[k], c.len() as int),
{
    let n = c.len() as int;
    let indent = run_length(c, 0, ' ') as int;
    lemma_run_length_bound(c, 0, ' ');
    lemma_run_length_bound(c, indent, '#');
    let hashes = run_length(c, indent, '#') as int;
    let h = indent + hashes;
    let r = parse_elements(c);
    if n == 0 {
    } else if 1 <= hashes <= 6 && h < n && c[h] == ' ' {
        let head = line_block(indent, n, seq![(indent, h + 1)], (h + 1, n, heading_type(hashes)));
        lemma_line_block_within(indent, n, seq![(indent, h + 1)], (h + 1, n, heading_type(hashes)));
        lemma_inline_from_ordered(c, h + 1, n);
        let rest = inline_from(c, h + 1, n);
        assert forall|k: int| 0 <= k < r.len() implies element_within(#[trigger] r[k], n) by {
            if k > 0 {
                assert(r[k] == rest[k - 1]);
            } else {
                assert(r[0] == head);
            }
        }
    } else if indent + 1 < n && c[indent] == '>' && c[indent + 1] == ' ' {
        let head = line_block(indent, n, seq![(indent, indent + 2)], (indent + 2, n, SpanType::Quote));
        lemma_line_block_within(indent, n, seq![(indent, indent + 2)], (indent + 2, n, SpanType::Quote));
        lemma_inline_from_ordered(c, indent + 2, n);
        let rest = inline_from(c, indent + 2, n);
        assert forall|k: int| 0 <= k < r.len() implies element_within(#[trigger] r[k], n) by {
            if k > 0 {
                assert(r[k] == rest[k - 1]);
            } else {
                assert(r[0] == head);
            }
        }
    } else if is_checkbox(c, indent) {
        let empty: Seq<(int, int)> = seq![];
        lemma_line_block_within(indent + 6, n, empty, (indent + 6, n, SpanType::Strike));
        lemma_inline_from_ordered(c, indent + 6, n);
        let rest = inline_from(c, indent + 6, n);
        if c[indent + 3] == 'x' || c[indent + 3] == 'X' {
            assert forall|k: int| 0 <= k < r.len() implies element_within(#[trigger] r[k], n) by {
                if k > 0 {
                    assert(r[k] == rest[k - 1]);
                }
            }
        } else {
            assert(r == rest);
        }
    } else if indent + 2 < n && c[indent] == '`' && c[indent + 1] == '`' && c[indent + 2] == '`' {
        let empty: Seq<(int, int)> = seq![];
        lemma_line_block_within(indent, n, empty, (indent, n, SpanType::Code));
    } else {
        lemma_inline_from_ordered(c, 0, n);
    }
}


// ---------------------------------------------------------------------------
// What to paint on a line
// ---------------------------------------------------------------------------

pub open spec fn cursor_view(cursor: Option<(usize, usize)>) -> Option<(int, int)> {
    match cursor {
        Some((start, end)) => Some((start as int, end as int)),
        None => None,
    }
}

/// The cursor (a selection `start..end`, or a caret when they are equal) on a
/// line reveals an element's delimiters: always for a heading, quote or other
/// line-wide element; for an inline element, when a selection overlaps it or
/// the caret stands strictly inside it. With the cursor on another line
/// (`None`) nothing is revealed.
pub open spec fn reveals(e: ElementView, cursor: Option<(int, int)>) -> bool {
    match cursor {
        Some((start, end)) => if e.is_line_block {
            true
        } else if start != end {
            start < e.end && end > e.start
        } else {
            start > e.start && start < e.end
        },
        None => false,
    }
}

/// The tags painted for one element: its delimiters concealed unless revealed,
/// then its styles.
pub open spec fn element_tags(e: ElementView, cursor: Option<(int, int)>) -> Seq<(int, int, SpanType)> {
    (if reveals(e, cursor) {
        seq![]
    } else {
        e.delims.map_values(|d: (int, int)| (d.0, d.1, SpanType::Conceal))
    }) + e.styles
}

/// The tags painted for the elements of a line, element after element.
pub open spec fn tags_of(es: Seq<ElementView>, cursor: Option<(int, int)>) -> Seq<(int, int, SpanType)>
    decreases es.len(),
{
    if es.len() == 0 {
        seq![]
    } else {
        tags_of(es.drop_last(), cursor) + element_tags(es.last(), cursor)
    }
}

/// Whether the cursor reveals the delimiters of `elem`.
pub fn is_revealed(elem: &MarkdownElement, cursor: Option<(usize, usize)>) -> (r: bool)
    ensures
        r == reveals(elem@, cursor_view(cursor)),
{
    match cursor {
        Some((c_start, c_end)) => {
            if elem.is_line_block {
                true
            } else if c_start != c_end {
                c_start < elem.end && c_end > elem.start
            } else {
                c_start > elem.start && c_start < elem.end
            }
        },
        None => false,
    }
}

/// The cursor range on line `line`: the selection when it lies on that line,
/// else the caret at `column`.
pub fn cursor_on_line(selection: Option<(i32, usize, i32, usize)>, line: i32, column: usize) -> (r: (usize, usize))
    ensures
        r == selection_on(selection, line, column),
{
    match selection {
        Some((sl, sc, el, ec)) => if sl == line && el == line {
            (sc, ec)
        } else {
            (column, column)
        },
        None => (column, column),
    }
}

/// The tags to paint on a line of Markdown with the cursor at `cursor` (`None`:
/// on another line).
pub fn line_tag_plan(line: &str, cursor: Option<(usize, usize)>) -> (tags: Vec<SpanToken>)
    ensures
        tokens_view(tags@) == tags_of(parse_elements(line@), cursor_view(cursor)),
{
    let elements = parse_markdown_elements(line);
    let ghost es = elements_view(elements@);
    let ghost cur = cursor_view(cursor);
    let mut tags: Vec<SpanToken> = Vec::new();
    let mut k: usize = 0;
    while k < elements.len()
        invariant
            k <= elements.len(),
            es == elements_view(elements@),
            cur == cursor_view(cursor),
            tokens_view(tags@) == tags_of(es.take(k as int), cur),
        decreases elements.len() - k,
    {
        let elem = &elements[k];
        let ghost before = tokens_view(tags@);
        if is_revealed(elem, cursor) {
            push_styles(elem, &mut tags);
            assert(tokens_view(tags@) =~= before + element_tags(elem@, cur));
        } else {
            push_element_spans(elem, &mut tags);
        }
        assert(es[k as int] == elem@);
        assert(es.take(k + 1).drop_last() =~= es.take(k as int));
        k += 1;
    }
    assert(es.take(elements.len() as int) =~= es);
    tags
}

fn push_styles(e: &MarkdownElement, out: &mut Vec<SpanToken>)
    ensures
        tokens_view(final(out)@) == tokens_view(old(out)@) + e@.styles,
{
    let ghost before = tokens_view(out@);
    let mut k: usize = 0;
    while k < e.styles.len()
        invariant
            k <= e.styles.len(),
            tokens_view(out@) == before + e@.styles.take(k as int),
        decreases e.styles.len() - k,
    {
        let (s_start, s_end, span_type) = e.styles[k];
        let ghost prev = tokens_view(out@);
        out.push(SpanToken { start: s_start, end: s_end, span_type });
        assert(tokens_view(out@) =~= prev.push((s_start as int, s_end as int, span_type)));
        assert(e@.styles[k as int] == style_view(e.styles@[k as int]));
        assert(e@.styles.take(k + 1) =~= e@.styles.take(k as int).push(e@.styles[k as int]));
        k += 1;
    }
    assert(e@.styles.take(e.styles.len() as int) =~= e@.styles);
}

/// With the cursor on another line every delimiter is concealed: the tags of a
/// line are then exactly its spans, before they are sorted.
pub proof fn lemma_tags_away_from_cursor(es: Seq<ElementView>)
    ensures
        tags_of(es, None) == flatten_spans(es),
    decreases es.len(),
{
    if es.len() > 0 {
        lemma_tags_away_from_cursor(es.drop_last());
    }
}

/// A caret reveals an inline element's delimiters exactly when it stands
/// strictly inside the element; on a line-wide element any caret on the line
/// does.
pub proof fn lemma_caret_inside_reveals(e: ElementView, k: int)
    ensures
        reveals(e, Some((k, k))) <==> (e.is_line_block || e.start < k < e.end),
{
}


// ---------------------------------------------------------------------------
// Following the cursor
// ---------------------------------------------------------------------------

/// The cursor range that `cursor_on_line` finds on line `line`.
pub open spec fn selection_on(selection: Option<(i32, usize, i32, usize)>, line: i32, column: usize) -> (usize, usize) {
    match selection {
        Some((sl, sc, el, ec)) => if sl == line && el == line {
            (sc, ec)
        } else {
            (column, column)
        },
        None => (column, column),
    }
}

/// A line to paint again: its tags recomputed for the cursor (`None`: the
/// cursor is on another line), or removed.
#[derive(Debug, Clone, Copy, PartialEq, Eq)]
pub enum LineRefresh {
    Update { line: i32, cursor: Option<(usize, usize)> },
    Clear { line: i32 },
}

/// What the concealing remembers between two events: whether it is on, and
/// the cursor offset, cursor line and line count it last saw.
#[derive(Debug, Clone, Copy, PartialEq, Eq, Structural)]
pub struct ConcealState {
    pub enabled: bool,
    pub last_cursor_pos: i32,
    pub last_line: i32,
    pub last_line_count: i32,
}

/// Every line of `0..count` updated in order, the line `line` with `cursor`
/// and the others as away from the cursor.
pub open spec fn refresh_all(count: i32, line: i32, cursor: (usize, usize)) -> Seq<LineRefresh> {
    Seq::new(
        if count > 0 {
            count as nat
        } else {
            0
        },
        |i: int|
            LineRefresh::Update {
                line: i as i32,
                cursor: if i == line {
                    Some(cursor)
                } else {
                    None
                },
            },
    )
}

/// Every line of `0..count` cleared, in order.
pub open spec fn clear_all(count: i32) -> Seq<LineRefresh> {
    Seq::new(
        if count > 0 {
            count as nat
        } else {
            0
        },
        |i: int| LineRefresh::Clear { line: i as i32 },
    )
}

/// After the cursor moved: a move to another line repaints the line left and
/// the line reached; a move on the same line repaints it; nothing else does.
pub open spec fn cursor_moved(
    st: ConcealState,
    cursor_pos: i32,
    line: i32,
    column: usize,
    selection: Option<(i32, usize, i32, usize)>,
) -> (ConcealState, Seq<LineRefresh>) {
    let here = Some(selection_on(selection, line, column));
    if !st.enabled {
        (st, seq![])
    } else if line != st.last_line {
        (
            ConcealState { last_line: line, last_cursor_pos: cursor_pos, ..st },
            seq![
                LineRefresh::Update { line: st.last_line, cursor: None },
                LineRefresh::Update { line, cursor: here },
            ],
        )
    } else if cursor_pos != st.last_cursor_pos {
        (
            ConcealState { last_cursor_pos: cursor_pos, ..st },
            seq![LineRefresh::Update { line, cursor: here }],
        )
    } else {
        (st, seq![])
    }
}

/// After the text changed: when the number of lines changed every line is
/// repainted, otherwise the cursor's line.
pub open spec fn content_changed(
    st: ConcealState,
    line_count: i32,
    cursor_pos: i32,
    line: i32,
    column: usize,
    selection: Option<(i32, usize, i32, usize)>,
) -> (ConcealState, Seq<LineRefresh>) {
    let here = selection_on(selection, line, column);
    if !st.enabled {
        (st, seq![])
    } else if line_count != st.last_line_count {
        (
            ConcealState { last_line_count: line_count, last_line: line, last_cursor_pos: cursor_pos, ..st },
            refresh_all(line_count, line, here),
        )
    } else {
        (
            ConcealState { last_line: line, last_cursor_pos: cursor_pos, ..st },
            seq![LineRefresh::Update { line, cursor: Some(here) }],
        )
    }
}

/// Repainting the whole text, with a caret at `column` on line `line`.
pub open spec fn synced(st: ConcealState, line_count: i32, cursor_pos: i32, line: i32, column: usize) -> (ConcealState, Seq<LineRefresh>) {
    if !st.enabled {
        (st, seq![])
    } else {
        (
            ConcealState { last_line_count: line_count, last_line: line, last_cursor_pos: cursor_pos, ..st },
            refresh_all(line_count, line, (column, column)),
        )
    }
}

fn refresh_lines(count: i32, line: i32, cursor: (usize, usize)) -> (r: Vec<LineRefresh>)
    ensures
        r@ == refresh_all(count, line, cursor),
{
    let mut r: Vec<LineRefresh> = Vec::new();
    let mut i: i32 = 0;
    while i < count
        invariant
            0 <= i,
            count > 0 ==> i <= count,
            count <= 0 ==> i == 0,
            r@.len() == i,
            forall|k: int| 0 <= k < i ==> #[trigger] r@[k] == (LineRefresh::Update {
                line: k as i32,
                cursor: if k == line {
                    Some(cursor)
                } else {
                    None
                },
            }),
        decreases count - i,
    {
        let c = if i == line {
            Some(cursor)
        } else {
            None
        };
        r.push(LineRefresh::Update { line: i, cursor: c });
        i += 1;
    }
    assert(r@ =~= refresh_all(count, line, cursor));
    r
}

fn clear_lines(count: i32) -> (r: Vec<LineRefresh>)
    ensures
        r@ == clear_all(count),
{
    let mut r: Vec<LineRefresh> = Vec::new();
    let mut i: i32 = 0;
    while i < count
        invariant
            0 <= i,
            count > 0 ==> i <= count,
            count <= 0 ==> i == 0,
            r@.len() == i,
            forall|k: int| 0 <= k < i ==> #[trigger] r@[k] == (LineRefresh::Clear { line: k as i32 }),
        decreases count - i,
    {
        r.push(LineRefresh::Clear { line: i });
        i += 1;
    }
    assert(r@ =~= clear_all(count));
    r
}

impl ConcealState {
    /// The state of a new buffer whose cursor is at `cursor_pos`; the whole
    /// text is then painted by `sync_all`.
    pub fn new(cursor_pos: i32, line_count: i32) -> (s: Self)
        ensures
            s == (ConcealState { enabled: true, last_cursor_pos: cursor_pos, last_line: 0, last_line_count: line_count }),
    {
        ConcealState { enabled: true, last_cursor_pos: cursor_pos, last_line: 0, last_line_count: line_count }
    }

    pub fn is_enabled(&self) -> (r: bool)
        ensures
            r == self.enabled,
    {
        self.enabled
    }

    /// The lines to repaint after the cursor moved to offset `cursor_pos`, at
    /// `column` of line `line`, with `selection` as the selection if any.
    pub fn on_cursor_moved(
        &mut self,
        cursor_pos: i32,
        line: i32,
        column: usize,
        selection: Option<(i32, usize, i32, usize)>,
    ) -> (r: Vec<LineRefresh>)
        ensures
            (*final(self), r@) == cursor_moved(*old(self), cursor_pos, line, column, selection),
    {
        let mut r: Vec<LineRefresh> = Vec::new();
        if !self.enabled {
            return r;
        }
        let here = Some(cursor_on_line(selection, line, column));
        if line != self.last_line {
            r.push(LineRefresh::Update { line: self.last_line, cursor: None });
            r.push(LineRefresh::Update { line, cursor: here });
            self.last_line = line;
            self.last_cursor_pos = cursor_pos;
        } else if cursor_pos != self.last_cursor_pos {
            r.push(LineRefresh::Update { line, cursor: here });
            self.last_cursor_pos = cursor_pos;
        }
        assert(r@ =~= cursor_moved(*old(self), cursor_pos, line, column, selection).1);
        r
    }

    /// The lines to repaint after the text changed, now `line_count` lines long.
    pub fn on_content_changed(
        &mut self,
        line_count: i32,
        cursor_pos: i32,
        line: i32,
        column: usize,
        selection: Option<(i32, usize, i32, usize)>,
    ) -> (r: Vec<LineRefresh>)
        ensures
            (*final(self), r@) == content_changed(*old(self), line_count, cursor_pos, line, column, selection),
    {
        if !self.enabled {
            return Vec::new();
        }
        let here = cursor_on_line(selection, line, column);
        if line_count != self.last_line_count {
            self.last_line_count = line_count;
            self.last_line = line;
            self.last_cursor_pos = cursor_pos;
            refresh_lines(line_count, line, here)
        } else {
            self.last_line = line;
            self.last_cursor_pos = cursor_pos;
            let mut r: Vec<LineRefresh> = Vec::new();
            r.push(LineRefresh::Update { line, cursor: Some(here) });
            assert(r@ =~= seq![LineRefresh::Update { line, cursor: Some(here) }]);
            r
        }
    }

    /// The lines to repaint to bring the whole text up to date.
    pub fn sync_all(&mut self, line_count: i32, cursor_pos: i32, line: i32, column: usize) -> (r: Vec<LineRefresh>)
        ensures
            (*final(self), r@) == synced(*old(self), line_count, cursor_pos, line, column),
    {
        if !self.enabled {
            return Vec::new();
        }
        self.last_line_count = line_count;
        self.last_line = line;
        self.last_cursor_pos = cursor_pos;
        refresh_lines(line_count, line, (column, column))
    }

    /// Turns the concealing on, which repaints the whole text, or off, which
    /// clears every line.
    pub fn set_enabled(&mut self, enabled: bool, line_count: i32, cursor_pos: i32, line: i32, column: usize) -> (r: Vec<LineRefresh>)
        ensures
            enabled ==> (*final(self), r@) == synced(
                ConcealState { enabled: true, ..*old(self) },
                line_count,
                cursor_pos,
                line,
                column,
            ),
            !enabled ==> *final(self) == (ConcealState { enabled: false, ..*old(self) }) && r@ == clear_all(line_count),
    {
        self.enabled = enabled;
        if enabled {
            self.sync_all(line_count, cursor_pos, line, column)
        } else {
            clear_lines(line_count)
        }
    }
}

/// Only the cursor's line is painted with its delimiters revealed.
pub open spec fn reveals_only(plan: Seq<LineRefresh>, line: i32) -> bool {
    forall|k: int|
        0 <= k < plan.len() ==> (#[trigger] plan[k] matches LineRefresh::Update { line: l, cursor: Some(_) } ==> l == line)
}

/// Whatever happens, the lines painted with the cursor are the cursor's line.
pub proof fn lemma_only_cursor_line_revealed(
    st: ConcealState,
    line_count: i32,
    cursor_pos: i32,
    line: i32,
    column: usize,
    selection: Option<(i32, usize, i32, usize)>,
)
    ensures
        reveals_only(cursor_moved(st, cursor_pos, line, column, selection).1, line),
        reveals_only(content_changed(st, line_count, cursor_pos, line, column, selection).1, line),
        reveals_only(synced(st, line_count, cursor_pos, line, column).1, line),
{
}

/// When the number of lines changes, every line is painted again, once and in order.
pub proof fn lemma_line_count_change_repaints_all(
    st: ConcealState,
    line_count: i32,
    cursor_pos: i32,
    line: i32,
    column: usize,
    selection: Option<(i32, usize, i32, usize)>,
)
    requires
        st.enabled,
        line_count != st.last_line_count,
        line_count >= 0,
    ensures
        content_changed(st, line_count, cursor_pos, line, column, selection).1.len() == line_count,
        forall|i: int|
            0 <= i < line_count ==> (#[trigger] content_changed(st, line_count, cursor_pos, line, column, selection).1[i]
                matches LineRefresh::Update { line: l, .. } && l == i),
{
}

} // verus!
