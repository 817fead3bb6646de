use crate::editor::markdown::{decimal, push_decimal};
use crate::text::{
    char_is_whitespace, chars_of, count_leading_whitespace, into_string, is_whitespace,
    lemma_leading_whitespace, push_range, push_str, trim_start,
};
use pulldown_cmark::{CodeBlockKind, Event, Tag, TagEnd};
use vstd::prelude::*;

verus! {

broadcast use vstd::string::group_string_axioms;

// ---------------------------------------------------------------------------
// Pango markup escaping
// ---------------------------------------------------------------------------

/// The characters that GMarkup writes as numeric character references: the C0
/// controls but tab, line feed and carriage return, and U+007F to U+009F but
/// U+0085.
pub open spec fn is_markup_control(c: char) -> bool {
    ||| ('\u{1}' <= c && c <= '\u{8}')
    ||| ('\u{B}' <= c && c <= '\u{C}')
    ||| ('\u{E}' <= c && c <= '\u{1F}')
    ||| ('\u{7F}' <= c && c <= '\u{84}')
    ||| ('\u{86}' <= c && c <= '\u{9F}')
}

pub open spec fn hex_digits() -> Seq<char> {
    seq!['0', '1', '2', '3', '4', '5', '6', '7', '8', '9', 'a', 'b', 'c', 'd', 'e', 'f']
}

/// `n < 256` in lower-case hexadecimal, without leading zeros.
pub open spec fn hex(n: nat) -> Seq<char> {
    if n < 16 {
        seq![hex_digits()[n as int]]
    } else {
        seq![hex_digits()[(n / 16) as int], hex_digits()[(n % 16) as int]]
    }
}

/// How one character is written in Pango markup.
pub open spec fn escape_char(c: char) -> Seq<char> {
    if c == '&' {
        "&amp;"@
    } else if c == '<' {
        "&lt;"@
    } else if c == '>' {
        "&gt;"@
    } else if c == '\'' {
        "&#39;"@
    } else if c == '"' {
        "&quot;"@
    } else if is_markup_control(c) {
        "&#x"@ + hex(c as nat) + ";"@
    } else {
        seq![c]
    }
}

/// `s` escaped for Pango markup, character by character (what
/// `g_markup_escape_text` produces).
pub open spec fn markup_escape(s: Seq<char>) -> Seq<char>
    decreases s.len(),
{
    if s.len() == 0 {
        seq![]
    } else {
        markup_escape(s.drop_last()) + escape_char(s.last())
    }
}

fn hex_digit(d: u32) -> (c: char)
    requires
        d < 16,
    ensures
        c == hex_digits()[d as int],
{
    match d {
        0 => '0',
        1 => '1',
        2 => '2',
        3 => '3',
        4 => '4',
        5 => '5',
        6 => '6',
        7 => '7',
        8 => '8',
        9 => '9',
        10 => 'a',
        11 => 'b',
        12 => 'c',
        13 => 'd',
        14 => 'e',
        _ => 'f',
    }
}

fn push_escaped_char(out: &mut Vec<char>, c: char)
    ensures
        final(out)@ == old(out)@ + escape_char(c),
{
    if c == '&' {
        push_str(out, "&amp;");
    } else if c == '<' {
        push_str(out, "&lt;");
    } else if c == '>' {
        push_str(out, "&gt;");
    } else if c == '\'' {
        push_str(out, "&#39;");
    } else if c == '"' {
        push_str(out, "&quot;");
    } else if ('\u{1}' <= c && c <= '\u{8}') || ('\u{B}' <= c && c <= '\u{C}') || ('\u{E}' <= c
        && c <= '\u{1F}') || ('\u{7F}' <= c && c <= '\u{84}') || ('\u{86}' <= c && c <= '\u{9F}') {
        let n = c as u32;
        push_str(out, "&#x");
        if n >= 16 {
            out.push(hex_digit(n / 16));
        }
        out.push(hex_digit(n % 16));
        push_str(out, ";");
        assert(out@ =~= old(out)@ + escape_char(c));
    } else {
        out.push(c);
    }
}

/// Appends `s`, escaped for Pango markup, to `out`.
pub(crate) fn push_escaped(out: &mut Vec<char>, s: &str)
    ensures
        final(out)@ == old(out)@ + markup_escape(s@),
{
    let cs = chars_of(s);
    let ghost before = out@;
    let mut i: usize = 0;
    while i < cs.len()
        invariant
            i <= cs.len(),
            cs@ == s@,
            out@ == before + markup_escape(cs@.take(i as int)),
        decreases cs.len() - i,
    {
        assert(cs@.take(i + 1).drop_last() =~= cs@.take(i as int));
        push_escaped_char(out, cs[i]);
        i += 1;
    }
    assert(cs@.take(cs.len() as int) =~= cs@);
}

/// `s` escaped for Pango markup.
pub fn markup_escape_text(s: &str) -> (r: String)
    ensures
        r@ == markup_escape(s@),
{
    let mut out: Vec<char> = Vec::new();
    push_escaped(&mut out, s);
    into_string(out)
}

// ---------------------------------------------------------------------------
// Markdown events
// ---------------------------------------------------------------------------

/// The option bit of `pulldown_cmark::Options` for tables.
pub const ENABLE_TABLES: u32 = 2;

/// The option bit of `pulldown_cmark::Options` for strikethrough.
pub const ENABLE_STRIKETHROUGH: u32 = 8;

/// The option bit of `pulldown_cmark::Options` for task lists.
pub const ENABLE_TASKLISTS: u32 = 16;

/// The Markdown extensions the preview reads: tables, task lists and strikethrough.
pub const PREVIEW_OPTIONS: u32 = 26;

/// The start of a Markdown element, as the preview reads it.
#[derive(Debug, Clone, PartialEq, Eq)]
pub enum MdTag {
    Paragraph,
    /// A heading of level 1 to 6.
    Heading(u8),
    BlockQuote,
    /// A code block and its language (empty for an indented block).
    CodeBlock(String),
    /// A list and the number of its first item when it is ordered.
    List(Option<u64>),
    Item,
    Table,
    TableHead,
    TableRow,
    TableCell,
    Emphasis,
    Strong,
    Strikethrough,
    /// A link and its destination.
    Link(String),
    Other,
}

/// The end of a Markdown element, as the preview reads it.
#[derive(Debug, Clone, Copy, PartialEq, Eq, Structural)]
pub enum MdTagEnd {
    Paragraph,
    Heading,
    BlockQuote,
    CodeBlock,
    List,
    Item,
    Table,
    TableHead,
    TableRow,
    TableCell,
    Emphasis,
    Strong,
    Strikethrough,
    Link,
    Other,
}

/// A Markdown parser event, as the preview reads it.
#[derive(Debug, Clone, PartialEq, Eq)]
pub enum MdEvent {
    Start(MdTag),
    End(MdTagEnd),
    Text(String),
    Code(String),
    Html(String),
    SoftBreak,
    HardBreak,
    Rule,
    TaskListMarker(bool),
    Other,
}

pub enum TagView {
    Paragraph,
    Heading(u8),
    BlockQuote,
    CodeBlock(Seq<char>),
    List(Option<u64>),
    Item,
    Table,
    TableHead,
    TableRow,
    TableCell,
    Emphasis,
    Strong,
    Strikethrough,
    Link(Seq<char>),
    Other,
}

pub enum EventView {
    Start(TagView),
    End(MdTagEnd),
    Text(Seq<char>),
    Code(Seq<char>),
    Html(Seq<char>),
    SoftBreak,
    HardBreak,
    Rule,
    TaskListMarker(bool),
    Other,
}

impl View for MdTag {
    type V = TagView;

    open spec fn view(&self) -> TagView {
        match self {
            MdTag::Paragraph => TagView::Paragraph,
            MdTag::Heading(l) => TagView::Heading(*l),
            MdTag::BlockQuote => TagView::BlockQuote,
            MdTag::CodeBlock(lang) => TagView::CodeBlock(lang@),
            MdTag::List(first) => TagView::List(*first),
            MdTag::Item => TagView::Item,
            MdTag::Table => TagView::Table,
            MdTag::TableHead => TagView::TableHead,
            MdTag::TableRow => TagView::TableRow,
            MdTag::TableCell => TagView::TableCell,
            MdTag::Emphasis => TagView::Emphasis,
            MdTag::Strong => TagView::Strong,
            MdTag::Strikethrough => TagView::Strikethrough,
            MdTag::Link(url) => TagView::Link(url@),
            MdTag::Other => TagView::Other,
        }
    }
}

impl View for MdEvent {
    type V = EventView;

    open spec fn view(&self) -> EventView {
        match self {
            MdEvent::Start(t) => EventView::Start(t@),
            MdEvent::End(t) => EventView::End(*t),
            MdEvent::Text(s) => EventView::Text(s@),
            MdEvent::Code(s) => EventView::Code(s@),
            MdEvent::Html(s) => EventView::Html(s@),
            MdEvent::SoftBreak => EventView::SoftBreak,
            MdEvent::HardBreak => EventView::HardBreak,
            MdEvent::Rule => EventView::Rule,
            MdEvent::TaskListMarker(b) => EventView::TaskListMarker(*b),
            MdEvent::Other => EventView::Other,
        }
    }
}

pub open spec fn events_view(v: Seq<MdEvent>) -> Seq<EventView> {
    v.map_values(|e: MdEvent| e@)
}

// ---------------------------------------------------------------------------
// What the preview shows
// ---------------------------------------------------------------------------

/// A piece of the preview that goes into the current container: the page, or
/// the block quote being read.
#[derive(Debug, Clone, PartialEq, Eq)]
pub enum Flow {
    /// A paragraph, as Pango markup.
    Paragraph(String),
    /// A code block, with the title of its header.
    CodeBlock { code: String, title: String },
    /// A list item: its markup, its nesting depth, and its badge (`n.` in an
    /// ordered list, a bullet otherwise).
    ListItem { markup: String, depth: usize, badge: String, numbered: bool },
}

/// A table cell, as Pango markup, and its place in the grid.
#[derive(Debug, Clone, PartialEq, Eq)]
pub struct Cell {
    pub markup: String,
    pub column: usize,
    pub row: usize,
}

/// A block of the preview page.
#[derive(Debug, Clone, PartialEq, Eq)]
pub enum Block {
    Flow(Flow),
    /// A heading, as Pango markup, and its level.
    Heading { markup: String, level: u8 },
    /// A horizontal rule.
    Rule,
    Table(Vec<Cell>),
    /// A block quote and what it holds.
    Quote(Vec<Flow>),
    /// A dimmed notice in place of the document.
    Notice(String),
}

pub enum FlowView {
    Paragraph(Seq<char>),
    CodeBlock(Seq<char>, Seq<char>),
    ListItem(Seq<char>, nat, Seq<char>, bool),
}

pub enum BlockView {
    Flow(FlowView),
    Heading(Seq<char>, u8),
    Rule,
    Table(Seq<(Seq<char>, nat, nat)>),
    Quote(Seq<FlowView>),
    Notice(Seq<char>),
}

impl View for Flow {
    type V = FlowView;

    open spec fn view(&self) -> FlowView {
        match self {
            Flow::Paragraph(m) => FlowView::Paragraph(m@),
            Flow::CodeBlock { code, title } => FlowView::CodeBlock(code@, title@),
            Flow::ListItem { markup, depth, badge, numbered } => FlowView::ListItem(
                markup@,
                *depth as nat,
                badge@,
                *numbered,
            ),
        }
    }
}

impl View for Cell {
    type V = (Seq<char>, nat, nat);

    open spec fn view(&self) -> (Seq<char>, nat, nat) {
        (self.markup@, self.column as nat, self.row as nat)
    }
}

pub open spec fn flows_view(v: Seq<Flow>) -> Seq<FlowView> {
    v.map_values(|f: Flow| f@)
}

pub open spec fn cells_view(v: Seq<Cell>) -> Seq<(Seq<char>, nat, nat)> {
    v.map_values(|c: Cell| c@)
}

impl View for Block {
    type V = BlockView;

    open spec fn view(&self) -> BlockView {
        match self {
            Block::Flow(f) => BlockView::Flow(f@),
            Block::Heading { markup, level } => BlockView::Heading(markup@, *level),
            Block::Rule => BlockView::Rule,
            Block::Table(cells) => BlockView::Table(cells_view(cells@)),
            Block::Quote(items) => BlockView::Quote(flows_view(items@)),
            Block::Notice(text) => BlockView::Notice(text@),
        }
    }
}

pub open spec fn blocks_view(v: Seq<Block>) -> Seq<BlockView> {
    v.map_values(|b: Block| b@)
}

// ---------------------------------------------------------------------------
// Reading the events
// ---------------------------------------------------------------------------

/// The number of trailing whitespace characters of `s`.
pub open spec fn trailing_whitespace(s: Seq<char>) -> nat
    decreases s.len(),
{
    if s.len() > 0 && is_whitespace(s.last()) {
        1 + trailing_whitespace(s.drop_last())
    } else {
        0
    }
}

/// `s` without its leading and trailing whitespace (`str::trim`).
pub open spec fn trim(s: Seq<char>) -> Seq<char> {
    let t = trim_start(s);
    t.take(t.len() - trailing_whitespace(t))
}

/// Every character of `s` is whitespace (`s.trim()` is empty).
pub open spec fn blank(s: Seq<char>) -> bool {
    forall|i: int| 0 <= i < s.len() ==> is_whitespace(#[trigger] s[i])
}

/// What the preview holds while it reads the events.
pub struct RenderView {
    /// The Pango markup of the text being read.
    pub inline: Seq<char>,
    /// The level of the heading being read.
    pub heading: Option<u8>,
    /// The language of the code block being read.
    pub code_lang: Option<Seq<char>>,
    /// The text of the code block being read.
    pub code_text: Seq<char>,
    /// What the block quote being read holds.
    pub quote: Option<Seq<FlowView>>,
    /// The open lists, innermost last, with the number of the next item of
    /// the ordered ones.
    pub lists: Seq<Option<u64>>,
    /// The cells of the table being read.
    pub table: Option<Seq<(Seq<char>, nat, nat)>>,
    pub row: nat,
    pub column: nat,
    /// The table's header row is being read.
    pub head: bool,
    /// The blocks of the page so far.
    pub out: Seq<BlockView>,
}

pub open spec fn initial_render() -> RenderView {
    RenderView {
        inline: seq![],
        heading: None,
        code_lang: None,
        code_text: seq![],
        quote: None,
        lists: seq![],
        table: None,
        row: 0,
        column: 0,
        head: false,
        out: seq![],
    }
}

/// The number after `n`, as a 64-bit counter.
pub open spec fn next_number(n: u64) -> u64 {
    if n < u64::MAX {
        (n + 1) as u64
    } else {
        0
    }
}

/// Puts `f` into the block quote being read, or else on the page.
pub open spec fn place(st: RenderView, f: FlowView) -> RenderView {
    match st.quote {
        Some(q) => RenderView { quote: Some(q.push(f)), ..st },
        None => RenderView { out: st.out.push(BlockView::Flow(f)), ..st },
    }
}

/// The title of a code block's header.
pub open spec fn code_title(lang: Seq<char>) -> Seq<char> {
    if lang.len() == 0 {
        "code"@
    } else {
        lang
    }
}

pub open spec fn start_tag(st: RenderView, t: TagView) -> RenderView {
    match t {
        TagView::Paragraph => RenderView { inline: seq![], ..st },
        TagView::Heading(l) => RenderView { heading: Some(l), inline: seq![], ..st },
        TagView::BlockQuote => RenderView { quote: Some(seq![]), ..st },
        TagView::CodeBlock(lang) => RenderView { code_lang: Some(lang), code_text: seq![], ..st },
        TagView::List(first) => RenderView { lists: st.lists.push(first), ..st },
        TagView::Item => RenderView { inline: seq![], ..st },
        TagView::Table => RenderView { table: Some(seq![]), row: 0, column: 0, ..st },
        TagView::TableHead => RenderView { head: true, column: 0, ..st },
        TagView::TableRow => RenderView { head: false, column: 0, ..st },
        TagView::TableCell => RenderView { inline: seq![], ..st },
        TagView::Emphasis => RenderView { inline: st.inline + "<i>"@, ..st },
        TagView::Strong => RenderView { inline: st.inline + "<b>"@, ..st },
        TagView::Strikethrough => RenderView { inline: st.inline + "<s>"@, ..st },
        TagView::Link(url) => RenderView {
            inline: st.inline + "<a href=\""@ + markup_escape(url) + "\">"@,
            ..st
        },
        TagView::Other => st,
    }
}

/// The badge of a list item in the list `lists` (innermost last), whether it
/// is numbered, and the lists after it.
pub open spec fn item_badge(lists: Seq<Option<u64>>) -> (Seq<char>, bool, Seq<Option<u64>>) {
    if lists.len() > 0 && lists.last() is Some {
        let n = lists.last()->0;
        (decimal(n as nat) + "."@, true, lists.update(lists.len() - 1, Some(next_number(n))))
    } else {
        ("\u{2022}"@, false, lists)
    }
}

/// A finished list item that holds text: numbered by its ordered list, which
/// moves on to the next number, or else with a bullet.
pub open spec fn end_item(st: RenderView) -> RenderView {
    if trim(st.inline).len() > 0 {
        let (badge, numbered, lists) = item_badge(st.lists);
        let item = FlowView::ListItem(st.inline, st.lists.len(), badge, numbered);
        RenderView { inline: seq![], ..place(RenderView { lists, ..st }, item) }
    } else {
        RenderView { inline: seq![], ..st }
    }
}

pub open spec fn end_cell(st: RenderView) -> RenderView {
    match st.table {
        Some(cells) => {
            let m = if st.head {
                "<b>"@ + trim(st.inline) + "</b>"@
            } else {
                trim(st.inline)
            };
            RenderView {
                table: Some(cells.push((m, st.column, st.row))),
                column: st.column + 1,
                inline: seq![],
                ..st
            }
        },
        None => RenderView { inline: seq![], ..st },
    }
}

pub open spec fn end_tag(st: RenderView, t: MdTagEnd) -> RenderView {
    match t {
        MdTagEnd::Paragraph => if trim(st.inline).len() > 0 {
            RenderView { inline: seq![], ..place(st, FlowView::Paragraph(st.inline)) }
        } else {
            RenderView { inline: seq![], ..st }
        },
        MdTagEnd::Heading => match st.heading {
            Some(l) => RenderView {
                out: st.out.push(BlockView::Heading(st.inline, l)),
                heading: None,
                inline: seq![],
                ..st
            },
            None => RenderView { inline: seq![], ..st },
        },
        MdTagEnd::BlockQuote => match st.quote {
            Some(q) => RenderView { out: st.out.push(BlockView::Quote(q)), quote: None, ..st },
            None => st,
        },
        MdTagEnd::CodeBlock => {
            let lang = match st.code_lang {
                Some(l) => l,
                None => seq![],
            };
            let st2 = place(st, FlowView::CodeBlock(st.code_text, code_title(lang)));
            RenderView { code_lang: None, code_text: seq![], ..st2 }
        },
        MdTagEnd::List => if st.lists.len() > 0 {
            RenderView { lists: st.lists.drop_last(), ..st }
        } else {
            st
        },
        MdTagEnd::Item => end_item(st),
        MdTagEnd::Table => match st.table {
            Some(cells) => RenderView { out: st.out.push(BlockView::Table(cells)), table: None, ..st },
            None => st,
        },
        MdTagEnd::TableHead => RenderView { row: st.row + 1, ..st },
        MdTagEnd::TableRow => RenderView { row: st.row + 1, ..st },
        MdTagEnd::TableCell => end_cell(st),
        MdTagEnd::Emphasis => RenderView { inline: st.inline + "</i>"@, ..st },
        MdTagEnd::Strong => RenderView { inline: st.inline + "</b>"@, ..st },
        MdTagEnd::Strikethrough => RenderView { inline: st.inline + "</s>"@, ..st },
        MdTagEnd::Link => RenderView { inline: st.inline + "</a>"@, ..st },
        MdTagEnd::Other => st,
    }
}

/// Text goes into the code block being read as it is, and elsewhere into the
/// markup, escaped.
pub open spec fn add_text(st: RenderView, s: Seq<char>) -> RenderView {
    if st.code_lang is Some {
        RenderView { code_text: st.code_text + s, ..st }
    } else {
        RenderView { inline: st.inline + markup_escape(s), ..st }
    }
}

/// The mark of a task list item.
pub open spec fn task_mark(checked: bool) -> Seq<char> {
    if checked {
        "\u{2611} "@
    } else {
        "\u{2610} "@
    }
}

/// The preview after reading one more event.
pub open spec fn render_step(st: RenderView, e: EventView) -> RenderView {
    match e {
        EventView::Start(t) => start_tag(st, t),
        EventView::End(t) => end_tag(st, t),
        EventView::Text(s) => add_text(st, s),
        EventView::Html(s) => add_text(st, s),
        EventView::Code(s) => RenderView {
            inline: st.inline + "<tt>"@ + markup_escape(s) + "</tt>"@,
            ..st
        },
        EventView::SoftBreak => RenderView { inline: st.inline.push(' '), ..st },
        EventView::HardBreak => RenderView { inline: st.inline.push('\n'), ..st },
        EventView::Rule => RenderView { out: st.out.push(BlockView::Rule), ..st },
        EventView::TaskListMarker(checked) => RenderView {
            inline: st.inline + task_mark(checked),
            ..st
        },
        EventView::Other => st,
    }
}

/// The preview after reading `events` from `st`.
pub open spec fn render_all(st: RenderView, events: Seq<EventView>) -> RenderView
    decreases events.len(),
{
    if events.len() == 0 {
        st
    } else {
        render_step(render_all(st, events.drop_last()), events.last())
    }
}

/// The blocks of the page that `events` describe.
pub open spec fn rendered(events: Seq<EventView>) -> Seq<BlockView> {
    render_all(initial_render(), events).out
}

// ---------------------------------------------------------------------------
// The renderer
// ---------------------------------------------------------------------------

/// `chars` without its leading and trailing whitespace.
pub(crate) fn trimmed(chars: &Vec<char>) -> (r: Vec<char>)
    ensures
        r@ == trim(chars@),
{
    let ghost s = chars@;
    let lead = count_leading_whitespace(chars);
    proof {
        lemma_leading_whitespace(s);
    }
    let ghost t = trim_start(s);
    assert(t =~= s.subrange(lead as int, s.len() as int));
    let mut j = chars.len();
    assert(s.subrange(lead as int, j as int) =~= t);
    while j > lead && char_is_whitespace(chars[j - 1])
        invariant
            lead <= j <= chars.len(),
            s == chars@,
            t == s.subrange(lead as int, s.len() as int),
            (s.len() - j) + trailing_whitespace(s.subrange(lead as int, j as int))
                == trailing_whitespace(t),
        decreases j,
    {
        assert(s.subrange(lead as int, j as int).drop_last() =~= s.subrange(lead as int, j - 1));
        j -= 1;
    }
    let mut r: Vec<char> = Vec::new();
    push_range(&mut r, chars, lead, j);
    assert(r@ =~= t.take(t.len() - trailing_whitespace(t)));
    r
}

/// What the preview holds while it reads the events.
struct Renderer {
    inline: Vec<char>,
    heading: Option<u8>,
    code_lang: Option<Vec<char>>,
    code_text: Vec<char>,
    quote: Option<Vec<Flow>>,
    lists: Vec<Option<u64>>,
    table: Option<Vec<Cell>>,
    row: usize,
    column: usize,
    head: bool,
    out: Vec<Block>,
}

impl View for Renderer {
    type V = RenderView;

    closed spec fn view(&self) -> RenderView {
        RenderView {
            inline: self.inline@,
            heading: self.heading,
            code_lang: match self.code_lang {
                Some(l) => Some(l@),
                None => None,
            },
            code_text: self.code_text@,
            quote: match self.quote {
                Some(q) => Some(flows_view(q@)),
                None => None,
            },
            lists: self.lists@,
            table: match self.table {
                Some(t) => Some(cells_view(t@)),
                None => None,
            },
            row: self.row as nat,
            column: self.column as nat,
            head: self.head,
            out: blocks_view(self.out@),
        }
    }
}

impl Renderer {
    fn new() -> (r: Self)
        ensures
            r@ == initial_render(),
    {
        let r = Renderer {
            inline: Vec::new(),
            heading: None,
            code_lang: None,
            code_text: Vec::new(),
            quote: None,
            lists: Vec::new(),
            table: None,
            row: 0,
            column: 0,
            head: false,
            out: Vec::new(),
        };
        assert(r@.quote == initial_render().quote);
        assert(r@.out =~= initial_render().out);
        r
    }

    fn place(&mut self, f: Flow)
        ensures
            final(self)@ == place(old(self)@, f@),
            final(self).row == old(self).row,
            final(self).column == old(self).column,
    {
        let ghost fv = f@;
        match self.quote.take() {
            Some(mut items) => {
                let ghost before = flows_view(items@);
                items.push(f);
                assert(flows_view(items@) =~= before.push(fv));
                self.quote = Some(items);
            },
            None => {
                let ghost before = blocks_view(self.out@);
                self.out.push(Block::Flow(f));
                assert(blocks_view(self.out@) =~= before.push(BlockView::Flow(fv)));
            },
        }
    }

    fn push_block(&mut self, b: Block)
        ensures
            final(self)@ == (RenderView { out: old(self)@.out.push(b@), ..old(self)@ }),
            final(self).row == old(self).row,
            final(self).column == old(self).column,
    {
        let ghost before = blocks_view(self.out@);
        self.out.push(b);
        assert(blocks_view(self.out@) =~= before.push(b@));
    }

    fn start_tag(&mut self, t: &MdTag)
        ensures
            final(self)@ == start_tag(old(self)@, t@),
            final(self).row <= old(self).row,
            final(self).column <= old(self).column,
    {
        match t {
            MdTag::Paragraph | MdTag::Item | MdTag::TableCell => {
                self.inline.clear();
            },
            MdTag::Heading(l) => {
                self.heading = Some(*l);
                self.inline.clear();
            },
            MdTag::BlockQuote => {
                self.quote = Some(Vec::new());
                assert(self@.quote == Some(Seq::<FlowView>::empty())) by {
                    assert(flows_view(Seq::<Flow>::empty()) =~= Seq::<FlowView>::empty());
                }
            },
            MdTag::CodeBlock(lang) => {
                self.code_lang = Some(chars_of(lang.as_str()));
                self.code_text.clear();
            },
            MdTag::List(first) => {
                self.lists.push(*first);
            },
            MdTag::Table => {
                self.table = Some(Vec::new());
                self.row = 0;
                self.column = 0;
                assert(self@.table == Some(Seq::<(Seq<char>, nat, nat)>::empty())) by {
                    assert(cells_view(Seq::<Cell>::empty()) =~= Seq::<(Seq<char>, nat, nat)>::empty());
                }
            },
            MdTag::TableHead => {
                self.head = true;
                self.column = 0;
            },
            MdTag::TableRow => {
                self.head = false;
                self.column = 0;
            },
            MdTag::Emphasis => push_str(&mut self.inline, "<i>"),
            MdTag::Strong => push_str(&mut self.inline, "<b>"),
            MdTag::Strikethrough => push_str(&mut self.inline, "<s>"),
            MdTag::Link(url) => {
                push_str(&mut self.inline, "<a href=\"");
                push_escaped(&mut self.inline, url.as_str());
                push_str(&mut self.inline, "\">");
            },
            MdTag::Other => {},
        }
    }

    fn end_item(&mut self)
        ensures
            final(self)@ == end_item(old(self)@),
            final(self).row == old(self).row,
            final(self).column == old(self).column,
    {
        let t = trimmed(&self.inline);
        if t.len() > 0 {
            let depth = self.lists.len();
            let mut badge: Vec<char> = Vec::new();
            let mut numbered = false;
            if depth > 0 {
                if let Some(n) = self.lists[depth - 1] {
                    push_decimal(&mut badge, n);
                    push_str(&mut badge, ".");
                    let next = if n < u64::MAX {
                        n + 1
                    } else {
                        0
                    };
                    self.lists.set(depth - 1, Some(next));
                    numbered = true;
                }
            }
            if !numbered {
                push_str(&mut badge, "\u{2022}");
            }
            let ghost expected = item_badge(old(self)@.lists);
            assert(badge@ == expected.0 && numbered == expected.1 && self.lists@ == expected.2);
            let markup = into_string_of(&self.inline);
            self.place(
                Flow::ListItem { markup, depth, badge: into_string_of(&badge), numbered },
            );
        }
        self.inline.clear();
    }

    fn end_cell(&mut self)
        requires
            old(self).column < usize::MAX,
        ensures
            final(self)@ == end_cell(old(self)@),
            final(self).row == old(self).row,
            final(self).column <= old(self).column + 1,
    {
        let t = trimmed(&self.inline);
        match self.table.take() {
            Some(mut cells) => {
                let mut m: Vec<char> = Vec::new();
                if self.head {
                    push_str(&mut m, "<b>");
                    push_range(&mut m, &t, 0, t.len());
                    push_str(&mut m, "</b>");
                } else {
                    push_range(&mut m, &t, 0, t.len());
                }
                assert(t@.subrange(0, t@.len() as int) =~= t@);
                let ghost before = cells_view(cells@);
                let cell = Cell { markup: into_string(m), column: self.column, row: self.row };
                cells.push(cell);
                assert(cells_view(cells@) =~= before.push(cell@));
                self.table = Some(cells);
                self.column = self.column + 1;
            },
            None => {},
        }
        self.inline.clear();
    }

    fn end_tag(&mut self, t: MdTagEnd)
        requires
            old(self).row < usize::MAX,
            old(self).column < usize::MAX,
        ensures
            final(self)@ == end_tag(old(self)@, t),
            final(self).row <= old(self).row + 1,
            final(self).column <= old(self).column + 1,
    {
        match t {
            MdTagEnd::Paragraph => {
                let tr = trimmed(&self.inline);
                if tr.len() > 0 {
                    let markup = into_string_of(&self.inline);
                    self.place(Flow::Paragraph(markup));
                }
                self.inline.clear();
            },
            MdTagEnd::Heading => {
                match self.heading.take() {
                    Some(level) => {
                        let markup = into_string_of(&self.inline);
                        self.push_block(Block::Heading { markup, level });
                    },
                    None => {},
                }
                self.inline.clear();
            },
            MdTagEnd::BlockQuote => {
                match self.quote.take() {
                    Some(items) => self.push_block(Block::Quote(items)),
                    None => {},
                }
            },
            MdTagEnd::CodeBlock => {
                let lang = match self.code_lang.take() {
                    Some(l) => l,
                    None => Vec::new(),
                };
                let title = if lang.len() == 0 {
                    "code".to_owned()
                } else {
                    into_string(lang)
                };
                let code = into_string_of(&self.code_text);
                self.place(Flow::CodeBlock { code, title });
                self.code_text.clear();
            },
            MdTagEnd::List => {
                if self.lists.len() > 0 {
                    self.lists.pop();
                }
            },
            MdTagEnd::Item => self.end_item(),
            MdTagEnd::Table => {
                match self.table.take() {
                    Some(cells) => self.push_block(Block::Table(cells)),
                    None => {},
                }
            },
            MdTagEnd::TableHead | MdTagEnd::TableRow => {
                self.row = self.row + 1;
            },
            MdTagEnd::TableCell => self.end_cell(),
            MdTagEnd::Emphasis => push_str(&mut self.inline, "</i>"),
            MdTagEnd::Strong => push_str(&mut self.inline, "</b>"),
            MdTagEnd::Strikethrough => push_str(&mut self.inline, "</s>"),
            MdTagEnd::Link => push_str(&mut self.inline, "</a>"),
            MdTagEnd::Other => {},
        }
    }

    fn add_text(&mut self, s: &str)
        ensures
            final(self)@ == add_text(old(self)@, s@),
            final(self).row == old(self).row,
            final(self).column == old(self).column,
    {
        if self.code_lang.is_some() {
            push_str(&mut self.code_text, s);
        } else {
            push_escaped(&mut self.inline, s);
        }
    }

    fn step(&mut self, e: &MdEvent)
        requires
            old(self).row < usize::MAX,
            old(self).column < usize::MAX,
        ensures
            final(self)@ == render_step(old(self)@, e@),
            final(self).row <= old(self).row + 1,
            final(self).column <= old(self).column + 1,
    {
        match e {
            MdEvent::Start(t) => self.start_tag(t),
            MdEvent::End(t) => self.end_tag(*t),
            MdEvent::Text(s) => self.add_text(s.as_str()),
            MdEvent::Html(s) => self.add_text(s.as_str()),
            MdEvent::Code(s) => {
                push_str(&mut self.inline, "<tt>");
                push_escaped(&mut self.inline, s.as_str());
                push_str(&mut self.inline, "</tt>");
            },
            MdEvent::SoftBreak => self.inline.push(' '),
            MdEvent::HardBreak => self.inline.push('\n'),
            MdEvent::Rule => self.push_block(Block::Rule),
            MdEvent::TaskListMarker(checked) => {
                if *checked {
                    push_str(&mut self.inline, "\u{2611} ");
                } else {
                    push_str(&mut self.inline, "\u{2610} ");
                }
            },
            MdEvent::Other => {},
        }
    }
}

/// A string holding the characters of `chars`.
fn into_string_of(chars: &Vec<char>) -> (s: String)
    ensures
        s@ == chars@,
{
    crate::text::string_from_chars(chars.as_slice())
}

/// The blocks of the preview page that `events` describe.
pub fn render_events(events: &Vec<MdEvent>) -> (r: Vec<Block>)
    ensures
        blocks_view(r@) == rendered(events_view(events@)),
{
    let ghost evs = events_view(events@);
    let mut st = Renderer::new();
    let mut i: usize = 0;
    while i < events.len()
        invariant
            i <= events.len(),
            evs == events_view(events@),
            st@ == render_all(initial_render(), evs.take(i as int)),
            st.row <= i,
            st.column <= i,
        decreases events.len() - i,
    {
        assert(evs.take(i + 1).drop_last() =~= evs.take(i as int));
        st.step(&events[i]);
        i += 1;
    }
    assert(evs.take(events.len() as int) =~= evs);
    proof {
        assert(st@.out == blocks_view(st.out@));
    }
    st.out
}

// ---------------------------------------------------------------------------
// Parsing
// ---------------------------------------------------------------------------

#[verifier::external_type_specification]
#[verifier::external_body]
pub struct ExEvent<'a>(Event<'a>);

#[verifier::external_type_specification]
#[verifier::external_body]
pub struct ExTag<'a>(Tag<'a>);

#[verifier::external_type_specification]
#[verifier::external_body]
pub struct ExTagEnd(TagEnd);

/// The events that pulldown-cmark's parser yields for `text` with the options
/// whose bits are `options`.
pub uninterp spec fn markdown_events(text: Seq<char>, options: u32) -> Seq<EventView>;

/// Converts a pulldown-cmark event, one variant for one.
#[verifier::external_body]
fn event_of(e: Event) -> MdEvent {
    match e {
        Event::Start(t) => MdEvent::Start(tag_of(t)),
        Event::End(t) => MdEvent::End(tag_end_of(t)),
        Event::Text(s) => MdEvent::Text(s.to_string()),
        Event::Code(s) => MdEvent::Code(s.to_string()),
        Event::Html(s) => MdEvent::Html(s.to_string()),
        Event::SoftBreak => MdEvent::SoftBreak,
        Event::HardBreak => MdEvent::HardBreak,
        Event::Rule => MdEvent::Rule,
        Event::TaskListMarker(checked) => MdEvent::TaskListMarker(checked),
        _ => MdEvent::Other,
    }
}

/// Converts the start of a block element, one variant for one.
#[verifier::external_body]
fn tag_of(t: Tag) -> MdTag {
    match t {
        Tag::Paragraph => MdTag::Paragraph,
        Tag::Heading { level, .. } => MdTag::Heading(level as u8),
        Tag::BlockQuote(_) => MdTag::BlockQuote,
        Tag::CodeBlock(CodeBlockKind::Fenced(lang)) => MdTag::CodeBlock(lang.to_string()),
        Tag::CodeBlock(CodeBlockKind::Indented) => MdTag::CodeBlock(String::new()),
        Tag::List(first) => MdTag::List(first),
        Tag::Item => MdTag::Item,
        other => inline_tag_of(other),
    }
}

/// Converts the start of a table or inline element, one variant for one.
#[verifier::external_body]
fn inline_tag_of(t: Tag) -> MdTag {
    match t {
        Tag::Table(_) => MdTag::Table,
        Tag::TableHead => MdTag::TableHead,
        Tag::TableRow => MdTag::TableRow,
        Tag::TableCell => MdTag::TableCell,
        Tag::Emphasis => MdTag::Emphasis,
        Tag::Strong => MdTag::Strong,
        Tag::Strikethrough => MdTag::Strikethrough,
        Tag::Link { dest_url, .. } => MdTag::Link(dest_url.to_string()),
        _ => MdTag::Other,
    }
}

/// Converts the end of a block element, one variant for one.
#[verifier::external_body]
fn tag_end_of(t: TagEnd) -> MdTagEnd {
    match t {
        TagEnd::Paragraph => MdTagEnd::Paragraph,
        TagEnd::Heading(_) => MdTagEnd::Heading,
        TagEnd::BlockQuote(_) => MdTagEnd::BlockQuote,
        TagEnd::CodeBlock => MdTagEnd::CodeBlock,
        TagEnd::List(_) => MdTagEnd::List,
        TagEnd::Item => MdTagEnd::Item,
        TagEnd::Table => MdTagEnd::Table,
        other => inline_tag_end_of(other),
    }
}

/// Converts the end of a table part or of an inline element, one variant for one.
#[verifier::external_body]
fn inline_tag_end_of(t: TagEnd) -> MdTagEnd {
    match t {
        TagEnd::TableHead => MdTagEnd::TableHead,
        TagEnd::TableRow => MdTagEnd::TableRow,
        TagEnd::TableCell => MdTagEnd::TableCell,
        TagEnd::Emphasis => MdTagEnd::Emphasis,
        TagEnd::Strong => MdTagEnd::Strong,
        TagEnd::Strikethrough => MdTagEnd::Strikethrough,
        TagEnd::Link => MdTagEnd::Link,
        _ => MdTagEnd::Other,
    }
}

/// Calls `pulldown_cmark::Parser::new_ext` on `text`, with the options whose
/// bits are `options`, and collects its events.
///
/// Trusted: the events are `markdown_events(text, options)`; the parser's
/// output depends on the text and the options alone.
#[verifier::external_body]
fn parse_markdown(text: &str, options: u32) -> (r: Vec<MdEvent>)
    ensures
        events_view(r@) == markdown_events(text@, options),
{
    pulldown_cmark::Parser::new_ext(text, pulldown_cmark::Options::from_bits_truncate(options))
        .map(event_of)
        .collect()
}

/// The notice shown in place of an empty document.
pub open spec fn empty_notice() -> Seq<char> {
    "Document vide"@
}

/// The preview of `text`: a notice when it holds nothing but whitespace, and
/// otherwise the blocks that its Markdown events describe.
pub open spec fn preview_of(text: Seq<char>) -> Seq<BlockView> {
    if blank(text) {
        seq![BlockView::Notice(empty_notice())]
    } else {
        rendered(markdown_events(text, PREVIEW_OPTIONS))
    }
}

/// The blocks of the preview of `markdown_text`.
pub fn preview_blocks(markdown_text: &str) -> (r: Vec<Block>)
    ensures
        blocks_view(r@) == preview_of(markdown_text@),
{
    let cs = chars_of(markdown_text);
    let lead = count_leading_whitespace(&cs);
    proof {
        lemma_leading_whitespace(cs@);
    }
    if lead == cs.len() {
        let mut r: Vec<Block> = Vec::new();
        r.push(Block::Notice("Document vide".to_owned()));
        assert(blocks_view(r@) =~= seq![BlockView::Notice(empty_notice())]);
        r
    } else {
        assert(!is_whitespace(cs@[lead as int]));
        let events = parse_markdown(markdown_text, PREVIEW_OPTIONS);
        render_events(&events)
    }
}

/// The style of a heading of level `level`: its CSS class and its top and
/// bottom margins.
pub fn heading_style(level: u8) -> (r: (&'static str, i32, i32))
    requires
        1 <= level <= 6,
    ensures
        level == 1 ==> r == ("title-1", 20i32, 10i32),
        level == 2 ==> r == ("title-2", 16i32, 8i32),
        level == 3 ==> r == ("title-3", 12i32, 6i32),
        level == 4 ==> r == ("title-4", 10i32, 4i32),
        level == 5 ==> r == ("heading", 8i32, 4i32),
        level == 6 ==> r == ("caption-heading", 6i32, 2i32),
{
    match level {
        1 => ("title-1", 20, 10),
        2 => ("title-2", 16, 8),
        3 => ("title-3", 12, 6),
        4 => ("title-4", 10, 4),
        5 => ("heading", 8, 4),
        _ => ("caption-heading", 6, 2),
    }
}

// ---------------------------------------------------------------------------
// Laws
// ---------------------------------------------------------------------------

proof fn lemma_trailing_whitespace(s: Seq<char>)
    ensures
        trailing_whitespace(s) <= s.len(),
        trailing_whitespace(s) == s.len() ==> blank(s),
    decreases s.len(),
{
    if s.len() > 0 && is_whitespace(s.last()) {
        lemma_trailing_whitespace(s.drop_last());
        if trailing_whitespace(s) == s.len() {
            assert forall|i: int| 0 <= i < s.len() implies is_whitespace(#[trigger] s[i]) by {
                if i < s.len() - 1 {
                    assert(s[i] == s.drop_last()[i]);
                }
            }
        }
    }
}

/// Trimming leaves something exactly when not every character is whitespace.
pub proof fn lemma_trim_empty_iff_blank(s: Seq<char>)
    ensures
        trim(s).len() == 0 <==> blank(s),
{
    lemma_leading_whitespace(s);
    let lead = crate::text::leading_whitespace(s);
    let t = trim_start(s);
    lemma_trailing_whitespace(t);
    if blank(s) {
        if lead < s.len() {
            assert(is_whitespace(s[lead as int]));
        }
    } else {
        let i = choose|i: int| 0 <= i < s.len() && !is_whitespace(#[trigger] s[i]);
        assert(lead <= i);
        assert(t[i - lead] == s[i]);
        if trailing_whitespace(t) == t.len() {
            assert(is_whitespace(t[i - lead]));
        }
    }
}

proof fn lemma_markup_escape_append(a: Seq<char>, b: Seq<char>)
    ensures
        markup_escape(a + b) == markup_escape(a) + markup_escape(b),
    decreases b.len(),
{
    if b.len() == 0 {
        assert(a + b =~= a);
    } else {
        assert((a + b).drop_last() =~= a + b.drop_last());
        lemma_markup_escape_append(a, b.drop_last());
    }
}

proof fn lemma_escape_char_first(c: char)
    requires
        !is_whitespace(c),
    ensures
        escape_char(c).len() > 0,
        !is_whitespace(escape_char(c)[0]),
{
    reveal_strlit("&amp;");
    reveal_strlit("&lt;");
    reveal_strlit("&gt;");
    reveal_strlit("&#39;");
    reveal_strlit("&quot;");
    reveal_strlit("&#x");
    if is_markup_control(c) && c != '&' && c != '<' && c != '>' && c != '\'' && c != '"' {
        assert(escape_char(c)[0] == ("&#x"@ + hex(c as nat) + ";"@)[0]);
    }
}

proof fn lemma_markup_escape_single(c: char)
    ensures
        markup_escape(seq![c]) == escape_char(c),
{
    let one = seq![c];
    assert(one.drop_last() =~= Seq::<char>::empty());
    assert(one.last() == c);
    assert(markup_escape(Seq::<char>::empty()) == Seq::<char>::empty());
    assert(markup_escape(Seq::<char>::empty()) + escape_char(c) =~= escape_char(c));
}

/// Escaping keeps text that is not blank from turning blank.
pub proof fn lemma_markup_escape_not_blank(s: Seq<char>)
    requires
        !blank(s),
    ensures
        !blank(markup_escape(s)),
{
    let i = choose|i: int| 0 <= i < s.len() && !is_whitespace(#[trigger] s[i]);
    let c = s[i];
    let pre = s.take(i);
    let post = s.skip(i + 1);
    assert(s =~= pre + seq![c] + post);
    lemma_markup_escape_append(pre + seq![c], post);
    lemma_markup_escape_append(pre, seq![c]);
    lemma_markup_escape_single(c);
    lemma_escape_char_first(c);
    let e = markup_escape(s);
    let k = markup_escape(pre).len();
    assert(e == markup_escape(pre) + escape_char(c) + markup_escape(post));
    assert(e[k as int] == escape_char(c)[0]);
    assert(!is_whitespace(e[k as int]));
}

proof fn lemma_render_prefix(st: RenderView, evs: Seq<EventView>, k: int)
    requires
        0 <= k < evs.len(),
    ensures
        render_all(st, evs.take(k + 1)) == render_step(render_all(st, evs.take(k)), evs[k]),
{
    assert(evs.take(k + 1).drop_last() =~= evs.take(k));
}

proof fn lemma_render_whole(st: RenderView, evs: Seq<EventView>)
    ensures
        render_all(st, evs.take(0)) == st,
        render_all(st, evs.take(evs.len() as int)) == render_all(st, evs),
{
    assert(evs.take(0) =~= Seq::<EventView>::empty());
    assert(evs.take(evs.len() as int) =~= evs);
}

/// The items of an ordered list that hold text are numbered one after the
/// other from the list's first number.
#[verifier::spinoff_prover]
#[verifier::rlimit(80)]
pub proof fn lemma_ordered_list_numbering(n: u64, a: Seq<char>, b: Seq<char>)
    requires
        n < u64::MAX,
        !blank(a),
        !blank(b),
    ensures
        rendered(
            seq![
                EventView::Start(TagView::List(Some(n))),
                EventView::Start(TagView::Item),
                EventView::Text(a),
                EventView::End(MdTagEnd::Item),
                EventView::Start(TagView::Item),
                EventView::Text(b),
                EventView::End(MdTagEnd::Item),
                EventView::End(MdTagEnd::List),
            ],
        ) == seq![
            BlockView::Flow(FlowView::ListItem(markup_escape(a), 1, decimal(n as nat) + "."@, true)),
            BlockView::Flow(
                FlowView::ListItem(markup_escape(b), 1, decimal(n as nat + 1) + "."@, true),
            ),
        ],
{
    lemma_markup_escape_not_blank(a);
    lemma_markup_escape_not_blank(b);
    lemma_trim_empty_iff_blank(markup_escape(a));
    lemma_trim_empty_iff_blank(markup_escape(b));
    let evs = seq![
        EventView::Start(TagView::List(Some(n))),
        EventView::Start(TagView::Item),
        EventView::Text(a),
        EventView::End(MdTagEnd::Item),
        EventView::Start(TagView::Item),
        EventView::Text(b),
        EventView::End(MdTagEnd::Item),
        EventView::End(MdTagEnd::List),
    ];
    let s0 = initial_render();
    lemma_render_whole(s0, evs);
    lemma_render_prefix(s0, evs, 0);
    let s1 = render_all(s0, evs.take(1));
    assert(s1.lists =~= seq![Some(n)]);
    lemma_render_prefix(s0, evs, 1);
    lemma_render_prefix(s0, evs, 2);
    let s3 = render_all(s0, evs.take(3));
    assert(s3.inline =~= markup_escape(a));
    lemma_render_prefix(s0, evs, 3);
    let s4 = render_all(s0, evs.take(4));
    assert(s4.lists =~= seq![Some((n + 1) as u64)]);
    assert(s4.out =~= seq![
        BlockView::Flow(FlowView::ListItem(markup_escape(a), 1, decimal(n as nat) + "."@, true)),
    ]);
    lemma_render_prefix(s0, evs, 4);
    lemma_render_prefix(s0, evs, 5);
    let s6 = render_all(s0, evs.take(6));
    assert(s6.inline =~= markup_escape(b));
    lemma_render_prefix(s0, evs, 6);
    lemma_render_prefix(s0, evs, 7);
}

/// The end of a table's header row, or of any body row, moves the grid on to
/// the next row and starts no new table.
pub proof fn lemma_row_end_advances(st: RenderView)
    ensures
        render_step(st, EventView::End(MdTagEnd::TableHead)).row == st.row + 1,
        render_step(st, EventView::End(MdTagEnd::TableRow)).row == st.row + 1,
        render_step(st, EventView::End(MdTagEnd::TableHead)).table == st.table,
        render_step(st, EventView::End(MdTagEnd::TableRow)).table == st.table,
{
}

/// A table with a header cell and two body rows of one cell each puts the
/// header on grid row 0, in bold, and the body rows on grid rows 1 and 2, each
/// cell holding its trimmed, escaped text.
#[verifier::spinoff_prover]
#[verifier::rlimit(80)]
pub proof fn lemma_table_rows(h: Seq<char>, a: Seq<char>, b: Seq<char>)
    ensures
        rendered(
            seq![
                EventView::Start(TagView::Table),
                EventView::Start(TagView::TableHead),
                EventView::Start(TagView::TableCell),
                EventView::Text(h),
                EventView::End(MdTagEnd::TableCell),
                EventView::End(MdTagEnd::TableHead),
                EventView::Start(TagView::TableRow),
                EventView::Start(TagView::TableCell),
                EventView::Text(a),
                EventView::End(MdTagEnd::TableCell),
                EventView::End(MdTagEnd::TableRow),
                EventView::Start(TagView::TableRow),
                EventView::Start(TagView::TableCell),
                EventView::Text(b),
                EventView::End(MdTagEnd::TableCell),
                EventView::End(MdTagEnd::TableRow),
                EventView::End(MdTagEnd::Table),
            ],
        ) == seq![
            BlockView::Table(
                seq![
                    ("<b>"@ + trim(markup_escape(h)) + "</b>"@, 0nat, 0nat),
                    (trim(markup_escape(a)), 0nat, 1nat),
                    (trim(markup_escape(b)), 0nat, 2nat),
                ],
            ),
        ],
{
    let evs = seq![
        EventView::Start(TagView::Table),
        EventView::Start(TagView::TableHead),
        EventView::Start(TagView::TableCell),
        EventView::Text(h),
        EventView::End(MdTagEnd::TableCell),
        EventView::End(MdTagEnd::TableHead),
        EventView::Start(TagView::TableRow),
        EventView::Start(TagView::TableCell),
        EventView::Text(a),
        EventView::End(MdTagEnd::TableCell),
        EventView::End(MdTagEnd::TableRow),
        EventView::Start(TagView::TableRow),
        EventView::Start(TagView::TableCell),
        EventView::Text(b),
        EventView::End(MdTagEnd::TableCell),
        EventView::End(MdTagEnd::TableRow),
        EventView::End(MdTagEnd::Table),
    ];
    let s0 = initial_render();
    let ch = ("<b>"@ + trim(markup_escape(h)) + "</b>"@, 0nat, 0nat);
    let ca = (trim(markup_escape(a)), 0nat, 1nat);
    let cb = (trim(markup_escape(b)), 0nat, 2nat);
    lemma_render_whole(s0, evs);
    lemma_render_prefix(s0, evs, 0);
    lemma_render_prefix(s0, evs, 1);
    lemma_render_prefix(s0, evs, 2);
    lemma_render_prefix(s0, evs, 3);
    let s4 = render_all(s0, evs.take(4));
    assert(s4.inline =~= markup_escape(h));
    assert(s4.table == Some(Seq::<(Seq<char>, nat, nat)>::empty()) && s4.row == 0 && s4.column == 0 && s4.head);
    lemma_render_prefix(s0, evs, 4);
    let s5 = render_all(s0, evs.take(5));
    assert(s5.table == Some(seq![ch]));
    lemma_render_prefix(s0, evs, 5);
    lemma_render_prefix(s0, evs, 6);
    lemma_render_prefix(s0, evs, 7);
    lemma_render_prefix(s0, evs, 8);
    let s9 = render_all(s0, evs.take(9));
    assert(s9.inline =~= markup_escape(a));
    assert(s9.row == 1 && s9.column == 0 && !s9.head && s9.table == Some(seq![ch]));
    lemma_render_prefix(s0, evs, 9);
    let s10 = render_all(s0, evs.take(10));
    assert(s10.table == Some(seq![ch].push(ca)));
    lemma_render_prefix(s0, evs, 10);
    lemma_render_prefix(s0, evs, 11);
    lemma_render_prefix(s0, evs, 12);
    lemma_render_prefix(s0, evs, 13);
    let s14 = render_all(s0, evs.take(14));
    assert(s14.inline =~= markup_escape(b));
    assert(s14.row == 2 && s14.column == 0 && !s14.head);
    lemma_render_prefix(s0, evs, 14);
    let s15 = render_all(s0, evs.take(15));
    assert(s15.table == Some(seq![ch].push(ca).push(cb)));
    lemma_render_prefix(s0, evs, 15);
    lemma_render_prefix(s0, evs, 16);
    assert(seq![ch].push(ca).push(cb) =~= seq![ch, ca, cb]);
}

/// A code block shows its text as it is, under its language or `code`.
pub proof fn lemma_code_block_verbatim(lang: Seq<char>, code: Seq<char>)
    ensures
        rendered(
            seq![
                EventView::Start(TagView::CodeBlock(lang)),
                EventView::Text(code),
                EventView::End(MdTagEnd::CodeBlock),
            ],
        ) == seq![BlockView::Flow(FlowView::CodeBlock(code, code_title(lang)))],
{
    let evs = seq![
        EventView::Start(TagView::CodeBlock(lang)),
        EventView::Text(code),
        EventView::End(MdTagEnd::CodeBlock),
    ];
    let s0 = initial_render();
    lemma_render_whole(s0, evs);
    lemma_render_prefix(s0, evs, 0);
    lemma_render_prefix(s0, evs, 1);
    assert(render_all(s0, evs.take(2)).code_text =~= code);
    lemma_render_prefix(s0, evs, 2);
}

/// A block quote gathers its paragraphs and is put on the page when it ends.
pub proof fn lemma_quote_gathers_paragraph(a: Seq<char>)
    requires
        !blank(a),
    ensures
        rendered(
            seq![
                EventView::Start(TagView::BlockQuote),
                EventView::Start(TagView::Paragraph),
                EventView::Text(a),
                EventView::End(MdTagEnd::Paragraph),
                EventView::End(MdTagEnd::BlockQuote),
            ],
        ) == seq![BlockView::Quote(seq![FlowView::Paragraph(markup_escape(a))])],
{
    lemma_markup_escape_not_blank(a);
    lemma_trim_empty_iff_blank(markup_escape(a));
    let evs = seq![
        EventView::Start(TagView::BlockQuote),
        EventView::Start(TagView::Paragraph),
        EventView::Text(a),
        EventView::End(MdTagEnd::Paragraph),
        EventView::End(MdTagEnd::BlockQuote),
    ];
    let s0 = initial_render();
    lemma_render_whole(s0, evs);
    lemma_render_prefix(s0, evs, 0);
    lemma_render_prefix(s0, evs, 1);
    lemma_render_prefix(s0, evs, 2);
    assert(render_all(s0, evs.take(3)).inline =~= markup_escape(a));
    lemma_render_prefix(s0, evs, 3);
    assert(render_all(s0, evs.take(4)).quote == Some(seq![FlowView::Paragraph(markup_escape(a))]));
    lemma_render_prefix(s0, evs, 4);
}

} // verus!
