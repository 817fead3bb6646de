use vstd::prelude::*;

verus! {

broadcast use vstd::string::group_string_axioms;

/// The characters of `s`, in order.
pub fn chars_of(s: &str) -> (v: Vec<char>)
    ensures
        v@ == s@,
{
    let mut v: Vec<char> = Vec::new();
    for c in it: s.chars()
        invariant
            v@ == it.seq().take(it.index() as int),
            it.seq() == s@,
    {
        v.push(c);
    }
    v
}

} // verus!

verus! {

/// A string holding exactly the characters of `chars`.
///
/// Trusted: collects the characters with `Iterator::collect::<String>`, which
/// std documents as concatenating them in order.
#[verifier::external_body]
pub(crate) fn string_from_chars(chars: &[char]) -> (s: String)
    ensures
        s@ == chars@,
{
    chars.iter().collect()
}

/// `char::is_whitespace`: the characters with the Unicode `White_Space` property.
pub open spec fn is_whitespace(c: char) -> bool {
    ||| c == '\t'
    ||| c == '\n'
    ||| c == '\x0B'
    ||| c == '\x0C'
    ||| c == '\r'
    ||| c == ' '
    ||| c == '\u{85}'
    ||| c == '\u{A0}'
    ||| c == '\u{1680}'
    ||| ('\u{2000}' <= c && c <= '\u{200A}')
    ||| c == '\u{2028}'
    ||| c == '\u{2029}'
    ||| c == '\u{202F}'
    ||| c == '\u{205F}'
    ||| c == '\u{3000}'
}

/// Decides `is_whitespace`.
pub fn char_is_whitespace(c: char) -> (r: bool)
    ensures
        r == is_whitespace(c),
{
    c == '\t' || c == '\n' || c == '\x0B' || c == '\x0C' || c == '\r' || c == ' ' || c == '\u{85}'
        || c == '\u{A0}' || c == '\u{1680}' || ('\u{2000}' <= c && c <= '\u{200A}') || c
        == '\u{2028}' || c == '\u{2029}' || c == '\u{202F}' || c == '\u{205F}' || c == '\u{3000}'
}

/// What `char::is_alphanumeric` answers for `c` (Unicode `Alphabetic` or `Numeric`).
pub uninterp spec fn alphanumeric(c: char) -> bool;

/// Calls `char::is_alphanumeric`.
///
/// Trusted: the answer is `alphanumeric(c)`; on ASCII characters std documents
/// it as true exactly for the letters and the digits.
#[verifier::external_body]
pub(crate) fn char_is_alphanumeric(c: char) -> (r: bool)
    ensures
        r == alphanumeric(c),
        (c as u32) < 128 ==> (r <==> (('a' <= c && c <= 'z') || ('A' <= c && c <= 'Z') || ('0'
            <= c && c <= '9'))),
{
    c.is_alphanumeric()
}

/// The number of leading whitespace characters of `s` (what `str::trim_start` removes).
pub open spec fn leading_whitespace(s: Seq<char>) -> nat
    decreases s.len(),
{
    if s.len() > 0 && is_whitespace(s[0]) {
        1 + leading_whitespace(s.drop_first())
    } else {
        0
    }
}

/// The length of the run of `ch` in `s` that starts at `from`.
pub open spec fn run_length(s: Seq<char>, from: int, ch: char) -> nat
    decreases s.len() - from,
{
    if 0 <= from < s.len() && s[from] == ch {
        1 + run_length(s, from + 1, ch)
    } else {
        0
    }
}


/// `s` begins with `p`.
pub open spec fn starts_with(s: Seq<char>, p: Seq<char>) -> bool {
    p.len() <= s.len() && s.take(p.len() as int) == p
}

/// `s` ends with `q`.
pub open spec fn ends_with(s: Seq<char>, q: Seq<char>) -> bool {
    q.len() <= s.len() && s.skip(s.len() - q.len()) == q
}

/// `s` with its leading whitespace removed (`str::trim_start`).
pub open spec fn trim_start(s: Seq<char>) -> Seq<char> {
    s.skip(leading_whitespace(s) as int)
}

/// The leading whitespace of `s`.
pub open spec fn indentation(s: Seq<char>) -> Seq<char> {
    s.take(leading_whitespace(s) as int)
}

pub proof fn lemma_leading_whitespace(s: Seq<char>)
    ensures
        leading_whitespace(s) <= s.len(),
        forall|i: int| 0 <= i < leading_whitespace(s) ==> is_whitespace(#[trigger] s[i]),
        leading_whitespace(s) < s.len() ==> !is_whitespace(s[leading_whitespace(s) as int]),
    decreases s.len(),
{
    if s.len() > 0 && is_whitespace(s[0]) {
        lemma_leading_whitespace(s.drop_first());
        assert forall|i: int| 0 <= i < leading_whitespace(s) implies is_whitespace(#[trigger] s[i]) by {
            if i > 0 {
                assert(s[i] == s.drop_first()[i - 1]);
            }
        }
        if leading_whitespace(s) < s.len() {
            assert(s[leading_whitespace(s) as int] == s.drop_first()[leading_whitespace(s) - 1]);
        }
    }
}

/// A run of whitespace followed by a non-whitespace character (or nothing) has
/// exactly that run as its leading whitespace.
pub proof fn lemma_leading_whitespace_of(ws: Seq<char>, rest: Seq<char>)
    requires
        forall|i: int| 0 <= i < ws.len() ==> is_whitespace(#[trigger] ws[i]),
        rest.len() > 0 ==> !is_whitespace(rest[0]),
    ensures
        leading_whitespace(ws + rest) == ws.len(),
    decreases ws.len(),
{
    if ws.len() > 0 {
        assert((ws + rest).drop_first() =~= ws.drop_first() + rest);
        assert forall|i: int| 0 <= i < ws.drop_first().len() implies is_whitespace(
            #[trigger] ws.drop_first()[i],
        ) by {
            assert(ws.drop_first()[i] == ws[i + 1]);
        }
        lemma_leading_whitespace_of(ws.drop_first(), rest);
    } else {
        assert(ws + rest =~= rest);
    }
}

pub proof fn lemma_run_length(s: Seq<char>, from: int, ch: char)
    requires
        0 <= from <= s.len(),
    ensures
        from + run_length(s, from, ch) <= s.len(),
        forall|i: int| from <= i < from + run_length(s, from, ch) ==> #[trigger] s[i] == ch,
        from + run_length(s, from, ch) < s.len() ==> s[from + run_length(s, from, ch)] != ch,
    decreases s.len() - from,
{
    if from < s.len() && s[from] == ch {
        lemma_run_length(s, from + 1, ch);
    }
}

/// The number of leading whitespace characters of `chars`.
pub(crate) fn count_leading_whitespace(chars: &Vec<char>) -> (r: usize)
    ensures
        r == leading_whitespace(chars@),
        r <= chars.len(),
{
    proof {
        lemma_leading_whitespace(chars@);
    }
    let ghost s = chars@;
    let mut i: usize = 0;
    assert(s.skip(0) =~= s);
    while i < chars.len() && char_is_whitespace(chars[i])
        invariant
            i <= chars.len(),
            s == chars@,
            i + leading_whitespace(s.skip(i as int)) == leading_whitespace(s),
        decreases chars.len() - i,
    {
        assert(s.skip(i as int).drop_first() =~= s.skip(i + 1));
        i += 1;
    }
    i
}

/// The length of the run of `ch` in `chars` that starts at `from`.
pub(crate) fn count_run(chars: &Vec<char>, from: usize, ch: char) -> (r: usize)
    requires
        from <= chars.len(),
    ensures
        r == run_length(chars@, from as int, ch),
        from + r <= chars.len(),
{
    let mut i = from;
    while i < chars.len() && chars[i] == ch
        invariant
            from <= i <= chars.len(),
            (i - from) + run_length(chars@, i as int, ch) == run_length(chars@, from as int, ch),
        decreases chars.len() - i,
    {
        i += 1;
    }
    i - from
}

/// Appends `src[from..to]` to `out`.
pub(crate) fn push_range(out: &mut Vec<char>, src: &Vec<char>, from: usize, to: usize)
    requires
        from <= to <= src.len(),
    ensures
        final(out)@ == old(out)@ + src@.subrange(from as int, to as int),
{
    let ghost before = out@;
    let mut i = from;
    while i < to
        invariant
            from <= i <= to <= src.len(),
            out@ == before + src@.subrange(from as int, i as int),
        decreases to - i,
    {
        out.push(src[i]);
        assert(src@.subrange(from as int, i + 1) =~= src@.subrange(from as int, i as int).push(src@[i as int]));
        i += 1;
    }
}

/// Appends the characters of `s` to `out`.
pub(crate) fn push_str(out: &mut Vec<char>, s: &str)
    ensures
        final(out)@ == old(out)@ + s@,
{
    let cs = chars_of(s);
    push_range(out, &cs, 0, cs.len());
    assert(cs@.subrange(0, cs@.len() as int) =~= cs@);
}

/// `chars[from..]` begins with `p`.
pub(crate) fn starts_with_at(chars: &Vec<char>, from: usize, p: &Vec<char>) -> (r: bool)
    requires
        from <= chars.len(),
    ensures
        r == starts_with(chars@.skip(from as int), p@),
{
    if chars.len() - from < p.len() {
        return false;
    }
    let mut k: usize = 0;
    while k < p.len()
        invariant
            k <= p.len(),
            from + p.len() <= chars.len(),
            forall|j: int| 0 <= j < k ==> chars@[from + j] == #[trigger] p@[j],
        decreases p.len() - k,
    {
        if chars[from + k] != p[k] {
            assert(chars@.skip(from as int).take(p.len() as int)[k as int] != p@[k as int]);
            return false;
        }
        k += 1;
    }
    assert(chars@.skip(from as int).take(p.len() as int) =~= p@);
    true
}

/// The string of `out` followed by nothing: converts collected characters.
pub(crate) fn into_string(out: Vec<char>) -> (s: String)
    ensures
        s@ == out@,
{
    string_from_chars(out.as_slice())
}

/// The least `j` in `[lo, hi)` satisfying `p`, if there is one.
pub open spec fn least_in(lo: int, hi: int, p: spec_fn(int) -> bool) -> Option<int> {
    if exists|j: int| lo <= j < hi && #[trigger] p(j) && forall|k: int| lo <= k < j ==> !#[trigger] p(k) {
        Some(
            choose|j: int| lo <= j < hi && #[trigger] p(j) && forall|k: int| lo <= k < j ==> !#[trigger] p(k),
        )
    } else {
        None
    }
}

pub proof fn lemma_least_in_found(lo: int, hi: int, p: spec_fn(int) -> bool, j: int)
    requires
        lo <= j < hi,
        p(j),
        forall|k: int| lo <= k < j ==> !#[trigger] p(k),
    ensures
        least_in(lo, hi, p) == Some(j),
{
    let w = choose|w: int| lo <= w < hi && #[trigger] p(w) && forall|k: int| lo <= k < w ==> !#[trigger] p(k);
    assert(lo <= w < hi && p(w) && forall|k: int| lo <= k < w ==> !#[trigger] p(k));
    if w < j {
        assert(!p(w));
    } else if j < w {
        assert(!p(j));
    }
}

pub proof fn lemma_least_in_none(lo: int, hi: int, p: spec_fn(int) -> bool)
    requires
        forall|k: int| lo <= k < hi ==> !#[trigger] p(k),
    ensures
        least_in(lo, hi, p) is None,
{
}

pub proof fn lemma_least_in_bounds(lo: int, hi: int, p: spec_fn(int) -> bool)
    ensures
        least_in(lo, hi, p) matches Some(j) ==> lo <= j < hi && p(j),
{
}

} // verus!
