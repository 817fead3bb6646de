use crate::text::{char_is_whitespace, chars_of, is_whitespace};
use vstd::prelude::*;

verus! {

broadcast use vstd::string::group_string_axioms;

/// The counts behind a document's statistics.
#[derive(Debug, Clone, Copy, PartialEq, Eq, Default)]
pub struct TextCounts {
    pub char_count: usize,
    pub word_count: usize,
    pub line_count: usize,
}

/// A word starts at `i`: `s[i]` is not whitespace and follows whitespace or the start.
pub open spec fn starts_word(s: Seq<char>, i: int) -> bool {
    !is_whitespace(s[i]) && (i == 0 || is_whitespace(s[i - 1]))
}

/// The number of words of `s`, its maximal runs of non-whitespace characters
/// (what `str::split_whitespace` yields).
pub open spec fn word_count_of(s: Seq<char>) -> nat
    decreases s.len(),
{
    if s.len() == 0 {
        0
    } else {
        word_count_of(s.drop_last()) + if starts_word(s, s.len() - 1) {
            1nat
        } else {
            0nat
        }
    }
}

/// The number of `'\n'` in `s`.
pub open spec fn newline_count(s: Seq<char>) -> nat
    decreases s.len(),
{
    if s.len() == 0 {
        0
    } else {
        newline_count(s.drop_last()) + if s.last() == '\n' {
            1nat
        } else {
            0nat
        }
    }
}

/// The number of lines of `s` as `str::lines` counts them: one per line
/// terminator, plus one for text after the last terminator.
pub open spec fn line_count_of(s: Seq<char>) -> nat {
    if s.len() == 0 {
        0
    } else if s.last() == '\n' {
        newline_count(s)
    } else {
        newline_count(s) + 1
    }
}

proof fn lemma_newline_count_bound(s: Seq<char>)
    ensures
        newline_count(s) <= s.len(),
    decreases s.len(),
{
    if s.len() > 0 {
        lemma_newline_count_bound(s.drop_last());
    }
}

impl TextCounts {
    /// Counts the characters, words and lines of `content`.
    pub fn compute(content: &str) -> (r: TextCounts)
        ensures
            r.char_count == content@.len(),
            r.word_count == word_count_of(content@),
            r.line_count == line_count_of(content@),
    {
        let cs = chars_of(content);
        let ghost s = cs@;
        let mut words: usize = 0;
        let mut newlines: usize = 0;
        let mut i: usize = 0;
        while i < cs.len()
            invariant
                i <= cs.len(),
                s == cs@,
                words == word_count_of(s.take(i as int)),
                newlines == newline_count(s.take(i as int)),
                words <= i,
                newlines <= i,
            decreases cs.len() - i,
        {
            let c = cs[i];
            let ws = char_is_whitespace(c);
            let starts = !ws && (i == 0 || char_is_whitespace(cs[i - 1]));
            assert(s.take(i + 1).drop_last() =~= s.take(i as int));
            assert(starts == starts_word(s.take(i + 1), i as int));
            if starts {
                words += 1;
            }
            if c == '\n' {
                newlines += 1;
            }
            i += 1;
        }
        assert(s.take(cs.len() as int) =~= s);
        let line_count = if cs.len() == 0 {
            0
        } else if cs[cs.len() - 1] == '\n' {
            newlines
        } else {
            proof {
                lemma_newline_count_bound(s.drop_last());
            }
            newlines + 1
        };
        TextCounts { char_count: cs.len(), word_count: words, line_count }
    }
}

} // verus!
