//! Positions and offsets agree: the position that the word scanner gives to
//! an offset is the position that names that offset when a change is applied.

use vstd::prelude::*;
use crate::document::{advance, line_start, offset_of, skip_lines, utf16_width};
use crate::words::{
    column_of, is_addressable, is_word_start, lemma_word_span, line_of, position_at, word_at,
    word_end,
};

verus! {

/// The offset at which the line of offset `p` starts.
pub open spec fn line_begin(text: Seq<char>, p: int) -> int
    decreases p,
{
    if p <= 0 || p > text.len() {
        0
    } else if text[p - 1] == '\n' {
        p
    } else {
        line_begin(text, p - 1)
    }
}

/// The UTF-16 code units that the characters from `a` up to `p` take.
pub open spec fn units_between(text: Seq<char>, a: int, p: int) -> nat
    decreases p - a,
{
    if p <= a || a < 0 || p > text.len() {
        0
    } else {
        units_between(text, a, p - 1) + utf16_width(text[p - 1])
    }
}

proof fn lemma_line_begin(text: Seq<char>, p: int)
    requires
        0 <= p <= text.len(),
    ensures
        0 <= line_begin(text, p) <= p,
        forall|k: int| line_begin(text, p) <= k < p ==> text[k] != '\n',
        column_of(text, p) == units_between(text, line_begin(text, p), p),
    decreases p,
{
    if p > 0 {
        lemma_line_begin(text, p - 1);
    }
}

proof fn lemma_skip_lines_compose(text: Seq<char>, a: int, n: nat, m: nat)
    requires
        0 <= a <= text.len(),
    ensures
        0 <= skip_lines(text, a, n) <= text.len(),
        skip_lines(text, a, n + m) == skip_lines(text, skip_lines(text, a, n), m),
    decreases text.len() - a,
{
    if a < text.len() && n > 0 {
        if text[a] == '\n' {
            lemma_skip_lines_compose(text, a + 1, (n - 1) as nat, m);
        } else {
            lemma_skip_lines_compose(text, a + 1, n, m);
        }
    }
}

proof fn lemma_skip_one_line(text: Seq<char>, b: int, q: int)
    requires
        0 <= b <= q < text.len(),
        text[q] == '\n',
        forall|k: int| b <= k < q ==> text[k] != '\n',
    ensures
        skip_lines(text, b, 1) == q + 1,
    decreases q - b,
{
    if b < q {
        lemma_skip_one_line(text, b + 1, q);
    } else {
        assert(skip_lines(text, q, 1) == skip_lines(text, q + 1, 0));
        assert(skip_lines(text, q + 1, 0) == q + 1);
    }
}

proof fn lemma_line_start_is_line_begin(text: Seq<char>, p: int)
    requires
        0 <= p <= text.len(),
    ensures
        line_start(text, line_of(text, p)) == line_begin(text, p),
    decreases p,
{
    if p > 0 {
        lemma_line_start_is_line_begin(text, p - 1);
        lemma_line_begin(text, p - 1);
        if text[p - 1] == '\n' {
            lemma_skip_lines_compose(text, 0, line_of(text, p - 1), 1);
            lemma_skip_one_line(text, line_begin(text, p - 1), p - 1);
        }
    }
}

proof fn lemma_units_peel(text: Seq<char>, a: int, p: int)
    requires
        0 <= a < p <= text.len(),
    ensures
        units_between(text, a, p) == utf16_width(text[a]) + units_between(text, a + 1, p),
    decreases p - a,
{
    if a + 1 < p {
        lemma_units_peel(text, a, p - 1);
        assert(units_between(text, a + 1, p) == units_between(text, a + 1, p - 1) + utf16_width(
            text[p - 1],
        ));
    } else {
        assert(units_between(text, a, a) == 0);
        assert(units_between(text, a + 1, p) == 0);
    }
}

proof fn lemma_advance_reaches(text: Seq<char>, a: int, p: int)
    requires
        0 <= a <= p <= text.len(),
    ensures
        advance(text, a, units_between(text, a, p)) == p,
    decreases p - a,
{
    if a < p {
        lemma_units_peel(text, a, p);
        lemma_advance_reaches(text, a + 1, p);
    }
}

/// The position of an offset names that offset again, where its line and
/// column fit 32 bits.
pub proof fn lemma_position_names_offset(text: Seq<char>, p: int)
    requires
        0 <= p <= text.len(),
        line_of(text, p) <= u32::MAX,
        column_of(text, p) <= u32::MAX,
    ensures
        offset_of(text, position_at(text, p)) == p,
{
    lemma_line_start_is_line_begin(text, p);
    lemma_line_begin(text, p);
    lemma_advance_reaches(text, line_begin(text, p), p);
}

/// The range of a word that positions can name names, as a range of a change
/// would, exactly the characters of the word.
pub proof fn lemma_word_range_names_word(text: Seq<char>, p: int)
    requires
        is_word_start(text, p),
        is_addressable(text, p),
    ensures
        0 <= offset_of(text, word_at(text, p).range.start) <= offset_of(
            text,
            word_at(text, p).range.end,
        ) <= text.len(),
        text.subrange(
            offset_of(text, word_at(text, p).range.start),
            offset_of(text, word_at(text, p).range.end),
        ) == word_at(text, p).text,
{
    lemma_word_span(text, p);
    lemma_position_names_offset(text, p);
    lemma_position_names_offset(text, word_end(text, p));
}

} // verus!
