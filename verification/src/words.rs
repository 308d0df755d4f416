//! Finding the identifiers that a text holds, with the place of each.
//!
//! A word is a longest run of identifier characters that begins with a letter
//! or an underscore. A run that begins with a digit is no word. Lines and
//! columns are 32-bit numbers: a word whose line, or the column of whose end,
//! does not fit is left out, since no position could name it.

use vstd::prelude::*;
use crate::chars::from_chars;
use crate::document::{utf16_width, char_utf16_width};
use crate::position::{Position, Range};

verus! {

/// Whether an identifier can begin with `c`.
pub open spec fn is_id_start(c: char) -> bool {
    c == '_' || ('a' <= c && c <= 'z') || ('A' <= c && c <= 'Z')
}

/// Whether an identifier can go on with `c`.
pub open spec fn is_id_continue(c: char) -> bool {
    is_id_start(c) || ('0' <= c && c <= '9')
}

/// Whether a word begins at offset `p` of `text`.
pub open spec fn is_word_start(text: Seq<char>, p: int) -> bool {
    &&& 0 <= p < text.len()
    &&& is_id_start(text[p])
    &&& (p == 0 || !is_id_continue(text[p - 1]))
}

/// The first offset at or behind `p` that holds no identifier character.
pub open spec fn word_end(text: Seq<char>, p: int) -> int
    decreases text.len() - p,
{
    if p < 0 || p >= text.len() || !is_id_continue(text[p]) {
        p
    } else {
        word_end(text, p + 1)
    }
}

/// The number of the line that offset `p` lies on.
pub open spec fn line_of(text: Seq<char>, p: int) -> nat
    decreases p,
{
    if p <= 0 || p > text.len() {
        0
    } else if text[p - 1] == '\n' {
        line_of(text, p - 1) + 1
    } else {
        line_of(text, p - 1)
    }
}

/// The column of offset `p`: the UTF-16 code units between the start of its
/// line and `p`.
pub open spec fn column_of(text: Seq<char>, p: int) -> nat
    decreases p,
{
    if p <= 0 || p > text.len() {
        0
    } else if text[p - 1] == '\n' {
        0
    } else {
        column_of(text, p - 1) + utf16_width(text[p - 1])
    }
}

/// The position of offset `p` in protocol coordinates.
pub open spec fn position_at(text: Seq<char>, p: int) -> Position {
    Position { line: line_of(text, p) as u32, character: column_of(text, p) as u32 }
}

/// A word and the range it covers.
#[derive(Clone, Debug, PartialEq, Eq)]
pub struct Word {
    pub text: String,
    pub range: Range,
}

/// What a `Word` stands for in contracts.
pub struct WordView {
    pub text: Seq<char>,
    pub range: Range,
}

impl View for Word {
    type V = WordView;

    open spec fn view(&self) -> WordView {
        WordView { text: self.text@, range: self.range }
    }
}

/// The views of a sequence of words.
pub open spec fn word_views(words: Seq<Word>) -> Seq<WordView> {
    words.map_values(|w: Word| w@)
}

/// The word that begins at offset `p`.
pub open spec fn word_at(text: Seq<char>, p: int) -> WordView {
    let e = word_end(text, p);
    WordView {
        text: text.subrange(p, e),
        range: Range { start: position_at(text, p), end: position_at(text, e) },
    }
}

/// Whether positions can name the word that begins at offset `p`: its line
/// and the column of its end fit 32 bits.
pub open spec fn is_addressable(text: Seq<char>, p: int) -> bool {
    line_of(text, p) <= u32::MAX && column_of(text, word_end(text, p)) <= u32::MAX
}

/// The words that begin in front of offset `n` and that positions can name,
/// in the order of the text.
pub open spec fn words_before(text: Seq<char>, n: int) -> Seq<WordView>
    decreases n,
{
    if n <= 0 {
        Seq::empty()
    } else if is_word_start(text, n - 1) && is_addressable(text, n - 1) {
        words_before(text, n - 1).push(word_at(text, n - 1))
    } else {
        words_before(text, n - 1)
    }
}

/// All the words of `text` that positions can name, in the order of the text.
pub open spec fn words_of(text: Seq<char>) -> Seq<WordView> {
    words_before(text, text.len() as int)
}

/// Whether an identifier can begin with `c`.
pub fn id_start(c: char) -> (b: bool)
    ensures
        b == is_id_start(c),
{
    c == '_' || ('a' <= c && c <= 'z') || ('A' <= c && c <= 'Z')
}

/// Whether an identifier can go on with `c`.
pub fn id_continue(c: char) -> (b: bool)
    ensures
        b == is_id_continue(c),
{
    id_start(c) || ('0' <= c && c <= '9')
}

/// An offset lies on no later line than its own number, and at no later
/// column than twice its number.
pub proof fn lemma_line_column_bounds(text: Seq<char>, p: int)
    requires
        0 <= p <= text.len(),
    ensures
        line_of(text, p) <= p,
        column_of(text, p) <= 2 * p,
    decreases p,
{
    if p > 0 {
        lemma_line_column_bounds(text, p - 1);
    }
}

/// A position as one number that grows with the line and, on a line, with
/// the column.
pub open spec fn position_key(p: Position) -> int {
    p.line as int * 0x1_0000_0000 + p.character as int
}

/// Whether each word of `words` starts behind the one before it.
pub open spec fn starts_ascend(words: Seq<WordView>) -> bool {
    forall|i: int, j: int|
        0 <= i < j < words.len() ==> position_key((#[trigger] words[i]).range.start) < position_key(
            (#[trigger] words[j]).range.start,
        )
}

/// Whether `pos` lies in front of offset `n` of `text`: on an earlier line,
/// or on the same line at an earlier column.
pub open spec fn lies_before(pos: Position, text: Seq<char>, n: int) -> bool {
    pos.line < line_of(text, n) || (pos.line == line_of(text, n) && pos.character < column_of(
        text,
        n,
    ))
}

/// A word lies on one line, and each of its characters takes one column.
pub proof fn lemma_word_span(text: Seq<char>, p: int)
    requires
        0 <= p <= text.len(),
    ensures
        p <= word_end(text, p) <= text.len(),
        line_of(text, word_end(text, p)) == line_of(text, p),
        column_of(text, word_end(text, p)) == column_of(text, p) + (word_end(text, p) - p),
    decreases text.len() - p,
{
    if p < text.len() && is_id_continue(text[p]) {
        lemma_word_span(text, p + 1);
    }
}

proof fn lemma_words_before_ascend(text: Seq<char>, n: int)
    requires
        0 <= n <= text.len(),
    ensures
        starts_ascend(words_before(text, n)),
        forall|i: int|
            0 <= i < words_before(text, n).len() ==> lies_before(
                (#[trigger] words_before(text, n)[i]).range.start,
                text,
                n,
            ),
    decreases n,
{
    if n > 0 {
        lemma_words_before_ascend(text, n - 1);
        lemma_word_span(text, n - 1);
        let earlier = words_before(text, n - 1);
        let all = words_before(text, n);
        assert forall|i: int| 0 <= i < all.len() implies lies_before(
            (#[trigger] all[i]).range.start,
            text,
            n,
        ) by {
            if i < earlier.len() {
                assert(all[i] == earlier[i]);
                assert(lies_before(earlier[i].range.start, text, n - 1));
            }
        }
        assert forall|i: int, j: int| 0 <= i < j < all.len() implies position_key(
            (#[trigger] all[i]).range.start,
        ) < position_key((#[trigger] all[j]).range.start) by {
            assert(all[i] == earlier[i]);
            if j < earlier.len() {
                assert(all[j] == earlier[j]);
            } else {
                assert(lies_before(earlier[i].range.start, text, n - 1));
                assert(all[j].range.start == position_at(text, n - 1));
            }
        }
    }
}

/// The words of a text start at ascending positions: no two of them share a
/// range.
pub proof fn lemma_words_ascend(text: Seq<char>)
    ensures
        starts_ascend(words_of(text)),
{
    lemma_words_before_ascend(text, text.len() as int);
}

/// All the words of `text` that positions can name, in the order of the text.
pub fn scan_words(text: &Vec<char>) -> (words: Vec<Word>)
    ensures
        word_views(words@) == words_of(text@),
{
    let n = text.len();
    let mut words: Vec<Word> = Vec::new();
    let mut i: usize = 0;
    let mut line: usize = 0;
    let mut col: u128 = 0;
    while i < n
        invariant
            n == text.len(),
            i <= n,
            line == line_of(text@, i as int),
            col == column_of(text@, i as int),
            word_views(words@) == words_before(text@, i as int),
        decreases n - i,
    {
        let c = text[i];
        proof {
            lemma_line_column_bounds(text@, i as int);
            lemma_line_column_bounds(text@, i as int + 1);
        }
        if id_start(c) && (i == 0 || !id_continue(text[i - 1])) {
            let mut e: usize = i + 1;
            while e < n && id_continue(text[e])
                invariant
                    n == text.len(),
                    i < e <= n,
                    word_end(text@, e as int) == word_end(text@, i as int),
                decreases n - e,
            {
                e += 1;
            }
            proof {
                lemma_word_span(text@, i as int);
                lemma_line_column_bounds(text@, e as int);
            }
            let end_col: u128 = col + ((e - i) as u128);
            if line <= 0xffff_ffff && end_col <= 0xffff_ffff {
                let word = Word {
                    text: from_chars(text, i, e),
                    range: Range {
                        start: Position { line: line as u32, character: col as u32 },
                        end: Position { line: line as u32, character: end_col as u32 },
                    },
                };
                assert(word@ == word_at(text@, i as int));
                let ghost before = word_views(words@);
                words.push(word);
                assert(word_views(words@) == before.push(word@));
            }
        }
        if c == '\n' {
            line += 1;
            col = 0;
        } else {
            col += char_utf16_width(c) as u128;
        }
        i += 1;
    }
    words
}

} // verus!
