//! Applying editor changes to the text of a document.
//!
//! A change either replaces the whole document or replaces a range of it.
//! Ranges are given as line and column, columns in UTF-16 code units; this
//! module turns them into character offsets and splices the text.

use vstd::prelude::*;
use crate::chars::{from_chars, to_chars};
use crate::position::{Position, Range};

verus! {

/// The number of UTF-16 code units that `c` takes.
pub open spec fn utf16_width(c: char) -> nat {
    if (c as u32) < 0x10000 {
        1
    } else {
        2
    }
}

/// The number of UTF-16 code units that `s` takes.
pub open spec fn utf16_len(s: Seq<char>) -> nat
    decreases s.len(),
{
    if s.len() == 0 {
        0
    } else {
        utf16_len(s.drop_last()) + utf16_width(s.last())
    }
}

/// The offset reached from `from` after skipping `lines` line breaks: the
/// offset just behind the last of them, or the end of the text where it has
/// fewer.
pub open spec fn skip_lines(text: Seq<char>, from: int, lines: nat) -> int
    decreases text.len() - from,
{
    if from >= text.len() {
        text.len() as int
    } else if lines == 0 {
        from
    } else if text[from] == '\n' {
        skip_lines(text, from + 1, (lines - 1) as nat)
    } else {
        skip_lines(text, from + 1, lines)
    }
}

/// The offset at which line `line` of `text` starts; the end of the text for
/// a line that it does not have.
pub open spec fn line_start(text: Seq<char>, line: nat) -> int {
    skip_lines(text, 0, line)
}

/// The offset reached from `from` after `units` UTF-16 code units. It stops at
/// the end of the text, and in front of a character that the remaining units
/// would split. Line breaks count like any other character.
pub open spec fn advance(text: Seq<char>, from: int, units: nat) -> int
    decreases text.len() - from,
{
    if from >= text.len() {
        text.len() as int
    } else if units < utf16_width(text[from]) {
        from
    } else {
        advance(text, from + 1, (units - utf16_width(text[from])) as nat)
    }
}

/// The character offset in `text` that `pos` names.
pub open spec fn offset_of(text: Seq<char>, pos: Position) -> int {
    advance(text, line_start(text, pos.line as nat), pos.character as nat)
}

/// One change to a document: with a range, the text in that range is replaced
/// by `text`; without one, the whole document is.
#[derive(Clone, Debug, PartialEq, Eq)]
pub struct TextDocumentContentChangeEvent {
    pub range: Option<Range>,
    pub range_length: Option<u32>,
    pub text: String,
}

/// What a change stands for in contracts.
pub struct ChangeView {
    pub range: Option<Range>,
    pub text: Seq<char>,
}

impl View for TextDocumentContentChangeEvent {
    type V = ChangeView;

    open spec fn view(&self) -> ChangeView {
        ChangeView { range: self.range, text: self.text@ }
    }
}

/// The views of a sequence of changes.
pub open spec fn change_views(changes: Seq<TextDocumentContentChangeEvent>) -> Seq<ChangeView> {
    changes.map_values(|c: TextDocumentContentChangeEvent| c@)
}

/// The text with the characters from `start` up to `end` replaced by
/// `insert`. An `end` in front of `start` counts as `start`.
pub open spec fn splice(text: Seq<char>, start: int, end: int, insert: Seq<char>) -> Seq<char> {
    let stop = if end < start {
        start
    } else {
        end
    };
    text.take(start) + insert + text.skip(stop)
}

/// The text after one change.
pub open spec fn apply_change(text: Seq<char>, change: ChangeView) -> Seq<char> {
    match change.range {
        None => change.text,
        Some(range) => splice(
            text,
            offset_of(text, range.start),
            offset_of(text, range.end),
            change.text,
        ),
    }
}

/// The text after the changes, applied first to last.
pub open spec fn apply_changes(text: Seq<char>, changes: Seq<ChangeView>) -> Seq<char>
    decreases changes.len(),
{
    if changes.len() == 0 {
        text
    } else {
        apply_change(apply_changes(text, changes.drop_last()), changes.last())
    }
}

proof fn lemma_skip_lines_bounds(text: Seq<char>, from: int, lines: nat)
    requires
        0 <= from <= text.len(),
    ensures
        from <= skip_lines(text, from, lines) <= text.len(),
    decreases text.len() - from,
{
    if from < text.len() && lines != 0 {
        if text[from] == '\n' {
            lemma_skip_lines_bounds(text, from + 1, (lines - 1) as nat);
        } else {
            lemma_skip_lines_bounds(text, from + 1, lines);
        }
    }
}

proof fn lemma_advance_bounds(text: Seq<char>, from: int, units: nat)
    requires
        0 <= from <= text.len(),
    ensures
        from <= advance(text, from, units) <= text.len(),
    decreases text.len() - from,
{
    if from < text.len() && units >= utf16_width(text[from]) {
        lemma_advance_bounds(text, from + 1, (units - utf16_width(text[from])) as nat);
    }
}

/// An offset that a position names lies inside the text or at its end.
pub proof fn lemma_offset_in_text(text: Seq<char>, pos: Position)
    ensures
        0 <= offset_of(text, pos) <= text.len(),
{
    lemma_skip_lines_bounds(text, 0, pos.line as nat);
    lemma_advance_bounds(text, line_start(text, pos.line as nat), pos.character as nat);
}

/// Applying no change leaves the text as it is.
pub proof fn lemma_no_changes_keep_text(text: Seq<char>)
    ensures
        apply_changes(text, Seq::<ChangeView>::empty()) == text,
{
}

/// Applying `first` and then `second` is applying the two lists one behind
/// the other.
pub proof fn lemma_changes_compose(text: Seq<char>, first: Seq<ChangeView>, second: Seq<ChangeView>)
    ensures
        apply_changes(text, first + second) == apply_changes(apply_changes(text, first), second),
    decreases second.len(),
{
    if second.len() == 0 {
        assert(first + second == first);
    } else {
        lemma_changes_compose(text, first, second.drop_last());
        assert((first + second).drop_last() == first + second.drop_last());
        assert((first + second).last() == second.last());
    }
}

/// A change without a range discards every change before it: the result is
/// that of applying the later changes to the replacement text, whatever the
/// document held and whatever was applied before.
pub proof fn lemma_full_replacement_discards_earlier_changes(
    text: Seq<char>,
    earlier: Seq<ChangeView>,
    replacement: ChangeView,
    later: Seq<ChangeView>,
)
    requires
        replacement.range is None,
    ensures
        apply_changes(text, earlier.push(replacement)) == replacement.text,
        apply_changes(text, earlier.push(replacement) + later) == apply_changes(
            replacement.text,
            later,
        ),
{
    assert(earlier.push(replacement).drop_last() == earlier);
    lemma_changes_compose(text, earlier.push(replacement), later);
}

/// The number of UTF-16 code units that `c` takes.
pub fn char_utf16_width(c: char) -> (w: u32)
    ensures
        w == utf16_width(c),
{
    if (c as u32) < 0x10000 {
        1
    } else {
        2
    }
}

/// The character offset in `text` that `pos` names.
pub fn position_offset(text: &Vec<char>, pos: Position) -> (offset: usize)
    ensures
        offset == offset_of(text@, pos),
        offset <= text.len(),
{
    let n = text.len();
    let mut i: usize = 0;
    let mut lines: u32 = pos.line;
    while i < n && lines > 0
        invariant
            n == text.len(),
            i <= n,
            skip_lines(text@, i as int, lines as nat) == line_start(text@, pos.line as nat),
        decreases n - i,
    {
        if text[i] == '\n' {
            lines -= 1;
        }
        i += 1;
    }
    let mut units: u32 = pos.character;
    while i < n && units >= char_utf16_width(text[i])
        invariant
            n == text.len(),
            i <= n,
            advance(text@, i as int, units as nat) == offset_of(text@, pos),
        decreases n - i,
    {
        units -= char_utf16_width(text[i]);
        i += 1;
    }
    i
}

/// The pair of character offsets that `range` names in `text`, the second
/// raised to the first where it lies in front of it.
pub fn text_range(text: &Vec<char>, range: Range) -> (offsets: (usize, usize))
    ensures
        offsets.0 == offset_of(text@, range.start),
        offsets.1 == if offset_of(text@, range.end) < offset_of(text@, range.start) {
            offset_of(text@, range.start)
        } else {
            offset_of(text@, range.end)
        },
        offsets.0 <= offsets.1 <= text.len(),
{
    let start = position_offset(text, range.start);
    let end = position_offset(text, range.end);
    if end < start {
        (start, start)
    } else {
        (start, end)
    }
}

/// Applies the changes to `old_text` in the order given.
pub fn apply_document_changes(
    old_text: &mut String,
    content_changes: Vec<TextDocumentContentChangeEvent>,
)
    ensures
        final(old_text)@ == apply_changes(old(old_text)@, change_views(content_changes@)),
{
    let ghost views = change_views(content_changes@);
    let n = content_changes.len();
    let mut k: usize = 0;
    while k < n
        invariant
            n == content_changes.len(),
            k <= n,
            views == change_views(content_changes@),
            old_text@ == apply_changes(old(old_text)@, views.take(k as int)),
        decreases n - k,
    {
        let change = &content_changes[k];
        proof {
            assert(views.take(k as int + 1).drop_last() == views.take(k as int));
            assert(views.take(k as int + 1).last() == change@);
        }
        match change.range {
            Some(range) => {
                let chars = to_chars(old_text.as_str());
                let (start, end) = text_range(&chars, range);
                let mut next = from_chars(&chars, 0, start);
                next.append(change.text.as_str());
                let tail = from_chars(&chars, end, chars.len());
                next.append(tail.as_str());
                *old_text = next;
            },
            None => {
                *old_text = change.text.clone();
            },
        }
        k += 1;
    }
    proof {
        assert(views.take(n as int) == views);
    }
}

} // verus!
