//! The word index: for each identifier, the places where it occurs.
//!
//! An index maps a word to the ordered list of its occurrences. No occurrence
//! is listed twice, and a word without occurrences is not in the index. The
//! index of a set of files is kept up to date by taking out what a file held
//! before a change and putting in what it holds after it.

use vstd::prelude::*;
use crate::chars::to_chars;
use crate::locations::{
    copy_locations, lemma_outside_file_members, lemma_renamed_members,
    lemma_union_members, lemma_without_members, location_views, locations_outside_file,
    locations_renamed, locations_union, locations_without, outside_file, renamed, union_of,
    without,
};
use crate::position::{Location, LocationView};
use crate::words::{
    lemma_words_ascend, position_key, scan_words, starts_ascend, word_views, words_of, WordView,
};

verus! {

/// The locations that the index `m` lists for `word`: none where it does not
/// hold the word.
pub open spec fn locations_of(
    m: Map<Seq<char>, Seq<LocationView>>,
    word: Seq<char>,
) -> Seq<LocationView> {
    if m.dom().contains(word) {
        m[word]
    } else {
        Seq::empty()
    }
}

/// The index that lists `lists(word)` for each word, and holds the words for
/// which that list is not empty.
pub open spec fn index_of_lists(lists: spec_fn(Seq<char>) -> Seq<LocationView>) -> Map<
    Seq<char>,
    Seq<LocationView>,
> {
    Map::new(|w: Seq<char>| lists(w).len() > 0, |w: Seq<char>| lists(w))
}

/// What every index satisfies: no list is empty and none repeats a location.
pub open spec fn index_wf(m: Map<Seq<char>, Seq<LocationView>>) -> bool {
    forall|w: Seq<char>| #[trigger]
        m.dom().contains(w) ==> m[w].len() > 0 && m[w].no_duplicates()
}

/// The index `m` with the occurrences of `other` put in: behind those that `m`
/// has, and only those that `m` does not have yet.
pub open spec fn index_add(
    m: Map<Seq<char>, Seq<LocationView>>,
    other: Map<Seq<char>, Seq<LocationView>>,
) -> Map<Seq<char>, Seq<LocationView>> {
    index_of_lists(|w: Seq<char>| union_of(locations_of(m, w), locations_of(other, w)))
}

/// The index `m` with the occurrences of `other` taken out.
pub open spec fn index_subtract(
    m: Map<Seq<char>, Seq<LocationView>>,
    other: Map<Seq<char>, Seq<LocationView>>,
) -> Map<Seq<char>, Seq<LocationView>> {
    index_of_lists(|w: Seq<char>| without(locations_of(m, w), locations_of(other, w)))
}

/// The index `m` with every occurrence in the file `uri` taken out.
pub open spec fn index_remove_file(m: Map<Seq<char>, Seq<LocationView>>, uri: Seq<char>) -> Map<
    Seq<char>,
    Seq<LocationView>,
> {
    index_of_lists(|w: Seq<char>| outside_file(locations_of(m, w), uri))
}

/// The index `m` after the file `old_uri` was renamed to `new_uri`.
pub open spec fn index_rename_file(
    m: Map<Seq<char>, Seq<LocationView>>,
    old_uri: Seq<char>,
    new_uri: Seq<char>,
) -> Map<Seq<char>, Seq<LocationView>> {
    index_of_lists(|w: Seq<char>| renamed(locations_of(m, w), old_uri, new_uri))
}

/// The place of the word `x` in the file `uri`.
pub open spec fn occurrence(x: WordView, uri: Seq<char>) -> LocationView {
    LocationView { uri, range: x.range }
}

/// The places in the file `uri` of those of `words` that read `word`, in the
/// order of `words`.
pub open spec fn occurrences(words: Seq<WordView>, uri: Seq<char>, word: Seq<char>) -> Seq<
    LocationView,
> {
    words.filter(|x: WordView| x.text == word).map_values(|x: WordView| occurrence(x, uri))
}

/// The index of one file: what it holds for each word are the places of that
/// word in `text`, in the order of the text.
pub open spec fn content_index(text: Seq<char>, uri: Seq<char>) -> Map<
    Seq<char>,
    Seq<LocationView>,
> {
    index_of_lists(|w: Seq<char>| occurrences(words_of(text), uri, w))
}

/// A file by its URI and its text.
#[derive(Clone, Debug, PartialEq, Eq)]
pub struct SourceFile {
    pub uri: String,
    pub text: String,
}

/// What a `SourceFile` stands for in contracts.
pub struct SourceFileView {
    pub uri: Seq<char>,
    pub text: Seq<char>,
}

impl View for SourceFile {
    type V = SourceFileView;

    open spec fn view(&self) -> SourceFileView {
        SourceFileView { uri: self.uri@, text: self.text@ }
    }
}

/// The views of a sequence of files.
pub open spec fn file_views(files: Seq<SourceFile>) -> Seq<SourceFileView> {
    files.map_values(|f: SourceFile| f@)
}

/// The index of a list of files, built file by file in the order given.
pub open spec fn files_index(files: Seq<SourceFileView>) -> Map<Seq<char>, Seq<LocationView>>
    decreases files.len(),
{
    if files.len() == 0 {
        Map::empty()
    } else {
        index_add(files_index(files.drop_last()), content_index(files.last().text, files.last().uri))
    }
}

/// What one more word adds to the occurrences.
pub proof fn lemma_occurrences_push(words: Seq<WordView>, x: WordView, uri: Seq<char>, word: Seq<char>)
    ensures
        occurrences(words.push(x), uri, word) == if x.text == word {
            occurrences(words, uri, word).push(occurrence(x, uri))
        } else {
            occurrences(words, uri, word)
        },
{
    let pred = |y: WordView| y.text == word;
    words.lemma_filter_push(x, pred);
    if x.text == word {
        assert(words.filter(pred).push(x).map_values(|y: WordView| occurrence(y, uri))
            =~= words.filter(pred).map_values(|y: WordView| occurrence(y, uri)).push(
            occurrence(x, uri),
        ));
    }
}

/// Each occurrence is the place of one of the words that read `word`.
pub proof fn lemma_occurrences_origin(words: Seq<WordView>, uri: Seq<char>, word: Seq<char>, i: int)
    requires
        0 <= i < occurrences(words, uri, word).len(),
    ensures
        exists|k: int|
            0 <= k < words.len() && (#[trigger] words[k]).text == word && occurrence(words[k], uri)
                == occurrences(words, uri, word)[i],
    decreases words.len(),
{
    if words.len() > 0 {
        let front = words.drop_last();
        let last = words.last();
        assert(words == front.push(last));
        lemma_occurrences_push(front, last, uri, word);
        if i < occurrences(front, uri, word).len() {
            lemma_occurrences_origin(front, uri, word, i);
            let k = choose|k: int|
                0 <= k < front.len() && (#[trigger] front[k]).text == word && occurrence(
                    front[k],
                    uri,
                ) == occurrences(front, uri, word)[i];
            assert(words[k] == front[k]);
        } else {
            assert(words[words.len() - 1] == last);
        }
    } else {
        reveal(Seq::filter);
    }
}

/// Each word that reads `word` has its place among the occurrences.
pub proof fn lemma_occurrences_hold(words: Seq<WordView>, uri: Seq<char>, word: Seq<char>, k: int)
    requires
        0 <= k < words.len(),
        words[k].text == word,
    ensures
        occurrences(words, uri, word).contains(occurrence(words[k], uri)),
    decreases words.len(),
{
    let front = words.drop_last();
    let last = words.last();
    assert(words == front.push(last));
    lemma_occurrences_push(front, last, uri, word);
    let all = occurrences(words, uri, word);
    if k < front.len() {
        lemma_occurrences_hold(front, uri, word, k);
        let f = occurrences(front, uri, word);
        let i = choose|i: int| 0 <= i < f.len() && f[i] == occurrence(front[k], uri);
        assert(all[i] == f[i]);
    } else {
        assert(all[all.len() - 1] == occurrence(last, uri));
    }
}

/// Words that start at ascending positions occur at distinct places.
pub proof fn lemma_occurrences_distinct(words: Seq<WordView>, uri: Seq<char>, word: Seq<char>)
    requires
        starts_ascend(words),
    ensures
        occurrences(words, uri, word).no_duplicates(),
        forall|i: int|
            0 <= i < occurrences(words, uri, word).len() && words.len() > 0 ==> position_key(
                (#[trigger] occurrences(words, uri, word)[i]).range.start,
            ) <= position_key(words.last().range.start),
    decreases words.len(),
{
    if words.len() == 0 {
        reveal(Seq::filter);
    } else {
        let front = words.drop_last();
        let last = words.last();
        assert(words == front.push(last));
        assert(starts_ascend(front)) by {
            assert forall|i: int, j: int| 0 <= i < j < front.len() implies position_key(
                (#[trigger] front[i]).range.start,
            ) < position_key((#[trigger] front[j]).range.start) by {
                assert(front[i] == words[i] && front[j] == words[j]);
            }
        }
        lemma_occurrences_distinct(front, uri, word);
        lemma_occurrences_push(front, last, uri, word);
        let f = occurrences(front, uri, word);
        assert forall|i: int| 0 <= i < f.len() implies position_key((#[trigger] f[i]).range.start)
            < position_key(last.range.start) by {
            lemma_occurrences_origin(front, uri, word, i);
            let k = choose|k: int|
                0 <= k < front.len() && (#[trigger] front[k]).text == word && occurrence(
                    front[k],
                    uri,
                ) == f[i];
            assert(front[k] == words[k]);
            assert(words[words.len() - 1] == last);
        }
    }
}

/// One word with its occurrences.
struct WordEntry {
    word: String,
    locations: Vec<Location>,
}

/// The word index of one package root.
pub struct WordIndex {
    entries: Vec<WordEntry>,
}

spec fn has_word(entries: Seq<WordEntry>, word: Seq<char>) -> bool {
    exists|i: int| 0 <= i < entries.len() && (#[trigger] entries[i]).word@ == word
}

spec fn slot(entries: Seq<WordEntry>, word: Seq<char>) -> int {
    choose|i: int| 0 <= i < entries.len() && (#[trigger] entries[i]).word@ == word
}

spec fn listed(entries: Seq<WordEntry>, word: Seq<char>) -> Seq<LocationView> {
    if has_word(entries, word) {
        location_views(entries[slot(entries, word)].locations@)
    } else {
        Seq::empty()
    }
}

spec fn entries_wf(entries: Seq<WordEntry>) -> bool {
    &&& forall|i: int, j: int|
        0 <= i < j < entries.len() ==> (#[trigger] entries[i]).word@ != (#[trigger] entries[j]).word@
    &&& forall|i: int|
        0 <= i < entries.len() ==> location_views((#[trigger] entries[i]).locations@).no_duplicates()
}

spec fn entries_model(entries: Seq<WordEntry>) -> Map<Seq<char>, Seq<LocationView>> {
    index_of_lists(|w: Seq<char>| listed(entries, w))
}

proof fn lemma_listed(entries: Seq<WordEntry>, i: int)
    requires
        entries_wf(entries),
        0 <= i < entries.len(),
    ensures
        has_word(entries, entries[i].word@),
        slot(entries, entries[i].word@) == i,
        listed(entries, entries[i].word@) == location_views(entries[i].locations@),
{
    let w = entries[i].word@;
    assert(has_word(entries, w));
    let k = slot(entries, w);
    assert(entries[k].word@ == w);
    if k < i {
        assert(entries[k].word@ != entries[i].word@);
    }
    if i < k {
        assert(entries[i].word@ != entries[k].word@);
    }
}

proof fn lemma_model(entries: Seq<WordEntry>)
    requires
        entries_wf(entries),
    ensures
        index_wf(entries_model(entries)),
        forall|w: Seq<char>| #[trigger]
            locations_of(entries_model(entries), w) == listed(entries, w),
{
    let m = entries_model(entries);
    assert forall|w: Seq<char>| #[trigger] m.dom().contains(w) implies m[w].len() > 0
        && m[w].no_duplicates() by {
        assert(has_word(entries, w));
        let k = slot(entries, w);
        assert(location_views(entries[k].locations@).no_duplicates());
    }
    assert forall|w: Seq<char>| #[trigger] locations_of(m, w) == listed(entries, w) by {
        if !m.dom().contains(w) {
            assert(listed(entries, w).len() == 0);
            assert(listed(entries, w) =~= Seq::empty());
        }
    }
}

/// What comes of changing each list in place: the entries keep their words,
/// and the list of each becomes `change` of the word and its old list.
proof fn lemma_changed_in_place(
    before: Seq<WordEntry>,
    after: Seq<WordEntry>,
    change: spec_fn(Seq<char>, Seq<LocationView>) -> Seq<LocationView>,
)
    requires
        entries_wf(before),
        after.len() == before.len(),
        forall|i: int|
            0 <= i < before.len() ==> (#[trigger] after[i]).word@ == before[i].word@
                && location_views(after[i].locations@) == change(
                before[i].word@,
                location_views(before[i].locations@),
            ),
        forall|i: int|
            0 <= i < before.len() ==> location_views((#[trigger] after[i]).locations@).no_duplicates(),
        forall|w: Seq<char>|
            !has_word(before, w) ==> (#[trigger] change(w, Seq::empty())).len() == 0,
    ensures
        entries_wf(after),
        forall|w: Seq<char>| #[trigger] listed(after, w) == change(w, listed(before, w)),
{
    assert forall|i: int, j: int| 0 <= i < j < after.len() implies (#[trigger] after[i]).word@ != (
    #[trigger] after[j]).word@ by {
        assert(before[i].word@ != before[j].word@);
    }
    assert forall|w: Seq<char>| #[trigger] listed(after, w) == change(w, listed(before, w)) by {
        if has_word(before, w) {
            let k = slot(before, w);
            lemma_listed(before, k);
            assert(after[k].word@ == w);
            lemma_listed(after, k);
        } else {
            if has_word(after, w) {
                let k = slot(after, w);
                assert(before[k].word@ == w);
            }
            assert(change(w, Seq::empty()) =~= Seq::empty());
        }
    }
}

fn find_entry(entries: &Vec<WordEntry>, word: &String) -> (r: Option<usize>)
    ensures
        match r {
            Some(i) => i < entries.len() && entries[i as int].word@ == word@,
            None => !has_word(entries@, word@),
        },
{
    let n = entries.len();
    let mut i: usize = 0;
    while i < n
        invariant
            n == entries.len(),
            i <= n,
            forall|k: int| 0 <= k < i ==> (#[trigger] entries@[k]).word@ != word@,
        decreases n - i,
    {
        if entries[i].word == *word {
            return Some(i);
        }
        i += 1;
    }
    None
}

/// The list that `entries` hold for `word`, or `empty` where they hold none.
fn list_of<'a>(entries: &'a Vec<WordEntry>, word: &String, empty: &'a Vec<Location>) -> (r:
    &'a Vec<Location>)
    requires
        entries_wf(entries@),
        empty@.len() == 0,
    ensures
        location_views(r@) == listed(entries@, word@),
{
    match find_entry(entries, word) {
        Some(j) => {
            proof {
                lemma_listed(entries@, j as int);
            }
            &entries[j].locations
        },
        None => {
            assert(location_views(empty@) =~= Seq::<LocationView>::empty());
            empty
        },
    }
}

proof fn lemma_listed_distinct(entries: Seq<WordEntry>, word: Seq<char>)
    requires
        entries_wf(entries),
    ensures
        listed(entries, word).no_duplicates(),
{
    if has_word(entries, word) {
        let k = slot(entries, word);
        assert(location_views(entries[k].locations@).no_duplicates());
    }
}

/// Taking nothing out of a list leaves the list.
proof fn lemma_without_nothing(s: Seq<LocationView>)
    ensures
        without(s, Seq::empty()) == s,
    decreases s.len(),
{
    let none = Seq::<LocationView>::empty();
    let pred = |l: LocationView| !none.contains(l);
    if s.len() == 0 {
        reveal(Seq::filter);
        assert(s.filter(pred) =~= s);
    } else {
        lemma_without_nothing(s.drop_last());
        assert(s == s.drop_last().push(s.last()));
        s.drop_last().lemma_filter_push(s.last(), pred);
    }
}

/// What comes of putting the entries `theirs` into `before`: the entries of
/// `before` in place, each list grown, and behind them the entries of `theirs`
/// whose words `before` did not hold. `origin` says where in `theirs` each
/// appended entry comes from, `placed` where each entry of `theirs` went.
proof fn lemma_added(
    before: Seq<WordEntry>,
    theirs: Seq<WordEntry>,
    after: Seq<WordEntry>,
    origin: Seq<int>,
    placed: Seq<int>,
)
    requires
        entries_wf(before),
        entries_wf(theirs),
        appended(before, theirs, after, origin, placed, theirs.len() as int),
        forall|k: int|
            0 <= k < before.len() ==> (#[trigger] after[k]).word@ == before[k].word@
                && location_views(after[k].locations@) == union_of(
                location_views(before[k].locations@),
                listed(theirs, before[k].word@),
            ),
    ensures
        entries_wf(after),
        forall|w: Seq<char>| #[trigger]
            listed(after, w) == union_of(listed(before, w), listed(theirs, w)),
{
    let n = before.len() as int;
    assert forall|i: int, j: int| 0 <= i < j < after.len() implies (#[trigger] after[i]).word@ != (
    #[trigger] after[j]).word@ by {
        if j < n {
            assert(before[i].word@ != before[j].word@);
        } else if i < n {
            let t = origin[j - n];
            assert(after[j].word@ == theirs[t].word@);
            assert(before[i].word@ == after[i].word@);
        } else {
            let t1 = origin[i - n];
            let source = origin[j - n];
            assert(theirs[t1].word@ != theirs[source].word@);
        }
    }
    assert forall|k: int| 0 <= k < after.len() implies location_views(
        (#[trigger] after[k]).locations@,
    ).no_duplicates() by {
        if k < n {
            lemma_listed_distinct(theirs, before[k].word@);
            lemma_union_members(
                location_views(before[k].locations@),
                listed(theirs, before[k].word@),
            );
        } else {
            let t = origin[k - n];
            assert(location_views(theirs[t].locations@).no_duplicates());
        }
    }
    assert(entries_wf(after));
    assert forall|w: Seq<char>| #[trigger]
        listed(after, w) == union_of(listed(before, w), listed(theirs, w)) by {
        if has_word(before, w) {
            let k = slot(before, w);
            lemma_listed(before, k);
            assert(after[k].word@ == w);
            lemma_listed(after, k);
        } else if has_word(theirs, w) {
            let t = slot(theirs, w);
            lemma_listed(theirs, t);
            let k = placed[t];
            assert(origin[k - n] == t);
            lemma_listed(after, k);
            lemma_without_nothing(listed(theirs, w));
            assert(Seq::<LocationView>::empty() + listed(theirs, w) =~= listed(theirs, w));
        } else {
            if has_word(after, w) {
                let k = slot(after, w);
                if k < n {
                    assert(before[k].word@ == w);
                } else {
                    let t = origin[k - n];
                    assert(theirs[t].word@ == w);
                }
            }
            lemma_without_nothing(Seq::empty());
            assert(Seq::<LocationView>::empty() + Seq::<LocationView>::empty()
                =~= Seq::<LocationView>::empty());
        }
    }
}

/// The state of appending the entries of `theirs` that `before` lacks, after
/// the first `done` of them were looked at.
spec fn appended(
    before: Seq<WordEntry>,
    theirs: Seq<WordEntry>,
    after: Seq<WordEntry>,
    origin: Seq<int>,
    placed: Seq<int>,
    done: int,
) -> bool {
    let n = before.len() as int;
    &&& after.len() == n + origin.len()
    &&& placed.len() == done
    &&& 0 <= done <= theirs.len()
    &&& forall|k: int|
        0 <= k < origin.len() ==> {
            &&& 0 <= #[trigger] origin[k] < done
            &&& !has_word(before, theirs[origin[k]].word@)
            &&& after[n + k].word@ == theirs[origin[k]].word@
            &&& location_views(after[n + k].locations@) == location_views(
                theirs[origin[k]].locations@,
            )
            &&& placed[origin[k]] == n + k
        }
    &&& forall|k1: int, k2: int|
        0 <= k1 < k2 < origin.len() ==> #[trigger] origin[k1] < #[trigger] origin[k2]
    &&& forall|t: int|
        0 <= t < done && !has_word(before, theirs[t].word@) ==> {
            &&& n <= #[trigger] placed[t] < after.len()
            &&& origin[placed[t] - n] == t
        }
}

/// One more entry of `theirs` was looked at and, where `before` lacks its
/// word, appended.
proof fn lemma_append_step(
    before: Seq<WordEntry>,
    theirs: Seq<WordEntry>,
    after: Seq<WordEntry>,
    origin: Seq<int>,
    placed: Seq<int>,
    done: int,
    entry: WordEntry,
)
    requires
        appended(before, theirs, after, origin, placed, done),
        done < theirs.len(),
        entry.word@ == theirs[done].word@,
        location_views(entry.locations@) == location_views(theirs[done].locations@),
    ensures
        has_word(before, theirs[done].word@) ==> appended(
            before,
            theirs,
            after,
            origin,
            placed.push(-1),
            done + 1,
        ),
        !has_word(before, theirs[done].word@) ==> appended(
            before,
            theirs,
            after.push(entry),
            origin.push(done),
            placed.push(after.len() as int),
            done + 1,
        ),
{
    let n = before.len() as int;
    if has_word(before, theirs[done].word@) {
        let next_placed = placed.push(-1);
        assert forall|k: int| 0 <= k < origin.len() implies next_placed[#[trigger] origin[k]] == n + k by {
            assert(next_placed[origin[k]] == placed[origin[k]]);
        }
        assert forall|t: int|
            0 <= t < done + 1 && !has_word(before, theirs[t].word@) implies n <= #[trigger] next_placed[t]
            < after.len() && origin[next_placed[t] - n] == t by {
            assert(next_placed[t] == placed[t]);
        }
    } else {
        let next_after = after.push(entry);
        let next_origin = origin.push(done);
        let next_placed = placed.push(after.len() as int);
        assert forall|k: int| 0 <= k < next_origin.len() implies {
            &&& 0 <= #[trigger] next_origin[k] < done + 1
            &&& !has_word(before, theirs[next_origin[k]].word@)
            &&& next_after[n + k].word@ == theirs[next_origin[k]].word@
            &&& location_views(next_after[n + k].locations@) == location_views(theirs[next_origin[k]].locations@)
            &&& next_placed[next_origin[k]] == n + k
        } by {
            if k < origin.len() {
                assert(next_origin[k] == origin[k]);
                assert(next_after[n + k] == after[n + k]);
                assert(next_placed[origin[k]] == placed[origin[k]]);
            }
        }
        assert forall|k1: int, k2: int| 0 <= k1 < k2 < next_origin.len() implies #[trigger] next_origin[k1]
            < #[trigger] next_origin[k2] by {
            assert(next_origin[k1] == origin[k1]);
            if k2 < origin.len() {
                assert(next_origin[k2] == origin[k2]);
            }
        }
        assert forall|t: int|
            0 <= t < done + 1 && !has_word(before, theirs[t].word@) implies n <= #[trigger] next_placed[t]
            < next_after.len() && next_origin[next_placed[t] - n] == t by {
            if t < done {
                assert(next_placed[t] == placed[t]);
                assert(next_origin[placed[t] - n] == origin[placed[t] - n]);
            }
        }
    }
}

/// What comes of appending an entry for a word that the entries lacked.
proof fn lemma_entry_pushed(before: Seq<WordEntry>, entry: WordEntry)
    requires
        entries_wf(before),
        !has_word(before, entry.word@),
        location_views(entry.locations@).no_duplicates(),
    ensures
        entries_wf(before.push(entry)),
        forall|w: Seq<char>| #[trigger]
            listed(before.push(entry), w) == if w == entry.word@ {
                location_views(entry.locations@)
            } else {
                listed(before, w)
            },
{
    let after = before.push(entry);
    let last = before.len() as int;
    assert forall|i: int, j: int| 0 <= i < j < after.len() implies (#[trigger] after[i]).word@ != (
    #[trigger] after[j]).word@ by {
        assert(after[i] == before[i]);
        if j < last {
            assert(after[j] == before[j]);
        }
    }
    assert forall|i: int| 0 <= i < after.len() implies location_views(
        (#[trigger] after[i]).locations@,
    ).no_duplicates() by {
        if i < last {
            assert(after[i] == before[i]);
        }
    }
    assert forall|w: Seq<char>| #[trigger]
        listed(after, w) == if w == entry.word@ {
            location_views(entry.locations@)
        } else {
            listed(before, w)
        } by {
        if w == entry.word@ {
            assert(after[last].word@ == w);
            lemma_listed(after, last);
        } else if has_word(before, w) {
            let k = slot(before, w);
            lemma_listed(before, k);
            assert(after[k] == before[k]);
            lemma_listed(after, k);
        } else {
            if has_word(after, w) {
                let k = slot(after, w);
                if k < last {
                    assert(after[k] == before[k]);
                }
            }
        }
    }
}

impl View for WordIndex {
    type V = Map<Seq<char>, Seq<LocationView>>;

    closed spec fn view(&self) -> Map<Seq<char>, Seq<LocationView>> {
        entries_model(self.entries@)
    }
}

impl WordIndex {
    #[verifier::type_invariant]
    spec fn well_formed(self) -> bool {
        entries_wf(self.entries@)
    }

    /// An index without words.
    pub fn new() -> (index: WordIndex)
        ensures
            index@ == Map::<Seq<char>, Seq<LocationView>>::empty(),
            index_wf(index@),
    {
        let index = WordIndex { entries: Vec::new() };
        proof {
            lemma_model(index.entries@);
            assert(index@ =~= Map::<Seq<char>, Seq<LocationView>>::empty()) by {
                assert forall|w: Seq<char>| !(#[trigger] index@.dom().contains(w)) by {
                    assert(!has_word(index.entries@, w));
                }
            }
        }
        index
    }

    /// The occurrences of `word`, or `None` where the index does not hold it.
    pub fn get(&self, word: &str) -> (r: Option<&Vec<Location>>)
        ensures
            index_wf(self@),
            match r {
                Some(list) => self@.dom().contains(word@) && location_views(list@) == self@[word@],
                None => !self@.dom().contains(word@),
            },
    {
        proof {
            use_type_invariant(self);
            lemma_model(self.entries@);
        }
        let key = String::from_str(word);
        match find_entry(&self.entries, &key) {
            Some(i) => {
                proof {
                    lemma_listed(self.entries@, i as int);
                }
                if self.entries[i].locations.len() > 0 {
                    Some(&self.entries[i].locations)
                } else {
                    None
                }
            },
            None => None,
        }
    }

    /// Takes the occurrences of `other` out of this index.
    pub fn subtract_index(&mut self, other: &WordIndex)
        ensures
            final(self)@ == index_subtract(old(self)@, other@),
            index_wf(final(self)@),
    {
        proof {
            use_type_invariant(&*self);
            use_type_invariant(other);
            lemma_model(self.entries@);
            lemma_model(other.entries@);
        }
        let ghost before = self.entries@;
        let ghost theirs = other.entries@;
        let empty: Vec<Location> = Vec::new();
        let n = self.entries.len();
        let mut after: Vec<WordEntry> = Vec::new();
        let mut i: usize = 0;
        while i < n
            invariant
                n == self.entries.len(),
                i <= n,
                self.entries@ == before,
                other.entries@ == theirs,
                entries_wf(before),
                entries_wf(theirs),
                empty@.len() == 0,
                after.len() == i,
                forall|k: int|
                    0 <= k < i ==> (#[trigger] after@[k]).word@ == before[k].word@
                        && location_views(after@[k].locations@) == without(
                        location_views(before[k].locations@),
                        listed(theirs, before[k].word@),
                    ),
            decreases n - i,
        {
            let entry = &self.entries[i];
            let remove = list_of(&other.entries, &entry.word, &empty);
            let list = locations_without(&entry.locations, remove);
            after.push(WordEntry { word: entry.word.clone(), locations: list });
            i += 1;
        }
        proof {
            let change = |w: Seq<char>, l: Seq<LocationView>| without(l, listed(theirs, w));
            assert forall|k: int| 0 <= k < before.len() implies location_views(
                (#[trigger] after@[k]).locations@,
            ).no_duplicates() by {
                lemma_without_members(
                    location_views(before[k].locations@),
                    listed(theirs, before[k].word@),
                );
            }
            assert forall|w: Seq<char>| !has_word(before, w) implies (#[trigger] change(
                w,
                Seq::empty(),
            )).len() == 0 by {
                lemma_without_members(Seq::empty(), listed(theirs, w));
                let r = without(Seq::empty(), listed(theirs, w));
                if r.len() > 0 {
                    assert(r.contains(r[0]));
                }
            }
            lemma_changed_in_place(before, after@, change);
            lemma_model(after@);
            assert(entries_model(after@) =~= index_subtract(
                entries_model(before),
                entries_model(theirs),
            ));
        }
        self.entries = after;
    }

    /// Takes every occurrence in the file `uri` out of this index.
    pub fn remove_file(&mut self, uri: &str)
        ensures
            final(self)@ == index_remove_file(old(self)@, uri@),
            index_wf(final(self)@),
    {
        proof {
            use_type_invariant(&*self);
            lemma_model(self.entries@);
        }
        let ghost before = self.entries@;
        let file = String::from_str(uri);
        let n = self.entries.len();
        let mut after: Vec<WordEntry> = Vec::new();
        let mut i: usize = 0;
        while i < n
            invariant
                n == self.entries.len(),
                i <= n,
                self.entries@ == before,
                entries_wf(before),
                file@ == uri@,
                after.len() == i,
                forall|k: int|
                    0 <= k < i ==> (#[trigger] after@[k]).word@ == before[k].word@
                        && location_views(after@[k].locations@) == outside_file(
                        location_views(before[k].locations@),
                        uri@,
                    ),
            decreases n - i,
        {
            let entry = &self.entries[i];
            let list = locations_outside_file(&entry.locations, &file);
            after.push(WordEntry { word: entry.word.clone(), locations: list });
            i += 1;
        }
        proof {
            let change = |w: Seq<char>, l: Seq<LocationView>| outside_file(l, uri@);
            assert forall|k: int| 0 <= k < before.len() implies location_views(
                (#[trigger] after@[k]).locations@,
            ).no_duplicates() by {
                lemma_outside_file_members(location_views(before[k].locations@), uri@);
            }
            assert forall|w: Seq<char>| !has_word(before, w) implies (#[trigger] change(
                w,
                Seq::empty(),
            )).len() == 0 by {
                lemma_outside_file_members(Seq::empty(), uri@);
                let r = outside_file(Seq::empty(), uri@);
                if r.len() > 0 {
                    assert(r.contains(r[0]));
                }
            }
            lemma_changed_in_place(before, after@, change);
            lemma_model(after@);
            assert(entries_model(after@) =~= index_remove_file(entries_model(before), uri@));
        }
        self.entries = after;
    }

    /// Rewrites every occurrence in the file `old_uri` to lie in `new_uri`,
    /// with its range kept.
    pub fn rename_file(&mut self, old_uri: &str, new_uri: &str)
        ensures
            final(self)@ == index_rename_file(old(self)@, old_uri@, new_uri@),
            index_wf(final(self)@),
    {
        proof {
            use_type_invariant(&*self);
            lemma_model(self.entries@);
        }
        let ghost before = self.entries@;
        let from = String::from_str(old_uri);
        let to = String::from_str(new_uri);
        let n = self.entries.len();
        let mut after: Vec<WordEntry> = Vec::new();
        let mut i: usize = 0;
        while i < n
            invariant
                n == self.entries.len(),
                i <= n,
                self.entries@ == before,
                entries_wf(before),
                from@ == old_uri@,
                to@ == new_uri@,
                after.len() == i,
                forall|k: int|
                    0 <= k < i ==> (#[trigger] after@[k]).word@ == before[k].word@
                        && location_views(after@[k].locations@) == renamed(
                        location_views(before[k].locations@),
                        old_uri@,
                        new_uri@,
                    ),
            decreases n - i,
        {
            let entry = &self.entries[i];
            let list = locations_renamed(&entry.locations, &from, &to);
            after.push(WordEntry { word: entry.word.clone(), locations: list });
            i += 1;
        }
        proof {
            let change = |w: Seq<char>, l: Seq<LocationView>| renamed(l, old_uri@, new_uri@);
            assert forall|k: int| 0 <= k < before.len() implies location_views(
                (#[trigger] after@[k]).locations@,
            ).no_duplicates() by {
                lemma_renamed_members(location_views(before[k].locations@), old_uri@, new_uri@);
            }
            assert forall|w: Seq<char>| !has_word(before, w) implies (#[trigger] change(
                w,
                Seq::empty(),
            )).len() == 0 by {
                lemma_renamed_members(Seq::empty(), old_uri@, new_uri@);
                let r = renamed(Seq::empty(), old_uri@, new_uri@);
                if r.len() > 0 {
                    assert(r.contains(r[0]));
                }
            }
            lemma_changed_in_place(before, after@, change);
            lemma_model(after@);
            assert(entries_model(after@) =~= index_rename_file(
                entries_model(before),
                old_uri@,
                new_uri@,
            ));
        }
        self.entries = after;
    }

    /// Puts the occurrences of `other` into this index: behind those that it
    /// has, and only those that it does not have yet.
    pub fn add_index(&mut self, other: &WordIndex)
        ensures
            final(self)@ == index_add(old(self)@, other@),
            index_wf(final(self)@),
    {
        proof {
            use_type_invariant(&*self);
            use_type_invariant(other);
            lemma_model(self.entries@);
            lemma_model(other.entries@);
        }
        let ghost before = self.entries@;
        let ghost theirs = other.entries@;
        let empty: Vec<Location> = Vec::new();
        let n = self.entries.len();
        let mut after: Vec<WordEntry> = Vec::new();
        let mut i: usize = 0;
        while i < n
            invariant
                n == self.entries.len(),
                i <= n,
                self.entries@ == before,
                other.entries@ == theirs,
                entries_wf(before),
                entries_wf(theirs),
                empty@.len() == 0,
                after.len() == i,
                forall|k: int|
                    0 <= k < i ==> (#[trigger] after@[k]).word@ == before[k].word@
                        && location_views(after@[k].locations@) == union_of(
                        location_views(before[k].locations@),
                        listed(theirs, before[k].word@),
                    ),
            decreases n - i,
        {
            let entry = &self.entries[i];
            let more = list_of(&other.entries, &entry.word, &empty);
            let list = locations_union(&entry.locations, more);
            after.push(WordEntry { word: entry.word.clone(), locations: list });
            i += 1;
        }
        let m = other.entries.len();
        let mut j: usize = 0;
        let ghost origin = Seq::<int>::empty();
        let ghost placed = Seq::<int>::empty();
        while j < m
            invariant
                n == self.entries.len(),
                m == other.entries.len(),
                j <= m,
                self.entries@ == before,
                other.entries@ == theirs,
                appended(before, theirs, after@, origin, placed, j as int),
                forall|k: int|
                    0 <= k < n ==> (#[trigger] after@[k]).word@ == before[k].word@
                        && location_views(after@[k].locations@) == union_of(
                        location_views(before[k].locations@),
                        listed(theirs, before[k].word@),
                    ),
            decreases m - j,
        {
            let entry = &other.entries[j];
            if find_entry(&self.entries, &entry.word).is_none() {
                let copy = WordEntry {
                    word: entry.word.clone(),
                    locations: copy_locations(&entry.locations),
                };
                proof {
                    lemma_append_step(before, theirs, after@, origin, placed, j as int, copy);
                    placed = placed.push(after@.len() as int);
                    origin = origin.push(j as int);
                }
                after.push(copy);
            } else {
                proof {
                    let filler = WordEntry { word: entry.word, locations: entry.locations };
                    lemma_append_step(before, theirs, after@, origin, placed, j as int, filler);
                    placed = placed.push(-1);
                }
            }
            j += 1;
        }
        proof {
            lemma_added(before, theirs, after@, origin, placed);
            lemma_model(after@);
            assert(entries_model(after@) =~= index_add(
                entries_model(before),
                entries_model(theirs),
            ));
        }
        self.entries = after;
    }

    /// The index of one file.
    pub fn of_content(text: &str, uri: &str) -> (index: WordIndex)
        ensures
            index@ == content_index(text@, uri@),
            index_wf(index@),
    {
        let chars = to_chars(text);
        let words = scan_words(&chars);
        let ghost ws = words_of(text@);
        proof {
            lemma_words_ascend(text@);
        }
        let mut entries: Vec<WordEntry> = Vec::new();
        let n = words.len();
        let mut j: usize = 0;
        proof {
            assert forall|w: Seq<char>| #[trigger]
                listed(entries@, w) == occurrences(ws.take(0), uri@, w) by {
                reveal(Seq::filter);
                assert(!has_word(entries@, w));
                assert(occurrences(ws.take(0), uri@, w) =~= Seq::<LocationView>::empty());
            }
        }
        while j < n
            invariant
                n == words.len(),
                j <= n,
                word_views(words@) == ws,
                starts_ascend(ws),
                entries_wf(entries@),
                forall|w: Seq<char>| #[trigger]
                    listed(entries@, w) == occurrences(ws.take(j as int), uri@, w),
            decreases n - j,
        {
            let word = &words[j];
            let loc = Location::new(String::from_str(uri), word.range);
            let ghost before = entries@;
            let ghost place = loc@;
            let ghost read = word.text@;
            let ghost seen = ws.take(j as int);
            proof {
                assert(ws[j as int] == word@);
                assert(ws.take(j as int + 1) == seen.push(ws[j as int]));
                assert(place == occurrence(ws[j as int], uri@));
                assert forall|w: Seq<char>| #[trigger]
                    occurrences(ws.take(j as int + 1), uri@, w) == if w == read {
                        occurrences(seen, uri@, w).push(place)
                    } else {
                        occurrences(seen, uri@, w)
                    } by {
                    lemma_occurrences_push(seen, ws[j as int], uri@, w);
                }
                assert(starts_ascend(ws.take(j as int + 1)));
                lemma_occurrences_distinct(ws.take(j as int + 1), uri@, read);
            }
            match find_entry(&entries, &word.text) {
                Some(i) => {
                    proof {
                        lemma_listed(before, i as int);
                    }
                    entries[i].locations.push(loc);
                    proof {
                        let change = |w: Seq<char>, l: Seq<LocationView>|
                            if w == read {
                                l.push(place)
                            } else {
                                l
                            };
                        assert forall|k: int| 0 <= k < before.len() implies (
                        #[trigger] entries@[k]).word@ == before[k].word@ && location_views(
                            entries@[k].locations@,
                        ) == change(before[k].word@, location_views(before[k].locations@)) by {
                            if k == i {
                                assert(location_views(entries@[k].locations@) =~= location_views(
                                    before[k].locations@,
                                ).push(place));
                            } else {
                                assert(before[k].word@ != before[i as int].word@);
                            }
                        }
                        assert forall|k: int| 0 <= k < before.len() implies location_views(
                            (#[trigger] entries@[k]).locations@,
                        ).no_duplicates() by {
                            if k != i {
                                assert(entries@[k] == before[k]);
                            }
                        }
                        lemma_changed_in_place(before, entries@, change);
                    }
                },
                None => {
                    let mut list: Vec<Location> = Vec::new();
                    list.push(loc);
                    let entry = WordEntry { word: word.text.clone(), locations: list };
                    proof {
                        assert(listed(before, read) =~= Seq::<LocationView>::empty());
                        assert(location_views(entry.locations@) =~= Seq::<LocationView>::empty().push(
                            place,
                        ));
                        lemma_entry_pushed(before, entry);
                    }
                    entries.push(entry);
                },
            }
            j += 1;
        }
        proof {
            assert(ws.take(n as int) == ws);
            lemma_model(entries@);
            assert(entries_model(entries@) =~= content_index(text@, uri@));
        }
        WordIndex { entries }
    }

    /// The index of the files, built file by file in the order given.
    pub fn build(files: &Vec<SourceFile>) -> (index: WordIndex)
        ensures
            index@ == files_index(file_views(files@)),
            index_wf(index@),
    {
        let ghost fs = file_views(files@);
        let mut index = WordIndex::new();
        let n = files.len();
        let mut i: usize = 0;
        while i < n
            invariant
                n == files.len(),
                i <= n,
                fs == file_views(files@),
                index@ == files_index(fs.take(i as int)),
                index_wf(index@),
            decreases n - i,
        {
            let file = &files[i];
            assert(fs[i as int] == file@);
            let part = WordIndex::of_content(file.text.as_str(), file.uri.as_str());
            index.add_index(&part);
            proof {
                assert(fs.take(i as int + 1).drop_last() == fs.take(i as int));
            }
            i += 1;
        }
        proof {
            assert(fs.take(n as int) == fs);
        }
        index
    }

    /// Records one occurrence of `word`, behind those that the index has;
    /// one that it has already is not recorded again.
    pub fn insert(&mut self, word: &str, location: Location)
        ensures
            final(self)@ == index_add(
                old(self)@,
                Map::<Seq<char>, Seq<LocationView>>::empty().insert(word@, seq![location@]),
            ),
            index_wf(final(self)@),
    {
        let ghost place = location@;
        let mut list: Vec<Location> = Vec::new();
        list.push(location);
        let entry = WordEntry { word: String::from_str(word), locations: list };
        let mut entries: Vec<WordEntry> = Vec::new();
        proof {
            assert(location_views(entry.locations@) =~= seq![place]);
            lemma_entry_pushed(entries@, entry);
        }
        entries.push(entry);
        let single = WordIndex { entries };
        proof {
            lemma_model(single.entries@);
            assert(single@ =~= Map::<Seq<char>, Seq<LocationView>>::empty().insert(
                word@,
                seq![place],
            ));
        }
        self.add_index(&single);
    }

    /// A copy of the index.
    pub fn duplicate(&self) -> (copy: WordIndex)
        ensures
            copy@ == self@,
            index_wf(copy@),
    {
        proof {
            use_type_invariant(self);
            lemma_model(self.entries@);
        }
        let n = self.entries.len();
        let mut entries: Vec<WordEntry> = Vec::new();
        let mut i: usize = 0;
        while i < n
            invariant
                n == self.entries.len(),
                i <= n,
                entries.len() == i,
                forall|k: int|
                    0 <= k < i ==> (#[trigger] entries@[k]).word@ == self.entries@[k].word@
                        && location_views(entries@[k].locations@) == location_views(
                        self.entries@[k].locations@,
                    ),
            decreases n - i,
        {
            let entry = &self.entries[i];
            entries.push(
                WordEntry { word: entry.word.clone(), locations: copy_locations(&entry.locations) },
            );
            i += 1;
        }
        proof {
            let keep = |w: Seq<char>, l: Seq<LocationView>| l;
            lemma_changed_in_place(self.entries@, entries@, keep);
            lemma_model(entries@);
            assert(entries_model(entries@) =~= entries_model(self.entries@));
        }
        WordIndex { entries }
    }
}

} // verus!
