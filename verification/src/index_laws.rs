//! What holds of the word index under edits, renames and deletions.

use vstd::prelude::*;
use crate::locations::{
    lemma_outside_file_members, lemma_renamed_members, lemma_union_members, lemma_without_all,
    lemma_without_concat, lemma_without_members, lemma_without_strangers, moved, outside_file,
    renamed, union_of, without,
};
use crate::position::LocationView;
use crate::word_index::{
    content_index, files_index, index_add, index_of_lists, index_remove_file, index_rename_file,
    index_subtract, lemma_occurrences_origin, locations_of, occurrences, SourceFileView,
};
use crate::words::words_of;

verus! {

/// Whether two indexes list the same occurrences for every word, in whatever
/// order.
pub open spec fn same_occurrences(
    a: Map<Seq<char>, Seq<LocationView>>,
    b: Map<Seq<char>, Seq<LocationView>>,
) -> bool {
    forall|w: Seq<char>, l: LocationView|
        (#[trigger] locations_of(a, w).contains(l)) <==> (#[trigger] locations_of(b, w).contains(l))
}

/// Whether no two of the files share a URI.
pub open spec fn uris_distinct(files: Seq<SourceFileView>) -> bool {
    forall|i: int, j: int|
        0 <= i < j < files.len() ==> (#[trigger] files[i]).uri != (#[trigger] files[j]).uri
}

/// The index `m` after the file `uri` changed from `old_text` to `new_text`:
/// what the file held is taken out, what it holds now is put in.
pub open spec fn index_after_edit(
    m: Map<Seq<char>, Seq<LocationView>>,
    uri: Seq<char>,
    old_text: Seq<char>,
    new_text: Seq<char>,
) -> Map<Seq<char>, Seq<LocationView>> {
    index_add(index_subtract(m, content_index(old_text, uri)), content_index(new_text, uri))
}

/// The index `m` after the file `uri` went through the texts `texts` one
/// after the other, `texts[0]` being what it held when `m` was built.
pub open spec fn index_after_edits(
    m: Map<Seq<char>, Seq<LocationView>>,
    uri: Seq<char>,
    texts: Seq<Seq<char>>,
) -> Map<Seq<char>, Seq<LocationView>>
    decreases texts.len(),
{
    if texts.len() <= 1 {
        m
    } else {
        index_after_edit(
            index_after_edits(m, uri, texts.drop_last()),
            uri,
            texts[texts.len() - 2],
            texts.last(),
        )
    }
}

/// The files with the text of the `k`-th replaced.
pub open spec fn with_text(files: Seq<SourceFileView>, k: int, text: Seq<char>) -> Seq<
    SourceFileView,
> {
    files.update(k, SourceFileView { uri: files[k].uri, text })
}

/// An index made from lists holds for each word the list made for it.
pub proof fn lemma_index_of_lists(lists: spec_fn(Seq<char>) -> Seq<LocationView>, w: Seq<char>)
    ensures
        locations_of(index_of_lists(lists), w) == lists(w),
{
    if lists(w).len() == 0 {
        assert(lists(w) =~= Seq::<LocationView>::empty());
    }
}

/// Every occurrence in the index of one file lies in that file.
pub proof fn lemma_content_index_uri(text: Seq<char>, uri: Seq<char>, w: Seq<char>, l: LocationView)
    requires
        locations_of(content_index(text, uri), w).contains(l),
    ensures
        l.uri == uri,
{
    lemma_index_of_lists(|v: Seq<char>| occurrences(words_of(text), uri, v), w);
    let occ = occurrences(words_of(text), uri, w);
    let i = choose|i: int| 0 <= i < occ.len() && occ[i] == l;
    lemma_occurrences_origin(words_of(text), uri, w, i);
}

/// The index of a list of files holds an occurrence exactly where the index of
/// one of the files holds it.
pub proof fn lemma_files_index_members(files: Seq<SourceFileView>, w: Seq<char>, l: LocationView)
    ensures
        locations_of(files_index(files), w).contains(l) <==> exists|j: int|
            0 <= j < files.len() && locations_of(
                content_index((#[trigger] files[j]).text, files[j].uri),
                w,
            ).contains(l),
    decreases files.len(),
{
    if files.len() == 0 {
        assert(!locations_of(files_index(files), w).contains(l));
    } else {
        let front = files.drop_last();
        let last = files.last();
        let a = files_index(front);
        let b = content_index(last.text, last.uri);
        lemma_files_index_members(front, w, l);
        lemma_index_of_lists(|v: Seq<char>| union_of(locations_of(a, v), locations_of(b, v)), w);
        lemma_union_members(locations_of(a, w), locations_of(b, w));
        if locations_of(a, w).contains(l) {
            let j = choose|j: int|
                0 <= j < front.len() && locations_of(
                    content_index((#[trigger] front[j]).text, front[j].uri),
                    w,
                ).contains(l);
            assert(files[j] == front[j]);
        }
        if locations_of(b, w).contains(l) {
            assert(files[files.len() - 1] == last);
        }
        if exists|j: int|
            0 <= j < files.len() && locations_of(
                content_index((#[trigger] files[j]).text, files[j].uri),
                w,
            ).contains(l) {
            let j = choose|j: int|
                0 <= j < files.len() && locations_of(
                    content_index((#[trigger] files[j]).text, files[j].uri),
                    w,
                ).contains(l);
            if j < front.len() {
                assert(front[j] == files[j]);
            }
        }
    }
}

/// After a file was deleted from the index, no word is found in that file;
/// what was found in other files still is, and nothing else.
pub proof fn lemma_delete_purges(m: Map<Seq<char>, Seq<LocationView>>, uri: Seq<char>)
    ensures
        forall|w: Seq<char>, l: LocationView| #[trigger]
            locations_of(index_remove_file(m, uri), w).contains(l) <==> locations_of(m, w).contains(l)
                && l.uri != uri,
{
    assert forall|w: Seq<char>, l: LocationView| #[trigger]
        locations_of(index_remove_file(m, uri), w).contains(l) <==> locations_of(m, w).contains(l)
            && l.uri != uri by {
        lemma_index_of_lists(|v: Seq<char>| outside_file(locations_of(m, v), uri), w);
        lemma_outside_file_members(locations_of(m, w), uri);
    }
}

/// After a file was renamed, every word found in it before is found at the
/// same range under the new URI, what was found in other files still is, and
/// nothing is found under the old URI, unless the two URIs are one.
pub proof fn lemma_rename_preserves_lookups(
    m: Map<Seq<char>, Seq<LocationView>>,
    old_uri: Seq<char>,
    new_uri: Seq<char>,
)
    ensures
        forall|w: Seq<char>, l: LocationView|
            #![trigger locations_of(m, w).contains(l)]
            locations_of(m, w).contains(l) ==> locations_of(
                index_rename_file(m, old_uri, new_uri),
                w,
            ).contains(moved(l, old_uri, new_uri)),
        forall|w: Seq<char>, l: LocationView| #[trigger]
            locations_of(index_rename_file(m, old_uri, new_uri), w).contains(l) ==> exists|
                k: LocationView,
            |
                #[trigger] locations_of(m, w).contains(k) && moved(k, old_uri, new_uri) == l,
        old_uri != new_uri ==> forall|w: Seq<char>, l: LocationView| #[trigger]
            locations_of(index_rename_file(m, old_uri, new_uri), w).contains(l) ==> l.uri
                != old_uri,
{
    assert forall|w: Seq<char>, l: LocationView|
        #![trigger locations_of(m, w).contains(l)]
        locations_of(m, w).contains(l) implies locations_of(
            index_rename_file(m, old_uri, new_uri),
            w,
        ).contains(moved(l, old_uri, new_uri)) by {
        lemma_index_of_lists(|v: Seq<char>| renamed(locations_of(m, v), old_uri, new_uri), w);
        lemma_renamed_members(locations_of(m, w), old_uri, new_uri);
        let s = locations_of(m, w);
        let i = choose|i: int| 0 <= i < s.len() && s[i] == l;
        assert(moved(s[i], old_uri, new_uri) == moved(l, old_uri, new_uri));
    }
    assert forall|w: Seq<char>, l: LocationView| #[trigger]
        locations_of(index_rename_file(m, old_uri, new_uri), w).contains(l) implies (exists|
        k: LocationView,
    |
        #[trigger] locations_of(m, w).contains(k) && moved(k, old_uri, new_uri) == l) && (old_uri
        != new_uri ==> l.uri != old_uri) by {
        lemma_index_of_lists(|v: Seq<char>| renamed(locations_of(m, v), old_uri, new_uri), w);
        lemma_renamed_members(locations_of(m, w), old_uri, new_uri);
        let s = locations_of(m, w);
        let i = choose|i: int| 0 <= i < s.len() && moved(#[trigger] s[i], old_uri, new_uri) == l;
        assert(s.contains(s[i]));
    }
}

/// Taking out what a file held and putting in what it holds now leaves the
/// index with the occurrences that a new build over all the files would find.
pub proof fn lemma_edit_matches_rebuild(
    m: Map<Seq<char>, Seq<LocationView>>,
    files: Seq<SourceFileView>,
    k: int,
    new_text: Seq<char>,
)
    requires
        uris_distinct(files),
        0 <= k < files.len(),
        same_occurrences(m, files_index(files)),
    ensures
        same_occurrences(
            index_after_edit(m, files[k].uri, files[k].text, new_text),
            files_index(with_text(files, k, new_text)),
        ),
{
    let uri = files[k].uri;
    let old_part = content_index(files[k].text, uri);
    let new_part = content_index(new_text, uri);
    let taken = index_subtract(m, old_part);
    let edited = index_after_edit(m, uri, files[k].text, new_text);
    let after = with_text(files, k, new_text);
    assert forall|w: Seq<char>, l: LocationView|
        (#[trigger] locations_of(edited, w).contains(l)) <==> (#[trigger] locations_of(
            files_index(after),
            w,
        ).contains(l)) by {
        lemma_index_of_lists(
            |v: Seq<char>| union_of(locations_of(taken, v), locations_of(new_part, v)),
            w,
        );
        lemma_union_members(locations_of(taken, w), locations_of(new_part, w));
        lemma_index_of_lists(
            |v: Seq<char>| without(locations_of(m, v), locations_of(old_part, v)),
            w,
        );
        lemma_without_members(locations_of(m, w), locations_of(old_part, w));
        lemma_files_index_members(files, w, l);
        lemma_files_index_members(after, w, l);
        assert(locations_of(m, w).contains(l) <==> locations_of(files_index(files), w).contains(l));
        if locations_of(edited, w).contains(l) {
            if locations_of(new_part, w).contains(l) {
                assert(after[k].text == new_text && after[k].uri == uri);
            } else {
                let j = choose|j: int|
                    0 <= j < files.len() && locations_of(
                        content_index((#[trigger] files[j]).text, files[j].uri),
                        w,
                    ).contains(l);
                assert(j != k);
                assert(after[j] == files[j]);
            }
        }
        if locations_of(files_index(after), w).contains(l) {
            let j = choose|j: int|
                0 <= j < after.len() && locations_of(
                    content_index((#[trigger] after[j]).text, after[j].uri),
                    w,
                ).contains(l);
            if j != k {
                assert(after[j] == files[j]);
                lemma_content_index_uri(files[j].text, files[j].uri, w, l);
                if locations_of(old_part, w).contains(l) {
                    lemma_content_index_uri(files[k].text, uri, w, l);
                    if j < k {
                        assert(files[j].uri != files[k].uri);
                    } else {
                        assert(files[k].uri != files[j].uri);
                    }
                }
            }
        }
    }
}

/// However often a file is edited, updating the index edit by edit leaves it
/// with the occurrences that a new build over the final texts would find.
pub proof fn lemma_edits_match_rebuild(
    m: Map<Seq<char>, Seq<LocationView>>,
    files: Seq<SourceFileView>,
    k: int,
    texts: Seq<Seq<char>>,
)
    requires
        uris_distinct(files),
        0 <= k < files.len(),
        texts.len() > 0,
        texts[0] == files[k].text,
        same_occurrences(m, files_index(files)),
    ensures
        same_occurrences(
            index_after_edits(m, files[k].uri, texts),
            files_index(with_text(files, k, texts.last())),
        ),
    decreases texts.len(),
{
    if texts.len() == 1 {
        assert(with_text(files, k, texts.last()) =~= files);
    } else {
        let earlier = texts.drop_last();
        lemma_edits_match_rebuild(m, files, k, earlier);
        let mid = with_text(files, k, earlier.last());
        assert(earlier.last() == texts[texts.len() - 2]);
        assert(uris_distinct(mid)) by {
            assert forall|i: int, j: int| 0 <= i < j < mid.len() implies (#[trigger] mid[i]).uri != (
            #[trigger] mid[j]).uri by {
                assert(mid[i].uri == files[i].uri);
                assert(mid[j].uri == files[j].uri);
            }
        }
        lemma_edit_matches_rebuild(
            index_after_edits(m, files[k].uri, earlier),
            mid,
            k,
            texts.last(),
        );
        assert(with_text(mid, k, texts.last()) =~= with_text(files, k, texts.last()));
    }
}

/// Where the edited file is the last of the files, updating the index gives
/// the very index that a new build gives, order and all.
pub proof fn lemma_edit_of_last_file_equals_rebuild(files: Seq<SourceFileView>, new_text: Seq<char>)
    requires
        files.len() > 0,
        uris_distinct(files),
    ensures
        index_after_edit(files_index(files), files.last().uri, files.last().text, new_text)
            == files_index(with_text(files, files.len() - 1, new_text)),
{
    let k = files.len() - 1;
    let uri = files.last().uri;
    let front = files.drop_last();
    let base = files_index(front);
    let old_part = content_index(files.last().text, uri);
    let new_part = content_index(new_text, uri);
    let after = with_text(files, k, new_text);
    assert(after.drop_last() =~= front);
    assert(after.last().uri == uri && after.last().text == new_text);
    let built = index_add(base, old_part);
    let taken = index_subtract(built, old_part);
    let edited = index_add(taken, new_part);
    let rebuilt = index_add(base, new_part);
    assert forall|w: Seq<char>| #[trigger]
        locations_of(taken, w) == locations_of(base, w) by {
        let f = locations_of(base, w);
        let o = locations_of(old_part, w);
        assert forall|x: LocationView| f.contains(x) implies !o.contains(x) by {
            lemma_files_index_members(front, w, x);
            let j = choose|j: int|
                0 <= j < front.len() && locations_of(
                    content_index((#[trigger] front[j]).text, front[j].uri),
                    w,
                ).contains(x);
            lemma_content_index_uri(front[j].text, front[j].uri, w, x);
            assert(front[j] == files[j]);
            assert(files[j].uri != files[k].uri);
            if o.contains(x) {
                lemma_content_index_uri(files.last().text, uri, w, x);
            }
        }
        assert forall|x: LocationView| o.contains(x) implies !f.contains(x) by {
            if f.contains(x) {
                assert(!o.contains(x));
            }
        }
        lemma_index_of_lists(|v: Seq<char>| union_of(locations_of(base, v), locations_of(old_part, v)), w);
        lemma_without_strangers(o, f);
        assert(locations_of(built, w) == f + o);
        lemma_index_of_lists(|v: Seq<char>| without(locations_of(built, v), locations_of(old_part, v)), w);
        lemma_without_concat(f, o, o);
        lemma_without_strangers(f, o);
        lemma_without_all(o, o);
        assert(f + Seq::<LocationView>::empty() =~= f);
    }
    assert forall|w: Seq<char>| #[trigger]
        locations_of(edited, w) == locations_of(rebuilt, w) by {
        lemma_index_of_lists(|v: Seq<char>| union_of(locations_of(taken, v), locations_of(new_part, v)), w);
        lemma_index_of_lists(|v: Seq<char>| union_of(locations_of(base, v), locations_of(new_part, v)), w);
        assert(locations_of(taken, w) == locations_of(base, w));
    }
    assert(edited =~= rebuilt) by {
        assert forall|w: Seq<char>| edited.dom().contains(w) == rebuilt.dom().contains(w) by {
            assert(locations_of(edited, w) == locations_of(rebuilt, w));
            assert(locations_of(taken, w) == locations_of(base, w));
        }
        assert forall|w: Seq<char>| edited.dom().contains(w) implies edited[w] == rebuilt[w] by {
            assert(locations_of(edited, w) == locations_of(rebuilt, w));
            assert(locations_of(taken, w) == locations_of(base, w));
        }
    }
}

} // verus!
