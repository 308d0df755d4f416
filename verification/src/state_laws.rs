//! What holds of the state when a document changes.

use vstd::prelude::*;
use vstd::utf8::{decode_utf8, valid_utf8};
use crate::document::{
    apply_changes, lemma_full_replacement_discards_earlier_changes, ChangeView,
};
use crate::index_laws::{
    lemma_edit_matches_rebuild, same_occurrences, uris_distinct, with_text,
};
use crate::paths::{file_of, path_starts_with};
use crate::state::{NotificationView, StateView};
use crate::word_index::{files_index, SourceFileView};

verus! {

/// The notification that the document `uri`, which the file store knows as
/// `file_id` and holds as `content`, changed by `changes`.
pub open spec fn did_change(
    uri: Seq<char>,
    file_id: u32,
    content: Seq<u8>,
    changes: Seq<ChangeView>,
) -> NotificationView {
    NotificationView::DidChangeTextDocument {
        uri,
        file_id: Some(file_id),
        content,
        content_changes: changes,
    }
}

/// A notification without changes succeeds and changes nothing: the text to
/// store is the text that the store holds, and the state stays as it is.
pub proof fn lemma_no_changes_change_nothing<D>(
    v: StateView<D>,
    uri: Seq<char>,
    file_id: u32,
    content: Seq<u8>,
)
    requires
        valid_utf8(content),
    ensures
        v.notification_error(did_change(uri, file_id, content, Seq::empty())) is None,
        v.notification_text(did_change(uri, file_id, content, Seq::empty())) == Some(
            decode_utf8(content),
        ),
        v.after_notification(did_change(uri, file_id, content, Seq::empty())) == v,
{
}

/// A change without a range discards what came before it: the notification
/// succeeds, and the text to store is what the later changes make of the
/// replacement text. Nothing of the stored text or of the earlier changes
/// shows in it.
pub proof fn lemma_full_replacement_in_a_notification<D>(
    v: StateView<D>,
    uri: Seq<char>,
    file_id: u32,
    content: Seq<u8>,
    earlier: Seq<ChangeView>,
    replacement: ChangeView,
    later: Seq<ChangeView>,
)
    requires
        valid_utf8(content),
        replacement.range is None,
    ensures
        v.notification_error(
            did_change(uri, file_id, content, earlier.push(replacement) + later),
        ) is None,
        v.notification_text(did_change(uri, file_id, content, earlier.push(replacement) + later))
            == Some(apply_changes(replacement.text, later)),
{
    lemma_full_replacement_discards_earlier_changes(
        decode_utf8(content),
        earlier,
        replacement,
        later,
    );
}

/// A change keeps the word indexes current. Let the index of a root above
/// the document hold the occurrences that a build over the root's files
/// would find, the document being one of the files with the text that the
/// store holds. Then the notification succeeds, and afterwards the index of
/// that root holds the occurrences that a build would find over the files
/// with the document's new text. Since this is what was asked of the index
/// before, it holds after every further change as well.
pub proof fn lemma_change_keeps_index_current<D>(
    v: StateView<D>,
    uri: Seq<char>,
    file_id: u32,
    content: Seq<u8>,
    changes: Seq<ChangeView>,
    r: int,
    files: Seq<SourceFileView>,
    k: int,
)
    requires
        valid_utf8(content),
        0 <= r < v.word_index_map.len(),
        path_starts_with(file_of(uri), v.word_index_map[r].root),
        uris_distinct(files),
        0 <= k < files.len(),
        files[k].uri == uri,
        files[k].text == decode_utf8(content),
        same_occurrences(v.word_index_map[r].index, files_index(files)),
    ensures
        v.notification_error(did_change(uri, file_id, content, changes)) is None,
        v.notification_text(did_change(uri, file_id, content, changes)) == Some(
            apply_changes(decode_utf8(content), changes),
        ),
        v.after_notification(did_change(uri, file_id, content, changes)).word_index_map.len()
            == v.word_index_map.len(),
        v.after_notification(did_change(uri, file_id, content, changes)).word_index_map[r].root
            == v.word_index_map[r].root,
        same_occurrences(
            v.after_notification(did_change(uri, file_id, content, changes)).word_index_map[r].index,
            files_index(with_text(files, k, apply_changes(decode_utf8(content), changes))),
        ),
{
    let old_text = decode_utf8(content);
    let new_text = apply_changes(old_text, changes);
    if changes.len() == 0 {
        assert(with_text(files, k, new_text) =~= files);
    } else {
        lemma_edit_matches_rebuild(v.word_index_map[r].index, files, k, new_text);
    }
}

} // verus!
