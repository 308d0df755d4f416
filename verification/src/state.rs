//! The state of the language server and what each event does to it.
//!
//! One thread owns the state and handles the events one at a time. What has
//! to be done outside (sending, reading and writing files, compiling) is not
//! done here: each handler takes what was read as plain values and says in
//! its result what is to be sent or written.

use vstd::prelude::*;
use indexmap::IndexSet;
use lsp_server::ReqQueue;
use std::collections::hash_map::RandomState;
use crate::analysis::Analysis;
use crate::chars::{same_text, string_from_utf8};
use crate::document::{
    apply_changes, apply_document_changes, change_views, ChangeView, TextDocumentContentChangeEvent,
};
use crate::opened_files::{members, new_set, swap_removed};
use crate::request_queue::{
    complete, new_queue, no_requests, pending, register, PendingRequest, PendingRequestView,
    RequestId, RequestIdView,
};
use crate::workspace::{
    roots_after_delete, roots_after_edit, roots_after_rename, RootIndexView, WordIndexMap,
};

verus! {

/// The error code of a request that cannot be served now.
pub const INVALID_REQUEST: i32 = -32600;

/// The error code of a request whose method is not known.
pub const METHOD_NOT_FOUND: i32 = -32601;

/// The requests that the server serves.
#[derive(Clone, Copy, Debug, PartialEq, Eq, Structural)]
pub enum RequestKind {
    Shutdown,
    GotoDefinition,
    References,
    Completion,
    Hover,
    DocumentSymbol,
    CodeAction,
    Formatting,
    RangeFormatting,
}

/// The kind of request that `method` names.
pub open spec fn request_kind_of(method: Seq<char>) -> Option<RequestKind> {
    if method == "shutdown"@ {
        Some(RequestKind::Shutdown)
    } else if method == "textDocument/definition"@ {
        Some(RequestKind::GotoDefinition)
    } else if method == "textDocument/references"@ {
        Some(RequestKind::References)
    } else if method == "textDocument/completion"@ {
        Some(RequestKind::Completion)
    } else if method == "textDocument/hover"@ {
        Some(RequestKind::Hover)
    } else if method == "textDocument/documentSymbol"@ {
        Some(RequestKind::DocumentSymbol)
    } else if method == "textDocument/codeAction"@ {
        Some(RequestKind::CodeAction)
    } else if method == "textDocument/formatting"@ {
        Some(RequestKind::Formatting)
    } else if method == "textDocument/rangeFormatting"@ {
        Some(RequestKind::RangeFormatting)
    } else {
        None
    }
}

/// The kind of request that `method` names.
pub fn request_kind(method: &str) -> (kind: Option<RequestKind>)
    ensures
        kind == request_kind_of(method@),
{
    if same_text(method, "shutdown") {
        Some(RequestKind::Shutdown)
    } else if same_text(method, "textDocument/definition") {
        Some(RequestKind::GotoDefinition)
    } else if same_text(method, "textDocument/references") {
        Some(RequestKind::References)
    } else if same_text(method, "textDocument/completion") {
        Some(RequestKind::Completion)
    } else if same_text(method, "textDocument/hover") {
        Some(RequestKind::Hover)
    } else if same_text(method, "textDocument/documentSymbol") {
        Some(RequestKind::DocumentSymbol)
    } else if same_text(method, "textDocument/codeAction") {
        Some(RequestKind::CodeAction)
    } else if same_text(method, "textDocument/formatting") {
        Some(RequestKind::Formatting)
    } else if same_text(method, "textDocument/rangeFormatting") {
        Some(RequestKind::RangeFormatting)
    } else {
        None
    }
}

/// The message logged when a query of the given kind about `file` finds
/// nothing, for the kinds of query that look something up.
pub open spec fn miss_message(kind: RequestKind, file: Seq<char>) -> Option<Seq<char>> {
    match kind {
        RequestKind::GotoDefinition => Some("Definition item not found"@),
        RequestKind::References => Some("Reference item not found"@),
        RequestKind::Completion => Some("Completion item not found"@),
        RequestKind::Hover => Some("Hover definition not found"@),
        RequestKind::DocumentSymbol => Some("File "@ + file + " Document symbol not found"@),
        _ => None,
    }
}

/// The message to log after a query of the given kind about `file`: none
/// where the query found something, and the miss where it found nothing and
/// is of a kind that looks something up. A miss is no error: the query is
/// answered with an empty result all the same.
pub fn lookup_miss(kind: RequestKind, found: bool, file: &str) -> (log: Option<String>)
    ensures
        match log {
            Some(message) => !found && miss_message(kind, file@) == Some(message@),
            None => found || miss_message(kind, file@) is None,
        },
{
    if found {
        return None;
    }
    match kind {
        RequestKind::GotoDefinition => Some(String::from_str("Definition item not found")),
        RequestKind::References => Some(String::from_str("Reference item not found")),
        RequestKind::Completion => Some(String::from_str("Completion item not found")),
        RequestKind::Hover => Some(String::from_str("Hover definition not found")),
        RequestKind::DocumentSymbol => {
            let mut message = String::from_str("File ");
            message.append(file);
            message.append(" Document symbol not found");
            Some(message)
        },
        _ => None,
    }
}

/// The notifications that the server takes.
#[derive(Clone, Copy, Debug, PartialEq, Eq, Structural)]
pub enum NotificationKind {
    DidOpenTextDocument,
    DidChangeTextDocument,
    DidSaveTextDocument,
    DidCloseTextDocument,
    DidChangeWatchedFiles,
    DidRenameFiles,
    DidDeleteFiles,
    Exit,
}

/// The kind of notification that `method` names.
pub open spec fn notification_kind_of(method: Seq<char>) -> Option<NotificationKind> {
    if method == "textDocument/didOpen"@ {
        Some(NotificationKind::DidOpenTextDocument)
    } else if method == "textDocument/didChange"@ {
        Some(NotificationKind::DidChangeTextDocument)
    } else if method == "textDocument/didSave"@ {
        Some(NotificationKind::DidSaveTextDocument)
    } else if method == "textDocument/didClose"@ {
        Some(NotificationKind::DidCloseTextDocument)
    } else if method == "workspace/didChangeWatchedFiles"@ {
        Some(NotificationKind::DidChangeWatchedFiles)
    } else if method == "workspace/didRenameFiles"@ {
        Some(NotificationKind::DidRenameFiles)
    } else if method == "workspace/didDeleteFiles"@ {
        Some(NotificationKind::DidDeleteFiles)
    } else if method == "exit"@ {
        Some(NotificationKind::Exit)
    } else {
        None
    }
}

/// The kind of notification that `method` names.
pub fn notification_kind(method: &str) -> (kind: Option<NotificationKind>)
    ensures
        kind == notification_kind_of(method@),
{
    if same_text(method, "textDocument/didOpen") {
        Some(NotificationKind::DidOpenTextDocument)
    } else if same_text(method, "textDocument/didChange") {
        Some(NotificationKind::DidChangeTextDocument)
    } else if same_text(method, "textDocument/didSave") {
        Some(NotificationKind::DidSaveTextDocument)
    } else if same_text(method, "textDocument/didClose") {
        Some(NotificationKind::DidCloseTextDocument)
    } else if same_text(method, "workspace/didChangeWatchedFiles") {
        Some(NotificationKind::DidChangeWatchedFiles)
    } else if same_text(method, "workspace/didRenameFiles") {
        Some(NotificationKind::DidRenameFiles)
    } else if same_text(method, "workspace/didDeleteFiles") {
        Some(NotificationKind::DidDeleteFiles)
    } else if same_text(method, "exit") {
        Some(NotificationKind::Exit)
    } else {
        None
    }
}

/// What is to be done about a request.
#[derive(Clone, Debug, PartialEq, Eq)]
pub enum RequestOutcome {
    /// Answer at once with this error.
    Reject { code: i32, message: String },
    /// The client asked the server to shut down: answer with an empty result.
    ShutDown,
    /// Hand the request with a snapshot to the handler for requests of this
    /// kind. The request stays pending until its answer is sent.
    Dispatch { kind: RequestKind },
}

/// What a `RequestOutcome` stands for in contracts.
pub enum RequestOutcomeView {
    Reject { code: i32, message: Seq<char> },
    ShutDown,
    Dispatch { kind: RequestKind },
}

impl View for RequestOutcome {
    type V = RequestOutcomeView;

    open spec fn view(&self) -> RequestOutcomeView {
        match self {
            RequestOutcome::Reject { code, message } => RequestOutcomeView::Reject {
                code: *code,
                message: message@,
            },
            RequestOutcome::ShutDown => RequestOutcomeView::ShutDown,
            RequestOutcome::Dispatch { kind } => RequestOutcomeView::Dispatch { kind: *kind },
        }
    }
}

/// What is to be done about a request for `method`, given whether a shutdown
/// was requested before.
pub open spec fn request_outcome(shutdown_requested: bool, method: Seq<char>) -> RequestOutcomeView {
    if shutdown_requested {
        RequestOutcomeView::Reject { code: INVALID_REQUEST, message: "shutdown was requested"@ }
    } else {
        match request_kind_of(method) {
            Some(RequestKind::Shutdown) => RequestOutcomeView::ShutDown,
            Some(kind) => RequestOutcomeView::Dispatch { kind },
            None => RequestOutcomeView::Reject {
                code: METHOD_NOT_FOUND,
                message: "unknown request"@,
            },
        }
    }
}

/// One file that was renamed.
#[derive(Clone, Debug, PartialEq, Eq)]
pub struct FileRename {
    pub old_uri: String,
    pub new_uri: String,
}

/// What a `FileRename` stands for in contracts.
pub struct FileRenameView {
    pub old_uri: Seq<char>,
    pub new_uri: Seq<char>,
}

impl View for FileRename {
    type V = FileRenameView;

    open spec fn view(&self) -> FileRenameView {
        FileRenameView { old_uri: self.old_uri@, new_uri: self.new_uri@ }
    }
}

/// A notification with what its handler needs.
#[derive(Clone, Debug, PartialEq, Eq)]
pub enum Notification {
    /// A document was opened and its text stored; `file_id` is the identity
    /// that the file store has for it then.
    DidOpenTextDocument { file_id: Option<u32> },
    /// A document changed. `file_id` is its identity in the file store and
    /// `content` what the store holds for it.
    DidChangeTextDocument {
        uri: String,
        file_id: Option<u32>,
        content: Vec<u8>,
        content_changes: Vec<TextDocumentContentChangeEvent>,
    },
    DidSaveTextDocument,
    /// A document was closed; `file_id` is its identity in the file store.
    DidCloseTextDocument { file_id: Option<u32> },
    DidChangeWatchedFiles,
    DidRenameFiles { renames: Vec<FileRename> },
    /// Files were deleted; `files` holds their URIs.
    DidDeleteFiles { files: Vec<String> },
    Exit,
}

/// What a `Notification` stands for in contracts.
pub enum NotificationView {
    DidOpenTextDocument { file_id: Option<u32> },
    DidChangeTextDocument {
        uri: Seq<char>,
        file_id: Option<u32>,
        content: Seq<u8>,
        content_changes: Seq<ChangeView>,
    },
    DidSaveTextDocument,
    DidCloseTextDocument { file_id: Option<u32> },
    DidChangeWatchedFiles,
    DidRenameFiles { renames: Seq<FileRenameView> },
    DidDeleteFiles { files: Seq<Seq<char>> },
    Exit,
}

impl View for Notification {
    type V = NotificationView;

    open spec fn view(&self) -> NotificationView {
        match self {
            Notification::DidOpenTextDocument { file_id } => NotificationView::DidOpenTextDocument {
                file_id: *file_id,
            },
            Notification::DidChangeTextDocument { uri, file_id, content, content_changes } =>
                NotificationView::DidChangeTextDocument {
                uri: uri@,
                file_id: *file_id,
                content: content@,
                content_changes: change_views(content_changes@),
            },
            Notification::DidSaveTextDocument => NotificationView::DidSaveTextDocument,
            Notification::DidCloseTextDocument { file_id } =>
                NotificationView::DidCloseTextDocument { file_id: *file_id },
            Notification::DidChangeWatchedFiles => NotificationView::DidChangeWatchedFiles,
            Notification::DidRenameFiles { renames } => NotificationView::DidRenameFiles {
                renames: renames@.map_values(|f: FileRename| f@),
            },
            Notification::DidDeleteFiles { files } => NotificationView::DidDeleteFiles {
                files: files@.map_values(|f: String| f@),
            },
            Notification::Exit => NotificationView::Exit,
        }
    }
}

/// Why a handler could not do its work.
#[derive(Clone, Copy, Debug, PartialEq, Eq, Structural)]
pub enum ServerError {
    /// The file store has no identity for the document.
    MissingFileId,
    /// What the file store holds for the document is no valid UTF-8.
    InvalidUtf8,
}

impl ServerError {
    /// The error in words.
    pub fn message(&self) -> (text: String)
        ensures
            text@ == match self {
                ServerError::MissingFileId => "Already checked that the file_id exists!"@,
                ServerError::InvalidUtf8 => "invalid utf-8 sequence"@,
            },
    {
        match self {
            ServerError::MissingFileId => String::from_str(
                "Already checked that the file_id exists!",
            ),
            ServerError::InvalidUtf8 => String::from_str("invalid utf-8 sequence"),
        }
    }
}

/// The opened files after `id` was opened.
pub open spec fn opened_after_open(opened: Seq<u32>, id: u32) -> Seq<u32> {
    if opened.contains(id) {
        opened
    } else {
        opened.push(id)
    }
}

/// The opened files after `id` was closed: the last one moves into its place.
pub open spec fn opened_after_close(opened: Seq<u32>, id: u32) -> Seq<u32> {
    if opened.contains(id) {
        swap_removed(opened, opened.index_of(id))
    } else {
        opened
    }
}

/// The roots after the files were renamed, one after the other.
pub open spec fn roots_after_renames(roots: Seq<RootIndexView>, files: Seq<FileRenameView>) -> Seq<
    RootIndexView,
>
    decreases files.len(),
{
    if files.len() == 0 {
        roots
    } else {
        roots_after_rename(
            roots_after_renames(roots, files.drop_last()),
            files.last().old_uri,
            files.last().new_uri,
        )
    }
}

/// The roots after the files were deleted, one after the other.
pub open spec fn roots_after_deletes(roots: Seq<RootIndexView>, files: Seq<Seq<char>>) -> Seq<
    RootIndexView,
>
    decreases files.len(),
{
    if files.len() == 0 {
        roots
    } else {
        roots_after_delete(roots_after_deletes(roots, files.drop_last()), files.last())
    }
}

/// Why changes to a document cannot be applied, if they cannot: the file
/// store does not know the document, or what it holds for it is no text.
pub open spec fn change_error(file_id: Option<u32>, content: Seq<u8>) -> Option<ServerError> {
    if file_id is None {
        Some(ServerError::MissingFileId)
    } else if !vstd::utf8::valid_utf8(content) {
        Some(ServerError::InvalidUtf8)
    } else {
        None
    }
}

/// The roots after the changes were applied to the document `uri`, which
/// held `old_text`. A notification without changes leaves the roots as they
/// are.
pub open spec fn roots_after_changes(
    roots: Seq<RootIndexView>,
    uri: Seq<char>,
    old_text: Seq<char>,
    changes: Seq<ChangeView>,
) -> Seq<RootIndexView> {
    if changes.len() == 0 {
        roots
    } else {
        roots_after_edit(roots, uri, old_text, apply_changes(old_text, changes))
    }
}

/// The state of the server as contracts see it.
pub struct StateView<D> {
    pub pending: Map<RequestIdView, PendingRequestView>,
    pub shutdown_requested: bool,
    pub analysis: Map<u32, D>,
    pub opened_files: Seq<u32>,
    pub word_index_map: Seq<RootIndexView>,
}

impl<D> StateView<D> {
    /// Why the handler of the notification fails, if it does.
    pub open spec fn notification_error(self, n: NotificationView) -> Option<ServerError> {
        match n {
            NotificationView::DidChangeTextDocument { uri, file_id, content, content_changes } =>
                change_error(file_id, content),
            _ => None,
        }
    }

    /// The text to store after the notification, where there is one.
    pub open spec fn notification_text(self, n: NotificationView) -> Option<Seq<char>> {
        match n {
            NotificationView::DidChangeTextDocument { uri, file_id, content, content_changes } =>
                if change_error(file_id, content) is None {
                    Some(apply_changes(vstd::utf8::decode_utf8(content), content_changes))
                } else {
                    None
                },
            _ => None,
        }
    }

    /// The state after the notification was handled. A handler that fails
    /// leaves the state as it was.
    pub open spec fn after_notification(self, n: NotificationView) -> StateView<D> {
        match n {
            NotificationView::DidOpenTextDocument { file_id: Some(id) } => StateView {
                opened_files: opened_after_open(self.opened_files, id),
                ..self
            },
            NotificationView::DidCloseTextDocument { file_id: Some(id) } => StateView {
                opened_files: opened_after_close(self.opened_files, id),
                ..self
            },
            NotificationView::DidChangeTextDocument { uri, file_id, content, content_changes } =>
                if change_error(file_id, content) is None {
                    StateView {
                        word_index_map: roots_after_changes(
                            self.word_index_map,
                            uri,
                            vstd::utf8::decode_utf8(content),
                            content_changes,
                        ),
                        ..self
                    }
                } else {
                    self
                },
            NotificationView::DidRenameFiles { renames } => StateView {
                word_index_map: roots_after_renames(self.word_index_map, renames),
                ..self
            },
            NotificationView::DidDeleteFiles { files } => StateView {
                word_index_map: roots_after_deletes(self.word_index_map, files),
                ..self
            },
            _ => self,
        }
    }

    /// The state after a request for `method` arrived under `id` at the time
    /// `received`: a request that is handed on stays pending, any other is
    /// answered at once and is not pending; a request to shut down is
    /// remembered.
    pub open spec fn after_request(
        self,
        id: RequestIdView,
        method: Seq<char>,
        received: u64,
    ) -> StateView<D> {
        let outcome = request_outcome(self.shutdown_requested, method);
        StateView {
            pending: if outcome is Dispatch {
                self.pending.insert(id, PendingRequestView { method, received })
            } else {
                self.pending.remove(id)
            },
            shutdown_requested: self.shutdown_requested || outcome is ShutDown,
            ..self
        }
    }
}

/// The state of the language server.
pub struct LanguageServerState<D> {
    /// The requests that were received and not answered yet.
    pub request_queue: ReqQueue<PendingRequest, String>,
    /// Whether the client asked the server to shut down.
    pub shutdown_requested: bool,
    /// What the last compilation of each file produced.
    pub analysis: Analysis<D>,
    /// The files that are open in the editor.
    pub opened_files: IndexSet<u32, RandomState>,
    /// The word index of each package root that was asked for.
    pub word_index_map: WordIndexMap,
}

impl<D> View for LanguageServerState<D> {
    type V = StateView<D>;

    open spec fn view(&self) -> StateView<D> {
        StateView {
            pending: pending(self.request_queue),
            shutdown_requested: self.shutdown_requested,
            analysis: self.analysis@,
            opened_files: members(self.opened_files),
            word_index_map: self.word_index_map@,
        }
    }
}

impl<D> LanguageServerState<D> {
    /// The state of a server that has seen no event.
    pub fn new() -> (state: LanguageServerState<D>)
        ensures
            state@ == (StateView::<D> {
                pending: no_requests(),
                shutdown_requested: false,
                analysis: Map::empty(),
                opened_files: Seq::empty(),
                word_index_map: Seq::empty(),
            }),
    {
        LanguageServerState {
            request_queue: new_queue(),
            shutdown_requested: false,
            analysis: Analysis::new(),
            opened_files: new_set(),
            word_index_map: WordIndexMap::new(),
        }
    }

    /// Records that a request for `method` arrived under `id` at the time
    /// `request_received`.
    pub fn register_request(&mut self, id: &RequestId, method: String, request_received: u64)
        ensures
            final(self)@ == (StateView {
                pending: old(self)@.pending.insert(
                    id@,
                    PendingRequestView { method: method@, received: request_received },
                ),
                ..old(self)@
            }),
    {
        register(
            &mut self.request_queue,
            id,
            PendingRequest { method, received: request_received },
        );
    }

    /// Marks the request `id` as answered. The answer is to be sent where the
    /// request was pending: then what was recorded of it is returned.
    pub fn respond(&mut self, id: &RequestId) -> (r: Option<PendingRequest>)
        ensures
            r is Some == old(self)@.pending.contains_key(id@),
            r is Some ==> r->0@ == old(self)@.pending[id@],
            final(self)@ == (StateView { pending: old(self)@.pending.remove(id@), ..old(self)@ }),
    {
        complete(&mut self.request_queue, id)
    }

    /// Takes a request: records it and says what is to be done about it.
    /// After a shutdown was requested every request is rejected.
    pub fn on_request(&mut self, id: &RequestId, method: &str, request_received: u64) -> (outcome:
        RequestOutcome)
        ensures
            outcome@ == request_outcome(old(self)@.shutdown_requested, method@),
            final(self)@ == old(self)@.after_request(id@, method@, request_received),
    {
        let ghost before = self@;
        self.register_request(id, String::from_str(method), request_received);
        if self.shutdown_requested {
            let _ = self.respond(id);
            assert(self@.pending =~= before.pending.remove(id@));
            return RequestOutcome::Reject {
                code: INVALID_REQUEST,
                message: String::from_str("shutdown was requested"),
            };
        }
        match request_kind(method) {
            Some(RequestKind::Shutdown) => {
                self.shutdown_requested = true;
                let _ = self.respond(id);
                assert(self@.pending =~= before.pending.remove(id@));
                RequestOutcome::ShutDown
            },
            Some(kind) => RequestOutcome::Dispatch { kind },
            None => {
                let _ = self.respond(id);
                assert(self@.pending =~= before.pending.remove(id@));
                RequestOutcome::Reject {
                    code: METHOD_NOT_FOUND,
                    message: String::from_str("unknown request"),
                }
            },
        }
    }

    /// A document was opened: it is among the opened files from now on.
    pub fn on_did_open_text_document(&mut self, file_id: Option<u32>)
        ensures
            final(self)@ == old(self)@.after_notification(
                NotificationView::DidOpenTextDocument { file_id },
            ),
    {
        match file_id {
            Some(id) => {
                crate::opened_files::insert(&mut self.opened_files, id);
            },
            None => {},
        }
    }

    /// A document was closed: it is no longer among the opened files.
    pub fn on_did_close_text_document(&mut self, file_id: Option<u32>)
        ensures
            final(self)@ == old(self)@.after_notification(
                NotificationView::DidCloseTextDocument { file_id },
            ),
    {
        match file_id {
            Some(id) => {
                crate::opened_files::remove(&mut self.opened_files, id);
            },
            None => {},
        }
    }

    /// A document changed: the changes are applied to what the file store
    /// holds for it, and the word indexes are brought up to date. Returns the
    /// text to store. Without changes the text is the one that the store
    /// holds, and the indexes stay as they are.
    pub fn on_did_change_text_document(
        &mut self,
        uri: &str,
        file_id: Option<u32>,
        content: Vec<u8>,
        content_changes: Vec<TextDocumentContentChangeEvent>,
    ) -> (r: Result<String, ServerError>)
        ensures
            match r {
                Ok(text) => change_error(file_id, content@) is None
                    && text@ == apply_changes(
                    vstd::utf8::decode_utf8(content@),
                    change_views(content_changes@),
                ),
                Err(e) => change_error(file_id, content@) == Some(
                    e,
                ),
            },
            final(self)@ == old(self)@.after_notification(
                NotificationView::DidChangeTextDocument {
                    uri: uri@,
                    file_id,
                    content: content@,
                    content_changes: change_views(content_changes@),
                },
            ),
    {
        if file_id.is_none() {
            return Err(ServerError::MissingFileId);
        }
        let old_text = match string_from_utf8(content) {
            Some(text) => text,
            None => { return Err(ServerError::InvalidUtf8); },
        };
        if content_changes.len() == 0 {
            return Ok(old_text);
        }
        let mut text = old_text.clone();
        apply_document_changes(&mut text, content_changes);
        self.word_index_map.update_file(uri, old_text.as_str(), text.as_str());
        Ok(text)
    }

    /// Files were renamed: their occurrences move to the new URIs.
    pub fn on_did_rename_files(&mut self, files: &Vec<FileRename>)
        ensures
            final(self)@ == old(self)@.after_notification(
                NotificationView::DidRenameFiles { renames: files@.map_values(|f: FileRename| f@) },
            ),
    {
        let ghost before = self@;
        let ghost views = files@.map_values(|f: FileRename| f@);
        let n = files.len();
        let mut i: usize = 0;
        while i < n
            invariant
                n == files.len(),
                i <= n,
                views == files@.map_values(|f: FileRename| f@),
                self@ == (StateView {
                    word_index_map: roots_after_renames(
                        before.word_index_map,
                        views.take(i as int),
                    ),
                    ..before
                }),
            decreases n - i,
        {
            proof {
                assert(views.take(i as int + 1).drop_last() == views.take(i as int));
                assert(views.take(i as int + 1).last() == files@[i as int]@);
            }
            self.word_index_map.rename_file(files[i].old_uri.as_str(), files[i].new_uri.as_str());
            i += 1;
        }
        proof {
            assert(views.take(n as int) == views);
        }
    }

    /// Files were deleted: their occurrences leave the word indexes.
    pub fn on_did_delete_files(&mut self, files: &Vec<String>)
        ensures
            final(self)@ == old(self)@.after_notification(
                NotificationView::DidDeleteFiles { files: files@.map_values(|f: String| f@) },
            ),
    {
        let ghost before = self@;
        let ghost views = files@.map_values(|f: String| f@);
        let n = files.len();
        let mut i: usize = 0;
        while i < n
            invariant
                n == files.len(),
                i <= n,
                views == files@.map_values(|f: String| f@),
                self@ == (StateView {
                    word_index_map: roots_after_deletes(
                        before.word_index_map,
                        views.take(i as int),
                    ),
                    ..before
                }),
            decreases n - i,
        {
            proof {
                assert(views.take(i as int + 1).drop_last() == views.take(i as int));
                assert(views.take(i as int + 1).last() == files@[i as int]@);
            }
            self.word_index_map.remove_file(files[i].as_str());
            i += 1;
        }
        proof {
            assert(views.take(n as int) == views);
        }
    }

    /// Hands the notification to its handler. Returns the text that is to be
    /// stored for the document, where the notification changed one.
    pub fn on_notification(&mut self, notification: Notification) -> (r: Result<
        Option<String>,
        ServerError,
    >)
        ensures
            match r {
                Ok(text) => old(self)@.notification_error(notification@) is None && (match text {
                    Some(t) => Some(t@),
                    None => None,
                }) == old(self)@.notification_text(notification@),
                Err(e) => old(self)@.notification_error(notification@) == Some(e),
            },
            final(self)@ == old(self)@.after_notification(notification@),
    {
        match notification {
            Notification::DidOpenTextDocument { file_id } => {
                self.on_did_open_text_document(file_id);
                Ok(None)
            },
            Notification::DidChangeTextDocument { uri, file_id, content, content_changes } => {
                match self.on_did_change_text_document(
                    uri.as_str(),
                    file_id,
                    content,
                    content_changes,
                ) {
                    Ok(text) => Ok(Some(text)),
                    Err(e) => Err(e),
                }
            },
            Notification::DidCloseTextDocument { file_id } => {
                self.on_did_close_text_document(file_id);
                Ok(None)
            },
            Notification::DidRenameFiles { renames } => {
                self.on_did_rename_files(&renames);
                Ok(None)
            },
            Notification::DidDeleteFiles { files } => {
                self.on_did_delete_files(&files);
                Ok(None)
            },
            _ => Ok(None),
        }
    }
}

} // verus!
