use kcl_language_server::document::TextDocumentContentChangeEvent;
use kcl_language_server::event_loop::{
    handle_diagnostics, Compilation, Event, EventOutcome, FileChange, LogMessage, SnapshotError,
    Task, MESSAGE_TYPE_INFO,
};
use kcl_language_server::position::{Location, Position, Range};
use kcl_language_server::request_queue::{PendingRequest, RequestId};
use kcl_language_server::state::{
    lookup_miss, notification_kind, request_kind, FileRename, LanguageServerState, Notification,
    NotificationKind, RequestKind, RequestOutcome, ServerError, INVALID_REQUEST, METHOD_NOT_FOUND,
};
use kcl_language_server::word_index::{SourceFile, WordIndex};

type State = LanguageServerState<String>;

fn loc(uri: &str, sl: u32, sc: u32, el: u32, ec: u32) -> Location {
    Location {
        uri: uri.to_string(),
        range: Range { start: Position::new(sl, sc), end: Position::new(el, ec) },
    }
}

fn lookup(state: &State, root: &str, word: &str) -> Vec<Location> {
    match state.word_index_map.get(root).and_then(|index| index.get(word)) {
        Some(list) => list.clone(),
        None => vec![],
    }
}

fn opened(state: &State) -> Vec<u32> {
    state.opened_files.iter().copied().collect()
}

fn insert_change(line: u32, character: u32, text: &str) -> TextDocumentContentChangeEvent {
    TextDocumentContentChangeEvent {
        range: Some(Range {
            start: Position::new(line, character),
            end: Position::new(line, character),
        }),
        range_length: None,
        text: text.to_string(),
    }
}

#[test]
fn new_state_is_running_and_empty() {
    let state = State::new();
    assert!(!state.shutdown_requested);
    assert!(opened(&state).is_empty());
    assert!(state.analysis.get_db(0).is_none());
    assert!(state.word_index_map.get("/ws").is_none());
}

#[test]
fn request_kinds_by_method() {
    assert_eq!(request_kind("shutdown"), Some(RequestKind::Shutdown));
    assert_eq!(request_kind("textDocument/definition"), Some(RequestKind::GotoDefinition));
    assert_eq!(request_kind("textDocument/references"), Some(RequestKind::References));
    assert_eq!(request_kind("textDocument/completion"), Some(RequestKind::Completion));
    assert_eq!(request_kind("textDocument/hover"), Some(RequestKind::Hover));
    assert_eq!(request_kind("textDocument/documentSymbol"), Some(RequestKind::DocumentSymbol));
    assert_eq!(request_kind("textDocument/codeAction"), Some(RequestKind::CodeAction));
    assert_eq!(request_kind("textDocument/formatting"), Some(RequestKind::Formatting));
    assert_eq!(request_kind("textDocument/rangeFormatting"), Some(RequestKind::RangeFormatting));
    assert_eq!(request_kind("initialize"), None);
    assert_eq!(request_kind(""), None);
}

#[test]
fn notification_kinds_by_method() {
    assert_eq!(notification_kind("textDocument/didOpen"), Some(NotificationKind::DidOpenTextDocument));
    assert_eq!(notification_kind("textDocument/didChange"), Some(NotificationKind::DidChangeTextDocument));
    assert_eq!(notification_kind("textDocument/didSave"), Some(NotificationKind::DidSaveTextDocument));
    assert_eq!(notification_kind("textDocument/didClose"), Some(NotificationKind::DidCloseTextDocument));
    assert_eq!(notification_kind("workspace/didChangeWatchedFiles"), Some(NotificationKind::DidChangeWatchedFiles));
    assert_eq!(notification_kind("workspace/didRenameFiles"), Some(NotificationKind::DidRenameFiles));
    assert_eq!(notification_kind("workspace/didDeleteFiles"), Some(NotificationKind::DidDeleteFiles));
    assert_eq!(notification_kind("exit"), Some(NotificationKind::Exit));
    assert_eq!(notification_kind("shutdown"), None);
}

#[test]
fn a_request_is_handed_on_and_stays_pending_until_answered() {
    let mut state = State::new();
    let id = RequestId::Number(7);
    let outcome = state.on_request(&id, "textDocument/hover", 42);
    assert_eq!(outcome, RequestOutcome::Dispatch { kind: RequestKind::Hover });
    assert_eq!(
        state.respond(&id),
        Some(PendingRequest { method: "textDocument/hover".to_string(), received: 42 })
    );
    // A second answer to the same request is not sent.
    assert_eq!(state.respond(&id), None);
}

#[test]
fn an_unknown_request_is_rejected() {
    let mut state = State::new();
    let id = RequestId::Text("x".to_string());
    assert_eq!(
        state.on_request(&id, "workspace/symbol", 0),
        RequestOutcome::Reject { code: METHOD_NOT_FOUND, message: "unknown request".to_string() }
    );
    assert_eq!(METHOD_NOT_FOUND, -32601);
    assert_eq!(state.respond(&id), None);
}

#[test]
fn number_and_text_identities_are_kept_apart() {
    let mut state = State::new();
    state.register_request(&RequestId::Number(92), "a".to_string(), 1);
    state.register_request(&RequestId::Text("92".to_string()), "b".to_string(), 2);
    assert_eq!(
        state.respond(&RequestId::Text("92".to_string())),
        Some(PendingRequest { method: "b".to_string(), received: 2 })
    );
    assert_eq!(
        state.respond(&RequestId::Number(92)),
        Some(PendingRequest { method: "a".to_string(), received: 1 })
    );
}

#[test]
fn registering_again_replaces_what_was_recorded() {
    let mut state = State::new();
    let id = RequestId::Number(1);
    state.register_request(&id, "first".to_string(), 1);
    state.register_request(&id, "second".to_string(), 2);
    assert_eq!(
        state.respond(&id),
        Some(PendingRequest { method: "second".to_string(), received: 2 })
    );
}

#[test]
fn after_shutdown_every_request_is_rejected() {
    let mut state = State::new();
    assert_eq!(state.on_request(&RequestId::Number(1), "shutdown", 0), RequestOutcome::ShutDown);
    assert!(state.shutdown_requested);
    assert_eq!(state.respond(&RequestId::Number(1)), None);
    for (n, method) in ["textDocument/hover", "shutdown", "nonsense"].iter().enumerate() {
        let id = RequestId::Number(2 + n as i32);
        assert_eq!(
            state.on_request(&id, method, 0),
            RequestOutcome::Reject {
                code: INVALID_REQUEST,
                message: "shutdown was requested".to_string()
            }
        );
        assert_eq!(state.respond(&id), None);
        assert!(state.shutdown_requested);
    }
    assert_eq!(INVALID_REQUEST, -32600);
}

#[test]
fn notifications_are_still_handled_after_shutdown() {
    let mut state = State::new();
    state.on_request(&RequestId::Number(1), "shutdown", 0);
    let outcome = state.handle_event(Event::Notification(Notification::DidOpenTextDocument {
        file_id: Some(3),
    }));
    assert_eq!(outcome, EventOutcome::Notification { text: None });
    assert_eq!(opened(&state), vec![3]);
    assert!(state.shutdown_requested);
}

#[test]
fn opened_files_keep_order_and_closing_moves_the_last_into_place() {
    let mut state = State::new();
    for id in [5, 1, 9, 1, 7] {
        state.on_did_open_text_document(Some(id));
    }
    state.on_did_open_text_document(None);
    assert_eq!(opened(&state), vec![5, 1, 9, 7]);
    state.on_did_close_text_document(Some(1));
    assert_eq!(opened(&state), vec![5, 7, 9]);
    state.on_did_close_text_document(Some(1));
    state.on_did_close_text_document(None);
    assert_eq!(opened(&state), vec![5, 7, 9]);
    state.on_did_close_text_document(Some(9));
    assert_eq!(opened(&state), vec![5, 7]);
}

#[test]
fn a_change_returns_the_new_text_and_updates_the_indexes_above_the_file() {
    let mut state = State::new();
    let uri = "file:///ws/pkg/main.k";
    let old = "a = 1\nb = a\n";
    state
        .word_index_map
        .insert("/ws/pkg".to_string(), WordIndex::of_content(old, uri));
    state
        .word_index_map
        .insert("/ws/pk".to_string(), WordIndex::of_content(old, uri));
    state
        .word_index_map
        .insert("/other".to_string(), WordIndex::of_content(old, uri));
    let text = state
        .on_did_change_text_document(
            uri,
            Some(1),
            old.as_bytes().to_vec(),
            vec![insert_change(1, 5, " + c")],
        )
        .unwrap();
    assert_eq!(text, "a = 1\nb = a + c\n");
    assert_eq!(lookup(&state, "/ws/pkg", "c"), vec![loc(uri, 1, 8, 1, 9)]);
    assert_eq!(
        lookup(&state, "/ws/pkg", "a"),
        vec![loc(uri, 0, 0, 0, 1), loc(uri, 1, 4, 1, 5)]
    );
    // `/ws/pk` is no directory above the file, and `/other` is elsewhere.
    assert!(lookup(&state, "/ws/pk", "c").is_empty());
    assert!(lookup(&state, "/other", "c").is_empty());
}

#[test]
fn a_change_to_an_unknown_file_fails_and_changes_nothing() {
    let mut state = State::new();
    let uri = "file:///ws/main.k";
    state.word_index_map.insert("/ws".to_string(), WordIndex::of_content("a", uri));
    let r = state.on_did_change_text_document(uri, None, b"a".to_vec(), vec![insert_change(0, 1, "b")]);
    assert_eq!(r, Err(ServerError::MissingFileId));
    assert_eq!(lookup(&state, "/ws", "a"), vec![loc(uri, 0, 0, 0, 1)]);
    assert!(lookup(&state, "/ws", "ab").is_empty());
    assert_eq!(ServerError::MissingFileId.message(), "Already checked that the file_id exists!");
}

#[test]
fn a_change_to_content_that_is_no_utf8_fails() {
    let mut state = State::new();
    let r = state.on_did_change_text_document(
        "file:///ws/main.k",
        Some(1),
        vec![b'a', 0xff, b'b'],
        vec![],
    );
    assert_eq!(r, Err(ServerError::InvalidUtf8));
    let outcome = state.handle_event(Event::Notification(Notification::DidChangeTextDocument {
        uri: "file:///ws/main.k".to_string(),
        file_id: Some(1),
        content: vec![0xc0],
        content_changes: vec![],
    }));
    assert_eq!(outcome, EventOutcome::Failed { error: ServerError::InvalidUtf8 });
}

#[test]
fn a_change_decodes_multibyte_content() {
    let mut state = State::new();
    let text = state
        .on_did_change_text_document(
            "file:///ws/main.k",
            Some(1),
            "h\u{e9}\u{1F600}x".as_bytes().to_vec(),
            vec![insert_change(0, 4, "!")],
        )
        .unwrap();
    assert_eq!(text, "h\u{e9}\u{1F600}!x");
}

#[test]
fn renames_and_deletes_reach_the_indexes_above_the_file() {
    let mut state = State::new();
    let old_uri = "file:///ws/a.k";
    let new_uri = "file:///ws/b.k";
    state.word_index_map.insert("/ws".to_string(), WordIndex::of_content("x y", old_uri));
    state.word_index_map.insert("/else".to_string(), WordIndex::of_content("x y", old_uri));
    let outcome = state.handle_event(Event::Notification(Notification::DidRenameFiles {
        renames: vec![FileRename { old_uri: old_uri.to_string(), new_uri: new_uri.to_string() }],
    }));
    assert_eq!(outcome, EventOutcome::Notification { text: None });
    assert_eq!(lookup(&state, "/ws", "x"), vec![loc(new_uri, 0, 0, 0, 1)]);
    assert_eq!(lookup(&state, "/ws", "y"), vec![loc(new_uri, 0, 2, 0, 3)]);
    assert_eq!(lookup(&state, "/else", "x"), vec![loc(old_uri, 0, 0, 0, 1)]);

    state.handle_event(Event::Notification(Notification::DidDeleteFiles {
        files: vec![new_uri.to_string(), "file:///ws/missing.k".to_string()],
    }));
    assert!(lookup(&state, "/ws", "x").is_empty());
    assert!(lookup(&state, "/ws", "y").is_empty());
    assert_eq!(lookup(&state, "/else", "x"), vec![loc(old_uri, 0, 0, 0, 1)]);
}

#[test]
fn other_notifications_change_nothing() {
    let mut state = State::new();
    state.on_did_open_text_document(Some(1));
    for n in [Notification::DidSaveTextDocument, Notification::DidChangeWatchedFiles] {
        assert_eq!(state.on_notification(n), Ok(None));
    }
    assert_eq!(opened(&state), vec![1]);
}

#[test]
fn task_results_are_sent_unless_the_request_is_gone() {
    let mut state = State::new();
    let id = RequestId::Number(1);
    state.on_request(&id, "textDocument/hover", 0);
    assert!(state.handle_task(&Task::Notify));
    assert!(state.handle_task(&Task::Response { id: id.clone() }));
    assert!(!state.handle_task(&Task::Response { id }));
    assert_eq!(
        state.handle_event(Event::Task(Task::Response { id: RequestId::Number(5) })),
        EventOutcome::Task { send: false }
    );
    assert_eq!(state.handle_event(Event::Response), EventOutcome::Ignored);
}

#[test]
fn run_ends_at_exit_whatever_is_still_waiting() {
    let mut state = State::new();
    let outcomes = state.run(vec![
        Event::Notification(Notification::DidOpenTextDocument { file_id: Some(1) }),
        Event::Request { id: RequestId::Number(1), method: "shutdown".to_string(), received: 0 },
        Event::Request {
            id: RequestId::Number(2),
            method: "textDocument/hover".to_string(),
            received: 1,
        },
        Event::Notification(Notification::Exit),
        Event::Notification(Notification::DidOpenTextDocument { file_id: Some(2) }),
    ]);
    assert_eq!(
        outcomes,
        vec![
            EventOutcome::Notification { text: None },
            EventOutcome::Request(RequestOutcome::ShutDown),
            EventOutcome::Request(RequestOutcome::Reject {
                code: INVALID_REQUEST,
                message: "shutdown was requested".to_string()
            }),
            EventOutcome::Exit,
        ]
    );
    assert_eq!(opened(&state), vec![1]);
}

#[test]
fn run_without_exit_handles_every_event() {
    let mut state = State::new();
    let outcomes = state.run(vec![Event::Response, Event::Task(Task::Notify)]);
    assert_eq!(outcomes, vec![EventOutcome::Ignored, EventOutcome::Task { send: true }]);
    assert!(state.run(vec![]).is_empty());
}

#[test]
fn exit_alone_changes_nothing() {
    let mut state = State::new();
    assert_eq!(state.handle_event(Event::Notification(Notification::Exit)), EventOutcome::Exit);
    assert!(!state.shutdown_requested);
}

#[test]
fn changed_files_update_the_cache_and_failures_are_logged() {
    let mut state = State::new();
    state.analysis.set_db(1, "old one".to_string());
    state.analysis.set_db(2, "old two".to_string());
    let (changed, logs) = state.process_vfs_changes(vec![
        FileChange { file_id: 1, result: Compilation::Compiled { db: "first".to_string() } },
        FileChange { file_id: 2, result: Compilation::Failed { filename: "/ws/two.k".to_string() } },
        FileChange { file_id: 4030, result: Compilation::NameNotFound },
        FileChange { file_id: 1, result: Compilation::Compiled { db: "second".to_string() } },
        FileChange { file_id: 0, result: Compilation::NameNotFound },
    ]);
    assert!(changed);
    assert_eq!(
        logs,
        vec![
            "/ws/two.k compilation failed".to_string(),
            "FileId(4030) not found".to_string(),
            "FileId(0) not found".to_string(),
        ]
    );
    assert_eq!(state.analysis.get_db(1), Some(&"second".to_string()));
    // A file that fails to compile keeps the entry that it had.
    assert_eq!(state.analysis.get_db(2), Some(&"old two".to_string()));
    assert!(!state.analysis.has_db(4030));
}

#[test]
fn no_changed_files_means_no_change() {
    let mut state = State::new();
    let (changed, logs) = state.process_vfs_changes(vec![]);
    assert!(!changed);
    assert!(logs.is_empty());
}

#[test]
fn greatest_file_identity_is_written_in_full() {
    let mut state = State::new();
    let (_, logs) = state.process_vfs_changes(vec![FileChange {
        file_id: u32::MAX,
        result: Compilation::NameNotFound,
    }]);
    assert_eq!(logs, vec!["FileId(4294967295) not found".to_string()]);
}

#[test]
fn a_snapshot_does_not_see_later_changes() {
    let mut state = State::new();
    let uri = "file:///ws/a.k";
    state.analysis.set_db(1, "one".to_string());
    state.on_did_open_text_document(Some(1));
    state.word_index_map.insert("/ws".to_string(), WordIndex::of_content("x", uri));
    let snapshot = state.snapshot();

    state.analysis.set_db(1, "changed".to_string());
    state.analysis.set_db(2, "two".to_string());
    state.on_did_open_text_document(Some(2));
    state.on_did_close_text_document(Some(1));
    state.word_index_map.remove_file(uri);

    assert_eq!(snapshot.get_db(Some(1)), Ok(&"one".to_string()));
    assert_eq!(snapshot.get_db(Some(2)), Err(SnapshotError::DatabaseNotFound));
    assert_eq!(snapshot.get_db(None), Err(SnapshotError::FileIdNotFound));
    assert_eq!(snapshot.opened_files.iter().copied().collect::<Vec<u32>>(), vec![1]);
    assert_eq!(
        snapshot.word_index_map.get("/ws").unwrap().get("x"),
        Some(&vec![loc(uri, 0, 0, 0, 1)])
    );
    assert!(state.word_index_map.get("/ws").unwrap().get("x").is_none());
}

#[test]
fn snapshot_errors_in_words() {
    assert_eq!(
        SnapshotError::FileIdNotFound.message("/ws/a.k"),
        "Path /ws/a.k fileId not found"
    );
    assert_eq!(
        SnapshotError::DatabaseNotFound.message("/ws/a.k"),
        "Path /ws/a.k AnalysisDatabase not found"
    );
}

#[test]
fn diagnostics_go_to_opened_files_with_an_entry_in_opening_order() {
    let mut state = State::new();
    for id in [4, 2, 8, 6] {
        state.on_did_open_text_document(Some(id));
    }
    state.analysis.set_db(8, "eight".to_string());
    state.analysis.set_db(4, "four".to_string());
    state.analysis.set_db(5, "five".to_string());
    assert_eq!(handle_diagnostics(&state.snapshot()), vec![4, 8]);
    assert!(handle_diagnostics(&State::new().snapshot()).is_empty());
}

#[test]
fn log_message_is_an_info_notification() {
    let state = State::new();
    assert_eq!(
        state.log_message("hello".to_string()),
        LogMessage {
            method: "window/logMessage".to_string(),
            typ: 3,
            message: "hello".to_string()
        }
    );
    assert_eq!(MESSAGE_TYPE_INFO, 3);
}

#[test]
fn word_index_map_keeps_one_index_for_each_root() {
    let mut state = State::new();
    state.word_index_map.insert("/ws".to_string(), WordIndex::of_content("a", "file:///ws/a.k"));
    state.word_index_map.insert("/ws".to_string(), WordIndex::of_content("b", "file:///ws/a.k"));
    assert_eq!(state.word_index_map.roots.len(), 1);
    assert!(lookup(&state, "/ws", "a").is_empty());
    assert_eq!(lookup(&state, "/ws", "b"), vec![loc("file:///ws/a.k", 0, 0, 0, 1)]);
    assert!(state.word_index_map.get("/w").is_none());
}

#[test]
fn a_turn_with_changed_files_ends_with_a_snapshot_for_diagnostics() {
    let mut state = State::new();
    state.on_did_open_text_document(Some(1));
    let end = state.end_turn(vec![
        FileChange { file_id: 1, result: Compilation::Compiled { db: "one".to_string() } },
        FileChange { file_id: 2, result: Compilation::Failed { filename: "/ws/b.k".to_string() } },
    ]);
    assert_eq!(end.logs, vec!["/ws/b.k compilation failed".to_string()]);
    let snapshot = end.diagnostics.unwrap();
    assert_eq!(snapshot.get_db(Some(1)), Ok(&"one".to_string()));
    assert_eq!(handle_diagnostics(&snapshot), vec![1]);
    assert_eq!(state.analysis.get_db(1), Some(&"one".to_string()));
}

#[test]
fn a_turn_without_changed_files_publishes_nothing() {
    let mut state = State::new();
    state.analysis.set_db(1, "one".to_string());
    let end = state.end_turn(vec![]);
    assert!(end.logs.is_empty());
    assert!(end.diagnostics.is_none());
    assert_eq!(state.analysis.get_db(1), Some(&"one".to_string()));
}

#[test]
fn a_root_gets_its_index_on_first_access_and_keeps_it() {
    let mut state = State::new();
    let first = vec![SourceFile { uri: "file:///ws/a.k".to_string(), text: "x".to_string() }];
    let later = vec![SourceFile { uri: "file:///ws/a.k".to_string(), text: "y".to_string() }];
    assert!(state.word_index_map.materialize("/ws", &first));
    assert_eq!(lookup(&state, "/ws", "x"), vec![loc("file:///ws/a.k", 0, 0, 0, 1)]);
    assert!(!state.word_index_map.materialize("/ws", &later));
    assert_eq!(lookup(&state, "/ws", "x"), vec![loc("file:///ws/a.k", 0, 0, 0, 1)]);
    assert!(lookup(&state, "/ws", "y").is_empty());
    assert_eq!(state.word_index_map.roots.len(), 1);
    assert!(state.word_index_map.materialize("/other", &later));
    assert_eq!(lookup(&state, "/other", "y"), vec![loc("file:///ws/a.k", 0, 0, 0, 1)]);
    assert_eq!(state.word_index_map.roots.len(), 2);
}

#[test]
fn a_query_that_finds_nothing_has_a_message_for_the_log() {
    let file = "/ws/main.k";
    assert_eq!(
        lookup_miss(RequestKind::GotoDefinition, false, file),
        Some("Definition item not found".to_string())
    );
    assert_eq!(
        lookup_miss(RequestKind::References, false, file),
        Some("Reference item not found".to_string())
    );
    assert_eq!(
        lookup_miss(RequestKind::Completion, false, file),
        Some("Completion item not found".to_string())
    );
    assert_eq!(
        lookup_miss(RequestKind::Hover, false, file),
        Some("Hover definition not found".to_string())
    );
    assert_eq!(
        lookup_miss(RequestKind::DocumentSymbol, false, file),
        Some("File /ws/main.k Document symbol not found".to_string())
    );
    for kind in [
        RequestKind::Shutdown,
        RequestKind::CodeAction,
        RequestKind::Formatting,
        RequestKind::RangeFormatting,
    ] {
        assert_eq!(lookup_miss(kind, false, file), None);
    }
}

#[test]
fn a_query_that_finds_something_logs_nothing() {
    for kind in [
        RequestKind::GotoDefinition,
        RequestKind::References,
        RequestKind::Completion,
        RequestKind::Hover,
        RequestKind::DocumentSymbol,
    ] {
        assert_eq!(lookup_miss(kind, true, "/ws/main.k"), None);
    }
}

#[test]
fn a_notification_without_changes_changes_nothing() {
    let mut state = State::new();
    let uri = "file:///ws/main.k";
    // The index does not hold the document yet, and still does not afterwards.
    state.word_index_map.insert("/ws".to_string(), WordIndex::of_content("other", "file:///ws/o.k"));
    let text = state.on_did_change_text_document(uri, Some(1), b"a = 1\n".to_vec(), vec![]);
    assert_eq!(text, Ok("a = 1\n".to_string()));
    assert!(lookup(&state, "/ws", "a").is_empty());
    assert_eq!(lookup(&state, "/ws", "other"), vec![loc("file:///ws/o.k", 0, 0, 0, 5)]);
}

#[test]
fn a_full_replacement_in_a_notification_discards_what_came_before() {
    let mut state = State::new();
    let full = TextDocumentContentChangeEvent { range: None, range_length: None, text: "new".to_string() };
    let text = state.on_did_change_text_document(
        "file:///ws/main.k",
        Some(1),
        b"old text".to_vec(),
        vec![insert_change(0, 0, "x"), full, insert_change(0, 3, "!")],
    );
    assert_eq!(text, Ok("new!".to_string()));
}
