use kcl_language_server::capabilities::{
    server_capabilities, ClientCapabilities, CodeActionProviderCapability, ServerCapabilities,
    TextDocumentSyncKind,
};
use kcl_language_server::client::{Message, Project, Reply, Server};
use kcl_language_server::document::{apply_document_changes, TextDocumentContentChangeEvent};
use kcl_language_server::paths::{file_path, find_konfig_path, konfig_path};
use kcl_language_server::position::{Position, Range};
use kcl_language_server::request_queue::RequestId;

fn replace(sl: u32, sc: u32, el: u32, ec: u32, text: &str) -> TextDocumentContentChangeEvent {
    TextDocumentContentChangeEvent {
        range: Some(Range::new(Position::new(sl, sc), Position::new(el, ec))),
        range_length: None,
        text: text.to_string(),
    }
}

fn full(text: &str) -> TextDocumentContentChangeEvent {
    TextDocumentContentChangeEvent { range: None, range_length: None, text: text.to_string() }
}

fn edited(text: &str, changes: Vec<TextDocumentContentChangeEvent>) -> String {
    let mut text = text.to_string();
    apply_document_changes(&mut text, changes);
    text
}

#[test]
fn konfig_path_lies_four_levels_up() {
    assert_eq!(konfig_path("/repo/kclvm/tools/src/LSP"), "/repo/test/integration/konfig");
    assert_eq!(konfig_path("/a/b/c/d"), "/test/integration/konfig");
    assert_eq!(
        find_konfig_path("/repo/kclvm/tools/src/LSP"),
        Some("/repo/test/integration/konfig".to_string())
    );
}

#[test]
fn konfig_path_needs_four_parents() {
    assert_eq!(find_konfig_path("/a/b/c"), None);
    assert_eq!(find_konfig_path("/"), None);
    assert_eq!(find_konfig_path(""), None);
    assert_eq!(find_konfig_path("/a/b/c/d"), Some("/test/integration/konfig".to_string()));
}

#[test]
fn file_path_is_the_path_of_the_url() {
    assert_eq!(file_path("file:///Users/abc/Desktop/ab%20c/abc.k"), "/Users/abc/Desktop/ab%20c/abc.k");
    assert_eq!(file_path("file:///ws/a.k?x=1#frag"), "/ws/a.k");
    assert_eq!(file_path("/ws/a.k"), "/ws/a.k");
}

#[test]
fn server_capabilities_without_literal_support() {
    let caps = server_capabilities(&ClientCapabilities { code_action_literal_support: false });
    assert_eq!(
        caps,
        ServerCapabilities {
            text_document_sync: TextDocumentSyncKind::Full,
            document_symbol_provider: true,
            completion_trigger_characters: vec![".".to_string()],
            hover_provider: true,
            definition_provider: true,
            code_action_provider: CodeActionProviderCapability::Simple(true),
            document_formatting_provider: true,
            document_range_formatting_provider: true,
            references_provider: true,
        }
    );
}

#[test]
fn server_capabilities_with_literal_support() {
    let caps = server_capabilities(&ClientCapabilities { code_action_literal_support: true });
    assert_eq!(
        caps.code_action_provider,
        CodeActionProviderCapability::Options { code_action_kinds: vec!["quickfix".to_string()] }
    );
    assert_eq!(caps.text_document_sync, TextDocumentSyncKind::Full);
    assert!(caps.references_provider);
}

#[test]
fn request_identities_count_up_from_one() {
    let mut server: Server = Project {}.server();
    assert_eq!(
        server.send_request("textDocument/hover"),
        Message::Request { id: RequestId::Number(1), method: "textDocument/hover".to_string() }
    );
    assert_eq!(
        server.send_request("shutdown"),
        Message::Request { id: RequestId::Number(2), method: "shutdown".to_string() }
    );
    assert_eq!(server.next_request_id, 3);
}

#[test]
fn request_identities_wrap_around() {
    let mut server = Server::new();
    server.next_request_id = i32::MAX;
    assert_eq!(
        server.send_request("m"),
        Message::Request { id: RequestId::Number(i32::MAX), method: "m".to_string() }
    );
    assert_eq!(server.next_request_id, i32::MIN);
}

#[test]
fn waiting_counts_the_notifications_of_one_method() {
    let mut server = Server::new();
    let publish = "textDocument/publishDiagnostics";
    assert!(server.wait_for_message_cond(1, publish));
    assert!(!server.wait_for_message_cond(0, publish));
    server.recv(Message::Notification { method: "window/logMessage".to_string() });
    server.recv(Message::Response { id: RequestId::Number(1) });
    assert!(server.wait_for_message_cond(1, publish));
    server.recv(server.notification(publish));
    assert!(!server.wait_for_message_cond(1, publish));
    assert!(server.wait_for_message_cond(2, publish));
    assert_eq!(server.messages.len(), 3);
}

#[test]
fn replies_are_told_apart() {
    let id = RequestId::Number(3);
    assert_eq!(
        Server::send_and_receive(&id, &Message::Notification { method: "x".to_string() }),
        Reply::Skip
    );
    assert_eq!(Server::send_and_receive(&id, &Message::Response { id: id.clone() }), Reply::Answer);
    assert_eq!(
        Server::send_and_receive(&id, &Message::Response { id: RequestId::Number(4) }),
        Reply::Unexpected
    );
    assert_eq!(
        Server::send_and_receive(&id, &Message::Response { id: RequestId::Text("3".to_string()) }),
        Reply::Unexpected
    );
    assert_eq!(
        Server::send_and_receive(
            &RequestId::Text("a".to_string()),
            &Message::Response { id: RequestId::Text("a".to_string()) }
        ),
        Reply::Answer
    );
    assert_eq!(
        Server::send_and_receive(&id, &Message::Request { id: id.clone(), method: "x".to_string() }),
        Reply::Unexpected
    );
}

#[test]
fn no_changes_leave_the_text() {
    assert_eq!(edited("the quick\nfox", vec![]), "the quick\nfox");
}

#[test]
fn full_replacement_discards_earlier_edits() {
    assert_eq!(
        edited("abc", vec![replace(0, 0, 0, 1, "X"), replace(0, 3, 0, 3, "Y"), full("new")]),
        "new"
    );
    assert_eq!(
        edited("abc", vec![replace(0, 0, 0, 1, "X"), full("new"), replace(0, 3, 0, 3, "!")]),
        edited("something else", vec![full("new"), replace(0, 3, 0, 3, "!")])
    );
}

#[test]
fn concrete_insert_and_delete_scenario() {
    let mut text = String::from("the");
    apply_document_changes(&mut text, vec![replace(0, 3, 0, 3, " quick")]);
    assert_eq!(text, "the quick");
    apply_document_changes(
        &mut text,
        vec![replace(0, 0, 0, 4, ""), replace(0, 5, 0, 5, " foxes")],
    );
    assert_eq!(text, "quick foxes");
}

#[test]
fn columns_count_utf16_code_units() {
    // U+1F600 takes two code units: column 3 lies behind "a" and the emoji.
    assert_eq!(edited("a\u{1F600}b", vec![replace(0, 3, 0, 3, "X")]), "a\u{1F600}Xb");
    assert_eq!(edited("a\u{1F600}b", vec![replace(0, 1, 0, 3, "")]), "ab");
    // A column inside the emoji stops in front of it.
    assert_eq!(edited("a\u{1F600}b", vec![replace(0, 2, 0, 2, "X")]), "aX\u{1F600}b");
    // U+00E9 and U+4E2D take one code unit each.
    assert_eq!(edited("\u{e9}\u{4e2d}z", vec![replace(0, 2, 0, 3, "")]), "\u{e9}\u{4e2d}");
}

#[test]
fn positions_behind_the_end_name_the_end() {
    assert_eq!(edited("ab\ncd", vec![replace(5, 0, 5, 0, "!")]), "ab\ncd!");
    assert_eq!(edited("ab\ncd", vec![replace(1, 9, 1, 9, "!")]), "ab\ncd!");
    assert_eq!(edited("", vec![replace(0, 4, 2, 0, "x")]), "x");
    // A column behind the end of a line runs on into the next line.
    assert_eq!(edited("ab\ncd", vec![replace(0, 3, 0, 3, "!")]), "ab\n!cd");
}

#[test]
fn a_range_that_ends_before_it_starts_is_an_insert_at_its_start() {
    assert_eq!(edited("abcdef", vec![replace(0, 4, 0, 1, "X")]), "abcdXef");
}
