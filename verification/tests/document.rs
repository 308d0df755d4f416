use kcl_language_server::document::{apply_document_changes, TextDocumentContentChangeEvent};
use kcl_language_server::position::{Position, Range};

fn change(sl: u32, sc: u32, el: u32, ec: u32, text: &str) -> TextDocumentContentChangeEvent {
    TextDocumentContentChangeEvent {
        range: Some(Range {
            start: Position { line: sl, character: sc },
            end: Position { line: el, character: ec },
        }),
        range_length: None,
        text: String::from(text),
    }
}

#[test]
fn test_apply_document_changes() {
    let mut text = String::new();
    apply_document_changes(&mut text, vec![]);
    assert_eq!(text, "");

    // Full updates, without a range
    apply_document_changes(
        &mut text,
        vec![TextDocumentContentChangeEvent {
            range: None,
            range_length: None,
            text: String::from("the"),
        }],
    );

    assert_eq!(text, "the");
    apply_document_changes(&mut text, vec![change(0, 3, 0, 3, " quick")]);
    assert_eq!(text, "the quick");

    apply_document_changes(
        &mut text,
        vec![change(0, 0, 0, 4, ""), change(0, 5, 0, 5, " foxes")],
    );
    assert_eq!(text, "quick foxes");

    apply_document_changes(&mut text, vec![change(0, 11, 0, 11, "\ndream")]);
    assert_eq!(text, "quick foxes\ndream");

    apply_document_changes(&mut text, vec![change(1, 0, 1, 0, "have ")]);
    assert_eq!(text, "quick foxes\nhave dream");

    apply_document_changes(
        &mut text,
        vec![
            change(0, 0, 0, 0, "the "),
            change(1, 4, 1, 4, " quiet"),
            change(1, 16, 1, 16, "s\n"),
        ],
    );
    assert_eq!(text, "the quick foxes\nhave quiet dreams\n");

    apply_document_changes(
        &mut text,
        vec![change(0, 15, 0, 15, "\n"), change(2, 17, 2, 17, "\n")],
    );
    assert_eq!(text, "the quick foxes\n\nhave quiet dreams\n\n");

    apply_document_changes(
        &mut text,
        vec![
            change(1, 0, 1, 0, "DREAM"),
            change(2, 0, 2, 0, "they "),
            change(3, 0, 3, 0, "DON'T THEY?"),
        ],
    );
    assert_eq!(
        text,
        "the quick foxes\nDREAM\nthey have quiet dreams\nDON'T THEY?\n"
    );

    apply_document_changes(
        &mut text,
        vec![change(0, 10, 1, 5, ""), change(2, 0, 2, 12, "")],
    );
    assert_eq!(text, "the quick \nthey have quiet dreams\n");

    text = String::from("❤️");
    apply_document_changes(&mut text, vec![change(0, 0, 0, 0, "a")]);
    assert_eq!(text, "a❤️");
}
