use kcl_language_server::position::{Location, Position, Range};
use kcl_language_server::word_index::{SourceFile, WordIndex};
use kcl_language_server::words::{scan_words, Word};

fn loc(uri: &str, sl: u32, sc: u32, el: u32, ec: u32) -> Location {
    Location {
        uri: uri.to_string(),
        range: Range {
            start: Position { line: sl, character: sc },
            end: Position { line: el, character: ec },
        },
    }
}

fn word(text: &str, line: u32, start: u32, end: u32) -> Word {
    Word {
        text: text.to_string(),
        range: Range {
            start: Position { line, character: start },
            end: Position { line, character: end },
        },
    }
}

fn lookup(index: &WordIndex, word: &str) -> Vec<Location> {
    match index.get(word) {
        Some(list) => list.clone(),
        None => vec![],
    }
}

fn file(uri: &str, text: &str) -> SourceFile {
    SourceFile { uri: uri.to_string(), text: text.to_string() }
}

#[test]
fn scan_words_finds_identifiers_with_columns() {
    let text: Vec<char> = "a = 1\nfoo_bar(x1, 2y) _z".chars().collect();
    let words = scan_words(&text);
    assert_eq!(
        words,
        vec![
            word("a", 0, 0, 1),
            word("foo_bar", 1, 0, 7),
            word("x1", 1, 8, 10),
            word("_z", 1, 16, 18),
        ]
    );
}

#[test]
fn scan_words_skips_runs_that_start_with_a_digit() {
    let text: Vec<char> = "1abc abc1 9".chars().collect();
    assert_eq!(scan_words(&text), vec![word("abc1", 0, 5, 9)]);
}

#[test]
fn scan_words_counts_columns_in_utf16_units() {
    // U+1F600 takes two UTF-16 code units, U+00E9 one.
    let text: Vec<char> = "\u{1F600}\u{e9} ab\r\ncd".chars().collect();
    assert_eq!(
        scan_words(&text),
        vec![word("ab", 0, 4, 6), word("cd", 1, 0, 2)]
    );
}

#[test]
fn scan_words_of_empty_text_is_empty() {
    assert_eq!(scan_words(&vec![]), vec![]);
}

#[test]
fn of_content_lists_occurrences_in_text_order() {
    let index = WordIndex::of_content("a = b\nb = a + a\n", "file:///m.k");
    assert_eq!(
        lookup(&index, "a"),
        vec![
            loc("file:///m.k", 0, 0, 0, 1),
            loc("file:///m.k", 1, 4, 1, 5),
            loc("file:///m.k", 1, 8, 1, 9),
        ]
    );
    assert_eq!(
        lookup(&index, "b"),
        vec![loc("file:///m.k", 0, 4, 0, 5), loc("file:///m.k", 1, 0, 1, 1)]
    );
    assert!(index.get("c").is_none());
    assert!(index.get("").is_none());
}

#[test]
fn new_index_holds_nothing() {
    let index = WordIndex::new();
    assert!(index.get("a").is_none());
}

#[test]
fn insert_records_each_occurrence_once() {
    let mut index = WordIndex::new();
    index.insert("a", loc("file:///m.k", 0, 0, 0, 1));
    index.insert("a", loc("file:///m.k", 2, 0, 2, 1));
    index.insert("a", loc("file:///m.k", 0, 0, 0, 1));
    assert_eq!(
        lookup(&index, "a"),
        vec![loc("file:///m.k", 0, 0, 0, 1), loc("file:///m.k", 2, 0, 2, 1)]
    );
}

#[test]
fn add_index_appends_what_is_new() {
    let mut index = WordIndex::of_content("a b", "file:///one.k");
    let other = WordIndex::of_content("b c", "file:///two.k");
    index.add_index(&other);
    assert_eq!(lookup(&index, "a"), vec![loc("file:///one.k", 0, 0, 0, 1)]);
    assert_eq!(
        lookup(&index, "b"),
        vec![loc("file:///one.k", 0, 2, 0, 3), loc("file:///two.k", 0, 0, 0, 1)]
    );
    assert_eq!(lookup(&index, "c"), vec![loc("file:///two.k", 0, 2, 0, 3)]);
    // Adding the same occurrences again changes nothing.
    index.add_index(&other);
    assert_eq!(
        lookup(&index, "b"),
        vec![loc("file:///one.k", 0, 2, 0, 3), loc("file:///two.k", 0, 0, 0, 1)]
    );
}

#[test]
fn subtract_index_takes_out_and_drops_empty_words() {
    let mut index = WordIndex::build(&vec![
        file("file:///one.k", "a b"),
        file("file:///two.k", "b c"),
    ]);
    let part = WordIndex::of_content("b c", "file:///two.k");
    index.subtract_index(&part);
    assert_eq!(lookup(&index, "a"), vec![loc("file:///one.k", 0, 0, 0, 1)]);
    assert_eq!(lookup(&index, "b"), vec![loc("file:///one.k", 0, 2, 0, 3)]);
    assert!(index.get("c").is_none());
}

#[test]
fn incremental_update_matches_rebuild() {
    let one = "a = 1\nb = a\n";
    let two_old = "c = a\nd = b\n";
    let two_new = "c = b\ne = a + a\n";
    let mut index = WordIndex::build(&vec![
        file("file:///one.k", one),
        file("file:///two.k", two_old),
    ]);
    index.subtract_index(&WordIndex::of_content(two_old, "file:///two.k"));
    index.add_index(&WordIndex::of_content(two_new, "file:///two.k"));
    let rebuilt = WordIndex::build(&vec![
        file("file:///one.k", one),
        file("file:///two.k", two_new),
    ]);
    for w in ["a", "b", "c", "d", "e"] {
        let mut got = lookup(&index, w);
        let mut want = lookup(&rebuilt, w);
        got.sort_by_key(|l| (l.uri.clone(), l.range.start.line, l.range.start.character));
        want.sort_by_key(|l| (l.uri.clone(), l.range.start.line, l.range.start.character));
        assert_eq!(got, want, "word {}", w);
    }
    assert!(index.get("d").is_none());
}

#[test]
fn single_file_update_equals_rebuild_exactly() {
    let old = "a = 1\nb = a\n";
    let new = "b = 2\na = b\nb = a\n";
    let mut index = WordIndex::build(&vec![file("file:///m.k", old)]);
    index.subtract_index(&WordIndex::of_content(old, "file:///m.k"));
    index.add_index(&WordIndex::of_content(new, "file:///m.k"));
    let rebuilt = WordIndex::build(&vec![file("file:///m.k", new)]);
    assert_eq!(lookup(&index, "a"), lookup(&rebuilt, "a"));
    assert_eq!(lookup(&index, "b"), lookup(&rebuilt, "b"));
    assert_eq!(
        lookup(&index, "b"),
        vec![
            loc("file:///m.k", 0, 0, 0, 1),
            loc("file:///m.k", 1, 4, 1, 5),
            loc("file:///m.k", 2, 0, 2, 1),
        ]
    );
}

#[test]
fn rename_file_moves_occurrences_and_keeps_ranges() {
    let mut index = WordIndex::build(&vec![
        file("file:///old.k", "a b"),
        file("file:///other.k", "a"),
    ]);
    index.rename_file("file:///old.k", "file:///new.k");
    assert_eq!(
        lookup(&index, "a"),
        vec![loc("file:///new.k", 0, 0, 0, 1), loc("file:///other.k", 0, 0, 0, 1)]
    );
    assert_eq!(lookup(&index, "b"), vec![loc("file:///new.k", 0, 2, 0, 3)]);
    for w in ["a", "b"] {
        assert!(lookup(&index, w).iter().all(|l| l.uri != "file:///old.k"));
    }
}

#[test]
fn rename_file_onto_indexed_file_keeps_each_place_once() {
    let mut index = WordIndex::build(&vec![
        file("file:///old.k", "a"),
        file("file:///new.k", "a a"),
    ]);
    index.rename_file("file:///old.k", "file:///new.k");
    assert_eq!(
        lookup(&index, "a"),
        vec![loc("file:///new.k", 0, 0, 0, 1), loc("file:///new.k", 0, 2, 0, 3)]
    );
}

#[test]
fn remove_file_purges_the_file() {
    let mut index = WordIndex::build(&vec![
        file("file:///one.k", "a b"),
        file("file:///two.k", "a c"),
    ]);
    index.remove_file("file:///two.k");
    assert_eq!(lookup(&index, "a"), vec![loc("file:///one.k", 0, 0, 0, 1)]);
    assert_eq!(lookup(&index, "b"), vec![loc("file:///one.k", 0, 2, 0, 3)]);
    assert!(index.get("c").is_none());
}

#[test]
fn build_keeps_file_order_and_skips_repeated_files() {
    let index = WordIndex::build(&vec![
        file("file:///two.k", "x"),
        file("file:///one.k", "x"),
        file("file:///two.k", "x"),
    ]);
    assert_eq!(
        lookup(&index, "x"),
        vec![loc("file:///two.k", 0, 0, 0, 1), loc("file:///one.k", 0, 0, 0, 1)]
    );
}

#[test]
fn build_of_no_files_is_empty() {
    let index = WordIndex::build(&vec![]);
    assert!(index.get("a").is_none());
}
