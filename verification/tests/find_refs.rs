use kcl_language_server::find_refs::{find_refs, FindRefs, LogRequest, Phase, Request, Resolution, Step};
use kcl_language_server::position::{Location, Position, Range};
use kcl_language_server::word_index::{SourceFile, WordIndex};

const MAIN_K: &str = "a = 1\nb = a\nc = a\n\nschema Name:\n    name: str\n\n\nitems: Name = 1\n\n\nother: Name = 2\ndata = [1, 2, a]\n";

fn main_uri() -> String {
    "file:///src/test_data/find_refs_test/main.k".to_string()
}

fn loc(uri: &str, sl: u32, sc: u32, el: u32, ec: u32) -> Location {
    Location {
        uri: uri.to_string(),
        range: Range {
            start: Position::new(sl, sc),
            end: Position::new(el, ec),
        },
    }
}

/// Runs a search to its end. `resolve` stands for the resolver; the messages
/// that the search asks to log are collected.
fn run(
    def_loc: Location,
    name: &str,
    root: Option<&str>,
    files: Option<Vec<SourceFile>>,
    resolve: &dyn Fn(&str, Position) -> Resolution,
) -> (Option<Vec<Location>>, Vec<LogRequest>) {
    let (mut search, mut step): (FindRefs, Step) =
        find_refs(def_loc, name.to_string(), "/cursor/main.k".to_string());
    let mut logs = vec![];
    let mut files = files;
    loop {
        logs.append(&mut step.logs);
        step = match step.request {
            Request::FindRoot { .. } => search.on_root(root.map(|r| r.to_string())),
            Request::ReadFiles { .. } => search.on_files(files.take()),
            Request::Resolve { file, position } => search.on_resolution(resolve(&file, position)),
            Request::Finish { result } => return (result, logs),
        };
    }
}

/// The request to log that no reference to `name` was found.
fn miss(name: &str) -> LogRequest {
    LogRequest { message: format!("References of {} not found", name), must_succeed: false }
}

fn check_locations_match(expect: Vec<Location>, actual: Option<Vec<Location>>) {
    match actual {
        Some(locations) => assert_eq!(expect, locations),
        None => panic!("got empty result. expect: {:?}", expect),
    }
}

#[test]
fn find_refs_from_variable_test() {
    let url = main_uri();
    let def_loc = loc(&url, 0, 0, 0, 1);
    let expect = vec![
        loc(&url, 0, 0, 0, 1),
        loc(&url, 1, 4, 1, 5),
        loc(&url, 2, 4, 2, 5),
        loc(&url, 12, 14, 12, 15),
    ];
    let def = def_loc.clone();
    let (result, logs) = run(
        def_loc,
        "a",
        Some("/src/test_data/find_refs_test"),
        Some(vec![SourceFile { uri: url.clone(), text: MAIN_K.to_string() }]),
        &move |file, _| {
            assert_eq!(file, "/src/test_data/find_refs_test/main.k");
            Resolution::Definition(def.clone())
        },
    );
    check_locations_match(expect, result);
    assert!(logs.is_empty());
}

#[test]
fn find_refs_from_schema_name_test() {
    let url = main_uri();
    let def_loc = loc(&url, 4, 0, 7, 0);
    let expect = vec![
        loc(&url, 4, 7, 4, 11),
        loc(&url, 8, 7, 8, 11),
        loc(&url, 11, 7, 11, 11),
    ];
    let def = def_loc.clone();
    let (result, _) = run(
        def_loc,
        "Name",
        Some("/src/test_data/find_refs_test"),
        Some(vec![SourceFile { uri: url.clone(), text: MAIN_K.to_string() }]),
        &move |_, _| Resolution::Definition(def.clone()),
    );
    check_locations_match(expect, result);
}

#[test]
fn find_refs_large_test() {
    let p = "/Users/amy/work/Konfig/sigma/base/pkg/kusion_models/app_configuration/sofa/sofa_app_configuration.k";
    let url = format!("file://{}", p);
    let def_loc = loc(&url, 17, 7, 17, 27);
    // No package root is found above a file that does not exist.
    let (result, logs) = run(def_loc, "SofaAppConfiguration", None, None, &|_, _| {
        Resolution::NotFound
    });
    assert_eq!(result, None);
    assert_eq!(logs, vec![miss("SofaAppConfiguration")]);
}

#[test]
fn first_request_asks_for_the_root_of_the_definitions_file() {
    let (search, step) = find_refs(
        loc("file:///ws/pkg/ab%20c/main.k", 0, 0, 0, 1),
        "a".to_string(),
        "/ws/pkg/main.k".to_string(),
    );
    assert_eq!(search.phase(), Phase::AwaitingRoot);
    assert!(step.logs.is_empty());
    assert_eq!(
        step.request,
        Request::FindRoot { path: "/ws/pkg/ab%20c/main.k".to_string() }
    );
}

#[test]
fn a_uri_that_is_no_url_is_taken_as_the_file() {
    let (_, step) = find_refs(loc("not a url", 0, 0, 0, 1), "a".to_string(), String::new());
    assert_eq!(step.request, Request::FindRoot { path: "not a url".to_string() });
}

#[test]
fn root_is_followed_by_a_request_for_the_files() {
    let (mut search, _) = find_refs(loc(&main_uri(), 0, 0, 0, 1), "a".to_string(), String::new());
    let step = search.on_root(Some("/ws".to_string()));
    assert_eq!(step.request, Request::ReadFiles { root: "/ws".to_string() });
    assert_eq!(search.phase(), Phase::AwaitingFiles);
}

#[test]
fn unreadable_files_log_and_end_without_result() {
    let (result, logs) = run(loc(&main_uri(), 0, 0, 0, 1), "a", Some("/ws"), None, &|_, _| {
        Resolution::NotFound
    });
    assert_eq!(result, None);
    assert_eq!(
        logs,
        vec![LogRequest { message: "build word index failed".to_string(), must_succeed: true }]
    );
}

#[test]
fn unknown_name_ends_without_result_and_logs_the_miss() {
    let (result, logs) = run(
        loc(&main_uri(), 0, 0, 0, 1),
        "missing",
        Some("/ws"),
        Some(vec![SourceFile { uri: main_uri(), text: MAIN_K.to_string() }]),
        &|_, _| Resolution::NotFound,
    );
    assert_eq!(result, None);
    assert_eq!(logs, vec![miss("missing")]);
}

#[test]
fn only_candidates_that_resolve_to_the_definition_are_kept() {
    let url = main_uri();
    let def_loc = loc(&url, 0, 0, 0, 1);
    let def = def_loc.clone();
    let elsewhere = loc(&url, 5, 0, 5, 1);
    let (result, logs) = run(
        def_loc,
        "a",
        Some("/ws"),
        Some(vec![SourceFile { uri: url.clone(), text: MAIN_K.to_string() }]),
        &move |_, position| match position.line {
            0 => Resolution::Definition(def.clone()),
            1 => Resolution::Definition(elsewhere.clone()),
            2 => Resolution::Multiple,
            _ => Resolution::NotFound,
        },
    );
    assert_eq!(result, Some(vec![loc(&url, 0, 0, 0, 1)]));
    assert!(logs.is_empty());
}

#[test]
fn a_failing_file_is_logged_once_and_its_candidates_dropped() {
    let good = "file:///ws/good.k".to_string();
    let bad = "file:///ws/bad.k".to_string();
    let def_loc = loc(&good, 0, 0, 0, 1);
    let def = def_loc.clone();
    let (result, logs) = run(
        def_loc,
        "a",
        Some("/ws"),
        Some(vec![
            SourceFile { uri: bad.clone(), text: "a a\na".to_string() },
            SourceFile { uri: good.clone(), text: "a = 1\nb = a".to_string() },
        ]),
        &move |file, _| {
            if file == "/ws/bad.k" {
                Resolution::CompileFailed
            } else {
                Resolution::Definition(def.clone())
            }
        },
    );
    assert_eq!(
        result,
        Some(vec![loc(&good, 0, 0, 0, 1), loc(&good, 1, 4, 1, 5)])
    );
    assert_eq!(
        logs,
        vec![LogRequest {
            message: "/cursor/main.k compilation failed".to_string(),
            must_succeed: false
        }]
    );
}

#[test]
fn no_confirmed_candidate_gives_an_empty_list() {
    let url = main_uri();
    let (result, logs) = run(
        loc(&url, 0, 0, 0, 1),
        "a",
        Some("/ws"),
        Some(vec![SourceFile { uri: url.clone(), text: MAIN_K.to_string() }]),
        &|_, _| Resolution::NotFound,
    );
    assert_eq!(result, Some(vec![]));
    assert_eq!(logs, vec![miss("a")]);
}

#[test]
fn a_failure_at_the_last_candidate_is_logged_before_the_miss() {
    let uri = "file:///ws/bad.k".to_string();
    let (result, logs) = run(
        loc(&uri, 0, 0, 0, 1),
        "a",
        Some("/ws"),
        Some(vec![SourceFile { uri: uri.clone(), text: "a".to_string() }]),
        &|_, _| Resolution::CompileFailed,
    );
    assert_eq!(result, Some(vec![]));
    assert_eq!(
        logs,
        vec![
            LogRequest {
                message: "/cursor/main.k compilation failed".to_string(),
                must_succeed: false
            },
            miss("a"),
        ]
    );
}

#[test]
fn a_miss_in_an_index_built_before_is_logged() {
    let index = WordIndex::of_content(MAIN_K, &main_uri());
    let (mut search, _) =
        find_refs(loc(&main_uri(), 0, 0, 0, 1), "nowhere".to_string(), String::new());
    search.on_root(Some("/ws".to_string()));
    let step = search.on_index(&index);
    assert_eq!(step.logs, vec![miss("nowhere")]);
    assert_eq!(step.request, Request::Finish { result: None });
    assert_eq!(search.phase(), Phase::Finished);
}

#[test]
fn an_answer_out_of_turn_changes_nothing() {
    let (mut search, first) = find_refs(loc(&main_uri(), 0, 0, 0, 1), "a".to_string(), String::new());
    let step = search.on_resolution(Resolution::NotFound);
    assert_eq!(step, first);
    let step = search.on_files(None);
    assert_eq!(step, first);
    assert_eq!(search.phase(), Phase::AwaitingRoot);
}

#[test]
fn candidates_can_come_from_an_index_built_before() {
    let url = main_uri();
    let index = WordIndex::of_content(MAIN_K, &url);
    let def_loc = loc(&url, 0, 0, 0, 1);
    let (mut search, _) = find_refs(def_loc.clone(), "a".to_string(), String::new());
    search.on_root(Some("/ws".to_string()));
    let mut step = search.on_index(&index);
    let mut asked = vec![];
    while let Request::Resolve { position, .. } = &step.request {
        asked.push(*position);
        step = search.on_resolution(Resolution::Definition(def_loc.clone()));
    }
    assert_eq!(
        asked,
        vec![
            Position::new(0, 0),
            Position::new(1, 4),
            Position::new(2, 4),
            Position::new(12, 14)
        ]
    );
    assert_eq!(search.phase(), Phase::Finished);
}
