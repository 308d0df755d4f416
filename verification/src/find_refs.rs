//! Finding the references to a definition.
//!
//! The search has two phases. The word index gives the candidates: every
//! place where the name occurs as text. Then each candidate is checked: the
//! resolver is asked where the identifier at that place is defined, and the
//! candidate is kept where the answer is the one definition that was asked
//! about.
//!
//! The resolver, the package layout and the files are outside this library.
//! A `FindRefs` value holds the state of one search; each step says what is
//! to be done outside, and the answer is handed to the next step.

use vstd::prelude::*;
use crate::locations::{copy_locations, location_views};
use crate::paths::{file_of, file_path};
use crate::position::{Location, LocationView, Position};
use crate::index_laws::{lemma_files_index_members, lemma_index_of_lists};
use crate::word_index::{
    file_views, files_index, lemma_occurrences_hold, locations_of, occurrence,
    occurrences, SourceFile, SourceFileView, WordIndex,
};
use crate::words::words_of;

verus! {

/// What the resolver found for the identifier at a candidate.
#[derive(Clone, Debug, PartialEq, Eq)]
pub enum Resolution {
    /// The candidate's file did not compile.
    CompileFailed,
    /// The identifier has no definition.
    NotFound,
    /// The identifier has this one definition.
    Definition(Location),
    /// The identifier has several definitions.
    Multiple,
}

/// What a `Resolution` stands for in contracts.
pub enum ResolutionView {
    CompileFailed,
    NotFound,
    Definition(LocationView),
    Multiple,
}

impl View for Resolution {
    type V = ResolutionView;

    open spec fn view(&self) -> ResolutionView {
        match self {
            Resolution::CompileFailed => ResolutionView::CompileFailed,
            Resolution::NotFound => ResolutionView::NotFound,
            Resolution::Definition(l) => ResolutionView::Definition(l@),
            Resolution::Multiple => ResolutionView::Multiple,
        }
    }
}

/// Where a search stands.
#[derive(Clone, Copy, Debug, PartialEq, Eq, Structural)]
pub enum Phase {
    /// The package root of the definition's file was asked for.
    AwaitingRoot,
    /// The files under the package root were asked for.
    AwaitingFiles,
    /// A candidate was handed out to be resolved.
    Verifying,
    /// The search has ended.
    Finished,
}

/// A message for the log.
#[derive(Clone, Debug, PartialEq, Eq)]
pub struct LogRequest {
    pub message: String,
    /// Whether a failure to log ends the search with that failure.
    pub must_succeed: bool,
}

/// What a `LogRequest` stands for in contracts.
pub struct LogRequestView {
    pub message: Seq<char>,
    pub must_succeed: bool,
}

impl View for LogRequest {
    type V = LogRequestView;

    open spec fn view(&self) -> LogRequestView {
        LogRequestView { message: self.message@, must_succeed: self.must_succeed }
    }
}

/// What is to be done outside before the search can go on.
#[derive(Clone, Debug, PartialEq, Eq)]
pub enum Request {
    /// Find the package root above the file `path`.
    FindRoot { path: String },
    /// Read the source files under `root`.
    ReadFiles { root: String },
    /// Compile `file` and ask where the identifier at `position` is defined.
    Resolve { file: String, position: Position },
    /// Nothing: the search has ended with `result`.
    Finish { result: Option<Vec<Location>> },
}

/// What a `Request` stands for in contracts.
pub enum RequestView {
    FindRoot { path: Seq<char> },
    ReadFiles { root: Seq<char> },
    Resolve { file: Seq<char>, position: Position },
    Finish { result: Option<Seq<LocationView>> },
}

impl View for Request {
    type V = RequestView;

    open spec fn view(&self) -> RequestView {
        match self {
            Request::FindRoot { path } => RequestView::FindRoot { path: path@ },
            Request::ReadFiles { root } => RequestView::ReadFiles { root: root@ },
            Request::Resolve { file, position } => RequestView::Resolve {
                file: file@,
                position: *position,
            },
            Request::Finish { result } => RequestView::Finish {
                result: match result {
                    Some(list) => Some(location_views(list@)),
                    None => None,
                },
            },
        }
    }
}

/// The views of a sequence of log requests.
pub open spec fn log_views(s: Seq<LogRequest>) -> Seq<LogRequestView> {
    s.map_values(|l: LogRequest| l@)
}

/// One step of a search: the messages to log, in their order, and what to do
/// next.
#[derive(Clone, Debug, PartialEq, Eq)]
pub struct Step {
    pub logs: Vec<LogRequest>,
    pub request: Request,
}

/// The candidates that the resolver confirmed: those whose answer is the one
/// definition `def_loc`, in the order of the candidates. `outcomes[i]` is the
/// answer for `candidates[i]`.
pub open spec fn confirmed(
    def_loc: LocationView,
    candidates: Seq<LocationView>,
    outcomes: Seq<ResolutionView>,
) -> Seq<LocationView>
    decreases outcomes.len(),
{
    if outcomes.len() == 0 || candidates.len() < outcomes.len() {
        Seq::empty()
    } else {
        let n = outcomes.len() - 1;
        let earlier = confirmed(def_loc, candidates, outcomes.drop_last());
        if outcomes.last() == ResolutionView::Definition(def_loc) {
            earlier.push(candidates[n])
        } else {
            earlier
        }
    }
}

/// The files that did not compile, each once, in the order in which the
/// candidates met them.
pub open spec fn failing_files(candidates: Seq<LocationView>, outcomes: Seq<ResolutionView>) -> Seq<
    Seq<char>,
>
    decreases outcomes.len(),
{
    if outcomes.len() == 0 || candidates.len() < outcomes.len() {
        Seq::empty()
    } else {
        let n = outcomes.len() - 1;
        let earlier = failing_files(candidates, outcomes.drop_last());
        if outcomes.last() == ResolutionView::CompileFailed && !earlier.contains(candidates[n].uri) {
            earlier.push(candidates[n].uri)
        } else {
            earlier
        }
    }
}

/// The state of a search as contracts see it.
pub struct FindRefsView {
    pub def_loc: LocationView,
    pub name: Seq<char>,
    pub cursor_path: Seq<char>,
    pub phase: Phase,
    pub root: Seq<char>,
    /// The places where the name occurs as text.
    pub candidates: Seq<LocationView>,
    /// The resolver's answers so far, for the first candidates in their order.
    pub outcomes: Seq<ResolutionView>,
    /// Whether the search has a list of references to give.
    pub answered: bool,
}

impl FindRefsView {
    /// What every state of a search satisfies.
    pub open spec fn wf(self) -> bool {
        &&& self.outcomes.len() <= self.candidates.len()
        &&& self.phase == Phase::AwaitingRoot || self.phase == Phase::AwaitingFiles
            ==> self.candidates.len() == 0
        &&& self.phase == Phase::Verifying ==> self.outcomes.len() < self.candidates.len()
        &&& self.phase == Phase::Finished && self.answered ==> self.outcomes.len()
            == self.candidates.len()
        &&& self.answered ==> self.phase == Phase::Finished
    }

    /// The references confirmed so far.
    pub open spec fn found(self) -> Seq<LocationView> {
        confirmed(self.def_loc, self.candidates, self.outcomes)
    }

    /// The files that failed to compile so far.
    pub open spec fn failed(self) -> Seq<Seq<char>> {
        failing_files(self.candidates, self.outcomes)
    }

    /// What the search waits for.
    pub open spec fn pending(self) -> RequestView {
        match self.phase {
            Phase::AwaitingRoot => RequestView::FindRoot { path: file_of(self.def_loc.uri) },
            Phase::AwaitingFiles => RequestView::ReadFiles { root: self.root },
            Phase::Verifying => {
                let c = self.candidates[self.outcomes.len() as int];
                RequestView::Resolve { file: file_of(c.uri), position: c.range.start }
            },
            Phase::Finished => RequestView::Finish {
                result: if self.answered {
                    Some(self.found())
                } else {
                    None
                },
            },
        }
    }

    /// The state after the package root was handed in: with a root the files
    /// under it are asked for, without one the search ends with no result.
    pub open spec fn after_root(self, root: Option<Seq<char>>) -> FindRefsView {
        if self.phase != Phase::AwaitingRoot {
            self
        } else {
            match root {
                Some(r) => FindRefsView { phase: Phase::AwaitingFiles, root: r, ..self },
                None => FindRefsView { phase: Phase::Finished, ..self },
            }
        }
    }

    /// The state after the candidates were looked up in `index`: the search
    /// ends with no result where the index does not hold the name, and goes on
    /// to check the candidates where it does.
    pub open spec fn after_index(self, index: Map<Seq<char>, Seq<LocationView>>) -> FindRefsView {
        if self.phase != Phase::AwaitingFiles {
            self
        } else if index.dom().contains(self.name) && index[self.name].len() > 0 {
            FindRefsView { phase: Phase::Verifying, candidates: index[self.name], ..self }
        } else {
            FindRefsView { phase: Phase::Finished, ..self }
        }
    }

    /// The state after the files under the root were handed in. Where they
    /// could not be read, the search ends with no result.
    pub open spec fn after_files(self, files: Option<Seq<SourceFileView>>) -> FindRefsView {
        if self.phase != Phase::AwaitingFiles {
            self
        } else {
            match files {
                Some(fs) => self.after_index(files_index(fs)),
                None => FindRefsView { phase: Phase::Finished, ..self },
            }
        }
    }

    /// Whether the index could not be built: the files could not be read.
    pub open spec fn build_failed(self, files: Option<Seq<SourceFileView>>) -> bool {
        self.phase == Phase::AwaitingFiles && files is None
    }

    /// The state after the resolver's answer for the candidate that was handed
    /// out: the answer is recorded, and the search ends when it was the last.
    pub open spec fn after_resolution(self, outcome: ResolutionView) -> FindRefsView {
        if self.phase != Phase::Verifying {
            self
        } else {
            let outcomes = self.outcomes.push(outcome);
            if outcomes.len() == self.candidates.len() {
                FindRefsView { phase: Phase::Finished, outcomes, answered: true, ..self }
            } else {
                FindRefsView { outcomes, ..self }
            }
        }
    }

    /// Whether the answer `outcome` reports a file that had not failed before.
    pub open spec fn new_failure(self, outcome: ResolutionView) -> bool {
        &&& self.phase == Phase::Verifying
        &&& outcome == ResolutionView::CompileFailed
        &&& !self.failed().contains(self.candidates[self.outcomes.len() as int].uri)
    }

    /// Whether the search has ended without a reference to give: with no
    /// result, or with an empty list.
    pub open spec fn missed(self) -> bool {
        self.phase == Phase::Finished && (!self.answered || self.found().len() == 0)
    }

    /// What is logged when the package root is handed in: the miss, where
    /// there is no root.
    pub open spec fn root_logs(self, root: Option<Seq<char>>) -> Seq<LogRequestView> {
        if self.phase == Phase::AwaitingRoot && root is None {
            seq![miss_log(self.name)]
        } else {
            Seq::empty()
        }
    }

    /// What is logged when the candidates are looked up in `index`: the miss,
    /// where the index does not hold the name.
    pub open spec fn index_logs(self, index: Map<Seq<char>, Seq<LocationView>>) -> Seq<
        LogRequestView,
    > {
        if self.phase == Phase::AwaitingFiles && !(index.dom().contains(self.name)
            && index[self.name].len() > 0) {
            seq![miss_log(self.name)]
        } else {
            Seq::empty()
        }
    }

    /// What is logged when the files under the root are handed in: that the
    /// index could not be built, where it could not, and else the miss, where
    /// the index does not hold the name.
    pub open spec fn files_logs(self, files: Option<Seq<SourceFileView>>) -> Seq<LogRequestView> {
        if self.phase != Phase::AwaitingFiles {
            Seq::empty()
        } else if self.build_failed(files) {
            seq![LogRequestView { message: build_failure_message(), must_succeed: true }]
        } else {
            self.index_logs(files_index(files->0))
        }
    }

    /// What is logged when the resolver's answer is handed in: the file that
    /// failed to compile, where it had not failed before, and then the miss,
    /// where that was the last candidate and none was confirmed.
    pub open spec fn resolution_logs(self, outcome: ResolutionView) -> Seq<LogRequestView> {
        if self.phase != Phase::Verifying {
            Seq::empty()
        } else {
            let failure = if self.new_failure(outcome) {
                seq![
                    LogRequestView {
                        message: compile_failure_message(self.cursor_path),
                        must_succeed: false,
                    },
                ]
            } else {
                Seq::empty()
            };
            let miss = if self.after_resolution(outcome).missed() {
                seq![miss_log(self.name)]
            } else {
                Seq::empty()
            };
            failure + miss
        }
    }
}

/// The message logged when a search finds no reference to `name`.
pub open spec fn miss_message(name: Seq<char>) -> Seq<char> {
    "References of "@ + name + " not found"@
}

/// The request to log that a search found no reference to `name`. A failure
/// to log it does not end the search.
pub open spec fn miss_log(name: Seq<char>) -> LogRequestView {
    LogRequestView { message: miss_message(name), must_succeed: false }
}

/// The message logged when a file fails to compile during a search started
/// from `cursor_path`.
pub open spec fn compile_failure_message(cursor_path: Seq<char>) -> Seq<char> {
    cursor_path + " compilation failed"@
}

/// The message logged when the word index cannot be built.
pub open spec fn build_failure_message() -> Seq<char> {
    "build word index failed"@
}

/// Every reference that a search returns was confirmed: it is one of the
/// candidates, and the resolver's answer for it is the one definition that
/// the search is about.
pub proof fn lemma_confirmed_sound(
    def_loc: LocationView,
    candidates: Seq<LocationView>,
    outcomes: Seq<ResolutionView>,
    x: LocationView,
)
    requires
        outcomes.len() <= candidates.len(),
        confirmed(def_loc, candidates, outcomes).contains(x),
    ensures
        exists|i: int|
            0 <= i < outcomes.len() && candidates[i] == x && #[trigger] outcomes[i]
                == ResolutionView::Definition(def_loc),
    decreases outcomes.len(),
{
    if outcomes.len() > 0 {
        let n = outcomes.len() - 1;
        let front = outcomes.drop_last();
        let earlier = confirmed(def_loc, candidates, front);
        if earlier.contains(x) {
            lemma_confirmed_sound(def_loc, candidates, front, x);
            let i = choose|i: int|
                0 <= i < front.len() && candidates[i] == x && #[trigger] front[i]
                    == ResolutionView::Definition(def_loc);
            assert(outcomes[i] == front[i]);
        } else {
            let all = confirmed(def_loc, candidates, outcomes);
            let k = choose|k: int| 0 <= k < all.len() && all[k] == x;
            if k < earlier.len() {
                assert(earlier[k] == x);
            }
            assert(outcomes[n] == ResolutionView::Definition(def_loc));
        }
    }
}

/// Every candidate that the resolver confirmed is among the references that
/// the search returns.
pub proof fn lemma_confirmed_complete(
    def_loc: LocationView,
    candidates: Seq<LocationView>,
    outcomes: Seq<ResolutionView>,
    i: int,
)
    requires
        outcomes.len() <= candidates.len(),
        0 <= i < outcomes.len(),
        outcomes[i] == ResolutionView::Definition(def_loc),
    ensures
        confirmed(def_loc, candidates, outcomes).contains(candidates[i]),
    decreases outcomes.len(),
{
    let n = outcomes.len() - 1;
    let front = outcomes.drop_last();
    let earlier = confirmed(def_loc, candidates, front);
    let all = confirmed(def_loc, candidates, outcomes);
    if i < n {
        assert(front[i] == outcomes[i]);
        lemma_confirmed_complete(def_loc, candidates, front, i);
        let k = choose|k: int| 0 <= k < earlier.len() && earlier[k] == candidates[i];
        assert(all[k] == candidates[i]);
    } else {
        assert(all[all.len() - 1] == candidates[i]);
    }
}

/// A search that has ended with an answer has asked about every candidate,
/// and its answer is the list of the candidates that were confirmed.
pub proof fn lemma_finished_search(v: FindRefsView)
    requires
        v.wf(),
        v.phase == Phase::Finished,
        v.answered,
    ensures
        v.outcomes.len() == v.candidates.len(),
        v.pending() == (RequestView::Finish {
            result: Some(confirmed(v.def_loc, v.candidates, v.outcomes)),
        }),
{
}

/// A search that ends without a reference to give says so in the log: the
/// step that ends it asks to log the miss, or, where the word index could not
/// be built, that failure.
pub proof fn lemma_miss_is_logged(
    v: FindRefsView,
    root: Option<Seq<char>>,
    index: Map<Seq<char>, Seq<LocationView>>,
    files: Option<Seq<SourceFileView>>,
    outcome: ResolutionView,
)
    requires
        v.wf(),
        v.phase != Phase::Finished,
    ensures
        v.after_root(root).missed() ==> v.root_logs(root) == seq![miss_log(v.name)],
        v.after_index(index).missed() ==> v.index_logs(index) == seq![miss_log(v.name)],
        v.after_files(files).missed() ==> v.files_logs(files) == if v.build_failed(files) {
            seq![LogRequestView { message: build_failure_message(), must_succeed: true }]
        } else {
            seq![miss_log(v.name)]
        },
        v.after_resolution(outcome).missed() ==> v.resolution_logs(outcome).len() > 0
            && v.resolution_logs(outcome).last() == miss_log(v.name),
{
}

/// The references come in the order of the candidates: each lies behind the
/// one before it in the list of candidates.
pub proof fn lemma_confirmed_in_order(
    def_loc: LocationView,
    candidates: Seq<LocationView>,
    outcomes: Seq<ResolutionView>,
) -> (origin: Seq<int>)
    requires
        outcomes.len() <= candidates.len(),
    ensures
        origin.len() == confirmed(def_loc, candidates, outcomes).len(),
        forall|k: int|
            0 <= k < origin.len() ==> 0 <= #[trigger] origin[k] < outcomes.len()
                && candidates[origin[k]] == confirmed(def_loc, candidates, outcomes)[k],
        forall|a: int, b: int|
            0 <= a < b < origin.len() ==> #[trigger] origin[a] < #[trigger] origin[b],
    decreases outcomes.len(),
{
    if outcomes.len() == 0 {
        Seq::empty()
    } else {
        let front = outcomes.drop_last();
        let earlier = lemma_confirmed_in_order(def_loc, candidates, front);
        if outcomes.last() == ResolutionView::Definition(def_loc) {
            earlier.push(outcomes.len() - 1)
        } else {
            earlier
        }
    }
}

/// Every place where the name occurs as a word of one of the files is a
/// candidate, once the index was built from the files.
pub proof fn lemma_candidates_complete(
    files: Seq<SourceFileView>,
    j: int,
    k: int,
    name: Seq<char>,
)
    requires
        0 <= j < files.len(),
        0 <= k < words_of(files[j].text).len(),
        words_of(files[j].text)[k].text == name,
    ensures
        locations_of(files_index(files), name).contains(
            occurrence(words_of(files[j].text)[k], files[j].uri),
        ),
{
    let words = words_of(files[j].text);
    let place = occurrence(words[k], files[j].uri);
    lemma_occurrences_hold(words, files[j].uri, name, k);
    lemma_index_of_lists(|v: Seq<char>| occurrences(words, files[j].uri, v), name);
    lemma_files_index_members(files, name, place);
}

/// No file is among the failing files twice, and a file is among them exactly
/// where the resolver reported for one of its candidates that it does not
/// compile.
pub proof fn lemma_failing_files(candidates: Seq<LocationView>, outcomes: Seq<ResolutionView>)
    requires
        outcomes.len() <= candidates.len(),
    ensures
        failing_files(candidates, outcomes).no_duplicates(),
        forall|uri: Seq<char>| #[trigger]
            failing_files(candidates, outcomes).contains(uri) <==> exists|i: int|
                0 <= i < outcomes.len() && candidates[i].uri == uri && #[trigger] outcomes[i]
                    == ResolutionView::CompileFailed,
    decreases outcomes.len(),
{
    let all = failing_files(candidates, outcomes);
    if outcomes.len() > 0 {
        let n = outcomes.len() - 1;
        let front = outcomes.drop_last();
        let earlier = failing_files(candidates, front);
        lemma_failing_files(candidates, front);
        assert forall|uri: Seq<char>| #[trigger]
            all.contains(uri) <==> exists|i: int|
                0 <= i < outcomes.len() && candidates[i].uri == uri && #[trigger] outcomes[i]
                    == ResolutionView::CompileFailed by {
            if earlier.contains(uri) {
                let i = choose|i: int|
                    0 <= i < front.len() && candidates[i].uri == uri && #[trigger] front[i]
                        == ResolutionView::CompileFailed;
                assert(outcomes[i] == front[i]);
                let k = choose|k: int| 0 <= k < earlier.len() && earlier[k] == uri;
                assert(all[k] == uri);
            }
            if all.contains(uri) && !earlier.contains(uri) {
                let k = choose|k: int| 0 <= k < all.len() && all[k] == uri;
                if k < earlier.len() {
                    assert(earlier[k] == uri);
                }
                assert(outcomes[n] == ResolutionView::CompileFailed);
            }
            if exists|i: int|
                0 <= i < outcomes.len() && candidates[i].uri == uri && #[trigger] outcomes[i]
                    == ResolutionView::CompileFailed {
                let i = choose|i: int|
                    0 <= i < outcomes.len() && candidates[i].uri == uri && #[trigger] outcomes[i]
                        == ResolutionView::CompileFailed;
                if i < n {
                    assert(front[i] == outcomes[i]);
                } else if !earlier.contains(uri) {
                    assert(all[all.len() - 1] == uri);
                }
            }
        }
    }
}

/// The views of a sequence of strings.
pub open spec fn string_views(s: Seq<String>) -> Seq<Seq<char>> {
    s.map_values(|x: String| x@)
}

/// Whether `list` holds a string equal to `s`.
pub fn contains_string(list: &Vec<String>, s: &String) -> (b: bool)
    ensures
        b == string_views(list@).contains(s@),
{
    let n = list.len();
    let mut i: usize = 0;
    while i < n
        invariant
            n == list.len(),
            i <= n,
            forall|k: int| 0 <= k < i ==> string_views(list@)[k] != s@,
        decreases n - i,
    {
        if list[i] == *s {
            assert(string_views(list@)[i as int] == s@);
            return true;
        }
        i += 1;
    }
    false
}

/// One search for the references to a definition.
pub struct FindRefs {
    def_loc: Location,
    name: String,
    cursor_path: String,
    phase: Phase,
    root: String,
    candidates: Vec<Location>,
    decided: usize,
    outcomes: Ghost<Seq<ResolutionView>>,
    found: Vec<Location>,
    failed: Vec<String>,
    answered: bool,
}

impl View for FindRefs {
    type V = FindRefsView;

    closed spec fn view(&self) -> FindRefsView {
        FindRefsView {
            def_loc: self.def_loc@,
            name: self.name@,
            cursor_path: self.cursor_path@,
            phase: self.phase,
            root: self.root@,
            candidates: location_views(self.candidates@),
            outcomes: self.outcomes@,
            answered: self.answered,
        }
    }
}

/// Starts a search for the references to the definition at `def_loc` of the
/// identifier `name`. Messages about files that fail to compile name
/// `cursor_path`, the file that the search was started from.
pub fn find_refs(def_loc: Location, name: String, cursor_path: String) -> (r: (FindRefs, Step))
    ensures
        r.0.wf(),
        r.0@ == (FindRefsView {
            def_loc: def_loc@,
            name: name@,
            cursor_path: cursor_path@,
            phase: Phase::AwaitingRoot,
            root: Seq::<char>::empty(),
            candidates: Seq::<LocationView>::empty(),
            outcomes: Seq::<ResolutionView>::empty(),
            answered: false,
        }),
        r.1.logs@.len() == 0,
        r.1.request@ == r.0@.pending(),
{
    let search = FindRefs {
        def_loc,
        name,
        cursor_path,
        phase: Phase::AwaitingRoot,
        root: String::new(),
        candidates: Vec::new(),
        decided: 0,
        outcomes: Ghost(Seq::empty()),
        found: Vec::new(),
        failed: Vec::new(),
        answered: false,
    };
    proof {
        assert(location_views(search.candidates@) =~= Seq::<LocationView>::empty());
        assert(location_views(search.found@) =~= Seq::<LocationView>::empty());
        assert(string_views(search.failed@) =~= Seq::<Seq<char>>::empty());
    }
    let request = search.pending();
    (search, Step { logs: Vec::new(), request })
}

impl FindRefs {
    /// What holds of every search between two steps.
    pub closed spec fn wf(&self) -> bool {
        &&& self@.wf()
        &&& self.decided == self.outcomes@.len()
        &&& location_views(self.found@) == self@.found()
        &&& string_views(self.failed@) == self@.failed()
    }

    /// A state that is well formed here is well formed as contracts see it.
    pub proof fn lemma_wf(&self)
        requires
            self.wf(),
        ensures
            self@.wf(),
    {
    }

    /// The request to log that the search found no reference.
    fn miss(&self) -> (log: LogRequest)
        ensures
            log@ == miss_log(self.name@),
    {
        let mut message = String::from_str("References of ");
        message.append(self.name.as_str());
        message.append(" not found");
        LogRequest { message, must_succeed: false }
    }

    /// Where the search stands.
    pub fn phase(&self) -> (p: Phase)
        ensures
            p == self@.phase,
    {
        self.phase
    }

    /// What the search waits for.
    pub fn pending(&self) -> (request: Request)
        requires
            self.wf(),
        ensures
            request@ == self@.pending(),
    {
        match self.phase {
            Phase::AwaitingRoot => Request::FindRoot { path: file_path(self.def_loc.uri.as_str()) },
            Phase::AwaitingFiles => Request::ReadFiles { root: self.root.clone() },
            Phase::Verifying => {
                let c = &self.candidates[self.decided];
                assert(location_views(self.candidates@)[self.decided as int] == c@);
                Request::Resolve { file: file_path(c.uri.as_str()), position: c.range.start }
            },
            Phase::Finished => Request::Finish {
                result: if self.answered {
                    Some(copy_locations(&self.found))
                } else {
                    None
                },
            },
        }
    }

    /// Takes the package root of the definition's file, or `None` where it
    /// has none. Without a root the search ends with no result, and the miss
    /// is logged.
    pub fn on_root(&mut self, root: Option<String>) -> (step: Step)
        requires
            old(self).wf(),
        ensures
            final(self).wf(),
            final(self)@ == old(self)@.after_root(
                match root {
                    Some(r) => Some(r@),
                    None => None,
                },
            ),
            log_views(step.logs@) == old(self)@.root_logs(
                match root {
                    Some(r) => Some(r@),
                    None => None,
                },
            ),
            step.request@ == final(self)@.pending(),
    {
        let mut logs: Vec<LogRequest> = Vec::new();
        assert(log_views(logs@) =~= Seq::<LogRequestView>::empty());
        if self.phase == Phase::AwaitingRoot {
            match root {
                Some(r) => {
                    self.root = r;
                    self.phase = Phase::AwaitingFiles;
                },
                None => {
                    self.phase = Phase::Finished;
                    let miss = self.miss();
                    logs.push(miss);
                    assert(log_views(logs@) =~= seq![miss_log(self.name@)]);
                },
            }
        }
        Step { logs, request: self.pending() }
    }

    /// Takes the candidates from `index`, the word index of the package root.
    /// Where the index does not hold the name, the search ends with no result,
    /// and the miss is logged.
    pub fn on_index(&mut self, index: &WordIndex) -> (step: Step)
        requires
            old(self).wf(),
        ensures
            final(self).wf(),
            final(self)@ == old(self)@.after_index(index@),
            log_views(step.logs@) == old(self)@.index_logs(index@),
            step.request@ == final(self)@.pending(),
    {
        let mut logs: Vec<LogRequest> = Vec::new();
        assert(log_views(logs@) =~= Seq::<LogRequestView>::empty());
        if self.phase == Phase::AwaitingFiles {
            match index.get(self.name.as_str()) {
                Some(list) => {
                    let candidates = copy_locations(list);
                    assert(location_views(candidates@).len() == candidates@.len());
                    self.candidates = candidates;
                    self.phase = Phase::Verifying;
                },
                None => {
                    self.phase = Phase::Finished;
                    let miss = self.miss();
                    logs.push(miss);
                    assert(log_views(logs@) =~= seq![miss_log(self.name@)]);
                },
            }
        }
        Step { logs, request: self.pending() }
    }

    /// Takes the source files under the package root, or `None` where they
    /// could not be read, builds the word index from them and takes the
    /// candidates from it. A failure to build the index is logged, and the
    /// search ends with no result; so it does, with the miss logged, where
    /// the index does not hold the name.
    pub fn on_files(&mut self, files: Option<Vec<SourceFile>>) -> (step: Step)
        requires
            old(self).wf(),
        ensures
            final(self).wf(),
            final(self)@ == old(self)@.after_files(
                match files {
                    Some(fs) => Some(file_views(fs@)),
                    None => None,
                },
            ),
            log_views(step.logs@) == old(self)@.files_logs(
                match files {
                    Some(fs) => Some(file_views(fs@)),
                    None => None,
                },
            ),
            step.request@ == final(self)@.pending(),
    {
        let mut logs: Vec<LogRequest> = Vec::new();
        assert(log_views(logs@) =~= Seq::<LogRequestView>::empty());
        if self.phase != Phase::AwaitingFiles {
            return Step { logs, request: self.pending() };
        }
        match files {
            Some(fs) => {
                let index = WordIndex::build(&fs);
                self.on_index(&index)
            },
            None => {
                self.phase = Phase::Finished;
                let log = LogRequest {
                    message: String::from_str("build word index failed"),
                    must_succeed: true,
                };
                logs.push(log);
                assert(log_views(logs@) =~= seq![
                    LogRequestView { message: build_failure_message(), must_succeed: true },
                ]);
                Step { logs, request: self.pending() }
            },
        }
    }

    /// Takes the resolver's answer for the candidate that was handed out.
    /// The candidate is kept where the answer is the one definition that the
    /// search is about. A file that fails to compile is logged the first time.
    /// Where this was the last candidate and none was confirmed, the miss is
    /// logged.
    pub fn on_resolution(&mut self, outcome: Resolution) -> (step: Step)
        requires
            old(self).wf(),
        ensures
            final(self).wf(),
            final(self)@ == old(self)@.after_resolution(outcome@),
            log_views(step.logs@) == old(self)@.resolution_logs(outcome@),
            step.request@ == final(self)@.pending(),
    {
        let mut logs: Vec<LogRequest> = Vec::new();
        assert(log_views(logs@) =~= Seq::<LogRequestView>::empty());
        if self.phase != Phase::Verifying {
            return Step { logs, request: self.pending() };
        }
        let ghost before = self.outcomes@;
        let ghost cands = location_views(self.candidates@);
        let candidate = &self.candidates[self.decided];
        assert(cands[self.decided as int] == candidate@);
        proof {
            assert(before.push(outcome@).drop_last() == before);
        }
        match &outcome {
            Resolution::Definition(l) => {
                if l.same_as(&self.def_loc) {
                    let ghost found = location_views(self.found@);
                    let keep = candidate.duplicate();
                    self.found.push(keep);
                    assert(location_views(self.found@) =~= found.push(candidate@));
                }
            },
            Resolution::CompileFailed => {
                if !contains_string(&self.failed, &candidate.uri) {
                    let ghost failed = string_views(self.failed@);
                    self.failed.push(candidate.uri.clone());
                    assert(string_views(self.failed@) =~= failed.push(candidate@.uri));
                    let mut message = self.cursor_path.clone();
                    message.append(" compilation failed");
                    logs.push(LogRequest { message, must_succeed: false });
                    assert(log_views(logs@) =~= seq![
                        LogRequestView {
                            message: compile_failure_message(self.cursor_path@),
                            must_succeed: false,
                        },
                    ]);
                }
            },
            _ => {},
        }
        assert(cands.len() == self.candidates.len());
        self.outcomes = Ghost(before.push(outcome@));
        self.decided = self.decided + 1;
        if self.decided == self.candidates.len() {
            self.phase = Phase::Finished;
            self.answered = true;
            if self.found.len() == 0 {
                let ghost logged = log_views(logs@);
                let miss = self.miss();
                logs.push(miss);
                assert(log_views(logs@) =~= logged + seq![miss_log(self.name@)]);
            }
        }
        proof {
            assert(location_views(self.found@).len() == self.found.len());
            assert(log_views(logs@) + Seq::<LogRequestView>::empty() =~= log_views(logs@));
        }
        Step { logs, request: self.pending() }
    }
}

} // verus!
