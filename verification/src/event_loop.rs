//! One turn of the event loop, and what follows a turn: taking in the files
//! that changed and choosing the files whose diagnostics are published.
//!
//! The server runs until the client sends `exit`. A request to shut down is
//! remembered for good: from then on every request is rejected, while
//! notifications and the results of background work are still handled.

use vstd::prelude::*;
use indexmap::IndexSet;
use std::collections::hash_map::RandomState;
use std::collections::HashMap;
use crate::chars::{decimal, push_decimal};
use crate::opened_files::{clone_set, members, to_vec};
use crate::request_queue::{RequestId, RequestIdView};
use crate::state::{
    request_outcome, LanguageServerState, Notification, NotificationView, RequestOutcome,
    RequestOutcomeView, ServerError, StateView, INVALID_REQUEST,
};
use crate::workspace::WordIndexMap;

verus! {

/// What background work hands back to the loop.
#[derive(Clone, Debug, PartialEq, Eq)]
pub enum Task {
    /// The answer to the request `id`.
    Response { id: RequestId },
    /// A notification for the client.
    Notify,
}

/// What a `Task` stands for in contracts.
pub enum TaskView {
    Response { id: RequestIdView },
    Notify,
}

impl View for Task {
    type V = TaskView;

    open spec fn view(&self) -> TaskView {
        match self {
            Task::Response { id } => TaskView::Response { id: id@ },
            Task::Notify => TaskView::Notify,
        }
    }
}

/// What the loop waits for.
#[derive(Clone, Debug, PartialEq, Eq)]
pub enum Event {
    /// Background work has a result.
    Task(Task),
    /// The client sent a request.
    Request { id: RequestId, method: String, received: u64 },
    /// The client sent a notification.
    Notification(Notification),
    /// The client sent a response.
    Response,
}

/// What an `Event` stands for in contracts.
pub enum EventView {
    Task(TaskView),
    Request { id: RequestIdView, method: Seq<char>, received: u64 },
    Notification(NotificationView),
    Response,
}

impl View for Event {
    type V = EventView;

    open spec fn view(&self) -> EventView {
        match self {
            Event::Task(t) => EventView::Task(t@),
            Event::Request { id, method, received } => EventView::Request {
                id: id@,
                method: method@,
                received: *received,
            },
            Event::Notification(n) => EventView::Notification(n@),
            Event::Response => EventView::Response,
        }
    }
}

/// What is to be done after an event was handled.
#[derive(Clone, Debug, PartialEq, Eq)]
pub enum EventOutcome {
    /// The client sent `exit`: the loop ends.
    Exit,
    /// A result of background work: it is sent on, unless it answers a
    /// request that is not pending.
    Task { send: bool },
    /// A request: see `RequestOutcome`.
    Request(RequestOutcome),
    /// A notification was handled; `text` is to be stored for the document
    /// that it changed, if it changed one.
    Notification { text: Option<String> },
    /// The handler of a notification failed: the failure is logged, and the
    /// loop goes on.
    Failed { error: ServerError },
    /// Nothing.
    Ignored,
}

/// What an `EventOutcome` stands for in contracts.
pub enum EventOutcomeView {
    Exit,
    Task { send: bool },
    Request(RequestOutcomeView),
    Notification { text: Option<Seq<char>> },
    Failed { error: ServerError },
    Ignored,
}

impl View for EventOutcome {
    type V = EventOutcomeView;

    open spec fn view(&self) -> EventOutcomeView {
        match self {
            EventOutcome::Exit => EventOutcomeView::Exit,
            EventOutcome::Task { send } => EventOutcomeView::Task { send: *send },
            EventOutcome::Request(r) => EventOutcomeView::Request(r@),
            EventOutcome::Notification { text } => EventOutcomeView::Notification {
                text: match text {
                    Some(t) => Some(t@),
                    None => None,
                },
            },
            EventOutcome::Failed { error } => EventOutcomeView::Failed { error: *error },
            EventOutcome::Ignored => EventOutcomeView::Ignored,
        }
    }
}

/// What came of a file that the file store reports as changed.
pub enum Compilation<D> {
    /// The file store has no name for the file.
    NameNotFound,
    /// The file did not compile.
    Failed { filename: String },
    /// The file compiled to `db`.
    Compiled { db: D },
}

/// A file that changed, with what came of compiling it.
pub struct FileChange<D> {
    pub file_id: u32,
    pub result: Compilation<D>,
}

/// The analysis cache after the changed files were taken in, first to last:
/// a file that compiled gets its new entry, any other keeps what it had.
pub open spec fn analysis_after<D>(analysis: Map<u32, D>, changes: Seq<FileChange<D>>) -> Map<
    u32,
    D,
>
    decreases changes.len(),
{
    if changes.len() == 0 {
        analysis
    } else {
        let earlier = analysis_after(analysis, changes.drop_last());
        match changes.last().result {
            Compilation::Compiled { db } => earlier.insert(changes.last().file_id, db),
            _ => earlier,
        }
    }
}

/// The message logged for a changed file, where there is one.
pub open spec fn change_message<D>(change: FileChange<D>) -> Option<Seq<char>> {
    match change.result {
        Compilation::NameNotFound => Some(
            "FileId("@ + decimal(change.file_id as nat) + ") not found"@,
        ),
        Compilation::Failed { filename } => Some(filename@ + " compilation failed"@),
        Compilation::Compiled { db } => None,
    }
}

/// The messages logged for the changed files, in their order.
pub open spec fn change_messages<D>(changes: Seq<FileChange<D>>) -> Seq<Seq<char>>
    decreases changes.len(),
{
    if changes.len() == 0 {
        Seq::empty()
    } else {
        let earlier = change_messages(changes.drop_last());
        match change_message(changes.last()) {
            Some(m) => earlier.push(m),
            None => earlier,
        }
    }
}

/// The views of a sequence of strings.
pub open spec fn message_views(s: Seq<String>) -> Seq<Seq<char>> {
    s.map_values(|x: String| x@)
}

/// The opened files that have an analysis entry, in the order of the opened
/// files.
pub open spec fn files_to_publish<D>(opened: Seq<u32>, db: Map<u32, D>) -> Seq<u32> {
    opened.filter(|id: u32| db.contains_key(id))
}

impl<D> StateView<D> {
    /// What is to be done after the event.
    pub open spec fn event_outcome(self, e: EventView) -> EventOutcomeView {
        match e {
            EventView::Notification(NotificationView::Exit) => EventOutcomeView::Exit,
            EventView::Task(TaskView::Notify) => EventOutcomeView::Task { send: true },
            EventView::Task(TaskView::Response { id }) => EventOutcomeView::Task {
                send: self.pending.contains_key(id),
            },
            EventView::Request { id, method, received } => EventOutcomeView::Request(
                request_outcome(self.shutdown_requested, method),
            ),
            EventView::Notification(n) => match self.notification_error(n) {
                Some(error) => EventOutcomeView::Failed { error },
                None => EventOutcomeView::Notification { text: self.notification_text(n) },
            },
            EventView::Response => EventOutcomeView::Ignored,
        }
    }

    /// The state after the event.
    pub open spec fn after_event(self, e: EventView) -> StateView<D> {
        match e {
            EventView::Task(TaskView::Response { id }) => StateView {
                pending: self.pending.remove(id),
                ..self
            },
            EventView::Request { id, method, received } => self.after_request(
                id,
                method,
                received,
            ),
            EventView::Notification(n) => self.after_notification(n),
            _ => self,
        }
    }
}

/// Once a shutdown was requested it stays requested, whatever event comes,
/// and every request is rejected as invalid.
pub proof fn lemma_shutdown_is_final<D>(v: StateView<D>, e: EventView)
    requires
        v.shutdown_requested,
    ensures
        v.after_event(e).shutdown_requested,
        e is Request ==> v.event_outcome(e) == EventOutcomeView::Request(
            RequestOutcomeView::Reject {
                code: INVALID_REQUEST,
                message: "shutdown was requested"@,
            },
        ),
        e is Request ==> v.after_event(e).pending == v.pending.remove(e->Request_id),
{
}

/// The views of a sequence of events.
pub open spec fn event_views(events: Seq<Event>) -> Seq<EventView> {
    events.map_values(|e: Event| e@)
}

/// The views of a sequence of outcomes.
pub open spec fn outcome_views(outcomes: Seq<EventOutcome>) -> Seq<EventOutcomeView> {
    outcomes.map_values(|o: EventOutcome| o@)
}

/// What comes of handling the events from the `i`-th on, one after the other,
/// until the client sends `exit`: the state at the end and the outcome of
/// each event that was handled, that of `exit` being the last.
pub open spec fn run_from<D>(v: StateView<D>, events: Seq<EventView>, i: int) -> (
    StateView<D>,
    Seq<EventOutcomeView>,
)
    decreases events.len() - i,
{
    if i < 0 || i >= events.len() {
        (v, Seq::empty())
    } else if events[i] == EventView::Notification(NotificationView::Exit) {
        (v, seq![EventOutcomeView::Exit])
    } else {
        let rest = run_from(v.after_event(events[i]), events, i + 1);
        (rest.0, seq![v.event_outcome(events[i])] + rest.1)
    }
}

/// The notification that tells the client to log a message.
#[derive(Clone, Debug, PartialEq, Eq)]
pub struct LogMessage {
    pub method: String,
    /// The kind of message; see `MESSAGE_TYPE_INFO`.
    pub typ: u32,
    pub message: String,
}

/// The kind of a message that informs.
pub const MESSAGE_TYPE_INFO: u32 = 3;

/// A copy of the state for background work.
pub struct LanguageServerSnapshot<D> {
    /// What the last compilation of each file produced.
    pub db: HashMap<u32, D>,
    /// The files that are open in the editor.
    pub opened_files: IndexSet<u32, RandomState>,
    /// The word index of each package root that was asked for.
    pub word_index_map: WordIndexMap,
}

/// Why a snapshot has no analysis entry to give.
#[derive(Clone, Copy, Debug, PartialEq, Eq, Structural)]
pub enum SnapshotError {
    /// The file store has no identity for the path.
    FileIdNotFound,
    /// The file has no analysis entry.
    DatabaseNotFound,
}

impl SnapshotError {
    /// The error in words, for the file `path`.
    pub fn message(&self, path: &str) -> (text: String)
        ensures
            text@ == match self {
                SnapshotError::FileIdNotFound => "Path "@ + path@ + " fileId not found"@,
                SnapshotError::DatabaseNotFound => "Path "@ + path@
                    + " AnalysisDatabase not found"@,
            },
    {
        let mut text = String::from_str("Path ");
        text.append(path);
        match self {
            SnapshotError::FileIdNotFound => text.append(" fileId not found"),
            SnapshotError::DatabaseNotFound => text.append(" AnalysisDatabase not found"),
        }
        text
    }
}

impl<D> LanguageServerSnapshot<D> {
    /// The analysis entry of the file that the file store knows as `file_id`.
    pub fn get_db(&self, file_id: Option<u32>) -> (r: Result<&D, SnapshotError>)
        ensures
            match r {
                Ok(db) => file_id is Some && self.db@.contains_key(file_id->0) && *db
                    == self.db@[file_id->0],
                Err(SnapshotError::FileIdNotFound) => file_id is None,
                Err(SnapshotError::DatabaseNotFound) => file_id is Some && !self.db@.contains_key(
                    file_id->0,
                ),
            },
    {
        broadcast use vstd::std_specs::hash::group_hash_axioms;

        match file_id {
            Some(id) => match self.db.get(&id) {
                Some(db) => Ok(db),
                None => Err(SnapshotError::DatabaseNotFound),
            },
            None => Err(SnapshotError::FileIdNotFound),
        }
    }
}

/// The files whose diagnostics are to be published from the snapshot: the
/// opened files that have an analysis entry, in the order of the opened files.
pub fn handle_diagnostics<D>(snapshot: &LanguageServerSnapshot<D>) -> (files: Vec<u32>)
    ensures
        files@ == files_to_publish(members(snapshot.opened_files), snapshot.db@),
{
    broadcast use vstd::std_specs::hash::group_hash_axioms;

    let opened = to_vec(&snapshot.opened_files);
    let ghost pred = |id: u32| snapshot.db@.contains_key(id);
    let mut files: Vec<u32> = Vec::new();
    let n = opened.len();
    let mut i: usize = 0;
    proof {
        reveal(Seq::filter);
    }
    while i < n
        invariant
            n == opened.len(),
            i <= n,
            opened@ == members(snapshot.opened_files),
            pred == |id: u32| snapshot.db@.contains_key(id),
            files@ =~= opened@.take(i as int).filter(pred),
        decreases n - i,
    {
        proof {
            assert(opened@.take(i as int + 1) == opened@.take(i as int).push(opened@[i as int]));
            opened@.take(i as int).lemma_filter_push(opened@[i as int], pred);
        }
        if snapshot.db.contains_key(&opened[i]) {
            files.push(opened[i]);
        }
        i += 1;
    }
    proof {
        assert(opened@.take(n as int) == opened@);
    }
    files
}

impl<D> LanguageServerState<D> {
    /// Takes a result of background work. Returns whether it is to be sent
    /// on: a notification always, an answer where its request is pending.
    pub fn handle_task(&mut self, task: &Task) -> (send: bool)
        ensures
            old(self)@.event_outcome(EventView::Task(task@)) == (EventOutcomeView::Task { send }),
            final(self)@ == old(self)@.after_event(EventView::Task(task@)),
    {
        match task {
            Task::Notify => true,
            Task::Response { id } => self.respond(id).is_some(),
        }
    }

    /// Handles one event.
    pub fn handle_event(&mut self, event: Event) -> (outcome: EventOutcome)
        ensures
            outcome@ == old(self)@.event_outcome(event@),
            final(self)@ == old(self)@.after_event(event@),
    {
        match event {
            Event::Task(task) => EventOutcome::Task { send: self.handle_task(&task) },
            Event::Request { id, method, received } => EventOutcome::Request(
                self.on_request(&id, method.as_str(), received),
            ),
            Event::Notification(Notification::Exit) => EventOutcome::Exit,
            Event::Notification(notification) => match self.on_notification(notification) {
                Ok(text) => EventOutcome::Notification { text },
                Err(error) => EventOutcome::Failed { error },
            },
            Event::Response => EventOutcome::Ignored,
        }
    }

    /// Takes in the files that the file store reports as changed, with what
    /// came of compiling each. Returns whether anything changed, and the
    /// messages to log.
    pub fn process_vfs_changes(&mut self, changes: Vec<FileChange<D>>) -> (r: (bool, Vec<String>))
        ensures
            r.0 == (changes@.len() > 0),
            message_views(r.1@) == change_messages(changes@),
            final(self)@ == (StateView {
                analysis: analysis_after(old(self)@.analysis, changes@),
                ..old(self)@
            }),
    {
        let ghost before = self@;
        let ghost all = changes@;
        let state_changed = changes.len() > 0;
        let mut logs: Vec<String> = Vec::new();
        assert(message_views(logs@) =~= Seq::<Seq<char>>::empty());
        for change in it: changes.into_iter()
            invariant
                it.seq() == all,
                message_views(logs@) == change_messages(all.take(it.index() as int)),
                self@ == (StateView {
                    analysis: analysis_after(before.analysis, all.take(it.index() as int)),
                    ..before
                }),
        {
            proof {
                let k = it.index() as int;
                assert(all.take(k + 1).drop_last() == all.take(k));
                assert(all.take(k + 1).last() == change);
            }
            let ghost logged = message_views(logs@);
            match change.result {
                Compilation::Compiled { db } => {
                    self.analysis.set_db(change.file_id, db);
                },
                Compilation::Failed { filename } => {
                    let mut message = filename;
                    message.append(" compilation failed");
                    logs.push(message);
                    assert(message_views(logs@) =~= logged.push(message@));
                },
                Compilation::NameNotFound => {
                    let mut message = String::from_str("FileId(");
                    push_decimal(&mut message, change.file_id);
                    message.append(") not found");
                    logs.push(message);
                    assert(message_views(logs@) =~= logged.push(message@));
                },
            }
        }
        proof {
            assert(all.take(all.len() as int) == all);
        }
        (state_changed, logs)
    }
}

impl<D> LanguageServerState<D> {
    /// Handles the events one after the other until the client sends `exit`;
    /// what comes behind `exit` is not handled. Returns the outcome of each
    /// event that was handled.
    pub fn run(&mut self, events: Vec<Event>) -> (outcomes: Vec<EventOutcome>)
        ensures
            (final(self)@, outcome_views(outcomes@)) == run_from(
                old(self)@,
                event_views(events@),
                0,
            ),
    {
        let ghost before = self@;
        let ghost all = event_views(events@);
        let ghost given = events@;
        let mut outcomes: Vec<EventOutcome> = Vec::new();
        let mut done = false;
        assert(outcome_views(outcomes@) =~= Seq::<EventOutcomeView>::empty());
        for event in it: events.into_iter()
            invariant
                it.seq() == given,
                all == event_views(given),
                !done ==> run_from(before, all, 0) == (
                    run_from(self@, all, it.index() as int).0,
                    outcome_views(outcomes@) + run_from(self@, all, it.index() as int).1,
                ),
                done ==> run_from(before, all, 0) == (self@, outcome_views(outcomes@)),
        {
            if !done {
                let ghost k = it.index() as int;
                let ghost told = outcome_views(outcomes@);
                let ghost now = self@;
                assert(all[k] == event@);
                let outcome = self.handle_event(event);
                match &outcome {
                    EventOutcome::Exit => {
                        done = true;
                    },
                    _ => {},
                }
                outcomes.push(outcome);
                proof {
                    assert(outcome_views(outcomes@) =~= told.push(outcome@));
                    if all[k] == EventView::Notification(NotificationView::Exit) {
                        assert(told + seq![EventOutcomeView::Exit] =~= told.push(outcome@));
                    } else {
                        let rest = run_from(now.after_event(all[k]), all, k + 1);
                        assert(told + (seq![now.event_outcome(all[k])] + rest.1) =~= told.push(
                            outcome@,
                        ) + rest.1);
                    }
                }
            }
        }
        proof {
            if !done {
                assert(outcome_views(outcomes@) + Seq::<EventOutcomeView>::empty()
                    =~= outcome_views(outcomes@));
            }
        }
        outcomes
    }

    /// The notification that tells the client to log `message`.
    pub fn log_message(&self, message: String) -> (log: LogMessage)
        ensures
            log.method@ == "window/logMessage"@,
            log.typ == MESSAGE_TYPE_INFO,
            log.message@ == message@,
    {
        LogMessage {
            method: String::from_str("window/logMessage"),
            typ: MESSAGE_TYPE_INFO,
            message,
        }
    }
}

/// What ends a turn of the loop: the messages to log and, where files
/// changed, the snapshot from which diagnostics are published.
pub struct TurnEnd<D> {
    pub logs: Vec<String>,
    pub diagnostics: Option<LanguageServerSnapshot<D>>,
}

impl<D: Clone> LanguageServerState<D> {
    /// A copy of the state for background work. What is done to the state
    /// later does not show in the copy.
    pub fn snapshot(&self) -> (snapshot: LanguageServerSnapshot<D>)
        ensures
            snapshot.db@ == self@.analysis,
            members(snapshot.opened_files) == self@.opened_files,
            snapshot.word_index_map@ == self@.word_index_map,
    {
        LanguageServerSnapshot {
            db: self.analysis.snapshot(),
            opened_files: clone_set(&self.opened_files),
            word_index_map: self.word_index_map.duplicate(),
        }
    }

    /// Ends a turn of the loop, after the event was handled: the files that
    /// changed are taken in, and where there are any, a snapshot of the state
    /// with them taken in is handed out for publishing diagnostics.
    pub fn end_turn(&mut self, changes: Vec<FileChange<D>>) -> (end: TurnEnd<D>)
        ensures
            message_views(end.logs@) == change_messages(changes@),
            final(self)@ == (StateView {
                analysis: analysis_after(old(self)@.analysis, changes@),
                ..old(self)@
            }),
            end.diagnostics is Some == (changes@.len() > 0),
            end.diagnostics is Some ==> {
                &&& end.diagnostics->0.db@ == final(self)@.analysis
                &&& members(end.diagnostics->0.opened_files) == final(self)@.opened_files
                &&& end.diagnostics->0.word_index_map@ == final(self)@.word_index_map
            },
    {
        let (state_changed, logs) = self.process_vfs_changes(changes);
        let diagnostics = if state_changed {
            Some(self.snapshot())
        } else {
            None
        };
        TurnEnd { logs, diagnostics }
    }
}

} // verus!
