//! The requests that were received and not answered yet.
//!
//! The queue is an `lsp_server::ReqQueue`. For each pending request it holds
//! the method and the time of receipt. What is stated here of the queue is
//! taken from the source of `lsp_server`; nothing of it is proved.

use vstd::prelude::*;
use lsp_server::ReqQueue;

verus! {

#[verifier::external_type_specification]
#[verifier::external_body]
#[verifier::reject_recursive_types(I)]
#[verifier::reject_recursive_types(O)]
pub struct ExReqQueue<I, O>(ReqQueue<I, O>);

/// The identity of a request: a number or a text, as the client chose.
#[derive(Clone, Debug, PartialEq, Eq)]
pub enum RequestId {
    Number(i32),
    Text(String),
}

/// What a `RequestId` stands for in contracts.
pub enum RequestIdView {
    Number(i32),
    Text(Seq<char>),
}

impl View for RequestId {
    type V = RequestIdView;

    open spec fn view(&self) -> RequestIdView {
        match self {
            RequestId::Number(n) => RequestIdView::Number(*n),
            RequestId::Text(s) => RequestIdView::Text(s@),
        }
    }
}

/// What the queue holds of a request that was received: its method and the
/// time of its receipt.
#[derive(Clone, Debug, PartialEq, Eq)]
pub struct PendingRequest {
    pub method: String,
    pub received: u64,
}

/// What a `PendingRequest` stands for in contracts.
pub struct PendingRequestView {
    pub method: Seq<char>,
    pub received: u64,
}

impl View for PendingRequest {
    type V = PendingRequestView;

    open spec fn view(&self) -> PendingRequestView {
        PendingRequestView { method: self.method@, received: self.received }
    }
}

/// The incoming requests that the queue holds, each under its identity.
pub uninterp spec fn pending(queue: ReqQueue<PendingRequest, String>) -> Map<RequestIdView, PendingRequestView>;

/// The queue's contents when it holds no request.
pub open spec fn no_requests() -> Map<RequestIdView, PendingRequestView> {
    Map::empty()
}

/// Calls `ReqQueue::default`: a queue without requests.
#[verifier::external_body]
pub(crate) fn new_queue() -> (fresh: ReqQueue<PendingRequest, String>)
    ensures
        pending(fresh) == no_requests(),
{
    ReqQueue::default()
}

/// Calls `Incoming::register`: the request is held under its identity, in
/// place of one that was held under the same identity.
#[verifier::external_body]
pub(crate) fn register(
    queue: &mut ReqQueue<PendingRequest, String>,
    id: &RequestId,
    request: PendingRequest,
)
    ensures
        pending(*final(queue)) == pending(*old(queue)).insert(id@, request@),
{
    let key = match id {
        RequestId::Number(n) => lsp_server::RequestId::from(*n),
        RequestId::Text(s) => lsp_server::RequestId::from(s.clone()),
    };
    queue.incoming.register(key, request);
}

/// Calls `Incoming::complete`: the request held under the identity is taken
/// out and handed back, or `None` where none is held under it.
#[verifier::external_body]
pub(crate) fn complete(queue: &mut ReqQueue<PendingRequest, String>, id: &RequestId) -> (r: Option<
    PendingRequest,
>)
    ensures
        r is Some == pending(*old(queue)).contains_key(id@),
        r is Some ==> r->0@ == pending(*old(queue))[id@],
        pending(*final(queue)) == pending(*old(queue)).remove(id@),
{
    let key = match id {
        RequestId::Number(n) => lsp_server::RequestId::from(*n),
        RequestId::Text(s) => lsp_server::RequestId::from(s.clone()),
    };
    queue.incoming.complete(key)
}

} // verus!
