//! The client's side of a conversation with the server, for driving a server
//! in one process: request identities are handed out in turn, and what the
//! server sends is recorded.

use vstd::prelude::*;
use crate::chars::same_text;
use crate::request_queue::{RequestId, RequestIdView};

verus! {

/// A project that a language server serves. It holds nothing of its own: the
/// files are found through the paths that the requests name.
#[derive(Clone, Copy, Debug, Default)]
pub struct Project {}

/// A message between client and server, as far as the conversation needs it.
#[derive(Clone, Debug, PartialEq, Eq)]
pub enum Message {
    Request { id: RequestId, method: String },
    Response { id: RequestId },
    Notification { method: String },
}

/// What a `Message` stands for in contracts.
pub enum MessageView {
    Request { id: RequestIdView, method: Seq<char> },
    Response { id: RequestIdView },
    Notification { method: Seq<char> },
}

impl View for Message {
    type V = MessageView;

    open spec fn view(&self) -> MessageView {
        match self {
            Message::Request { id, method } => MessageView::Request { id: id@, method: method@ },
            Message::Response { id } => MessageView::Response { id: id@ },
            Message::Notification { method } => MessageView::Notification { method: method@ },
        }
    }
}

/// The views of a sequence of messages.
pub open spec fn message_views(s: Seq<Message>) -> Seq<MessageView> {
    s.map_values(|m: Message| m@)
}

/// What a message from the server means to a client that waits for the
/// answer to a request.
#[derive(Clone, Copy, Debug, PartialEq, Eq, Structural)]
pub enum Reply {
    /// A notification: the client goes on waiting.
    Skip,
    /// The answer.
    Answer,
    /// A request, or the answer to another request: the server is at fault.
    Unexpected,
}

/// What `message` means to a client that waits for the answer to `id`.
pub open spec fn reply_to(message: MessageView, id: RequestIdView) -> Reply {
    match message {
        MessageView::Notification { method } => Reply::Skip,
        MessageView::Response { id: answered } => if answered == id {
            Reply::Answer
        } else {
            Reply::Unexpected
        },
        MessageView::Request { id: asked, method } => Reply::Unexpected,
    }
}

/// The identity that follows `id`: the next number, and the least one after
/// the greatest.
pub open spec fn following_id(id: i32) -> i32 {
    if id == i32::MAX {
        i32::MIN
    } else {
        (id + 1) as i32
    }
}

/// Whether `message` is the notification named `method`.
pub open spec fn is_notification(message: MessageView, method: Seq<char>) -> bool {
    message == (MessageView::Notification { method })
}

/// The number of notifications named `method` among `messages`.
pub open spec fn notified(messages: Seq<MessageView>, method: Seq<char>) -> nat {
    messages.filter(|m: MessageView| is_notification(m, method)).len()
}

/// The client's side of a conversation with a server.
pub struct Server {
    /// The identity that the next request gets.
    pub next_request_id: i32,
    /// What the server sent so far.
    pub messages: Vec<Message>,
}

impl Project {
    /// The client's side of a conversation with a server for this project.
    pub fn server(self) -> (server: Server)
        ensures
            server.next_request_id == 1,
            server.messages@.len() == 0,
    {
        Server::new()
    }
}

impl Server {
    /// A conversation in which nothing was said yet. The first request gets
    /// the identity 1.
    pub fn new() -> (server: Server)
        ensures
            server.next_request_id == 1,
            server.messages@.len() == 0,
    {
        Server { next_request_id: 1, messages: Vec::new() }
    }

    /// The request for `method` that the client sends next: it gets the next
    /// identity, and the one after it is kept for the following request.
    pub fn send_request(&mut self, method: &str) -> (request: Message)
        ensures
            request@ == (MessageView::Request {
                id: RequestIdView::Number(old(self).next_request_id),
                method: method@,
            }),
            final(self).next_request_id == following_id(old(self).next_request_id),
            final(self).messages == old(self).messages,
    {
        let id = self.next_request_id;
        self.next_request_id = if id == i32::MAX {
            i32::MIN
        } else {
            id + 1
        };
        Message::Request { id: RequestId::Number(id), method: String::from_str(method) }
    }

    /// The notification named `method`.
    pub fn notification(&self, method: &str) -> (notification: Message)
        ensures
            notification@ == (MessageView::Notification { method: method@ }),
    {
        Message::Notification { method: String::from_str(method) }
    }

    /// Records a message that the server sent.
    pub fn recv(&mut self, message: Message)
        ensures
            final(self).messages@ == old(self).messages@.push(message),
            final(self).next_request_id == old(self).next_request_id,
    {
        self.messages.push(message);
    }

    /// Whether the client still waits for the `n`-th notification named
    /// `method`.
    pub fn wait_for_message_cond(&self, n: usize, method: &str) -> (waiting: bool)
        ensures
            waiting == (notified(message_views(self.messages@), method@) < n),
    {
        let ghost views = message_views(self.messages@);
        let ghost pred = |m: MessageView| is_notification(m, method@);
        let len = self.messages.len();
        let mut total: usize = 0;
        let mut i: usize = 0;
        proof {
            reveal(Seq::filter);
        }
        while i < len
            invariant
                len == self.messages.len(),
                i <= len,
                total <= i,
                views == message_views(self.messages@),
                pred == |m: MessageView| is_notification(m, method@),
                total == views.take(i as int).filter(pred).len(),
            decreases len - i,
        {
            proof {
                assert(views.take(i as int + 1) == views.take(i as int).push(views[i as int]));
                views.take(i as int).lemma_filter_push(views[i as int], pred);
                assert(views[i as int] == self.messages@[i as int]@);
            }
            match &self.messages[i] {
                Message::Notification { method: name } => {
                    if same_text(name.as_str(), method) {
                        total += 1;
                    }
                },
                _ => {},
            }
            i += 1;
        }
        proof {
            assert(views.take(len as int) == views);
        }
        total < n
    }

    /// What `message` means to a client that waits for the answer to `id`.
    pub fn send_and_receive(id: &RequestId, message: &Message) -> (reply: Reply)
        ensures
            reply == reply_to(message@, id@),
    {
        match message {
            Message::Notification { .. } => Reply::Skip,
            Message::Response { id: answered } => {
                let same = match (answered, id) {
                    (RequestId::Number(a), RequestId::Number(b)) => *a == *b,
                    (RequestId::Text(a), RequestId::Text(b)) => *a == *b,
                    _ => false,
                };
                if same {
                    Reply::Answer
                } else {
                    Reply::Unexpected
                }
            },
            Message::Request { .. } => Reply::Unexpected,
        }
    }
}

} // verus!
