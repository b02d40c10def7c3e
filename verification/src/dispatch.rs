//! The decisions of the dispatcher, which alone changes the server's state,
//! and of the session that serves one connection. Whoever runs them owns the
//! sockets and the queues: it hands in what happened and carries out what
//! comes back.

use vstd::prelude::*;
use vstd::string::StringExecFns;

use crate::invariants::{lemma_add_user_inv, lemma_handle_request_inv, lemma_remove_user_inv};
use crate::models::UserID;
use crate::request::{parse, parse_line, Request, RequestView};
use crate::response::{
    invalid_request, sends_view, server_full, Error, Message, MessageView, Response, ResponseView,
};
use crate::server::Server;
use crate::state::ServerView;

verus! {

/// What can reach the dispatcher.
#[derive(Debug, PartialEq, Eq)]
pub enum Event {
    /// A client has connected.
    Connected,
    /// A connected user has sent a request.
    Request(UserID, Request),
    /// The session of a user has ended.
    Disconnected(UserID),
}

/// What the dispatcher is to do about an event.
#[derive(Debug, PartialEq, Eq)]
pub enum Action {
    /// Open a queue for the new user and start their session.
    Accept(UserID),
    /// Write the message to the new connection and close it.
    Refuse(Message),
    /// Put each message in the queue of its addressee, in this order.
    Deliver(Vec<(UserID, Message)>),
    /// Put each message in the queue of its addressee, in this order, then
    /// drop the queue of the user.
    Drop(UserID, Vec<(UserID, Message)>),
}

/// An action as a mathematical value.
pub enum ActionView {
    Accept(UserID),
    Refuse(MessageView),
    Deliver(Seq<(UserID, MessageView)>),
    Drop(UserID, Seq<(UserID, MessageView)>),
}

impl View for Action {
    type V = ActionView;

    open spec fn view(&self) -> ActionView {
        match *self {
            Action::Accept(user_id) => ActionView::Accept(user_id),
            Action::Refuse(message) => ActionView::Refuse(message@),
            Action::Deliver(messages) => ActionView::Deliver(sends_view(messages@)),
            Action::Drop(user_id, messages) => ActionView::Drop(user_id, sends_view(messages@)),
        }
    }
}

/// The messages of a response to a request of `user_id`, each with its
/// addressee: first the answer to `user_id`, if there is one, then the
/// messages to others in their order.
pub open spec fn deliveries(user_id: UserID, response: ResponseView) -> Seq<(UserID, MessageView)> {
    match response.returns {
        Some(message) => seq![(user_id, message)] + response.sends,
        None => response.sends,
    }
}

/// What the dispatcher does about `event` in the state `s`: the state
/// after it, and the action.
pub open spec fn dispatch(s: ServerView, event: Event) -> (ServerView, ActionView) {
    match event {
        Event::Connected => match s.add_user().1 {
            Some(user_id) => (s.add_user().0, ActionView::Accept(user_id)),
            None => (s, ActionView::Refuse(MessageView::Error(Error::ServerFull))),
        },
        Event::Request(user_id, request) => {
            let (next, response) = s.handle_request(user_id, request@);
            (next, ActionView::Deliver(deliveries(user_id, response)))
        },
        Event::Disconnected(user_id) => {
            let (next, outcome) = s.remove_user(user_id);
            (
                next,
                ActionView::Drop(user_id, deliveries(user_id, ResponseView::from_result(outcome))),
            )
        },
    }
}

/// Whatever reaches the dispatcher, the server stays in order.
pub proof fn lemma_dispatch_inv(s: ServerView, event: Event)
    requires
        s.inv(),
    ensures
        dispatch(s, event).0.inv(),
{
    match event {
        Event::Connected => {
            lemma_add_user_inv(s);
        },
        Event::Request(user_id, request) => {
            lemma_handle_request_inv(s, user_id, request@);
        },
        Event::Disconnected(user_id) => {
            lemma_remove_user_inv(s, user_id);
        },
    }
}

/// The dispatcher: the one owner of the server's state.
pub struct Dispatcher {
    server: Server,
}

impl View for Dispatcher {
    type V = ServerView;

    closed spec fn view(&self) -> ServerView {
        self.server@
    }
}

impl Dispatcher {
    /// Whether the server in this dispatcher is one that its operations can
    /// have made.
    pub closed spec fn wf(&self) -> bool {
        self.server.wf()
    }

    /// The server in a dispatcher that its operations have made is in order.
    pub proof fn lemma_wf_inv(&self)
        requires
            self.wf(),
        ensures
            self@.inv(),
    {
        self.server.lemma_wf_inv();
    }

    /// A dispatcher for `server`.
    pub fn new(server: Server) -> (dispatcher: Dispatcher)
        requires
            server.wf(),
        ensures
            dispatcher.wf(),
            dispatcher@ == server@,
    {
        Dispatcher { server }
    }

    /// Takes in a new user, unless the server is full.
    pub fn add_user(&mut self) -> (id: Option<UserID>)
        requires
            old(self).wf(),
        ensures
            final(self).wf(),
            (final(self)@, id) == old(self)@.add_user(),
    {
        self.server.add_user()
    }

    /// Lets a user go, and says what is to be delivered on that account.
    pub fn remove_user(&mut self, user_id: UserID) -> (messages: Vec<(UserID, Message)>)
        requires
            old(self).wf(),
        ensures
            final(self).wf(),
            final(self)@ == old(self)@.remove_user(user_id).0,
            sends_view(messages@) == deliveries(
                user_id,
                ResponseView::from_result(old(self)@.remove_user(user_id).1),
            ),
    {
        let response = Response::from_result(self.server.remove_user(user_id));
        Dispatcher::dispatch_response(user_id, response)
    }

    /// The messages of `response`, each with its addressee, in the order
    /// of delivery: the answer to `user_id` comes first.
    pub fn dispatch_response(user_id: UserID, response: Response) -> (messages: Vec<
        (UserID, Message),
    >)
        ensures
            sends_view(messages@) == deliveries(user_id, response@),
    {
        let mut sends = response.sends;
        match response.returns {
            Some(message) => {
                let mut messages: Vec<(UserID, Message)> = Vec::new();
                messages.push((user_id, message));
                messages.append(&mut sends);
                messages
            },
            None => sends,
        }
    }

    /// Decides what is to be done about `event`, and changes the server's
    /// state accordingly.
    pub fn handle(&mut self, event: Event) -> (action: Action)
        requires
            old(self).wf(),
        ensures
            final(self).wf(),
            (final(self)@, action@) == dispatch(old(self)@, event),
    {
        match event {
            Event::Connected => match self.add_user() {
                Some(user_id) => Action::Accept(user_id),
                None => Action::Refuse(server_full()),
            },
            Event::Request(user_id, request) => {
                let response = self.server.handle_request(user_id, request);
                Action::Deliver(Dispatcher::dispatch_response(user_id, response))
            },
            Event::Disconnected(user_id) => Action::Drop(user_id, self.remove_user(user_id)),
        }
    }
}

/// What a session is to do about a line from its client.
#[derive(Debug, PartialEq, Eq)]
pub enum SessionStep {
    /// Hand the request on to the dispatcher.
    Forward(Request),
    /// Write the message to the client and go on.
    Reply(Message),
    /// End the session.
    Quit,
}

/// A session's step as a mathematical value.
pub enum SessionStepView {
    Forward(RequestView),
    Reply(MessageView),
    Quit,
}

impl View for SessionStep {
    type V = SessionStepView;

    open spec fn view(&self) -> SessionStepView {
        match *self {
            SessionStep::Forward(request) => SessionStepView::Forward(request@),
            SessionStep::Reply(message) => SessionStepView::Reply(message@),
            SessionStep::Quit => SessionStepView::Quit,
        }
    }
}

/// What a session does about the line `line`: a line that is no request is
/// answered with an error, a request to quit ends the session and is not
/// handed on, every other request goes to the dispatcher.
pub open spec fn session_step(line: Seq<char>) -> SessionStepView {
    match parse_line(line) {
        None => SessionStepView::Reply(MessageView::Error(Error::InvalidRequest)),
        Some(RequestView::Quit) => SessionStepView::Quit,
        Some(request) => SessionStepView::Forward(request),
    }
}

/// The message that opens the session of `user_id`.
pub fn welcome(user_id: UserID) -> (message: Message)
    ensures
        message@ == MessageView::Welcome(user_id),
{
    Message::Welcome(user_id)
}

/// Decides what a session is to do about one line from its client.
pub fn on_line(line: &str) -> (step: SessionStep)
    ensures
        step@ == session_step(line@),
{
    match parse(line) {
        Some(request) => {
            if request.is_quit() {
                SessionStep::Quit
            } else {
                SessionStep::Forward(request)
            }
        },
        None => SessionStep::Reply(invalid_request()),
    }
}

/// The character that ends a line on the wire.
pub open spec fn terminator() -> char {
    '\n'
}

/// What is written to a client for `message`: its line and the terminator.
pub fn frame(message: &Message) -> (text: String)
    ensures
        text@ == message@.line().push(terminator()),
{
    let mut text = message.to_line();
    proof {
        reveal_strlit("\n");
    }
    text.append("\n");
    text
}

} // verus!
