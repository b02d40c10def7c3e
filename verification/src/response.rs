//! What the server says: the messages of the protocol with their wire form,
//! the errors a request can meet, and the response to one request.

use vstd::prelude::*;

use crate::decimal::decimal;
use crate::models::{RoomID, UserID};
use crate::wire::{all_plain, join, lemma_decimal_plain, lemma_split_join, plain, split, Line};

verus! {

/// Why a request was refused.
#[derive(Debug, Clone, Copy, PartialEq, Eq, Structural)]
pub enum Error {
    ServerFull,
    InvalidRequest,
    AlreadyInARoom,
    AlreadyRequestedJoin,
    NotRoomOwner,
    IsRoomOwner,
    NotInThatRoom,
    NoSuchUser,
    NoSuchRoom,
    NoSuchJoinRequest,
}

impl Error {
    /// The exact wording that tells a client of this error.
    pub open spec fn reason_text(self) -> Seq<char> {
        match self {
            Error::ServerFull => "Server is full"@,
            Error::InvalidRequest => "Invalid request"@,
            Error::AlreadyInARoom => "Already in a game"@,
            Error::AlreadyRequestedJoin => "Already requested to join a game"@,
            Error::NotRoomOwner => "You are not the game owner"@,
            Error::IsRoomOwner => "You are the game owner"@,
            Error::NotInThatRoom => "You are not in that game"@,
            Error::NoSuchUser => "No such user"@,
            Error::NoSuchRoom => "No such game"@,
            Error::NoSuchJoinRequest => "No such join request"@,
        }
    }

    /// The wording that tells a client of this error.
    pub fn reason(&self) -> (text: &'static str)
        ensures
            text@ == self.reason_text(),
    {
        match self {
            Error::ServerFull => "Server is full",
            Error::InvalidRequest => "Invalid request",
            Error::AlreadyInARoom => "Already in a game",
            Error::AlreadyRequestedJoin => "Already requested to join a game",
            Error::NotRoomOwner => "You are not the game owner",
            Error::IsRoomOwner => "You are the game owner",
            Error::NotInThatRoom => "You are not in that game",
            Error::NoSuchUser => "No such user",
            Error::NoSuchRoom => "No such game",
            Error::NoSuchJoinRequest => "No such join request",
        }
    }
}

/// One message from the server to one client.
#[derive(Debug, PartialEq, Eq)]
pub enum Message {
    Welcome(UserID),
    Pong(u32),
    ListRooms(Vec<(RoomID, String)>),
    RoomCreated(RoomID),
    RoomJoined(RoomID),
    RoomClosed(RoomID),
    RoomRejected(RoomID, String),
    JoinRequested(RoomID, UserID, String),
    PlayerLeft(RoomID, UserID),
    ReceivedFrom(RoomID, UserID, String),
    ReceivedBroadcast(RoomID, String),
    ReceivedIndividual(RoomID, String),
    Error(Error),
}

/// A message as a mathematical value: texts are sequences of characters.
pub enum MessageView {
    Welcome(UserID),
    Pong(u32),
    ListRooms(Seq<(RoomID, Seq<char>)>),
    RoomCreated(RoomID),
    RoomJoined(RoomID),
    RoomClosed(RoomID),
    RoomRejected(RoomID, Seq<char>),
    JoinRequested(RoomID, UserID, Seq<char>),
    PlayerLeft(RoomID, UserID),
    ReceivedFrom(RoomID, UserID, Seq<char>),
    ReceivedBroadcast(RoomID, Seq<char>),
    ReceivedIndividual(RoomID, Seq<char>),
    Error(Error),
}

impl From<Error> for Message {
    fn from(e: Error) -> (message: Message) {
        Message::Error(e)
    }
}

impl vstd::std_specs::convert::FromSpecImpl<Error> for Message {
    open spec fn obeys_from_spec() -> bool {
        true
    }

    open spec fn from_spec(e: Error) -> Message {
        Message::Error(e)
    }
}

/// The message that tells a client that no connection is free.
pub fn server_full() -> (m: Message)
    ensures
        m@ == MessageView::Error(Error::ServerFull),
{
    Message::Error(Error::ServerFull)
}

/// The message that answers a line that is no request.
pub fn invalid_request() -> (m: Message)
    ensures
        m@ == MessageView::Error(Error::InvalidRequest),
{
    Message::Error(Error::InvalidRequest)
}

/// The listed rooms as mathematical values, in the order of the list.
pub open spec fn room_list_view(rooms: Seq<(RoomID, String)>) -> Seq<(RoomID, Seq<char>)> {
    rooms.map_values(|p: (RoomID, String)| (p.0, p.1@))
}

impl View for Message {
    type V = MessageView;

    open spec fn view(&self) -> MessageView {
        match *self {
            Message::Welcome(user_id) => MessageView::Welcome(user_id),
            Message::Pong(n) => MessageView::Pong(n),
            Message::ListRooms(rooms) => MessageView::ListRooms(room_list_view(rooms@)),
            Message::RoomCreated(room_id) => MessageView::RoomCreated(room_id),
            Message::RoomJoined(room_id) => MessageView::RoomJoined(room_id),
            Message::RoomClosed(room_id) => MessageView::RoomClosed(room_id),
            Message::RoomRejected(room_id, reason) => MessageView::RoomRejected(room_id, reason@),
            Message::JoinRequested(room_id, user_id, msg) => MessageView::JoinRequested(
                room_id,
                user_id,
                msg@,
            ),
            Message::PlayerLeft(room_id, user_id) => MessageView::PlayerLeft(room_id, user_id),
            Message::ReceivedFrom(room_id, user_id, payload) => MessageView::ReceivedFrom(
                room_id,
                user_id,
                payload@,
            ),
            Message::ReceivedBroadcast(room_id, payload) => MessageView::ReceivedBroadcast(
                room_id,
                payload@,
            ),
            Message::ReceivedIndividual(room_id, payload) => MessageView::ReceivedIndividual(
                room_id,
                payload@,
            ),
            Message::Error(e) => MessageView::Error(e),
        }
    }
}

/// The fields that list `rooms`: for each room in turn its identifier and
/// its descriptor.
pub open spec fn room_fields(rooms: Seq<(RoomID, Seq<char>)>) -> Seq<Seq<char>>
    decreases rooms.len(),
{
    if rooms.len() == 0 {
        Seq::empty()
    } else {
        room_fields(rooms.drop_last()).push(decimal(rooms.last().0 as nat)).push(rooms.last().1)
    }
}

impl MessageView {
    /// The fields of the line that carries this message: a verb, then what
    /// the message holds.
    pub open spec fn fields(self) -> Seq<Seq<char>> {
        match self {
            MessageView::Welcome(user_id) => seq!["WELCOME"@, decimal(user_id as nat)],
            MessageView::Pong(n) => seq!["PONG"@, decimal(n as nat)],
            MessageView::ListRooms(rooms) => if rooms.len() == 0 {
                seq!["NO_OPEN_GAMES"@]
            } else {
                seq!["OPEN_GAMES"@] + room_fields(rooms)
            },
            MessageView::RoomCreated(room_id) => seq!["CREATED_GAME"@, decimal(room_id as nat)],
            MessageView::RoomJoined(room_id) => seq!["JOINED"@, decimal(room_id as nat)],
            MessageView::RoomClosed(room_id) => seq!["GAME_OVER"@, decimal(room_id as nat)],
            MessageView::RoomRejected(room_id, reason) => seq![
                "REJECTED"@,
                decimal(room_id as nat),
                reason,
            ],
            MessageView::JoinRequested(room_id, user_id, msg) => seq![
                "PLAYER_JOINED"@,
                decimal(room_id as nat),
                decimal(user_id as nat),
                msg,
            ],
            MessageView::PlayerLeft(room_id, user_id) => seq![
                "PLAYER_LEFT"@,
                decimal(room_id as nat),
                decimal(user_id as nat),
            ],
            MessageView::ReceivedFrom(room_id, user_id, payload) => seq![
                "RECEIVED"@,
                decimal(room_id as nat),
                decimal(user_id as nat),
                payload,
            ],
            MessageView::ReceivedBroadcast(room_id, payload) => seq![
                "RECEIVED"@,
                decimal(room_id as nat),
                payload,
            ],
            MessageView::ReceivedIndividual(room_id, payload) => seq![
                "RECEIVED"@,
                decimal(room_id as nat),
                payload,
            ],
            MessageView::Error(e) => seq!["ERROR"@, e.reason_text()],
        }
    }

    /// The line that carries this message to a client, without its terminator.
    pub open spec fn line(self) -> Seq<char> {
        join(self.fields())
    }
}

/// Whether the texts that `rooms` are listed with can travel in a field.
pub open spec fn rooms_plain(rooms: Seq<(RoomID, Seq<char>)>) -> bool {
    forall|i: int| 0 <= i < rooms.len() ==> plain((#[trigger] rooms[i]).1)
}

impl MessageView {
    /// Whether the texts of this message can travel in a field: none holds a
    /// separator.
    pub open spec fn well_formed(self) -> bool {
        match self {
            MessageView::ListRooms(rooms) => rooms_plain(rooms),
            MessageView::RoomRejected(_, reason) => plain(reason),
            MessageView::JoinRequested(_, _, msg) => plain(msg),
            MessageView::ReceivedFrom(_, _, payload) => plain(payload),
            MessageView::ReceivedBroadcast(_, payload) => plain(payload),
            MessageView::ReceivedIndividual(_, payload) => plain(payload),
            _ => true,
        }
    }
}

/// The list of n rooms takes 2 n fields: the identifier of the i-th room is
/// field 2 i, its descriptor field 2 i + 1.
pub proof fn lemma_room_fields(rooms: Seq<(RoomID, Seq<char>)>)
    ensures
        room_fields(rooms).len() == 2 * rooms.len(),
        forall|i: int|
            0 <= i < rooms.len() ==> #[trigger] room_fields(rooms)[2 * i] == decimal(
                rooms[i].0 as nat,
            ),
        forall|i: int| 0 <= i < rooms.len() ==> #[trigger] room_fields(rooms)[2 * i + 1] == rooms[i].1,
        rooms_plain(rooms) ==> all_plain(room_fields(rooms)),
    decreases rooms.len(),
{
    if rooms.len() > 0 {
        let front = rooms.drop_last();
        lemma_room_fields(front);
        lemma_decimal_plain(rooms.last().0 as nat);
    }
}

/// Makes known that neither the verbs of the messages nor the wordings of
/// the errors hold a separator.
proof fn lemma_words_plain()
    ensures
        plain("WELCOME"@),
        plain("PONG"@),
        plain("NO_OPEN_GAMES"@),
        plain("OPEN_GAMES"@),
        plain("CREATED_GAME"@),
        plain("JOINED"@),
        plain("GAME_OVER"@),
        plain("REJECTED"@),
        plain("PLAYER_JOINED"@),
        plain("PLAYER_LEFT"@),
        plain("RECEIVED"@),
        plain("ERROR"@),
        forall|e: Error| plain(#[trigger] e.reason_text()),
{
    reveal_strlit("WELCOME");
    reveal_strlit("PONG");
    reveal_strlit("NO_OPEN_GAMES");
    reveal_strlit("OPEN_GAMES");
    reveal_strlit("CREATED_GAME");
    reveal_strlit("JOINED");
    reveal_strlit("GAME_OVER");
    reveal_strlit("REJECTED");
    reveal_strlit("PLAYER_JOINED");
    reveal_strlit("PLAYER_LEFT");
    reveal_strlit("RECEIVED");
    reveal_strlit("ERROR");
    reveal_strlit("Server is full");
    reveal_strlit("Invalid request");
    reveal_strlit("Already in a game");
    reveal_strlit("Already requested to join a game");
    reveal_strlit("You are not the game owner");
    reveal_strlit("You are the game owner");
    reveal_strlit("You are not in that game");
    reveal_strlit("No such user");
    reveal_strlit("No such game");
    reveal_strlit("No such join request");
}

/// The line of a well-formed message falls apart into the fields of the
/// message again: a reader finds each text and number in its place. For a
/// list of rooms, identifiers and descriptors follow the verb in pairs, in
/// the order of the list.
pub proof fn lemma_message_line_fields(message: MessageView)
    requires
        message.well_formed(),
    ensures
        split(message.line()) == message.fields(),
{
    lemma_words_plain();
    match message {
        MessageView::Welcome(a) => {
            lemma_decimal_plain(a as nat);
        },
        MessageView::Pong(a) => {
            lemma_decimal_plain(a as nat);
        },
        MessageView::ListRooms(rooms) => {
            lemma_room_fields(rooms);
        },
        MessageView::RoomCreated(a) => {
            lemma_decimal_plain(a as nat);
        },
        MessageView::RoomJoined(a) => {
            lemma_decimal_plain(a as nat);
        },
        MessageView::RoomClosed(a) => {
            lemma_decimal_plain(a as nat);
        },
        MessageView::RoomRejected(a, _) => {
            lemma_decimal_plain(a as nat);
        },
        MessageView::JoinRequested(a, b, _) => {
            lemma_decimal_plain(a as nat);
            lemma_decimal_plain(b as nat);
        },
        MessageView::PlayerLeft(a, b) => {
            lemma_decimal_plain(a as nat);
            lemma_decimal_plain(b as nat);
        },
        MessageView::ReceivedFrom(a, b, _) => {
            lemma_decimal_plain(a as nat);
            lemma_decimal_plain(b as nat);
        },
        MessageView::ReceivedBroadcast(a, _) => {
            lemma_decimal_plain(a as nat);
        },
        MessageView::ReceivedIndividual(a, _) => {
            lemma_decimal_plain(a as nat);
        },
        MessageView::Error(_) => {},
    }
    lemma_split_join(message.fields());
}

/// A list of no rooms is written as one word; a list of rooms as a verb
/// and, for each room in the order of the list, its identifier and its
/// descriptor.
pub proof fn lemma_room_list_line(rooms: Seq<(RoomID, Seq<char>)>)
    requires
        rooms_plain(rooms),
    ensures
        rooms.len() == 0 ==> MessageView::ListRooms(rooms).line() == "NO_OPEN_GAMES"@,
        rooms.len() > 0 ==> {
            let f = split(MessageView::ListRooms(rooms).line());
            &&& f.len() == 1 + 2 * rooms.len()
            &&& f[0] == "OPEN_GAMES"@
            &&& forall|i: int|
                0 <= i < rooms.len() ==> #[trigger] f[1 + 2 * i] == decimal(rooms[i].0 as nat)
            &&& forall|i: int| 0 <= i < rooms.len() ==> #[trigger] f[2 + 2 * i] == rooms[i].1
        },
{
    lemma_message_line_fields(MessageView::ListRooms(rooms));
    lemma_room_fields(rooms);
    if rooms.len() > 0 {
        let f = split(MessageView::ListRooms(rooms).line());
        assert forall|i: int| 0 <= i < rooms.len() implies #[trigger] f[2 + 2 * i] == rooms[i].1 by {
            assert(f[2 + 2 * i] == room_fields(rooms)[2 * i + 1]);
        }
    }
}

impl Message {
    /// The line that carries this message to a client, without its terminator.
    pub fn to_line(&self) -> (text: String)
        ensures
            text@ == self@.line(),
    {
        let mut line;
        match self {
            Message::Welcome(user_id) => {
                line = Line::start("WELCOME");
                line.number(*user_id);
            },
            Message::Pong(n) => {
                line = Line::start("PONG");
                line.number(*n);
            },
            Message::ListRooms(rooms) => {
                if rooms.len() == 0 {
                    line = Line::start("NO_OPEN_GAMES");
                } else {
                    line = Line::start("OPEN_GAMES");
                    let ghost listed = room_list_view(rooms@);
                    for i in 0..rooms.len()
                        invariant
                            listed == room_list_view(rooms@),
                            line.wf(),
                            line.fields() == seq!["OPEN_GAMES"@] + room_fields(
                                listed.take(i as int),
                            ),
                    {
                        line.number(rooms[i].0);
                        line.text(rooms[i].1.as_str());
                        proof {
                            let upto = listed.take(i + 1);
                            assert(upto.drop_last() =~= listed.take(i as int));
                        }
                    }
                    assert(listed.take(rooms.len() as int) =~= listed);
                }
            },
            Message::RoomCreated(room_id) => {
                line = Line::start("CREATED_GAME");
                line.number(*room_id);
            },
            Message::RoomJoined(room_id) => {
                line = Line::start("JOINED");
                line.number(*room_id);
            },
            Message::RoomClosed(room_id) => {
                line = Line::start("GAME_OVER");
                line.number(*room_id);
            },
            Message::RoomRejected(room_id, reason) => {
                line = Line::start("REJECTED");
                line.number(*room_id);
                line.text(reason.as_str());
            },
            Message::JoinRequested(room_id, user_id, msg) => {
                line = Line::start("PLAYER_JOINED");
                line.number(*room_id);
                line.number(*user_id);
                line.text(msg.as_str());
            },
            Message::PlayerLeft(room_id, user_id) => {
                line = Line::start("PLAYER_LEFT");
                line.number(*room_id);
                line.number(*user_id);
            },
            Message::ReceivedFrom(room_id, user_id, payload) => {
                line = Line::start("RECEIVED");
                line.number(*room_id);
                line.number(*user_id);
                line.text(payload.as_str());
            },
            Message::ReceivedBroadcast(room_id, payload) => {
                line = Line::start("RECEIVED");
                line.number(*room_id);
                line.text(payload.as_str());
            },
            Message::ReceivedIndividual(room_id, payload) => {
                line = Line::start("RECEIVED");
                line.number(*room_id);
                line.text(payload.as_str());
            },
            Message::Error(e) => {
                line = Line::start("ERROR");
                line.text(e.reason());
            },
        }
        assert(line.fields() =~= self@.fields());
        line.finish()
    }
}

/// The outcome of one request: at most one message back to its sender, and
/// messages addressed to other users, in the order in which they are to be
/// delivered.
#[derive(Debug, PartialEq, Eq)]
pub struct Response {
    pub returns: Option<Message>,
    pub sends: Vec<(UserID, Message)>,
}

/// A response as a mathematical value.
pub struct ResponseView {
    pub returns: Option<MessageView>,
    pub sends: Seq<(UserID, MessageView)>,
}

/// Addressed messages as mathematical values, in their order.
pub open spec fn sends_view(sends: Seq<(UserID, Message)>) -> Seq<(UserID, MessageView)> {
    sends.map_values(|p: (UserID, Message)| (p.0, p.1@))
}

/// One more addressed message is one more at the end of the view.
pub proof fn lemma_sends_view_push(sends: Seq<(UserID, Message)>, user_id: UserID, message: Message)
    ensures
        sends_view(sends.push((user_id, message))) == sends_view(sends).push((user_id, message@)),
{
}

impl View for Response {
    type V = ResponseView;

    open spec fn view(&self) -> ResponseView {
        ResponseView {
            returns: match self.returns {
                Some(m) => Some(m@),
                None => None,
            },
            sends: sends_view(self.sends@),
        }
    }
}

/// The outcome of an operation as a mathematical value.
pub open spec fn result_view(r: Result<Response, Error>) -> Result<ResponseView, Error> {
    match r {
        Ok(response) => Ok(response@),
        Err(e) => Err(e),
    }
}

impl ResponseView {
    /// The response that says nothing to anybody.
    pub open spec fn empty() -> ResponseView {
        ResponseView { returns: None, sends: Seq::empty() }
    }

    /// The response that answers the sender with `message`.
    pub open spec fn returning(message: MessageView) -> ResponseView {
        ResponseView { returns: Some(message), sends: Seq::empty() }
    }

    /// The response that answers the sender with the error `e`.
    pub open spec fn error(e: Error) -> ResponseView {
        ResponseView::returning(MessageView::Error(e))
    }

    /// The response that sends `message` to `user_id` alone.
    pub open spec fn sends(user_id: UserID, message: MessageView) -> ResponseView {
        ResponseView { returns: None, sends: seq![(user_id, message)] }
    }

    /// The response that sends the addressed `messages` and answers nothing.
    pub open spec fn sends_all(messages: Seq<(UserID, MessageView)>) -> ResponseView {
        ResponseView { returns: None, sends: messages }
    }

    /// The response that stands for the outcome of an operation: its own
    /// response, or the error as an answer to the sender.
    pub open spec fn from_result(r: Result<ResponseView, Error>) -> ResponseView {
        match r {
            Ok(response) => response,
            Err(e) => ResponseView::error(e),
        }
    }
}

impl Response {
    /// The response that says nothing to anybody.
    pub fn empty() -> (r: Response)
        ensures
            r@ == ResponseView::empty(),
    {
        let r = Response { returns: None, sends: Vec::new() };
        assert(r@.sends =~= Seq::empty());
        r
    }

    /// The response that answers the sender with `message`.
    pub fn returning(message: Message) -> (r: Response)
        ensures
            r@ == ResponseView::returning(message@),
    {
        let r = Response { returns: Some(message), sends: Vec::new() };
        assert(r@.sends =~= Seq::empty());
        r
    }

    /// The response that answers the sender with the error `e`.
    pub fn error(e: Error) -> (r: Response)
        ensures
            r@ == ResponseView::error(e),
    {
        Response::returning(Message::Error(e))
    }

    /// The response that sends `message` to `user_id` alone.
    pub fn sends(user_id: UserID, message: Message) -> (r: Response)
        ensures
            r@ == ResponseView::sends(user_id, message@),
    {
        let mut messages = Vec::new();
        messages.push((user_id, message));
        assert(sends_view(messages@) =~= seq![(user_id, message@)]);
        Response::sends_all(messages)
    }

    /// The response that sends the addressed `messages` and answers nothing.
    pub fn sends_all(messages: Vec<(UserID, Message)>) -> (r: Response)
        ensures
            r@ == ResponseView::sends_all(sends_view(messages@)),
    {
        Response { returns: None, sends: messages }
    }

    /// The response that stands for the outcome of an operation: its own
    /// response, or the error as an answer to the sender.
    pub fn from_result(r: Result<Response, Error>) -> (response: Response)
        ensures
            response@ == ResponseView::from_result(result_view(r)),
    {
        match r {
            Ok(inner) => inner,
            Err(e) => Response::error(e),
        }
    }
}

} // verus!
