//! What a client asks: the requests of the protocol and the grammar of the
//! lines that carry them.

use vstd::prelude::*;
use vstd::string::StringExecFns;

use crate::decimal::{decimal, lemma_parse_decimal, parse_u32, parse_u32_text};
use crate::models::{RoomID, UserID};
use crate::wire::{
    all_plain, field_texts, join, lemma_decimal_plain, lemma_split_join, lemma_split_len, plain,
    split, split_fields, Line,
};

verus! {

/// One request of a client.
#[derive(Debug, PartialEq, Eq)]
pub enum Request {
    ListRooms,
    Ping(u32),
    CreateRoom(String),
    SetOwner(RoomID, UserID),
    AskJoinRoom(RoomID, String),
    AcceptJoinRoom(RoomID, UserID),
    RejectJoinRoom(RoomID, UserID, String),
    LeaveRoom(RoomID),
    Send(RoomID, String),
    SendTo(RoomID, UserID, String),
    EchoFrom(RoomID, UserID, String),
    Quit,
}

/// A request as a mathematical value: texts are sequences of characters.
pub enum RequestView {
    ListRooms,
    Ping(u32),
    CreateRoom(Seq<char>),
    SetOwner(RoomID, UserID),
    AskJoinRoom(RoomID, Seq<char>),
    AcceptJoinRoom(RoomID, UserID),
    RejectJoinRoom(RoomID, UserID, Seq<char>),
    LeaveRoom(RoomID),
    Send(RoomID, Seq<char>),
    SendTo(RoomID, UserID, Seq<char>),
    EchoFrom(RoomID, UserID, Seq<char>),
    Quit,
}

impl View for Request {
    type V = RequestView;

    open spec fn view(&self) -> RequestView {
        match *self {
            Request::ListRooms => RequestView::ListRooms,
            Request::Ping(n) => RequestView::Ping(n),
            Request::CreateRoom(data) => RequestView::CreateRoom(data@),
            Request::SetOwner(room_id, user_id) => RequestView::SetOwner(room_id, user_id),
            Request::AskJoinRoom(room_id, msg) => RequestView::AskJoinRoom(room_id, msg@),
            Request::AcceptJoinRoom(room_id, user_id) => RequestView::AcceptJoinRoom(
                room_id,
                user_id,
            ),
            Request::RejectJoinRoom(room_id, user_id, reason) => RequestView::RejectJoinRoom(
                room_id,
                user_id,
                reason@,
            ),
            Request::LeaveRoom(room_id) => RequestView::LeaveRoom(room_id),
            Request::Send(room_id, payload) => RequestView::Send(room_id, payload@),
            Request::SendTo(room_id, user_id, payload) => RequestView::SendTo(
                room_id,
                user_id,
                payload@,
            ),
            Request::EchoFrom(room_id, user_id, payload) => RequestView::EchoFrom(
                room_id,
                user_id,
                payload@,
            ),
            Request::Quit => RequestView::Quit,
        }
    }
}

impl Request {
    /// Whether this request ends the session.
    pub fn is_quit(&self) -> (b: bool)
        ensures
            b == (self@ == RequestView::Quit),
    {
        match self {
            Request::Quit => true,
            _ => false,
        }
    }
}

/// The request that the fields of a line spell, if any. The first field is
/// the verb; the verb fixes how many fields follow and which of them are
/// numbers. A line with an unknown verb, too few or too many fields, or a
/// number field that does not read as a number, spells no request.
pub open spec fn parse_fields(f: Seq<Seq<char>>) -> Option<RequestView>
    recommends
        f.len() > 0,
{
    let verb = f[0];
    let n1 = if f.len() > 1 {
        parse_u32_text(f[1])
    } else {
        None
    };
    let n2 = if f.len() > 2 {
        parse_u32_text(f[2])
    } else {
        None
    };
    if verb == "LIST_OPEN_GAMES"@ {
        if f.len() == 1 {
            Some(RequestView::ListRooms)
        } else {
            None
        }
    } else if verb == "PING"@ {
        if f.len() == 2 && n1 is Some {
            Some(RequestView::Ping(n1->0))
        } else {
            None
        }
    } else if verb == "CREATE_GAME"@ {
        if f.len() == 2 {
            Some(RequestView::CreateRoom(f[1]))
        } else {
            None
        }
    } else if verb == "SET_OWNER"@ {
        if f.len() == 3 && n1 is Some && n2 is Some {
            Some(RequestView::SetOwner(n1->0, n2->0))
        } else {
            None
        }
    } else if verb == "JOIN_GAME"@ {
        if f.len() == 3 && n1 is Some {
            Some(RequestView::AskJoinRoom(n1->0, f[2]))
        } else {
            None
        }
    } else if verb == "LEAVE_GAME"@ {
        if f.len() == 2 && n1 is Some {
            Some(RequestView::LeaveRoom(n1->0))
        } else {
            None
        }
    } else if verb == "ACCEPT_JOIN"@ {
        if f.len() == 3 && n1 is Some && n2 is Some {
            Some(RequestView::AcceptJoinRoom(n1->0, n2->0))
        } else {
            None
        }
    } else if verb == "REJECT_JOIN"@ {
        if f.len() == 4 && n1 is Some && n2 is Some {
            Some(RequestView::RejectJoinRoom(n1->0, n2->0, f[3]))
        } else {
            None
        }
    } else if verb == "SEND"@ {
        if f.len() == 3 && n1 is Some {
            Some(RequestView::Send(n1->0, f[2]))
        } else {
            None
        }
    } else if verb == "SEND_TO"@ {
        if f.len() == 4 && n1 is Some && n2 is Some {
            Some(RequestView::SendTo(n1->0, n2->0, f[3]))
        } else {
            None
        }
    } else if verb == "ECHO_FROM"@ {
        if f.len() == 4 && n1 is Some && n2 is Some {
            Some(RequestView::EchoFrom(n1->0, n2->0, f[3]))
        } else {
            None
        }
    } else if verb == "QUIT"@ {
        if f.len() == 1 {
            Some(RequestView::Quit)
        } else {
            None
        }
    } else {
        None
    }
}

/// The request that the line `line` carries, if any.
pub open spec fn parse_line(line: Seq<char>) -> Option<RequestView> {
    parse_fields(split(line))
}

/// The fields of one line, handed out one by one from the first.
pub struct Parts<'a> {
    fields: Vec<&'a str>,
    next: usize,
}

impl<'a> View for Parts<'a> {
    type V = Seq<Seq<char>>;

    /// The fields that have not been taken yet.
    closed spec fn view(&self) -> Seq<Seq<char>> {
        field_texts(self.fields@).skip(self.next as int)
    }
}

impl<'a> Parts<'a> {
    #[verifier::type_invariant]
    spec fn wf(self) -> bool {
        self.next <= self.fields@.len()
    }

    /// The fields of the line `s`.
    pub fn of(s: &'a str) -> (parts: Parts<'a>)
        ensures
            parts@ == split(s@),
    {
        let fields = split_fields(s);
        Parts { fields, next: 0 }
    }

    /// Takes the next field, if one is left.
    pub fn take_str(&mut self) -> (r: Option<&'a str>)
        ensures
            match r {
                Some(field) => {
                    &&& old(self)@.len() > 0
                    &&& field@ == old(self)@[0]
                    &&& final(self)@ == old(self)@.drop_first()
                },
                None => old(self)@.len() == 0 && final(self)@ == old(self)@,
            },
    {
        proof {
            use_type_invariant(&*self);
        }
        if self.next < self.fields.len() {
            let field = self.fields[self.next];
            self.next = self.next + 1;
            Some(field)
        } else {
            None
        }
    }

    /// Takes the next field as a string of its own, if one is left.
    pub fn take_string(&mut self) -> (r: Option<String>)
        ensures
            match r {
                Some(field) => {
                    &&& old(self)@.len() > 0
                    &&& field@ == old(self)@[0]
                    &&& final(self)@ == old(self)@.drop_first()
                },
                None => old(self)@.len() == 0 && final(self)@ == old(self)@,
            },
    {
        match self.take_str() {
            Some(field) => Some(String::from_str(field)),
            None => None,
        }
    }

    /// Takes the next field, if one is left, and reads it as a number.
    pub fn take_int(&mut self) -> (r: Option<u32>)
        ensures
            if old(self)@.len() > 0 {
                r == parse_u32_text(old(self)@[0]) && final(self)@ == old(self)@.drop_first()
            } else {
                r is None && final(self)@ == old(self)@
            },
    {
        match self.take_str() {
            Some(field) => parse_u32(field),
            None => None,
        }
    }

    /// Hands `request` on where every field has been taken.
    pub fn done(self, request: Request) -> (r: Option<Request>)
        ensures
            r == if self@.len() == 0 {
                Some(request)
            } else {
                None
            },
    {
        proof {
            use_type_invariant(&self);
        }
        if self.next == self.fields.len() {
            Some(request)
        } else {
            None
        }
    }
}

/// Whether the field `field` is the verb `verb`.
fn is_verb(field: &str, verb: &str) -> (b: bool)
    ensures
        b == (field@ == verb@),
{
    String::from_str(field) == String::from_str(verb)
}

/// Reads one line as a request. A line that carries no request gives `None`.
pub fn parse(s: &str) -> (r: Option<Request>)
    ensures
        match r {
            Some(request) => parse_line(s@) == Some(request@),
            None => parse_line(s@) is None,
        },
{
    let mut parts = Parts::of(s);
    let verb = parts.take_str()?;
    if is_verb(verb, "LIST_OPEN_GAMES") {
        parts.done(Request::ListRooms)
    } else if is_verb(verb, "PING") {
        let sequence_number = parts.take_int()?;
        parts.done(Request::Ping(sequence_number))
    } else if is_verb(verb, "CREATE_GAME") {
        let data = parts.take_string()?;
        parts.done(Request::CreateRoom(data))
    } else if is_verb(verb, "SET_OWNER") {
        let room_id = parts.take_int()?;
        let other_id = parts.take_int()?;
        parts.done(Request::SetOwner(room_id, other_id))
    } else if is_verb(verb, "JOIN_GAME") {
        let room_id = parts.take_int()?;
        let msg = parts.take_string()?;
        parts.done(Request::AskJoinRoom(room_id, msg))
    } else if is_verb(verb, "LEAVE_GAME") {
        let room_id = parts.take_int()?;
        parts.done(Request::LeaveRoom(room_id))
    } else if is_verb(verb, "ACCEPT_JOIN") {
        let room_id = parts.take_int()?;
        let user_id = parts.take_int()?;
        parts.done(Request::AcceptJoinRoom(room_id, user_id))
    } else if is_verb(verb, "REJECT_JOIN") {
        let room_id = parts.take_int()?;
        let user_id = parts.take_int()?;
        let reason = parts.take_string()?;
        parts.done(Request::RejectJoinRoom(room_id, user_id, reason))
    } else if is_verb(verb, "SEND") {
        let room_id = parts.take_int()?;
        let payload = parts.take_string()?;
        parts.done(Request::Send(room_id, payload))
    } else if is_verb(verb, "SEND_TO") {
        let room_id = parts.take_int()?;
        let user_id = parts.take_int()?;
        let payload = parts.take_string()?;
        parts.done(Request::SendTo(room_id, user_id, payload))
    } else if is_verb(verb, "ECHO_FROM") {
        let room_id = parts.take_int()?;
        let user_id = parts.take_int()?;
        let payload = parts.take_string()?;
        parts.done(Request::EchoFrom(room_id, user_id, payload))
    } else if is_verb(verb, "QUIT") {
        parts.done(Request::Quit)
    } else {
        None
    }
}

impl RequestView {
    /// The fields of the line that carries this request: its verb, then
    /// what the request holds.
    pub open spec fn fields(self) -> Seq<Seq<char>> {
        match self {
            RequestView::ListRooms => seq!["LIST_OPEN_GAMES"@],
            RequestView::Ping(n) => seq!["PING"@, decimal(n as nat)],
            RequestView::CreateRoom(data) => seq!["CREATE_GAME"@, data],
            RequestView::SetOwner(room_id, user_id) => seq![
                "SET_OWNER"@,
                decimal(room_id as nat),
                decimal(user_id as nat),
            ],
            RequestView::AskJoinRoom(room_id, msg) => seq![
                "JOIN_GAME"@,
                decimal(room_id as nat),
                msg,
            ],
            RequestView::LeaveRoom(room_id) => seq!["LEAVE_GAME"@, decimal(room_id as nat)],
            RequestView::AcceptJoinRoom(room_id, user_id) => seq![
                "ACCEPT_JOIN"@,
                decimal(room_id as nat),
                decimal(user_id as nat),
            ],
            RequestView::RejectJoinRoom(room_id, user_id, reason) => seq![
                "REJECT_JOIN"@,
                decimal(room_id as nat),
                decimal(user_id as nat),
                reason,
            ],
            RequestView::Send(room_id, payload) => seq!["SEND"@, decimal(room_id as nat), payload],
            RequestView::SendTo(room_id, user_id, payload) => seq![
                "SEND_TO"@,
                decimal(room_id as nat),
                decimal(user_id as nat),
                payload,
            ],
            RequestView::EchoFrom(room_id, user_id, payload) => seq![
                "ECHO_FROM"@,
                decimal(room_id as nat),
                decimal(user_id as nat),
                payload,
            ],
            RequestView::Quit => seq!["QUIT"@],
        }
    }

    /// The line that carries this request to the server, without its
    /// terminator.
    pub open spec fn line(self) -> Seq<char> {
        join(self.fields())
    }

    /// Whether the texts of this request can travel in a field: none holds a
    /// separator.
    pub open spec fn well_formed(self) -> bool {
        match self {
            RequestView::CreateRoom(data) => plain(data),
            RequestView::AskJoinRoom(_, msg) => plain(msg),
            RequestView::RejectJoinRoom(_, _, reason) => plain(reason),
            RequestView::Send(_, payload) => plain(payload),
            RequestView::SendTo(_, _, payload) => plain(payload),
            RequestView::EchoFrom(_, _, payload) => plain(payload),
            _ => true,
        }
    }
}

/// Makes known what the verbs of the requests are, character by character.
proof fn reveal_verbs()
    ensures
        "LIST_OPEN_GAMES"@.len() == 15,
        "PING"@.len() == 4,
        "CREATE_GAME"@.len() == 11,
        "SET_OWNER"@.len() == 9,
        "SET_OWNER"@[1] == 'E',
        "JOIN_GAME"@.len() == 9,
        "JOIN_GAME"@[1] == 'O',
        "LEAVE_GAME"@.len() == 10,
        "ACCEPT_JOIN"@.len() == 11,
        "ACCEPT_JOIN"@[0] == 'A',
        "REJECT_JOIN"@.len() == 11,
        "REJECT_JOIN"@[0] == 'R',
        "CREATE_GAME"@[0] == 'C',
        "SEND"@.len() == 4,
        "SEND"@[0] == 'S',
        "PING"@[0] == 'P',
        "QUIT"@[0] == 'Q',
        "SEND_TO"@.len() == 7,
        "ECHO_FROM"@.len() == 9,
        "ECHO_FROM"@[1] == 'C',
        "QUIT"@.len() == 4,
        plain("LIST_OPEN_GAMES"@),
        plain("PING"@),
        plain("CREATE_GAME"@),
        plain("SET_OWNER"@),
        plain("JOIN_GAME"@),
        plain("LEAVE_GAME"@),
        plain("ACCEPT_JOIN"@),
        plain("REJECT_JOIN"@),
        plain("SEND"@),
        plain("SEND_TO"@),
        plain("ECHO_FROM"@),
        plain("QUIT"@),
{
    reveal_strlit("LIST_OPEN_GAMES");
    reveal_strlit("PING");
    reveal_strlit("CREATE_GAME");
    reveal_strlit("SET_OWNER");
    reveal_strlit("JOIN_GAME");
    reveal_strlit("LEAVE_GAME");
    reveal_strlit("ACCEPT_JOIN");
    reveal_strlit("REJECT_JOIN");
    reveal_strlit("SEND");
    reveal_strlit("SEND_TO");
    reveal_strlit("ECHO_FROM");
    reveal_strlit("QUIT");
}

/// The fields of a request spell that request.
pub proof fn lemma_parse_fields_of_request(request: RequestView)
    ensures
        parse_fields(request.fields()) == Some(request),
{
    reveal_verbs();
    match request {
        RequestView::Ping(n) => {
            lemma_parse_decimal(n);
        },
        RequestView::SetOwner(a, b) => {
            lemma_parse_decimal(a);
            lemma_parse_decimal(b);
        },
        RequestView::AskJoinRoom(a, _) => {
            lemma_parse_decimal(a);
        },
        RequestView::LeaveRoom(a) => {
            lemma_parse_decimal(a);
        },
        RequestView::AcceptJoinRoom(a, b) => {
            lemma_parse_decimal(a);
            lemma_parse_decimal(b);
        },
        RequestView::RejectJoinRoom(a, b, _) => {
            lemma_parse_decimal(a);
            lemma_parse_decimal(b);
        },
        RequestView::Send(a, _) => {
            lemma_parse_decimal(a);
        },
        RequestView::SendTo(a, b, _) => {
            lemma_parse_decimal(a);
            lemma_parse_decimal(b);
        },
        RequestView::EchoFrom(a, b, _) => {
            lemma_parse_decimal(a);
            lemma_parse_decimal(b);
        },
        _ => {},
    }
}

/// The fields of a well-formed request hold no separator.
pub proof fn lemma_request_fields_plain(request: RequestView)
    requires
        request.well_formed(),
    ensures
        request.fields().len() > 0,
        all_plain(request.fields()),
{
    reveal_verbs();
    match request {
        RequestView::Ping(n) => {
            lemma_decimal_plain(n as nat);
        },
        RequestView::SetOwner(a, b) => {
            lemma_decimal_plain(a as nat);
            lemma_decimal_plain(b as nat);
        },
        RequestView::AskJoinRoom(a, _) => {
            lemma_decimal_plain(a as nat);
        },
        RequestView::LeaveRoom(a) => {
            lemma_decimal_plain(a as nat);
        },
        RequestView::AcceptJoinRoom(a, b) => {
            lemma_decimal_plain(a as nat);
            lemma_decimal_plain(b as nat);
        },
        RequestView::RejectJoinRoom(a, b, _) => {
            lemma_decimal_plain(a as nat);
            lemma_decimal_plain(b as nat);
        },
        RequestView::Send(a, _) => {
            lemma_decimal_plain(a as nat);
        },
        RequestView::SendTo(a, b, _) => {
            lemma_decimal_plain(a as nat);
            lemma_decimal_plain(b as nat);
        },
        RequestView::EchoFrom(a, b, _) => {
            lemma_decimal_plain(a as nat);
            lemma_decimal_plain(b as nat);
        },
        _ => {},
    }
}

/// Every well-formed request is read back from the line that carries it.
pub proof fn lemma_parse_round_trip(request: RequestView)
    requires
        request.well_formed(),
    ensures
        parse_line(request.line()) == Some(request),
{
    lemma_request_fields_plain(request);
    lemma_split_join(request.fields());
    lemma_parse_fields_of_request(request);
}

impl Request {
    /// The line that carries this request to the server, without its
    /// terminator.
    pub fn to_line(&self) -> (text: String)
        ensures
            text@ == self@.line(),
    {
        let mut line;
        match self {
            Request::ListRooms => {
                line = Line::start("LIST_OPEN_GAMES");
            },
            Request::Ping(n) => {
                line = Line::start("PING");
                line.number(*n);
            },
            Request::CreateRoom(data) => {
                line = Line::start("CREATE_GAME");
                line.text(data.as_str());
            },
            Request::SetOwner(room_id, user_id) => {
                line = Line::start("SET_OWNER");
                line.number(*room_id);
                line.number(*user_id);
            },
            Request::AskJoinRoom(room_id, msg) => {
                line = Line::start("JOIN_GAME");
                line.number(*room_id);
                line.text(msg.as_str());
            },
            Request::LeaveRoom(room_id) => {
                line = Line::start("LEAVE_GAME");
                line.number(*room_id);
            },
            Request::AcceptJoinRoom(room_id, user_id) => {
                line = Line::start("ACCEPT_JOIN");
                line.number(*room_id);
                line.number(*user_id);
            },
            Request::RejectJoinRoom(room_id, user_id, reason) => {
                line = Line::start("REJECT_JOIN");
                line.number(*room_id);
                line.number(*user_id);
                line.text(reason.as_str());
            },
            Request::Send(room_id, payload) => {
                line = Line::start("SEND");
                line.number(*room_id);
                line.text(payload.as_str());
            },
            Request::SendTo(room_id, user_id, payload) => {
                line = Line::start("SEND_TO");
                line.number(*room_id);
                line.number(*user_id);
                line.text(payload.as_str());
            },
            Request::EchoFrom(room_id, user_id, payload) => {
                line = Line::start("ECHO_FROM");
                line.number(*room_id);
                line.number(*user_id);
                line.text(payload.as_str());
            },
            Request::Quit => {
                line = Line::start("QUIT");
            },
        }
        assert(line.fields() =~= self@.fields());
        line.finish()
    }
}

} // verus!
