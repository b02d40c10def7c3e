use incognita_socket_server::dispatch::{frame, on_line, welcome, Action, Dispatcher, Event, SessionStep};
use incognita_socket_server::models::UserID;
use incognita_socket_server::response::{Error, Message, Response};
use incognita_socket_server::server::Server;

/// What a client would read, per addressee, for every message of an action.
fn written(messages: &Vec<(UserID, Message)>) -> Vec<(UserID, String)> {
    messages.iter().map(|(to, message)| (*to, frame(message))).collect()
}

/// Connects a client and returns the identifier and the line that greets it.
fn connect(dispatcher: &mut Dispatcher) -> (UserID, String) {
    match dispatcher.handle(Event::Connected) {
        Action::Accept(id) => (id, frame(&welcome(id))),
        other => panic!("not accepted: {:?}", other),
    }
}

/// Sends one line as the client `from` and returns what is written to whom.
fn say(dispatcher: &mut Dispatcher, from: UserID, line: &str) -> Vec<(UserID, String)> {
    match on_line(line) {
        SessionStep::Forward(request) => match dispatcher.handle(Event::Request(from, request)) {
            Action::Deliver(messages) => written(&messages),
            other => panic!("not delivered: {:?}", other),
        },
        SessionStep::Reply(message) => vec![(from, frame(&message))],
        SessionStep::Quit => hang_up(dispatcher, from),
    }
}

/// Ends the session of `user` and returns what is written to whom.
fn hang_up(dispatcher: &mut Dispatcher, user: UserID) -> Vec<(UserID, String)> {
    match dispatcher.handle(Event::Disconnected(user)) {
        Action::Drop(dropped, messages) => {
            assert_eq!(user, dropped);
            written(&messages)
        },
        other => panic!("not dropped: {:?}", other),
    }
}

fn to(user: UserID, line: &str) -> Vec<(UserID, String)> {
    vec![(user, format!("{}\n", line))]
}

/// Two clients, the first owning room 1.
fn room_opened() -> Dispatcher {
    let mut d = Dispatcher::new(Server::new(256));
    assert_eq!((1, "WELCOME|1\n".to_string()), connect(&mut d));
    assert_eq!((2, "WELCOME|2\n".to_string()), connect(&mut d));
    assert_eq!(to(1, "CREATED_GAME|1"), say(&mut d, 1, "CREATE_GAME|hello"));
    d
}

/// Two clients, the first owning room 1, the second a member of it.
fn room_joined() -> Dispatcher {
    let mut d = room_opened();
    assert_eq!(to(1, "PLAYER_JOINED|1|2|please"), say(&mut d, 2, "JOIN_GAME|1|please"));
    assert_eq!(to(2, "JOINED|1"), say(&mut d, 1, "ACCEPT_JOIN|1|2"));
    d
}

#[test]
fn scenario_create_and_list() {
    let mut d = room_opened();
    assert_eq!(to(2, "OPEN_GAMES|1|hello"), say(&mut d, 2, "LIST_OPEN_GAMES"));
}

#[test]
fn scenario_join_and_accept() {
    room_joined();
}

#[test]
fn scenario_send_both_ways() {
    let mut d = room_joined();
    assert_eq!(to(1, "RECEIVED|1|2|hi"), say(&mut d, 2, "SEND|1|hi"));
    assert_eq!(to(2, "RECEIVED|1|hey"), say(&mut d, 1, "SEND|1|hey"));
}

#[test]
fn scenario_send_to_is_for_the_owner() {
    let mut d = room_joined();
    assert_eq!(to(2, "RECEIVED|1|secret"), say(&mut d, 1, "SEND_TO|1|2|secret"));
    assert_eq!(to(2, "ERROR|You are not the game owner"), say(&mut d, 2, "SEND_TO|1|1|x"));
}

#[test]
fn scenario_disconnects() {
    let mut d = room_joined();
    assert_eq!(to(1, "PLAYER_LEFT|1|2"), hang_up(&mut d, 2));
    assert_eq!(Vec::<(UserID, String)>::new(), hang_up(&mut d, 1));
    assert_eq!(to(3, "NO_OPEN_GAMES"), {
        assert_eq!(3, connect(&mut d).0);
        say(&mut d, 3, "LIST_OPEN_GAMES")
    });
}

#[test]
fn scenario_server_full() {
    let mut d = Dispatcher::new(Server::new(1));
    assert_eq!((1, "WELCOME|1\n".to_string()), connect(&mut d));
    match d.handle(Event::Connected) {
        Action::Refuse(message) => {
            assert_eq!(Message::Error(Error::ServerFull), message);
            assert_eq!("ERROR|Server is full\n", frame(&message));
        },
        other => panic!("not refused: {:?}", other),
    }
    assert_eq!(to(1, "PONG|7"), say(&mut d, 1, "PING|7"));
    assert_eq!(to(1, "CREATED_GAME|1"), say(&mut d, 1, "CREATE_GAME|still here"));
}

#[test]
fn ping_boundaries() {
    let mut d = Dispatcher::new(Server::new(2));
    connect(&mut d);
    assert_eq!(to(1, "PONG|0"), say(&mut d, 1, "PING|0"));
    assert_eq!(to(1, "PONG|4294967295"), say(&mut d, 1, "PING|4294967295"));
    assert_eq!(to(1, "ERROR|Invalid request"), say(&mut d, 1, "PING|4294967296"));
}

#[test]
fn create_room_while_owner() {
    let mut d = room_joined();
    assert_eq!(to(1, "ERROR|Already in a game"), say(&mut d, 1, "CREATE_GAME|again"));
}

#[test]
fn create_room_while_member() {
    let mut d = room_joined();
    assert_eq!(to(2, "ERROR|Already in a game"), say(&mut d, 2, "CREATE_GAME|mine"));
}

#[test]
fn create_room_while_requester() {
    let mut d = room_opened();
    say(&mut d, 2, "JOIN_GAME|1|please");
    assert_eq!(
        to(2, "ERROR|Already requested to join a game"),
        say(&mut d, 2, "CREATE_GAME|mine")
    );
    assert_eq!(
        to(2, "ERROR|Already requested to join a game"),
        say(&mut d, 2, "JOIN_GAME|1|again")
    );
}

#[test]
fn owner_leaving_ends_the_game_for_all() {
    let mut d = room_joined();
    assert_eq!(3, connect(&mut d).0);
    assert_eq!(4, connect(&mut d).0);
    say(&mut d, 3, "JOIN_GAME|1|me too");
    say(&mut d, 1, "ACCEPT_JOIN|1|3");
    say(&mut d, 4, "JOIN_GAME|1|and me");
    let expected = vec![
        (2, "GAME_OVER|1\n".to_string()),
        (3, "GAME_OVER|1\n".to_string()),
        (4, "GAME_OVER|1\n".to_string()),
    ];
    assert_eq!(expected, say(&mut d, 1, "LEAVE_GAME|1"));
    assert_eq!(to(4, "NO_OPEN_GAMES"), say(&mut d, 4, "LIST_OPEN_GAMES"));
    assert_eq!(to(2, "CREATED_GAME|2"), say(&mut d, 2, "CREATE_GAME|next"));
    assert_eq!(to(2, "PLAYER_JOINED|2|4|hi"), say(&mut d, 4, "JOIN_GAME|2|hi"));
}

#[test]
fn quit_is_not_forwarded() {
    assert_eq!(SessionStep::Quit, on_line("QUIT"));
    let mut d = room_joined();
    assert_eq!(to(1, "PLAYER_LEFT|1|2"), say(&mut d, 2, "QUIT"));
}

#[test]
fn invalid_lines_are_answered() {
    assert_eq!(SessionStep::Reply(Message::Error(Error::InvalidRequest)), on_line("HELLO"));
    assert_eq!(SessionStep::Reply(Message::Error(Error::InvalidRequest)), on_line(""));
    let mut d = room_joined();
    assert_eq!(to(2, "ERROR|Invalid request"), say(&mut d, 2, "SEND|one|hi"));
    assert_eq!(to(1, "OPEN_GAMES|1|hello"), say(&mut d, 1, "LIST_OPEN_GAMES"));
}

#[test]
fn set_owner_is_accepted_and_does_nothing() {
    let mut d = room_joined();
    assert_eq!(Vec::<(UserID, String)>::new(), say(&mut d, 1, "SET_OWNER|1|2"));
    assert_eq!(to(2, "RECEIVED|1|still mine"), say(&mut d, 1, "SEND|1|still mine"));
}

#[test]
fn answer_comes_before_what_goes_to_others() {
    let response = Response {
        returns: Some(Message::Pong(1)),
        sends: vec![(7, Message::RoomJoined(2)), (5, Message::RoomClosed(2))],
    };
    assert_eq!(
        vec![(9, Message::Pong(1)), (7, Message::RoomJoined(2)), (5, Message::RoomClosed(2))],
        Dispatcher::dispatch_response(9, response)
    );
    assert_eq!(
        vec![(9, Message::Error(Error::NoSuchUser))],
        Dispatcher::dispatch_response(9, Response::error(Error::NoSuchUser))
    );
}

#[test]
fn disconnecting_an_unknown_user_drops_the_queue() {
    let mut d = Dispatcher::new(Server::new(2));
    assert_eq!(
        Action::Drop(5, vec![(5, Message::Error(Error::NoSuchUser))]),
        d.handle(Event::Disconnected(5))
    );
}

#[test]
fn the_owner_of_another_room_is_not_in_that_room() {
    let mut d = room_joined();
    assert_eq!(3, connect(&mut d).0);
    assert_eq!(to(3, "CREATED_GAME|2"), say(&mut d, 3, "CREATE_GAME|other"));
    assert_eq!(to(3, "ERROR|You are not in that game"), say(&mut d, 3, "LEAVE_GAME|1"));
    assert_eq!(to(1, "ERROR|You are not in that game"), say(&mut d, 1, "LEAVE_GAME|2"));
    assert_eq!(to(2, "ERROR|You are not in that game"), say(&mut d, 2, "LEAVE_GAME|2"));
    assert_eq!(to(3, "OPEN_GAMES|1|hello|2|other"), say(&mut d, 3, "LIST_OPEN_GAMES"));
    assert_eq!(to(2, "RECEIVED|1|still open"), say(&mut d, 1, "SEND|1|still open"));
}
