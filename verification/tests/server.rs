use incognita_socket_server::response::{Error, Message, Response};
use incognita_socket_server::server::Server;

fn ok(t: Message) -> Result<Response, Error> {
    Ok(Response::returning(t))
}

#[test]
fn add_user() {
    let mut server = Server::new(4);
    assert_eq!(Some(1), server.add_user());
}

#[test]
fn remove_user() {
    let mut server = Server::new(4);
    assert_eq!(Some(1), server.add_user());
    assert_eq!(Ok(Response::empty()), server.remove_user(1));
}

#[test]
fn max_connections() {
    let mut server = Server::new(4);
    assert_eq!(Some(1), server.add_user());
    assert_eq!(Some(2), server.add_user());
    assert_eq!(Some(3), server.add_user());
    assert_eq!(Some(4), server.add_user());
    assert_eq!(None, server.add_user());
}

#[test]
fn server_create_room() {
    let mut server = Server::new(4);
    server.add_user().unwrap();
    assert_eq!(ok(Message::RoomCreated(1)), server.create_room(1, "hello".into()));
}

#[test]
fn server_ask_join() {
    let mut server = Server::new(4);
    server.add_user().unwrap();
    server.add_user().unwrap();
    server.create_room(1, "hello".into()).unwrap();

    let expected = Response::sends(1, Message::JoinRequested(1, 2, "please".into()));
    assert_eq!(Ok(expected), server.ask_join(2, 1, "please".into()));
}

#[test]
fn server_accept_join() {
    let mut server = Server::new(4);
    server.add_user().unwrap();
    server.add_user().unwrap();
    server.create_room(1, "hello".into()).unwrap();
    server.ask_join(2, 1, "please".into()).unwrap();

    let expected = Response::sends(2, Message::RoomJoined(1));
    assert_eq!(Ok(expected), server.accept_join(1, 1, 2));
}

#[test]
fn server_reject_join() {
    let mut server = Server::new(4);
    server.add_user().unwrap();
    server.add_user().unwrap();
    server.create_room(1, "hello".into()).unwrap();
    server.ask_join(2, 1, "please".into()).unwrap();

    let expected = Response::sends(2, Message::RoomRejected(1, "no".into()));
    assert_eq!(Ok(expected), server.reject_join(1, 1, 2, "no".into()));
}

#[test]
fn server_leave_room() {
    let mut server = Server::new(4);
    server.add_user().unwrap();
    server.add_user().unwrap();
    server.create_room(1, "hello".into()).unwrap();
    server.ask_join(2, 1, "please".into()).unwrap();
    server.accept_join(1, 1, 2).unwrap();

    let expected = Response::sends(1, Message::PlayerLeft(1, 2));
    assert_eq!(Ok(expected), server.leave_room(2, 1));
}

#[test]
fn close_room() {
    let mut server = Server::new(4);
    server.add_user().unwrap();
    server.add_user().unwrap();
    server.create_room(1, "hello".into()).unwrap();
    server.ask_join(2, 1, "please".into()).unwrap();
    server.accept_join(1, 1, 2).unwrap();

    let expected = Response::sends(2, Message::RoomClosed(1));
    assert_eq!(Ok(expected), server.leave_room(1, 1));
}

#[test]
fn owner_send() {
    let mut server = Server::new(4);
    server.add_user().unwrap();
    server.add_user().unwrap();
    server.add_user().unwrap();
    server.create_room(1, "hello".into()).unwrap();
    server.ask_join(2, 1, "please".into()).unwrap();
    server.ask_join(3, 1, "please".into()).unwrap();
    server.accept_join(1, 1, 2).unwrap();
    server.accept_join(1, 1, 3).unwrap();

    let expected = Response::sends_all(vec![
        (2, Message::ReceivedBroadcast(1, "whee".into())),
        (3, Message::ReceivedBroadcast(1, "whee".into())),
    ]);
    assert_eq!(Ok(expected), server.send(1, 1, "whee".into()));
}

#[test]
fn member_send() {
    let mut server = Server::new(4);
    server.add_user().unwrap();
    server.add_user().unwrap();
    server.create_room(1, "hello".into()).unwrap();
    server.ask_join(2, 1, "please".into()).unwrap();
    server.accept_join(1, 1, 2).unwrap();

    let expected = Response::sends(1, Message::ReceivedFrom(1, 2, "whee".into()));
    assert_eq!(Ok(expected), server.send(2, 1, "whee".into()));
}

#[test]
fn server_send_to() {
    let mut server = Server::new(4);
    server.add_user().unwrap();
    server.add_user().unwrap();
    server.add_user().unwrap();
    server.create_room(1, "hello".into()).unwrap();
    server.ask_join(2, 1, "please".into()).unwrap();
    server.ask_join(3, 1, "please".into()).unwrap();
    server.accept_join(1, 1, 2).unwrap();
    server.accept_join(1, 1, 3).unwrap();

    let expected = Response::sends(2, Message::ReceivedIndividual(1, "whee".into()));
    assert_eq!(Ok(expected), server.send_to(1, 1, 2, "whee".into()));
}

#[test]
fn server_echo_from() {
    let mut server = Server::new(4);
    server.add_user().unwrap();
    server.add_user().unwrap();
    server.add_user().unwrap();
    server.create_room(1, "hello".into()).unwrap();
    server.ask_join(2, 1, "please".into()).unwrap();
    server.ask_join(3, 1, "please".into()).unwrap();
    server.accept_join(1, 1, 2).unwrap();
    server.accept_join(1, 1, 3).unwrap();

    let expected = Response::sends(3, Message::ReceivedBroadcast(1, "whee".into()));
    assert_eq!(Ok(expected), server.echo_from(1, 1, 2, "whee".into()));
}

#[test]
fn owner_quit_during_game() {
    let mut server = Server::new(4);
    server.add_user().unwrap();
    server.create_room(1, "hello".into()).unwrap();

    assert_eq!(Ok(Response::empty()), server.remove_user(1));
}

#[test]
fn member_quit_during_game() {
    let mut server = Server::new(4);
    server.add_user().unwrap();
    server.add_user().unwrap();
    server.create_room(1, "hello".into()).unwrap();
    server.ask_join(2, 1, "please".into()).unwrap();
    server.accept_join(1, 1, 2).unwrap();

    let expected = Response::sends(1, Message::PlayerLeft(1, 2));
    assert_eq!(Ok(expected), server.remove_user(2));
}

#[test]
fn server_list_rooms() {
    let mut server = Server::new(4);
    server.add_user().unwrap();
    server.add_user().unwrap();

    assert_eq!(ok(Message::RoomCreated(1)), server.create_room(2, "hello".into()));
    assert_eq!(ok(Message::RoomCreated(2)), server.create_room(1, "world".into()));

    let expected: Response = Response::returning(Message::ListRooms(vec![
        (1, "hello".into()),
        (2, "world".into()),
    ]));
    assert_eq!(expected, server.list_rooms().canonical());
}
