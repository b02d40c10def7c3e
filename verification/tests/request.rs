use incognita_socket_server::request::{parse, Request};

#[test]
fn request_list_rooms() {
    let r = parse("LIST_OPEN_GAMES").unwrap();
    assert_eq!(Request::ListRooms, r);
}

#[test]
fn ping() {
    let r = parse("PING|23").unwrap();
    assert_eq!(Request::Ping(23), r);
}

#[test]
fn request_create_room() {
    let r = parse("CREATE_GAME|hello").unwrap();
    assert_eq!(Request::CreateRoom("hello".into()), r);
}

#[test]
fn set_owner() {
    let r = parse("SET_OWNER|1|2").unwrap();
    assert_eq!(Request::SetOwner(1, 2), r);
}

#[test]
fn request_ask_join() {
    let r = parse("JOIN_GAME|3|hello").unwrap();
    assert_eq!(Request::AskJoinRoom(3, "hello".into()), r);
}

#[test]
fn request_accept_join() {
    let r = parse("ACCEPT_JOIN|3|4").unwrap();
    assert_eq!(Request::AcceptJoinRoom(3, 4), r);
}

#[test]
fn request_reject_join() {
    let r = parse("REJECT_JOIN|3|4|ur banned").unwrap();
    assert_eq!(Request::RejectJoinRoom(3, 4, "ur banned".into()), r);
}

#[test]
fn request_leave_room() {
    let r = parse("LEAVE_GAME|3").unwrap();
    assert_eq!(Request::LeaveRoom(3), r);
}

#[test]
fn send() {
    let r = parse("SEND|3|hello").unwrap();
    assert_eq!(Request::Send(3, "hello".into()), r);
}

#[test]
fn request_send_to() {
    let r = parse("SEND_TO|3|4|hello").unwrap();
    assert_eq!(Request::SendTo(3, 4, "hello".into()), r);
}

#[test]
fn request_echo_from() {
    let r = parse("ECHO_FROM|3|4|hello").unwrap();
    assert_eq!(Request::EchoFrom(3, 4, "hello".into()), r);
}
