use std::collections::HashMap;

use incognita_socket_server::canonicalise::sort_by_id;
use incognita_socket_server::ids::next_id;
use incognita_socket_server::models::{RoomID, UserID, UserState};
use incognita_socket_server::request::Request;
use incognita_socket_server::response::{Error, Message, Response};
use incognita_socket_server::server::Server;

/// Checks on a concrete server that every user's state and the rooms agree,
/// for the users and rooms that the identifiers up to `top` name.
fn assert_in_order(server: &Server, top: u32, max_connections: usize) {
    let mut connected = 0;
    for u in 0..=top {
        let state = server.user_state(u);
        if state.is_some() {
            connected += 1;
        }
        match state {
            Some(UserState::RoomOwner(r)) => {
                assert_eq!(u, server.get_room(r).unwrap().owner_id);
            },
            Some(UserState::InRoom(r)) => {
                assert!(server.get_room(r).unwrap().members.contains(&u));
            },
            Some(UserState::RequestedJoin(r)) => {
                assert!(server.get_room(r).unwrap().join_requests.contains(&u));
            },
            Some(UserState::Nowhere) | None => {},
        }
        for r in 0..=top {
            if let Ok(room) = server.get_room(r) {
                assert_eq!(r, room.id);
                assert_eq!(room.owner_id == u, state == Some(UserState::RoomOwner(r)));
                assert_eq!(room.members.contains(&u), state == Some(UserState::InRoom(r)));
                assert_eq!(
                    room.join_requests.contains(&u),
                    state == Some(UserState::RequestedJoin(r))
                );
                assert!(room.members.iter().filter(|m| **m == u).count() <= 1);
                assert!(room.join_requests.iter().filter(|m| **m == u).count() <= 1);
            }
        }
    }
    assert_eq!(connected, server.user_count());
    assert!(server.user_count() <= max_connections);
}

#[test]
fn the_server_stays_in_order() {
    let mut server = Server::new(6);
    assert_in_order(&server, 8, 6);
    for _ in 0..7 {
        server.add_user();
        assert_in_order(&server, 8, 6);
    }
    let steps: Vec<(UserID, Request)> = vec![
        (1, Request::CreateRoom("one".into())),
        (2, Request::CreateRoom("two".into())),
        (3, Request::AskJoinRoom(1, "hi".into())),
        (4, Request::AskJoinRoom(1, "hi".into())),
        (5, Request::AskJoinRoom(2, "hi".into())),
        (5, Request::AskJoinRoom(1, "twice".into())),
        (1, Request::AcceptJoinRoom(1, 3)),
        (2, Request::AcceptJoinRoom(1, 4)),
        (1, Request::AcceptJoinRoom(1, 5)),
        (1, Request::RejectJoinRoom(1, 4, "no".into())),
        (4, Request::AskJoinRoom(2, "then here".into())),
        (2, Request::AcceptJoinRoom(2, 4)),
        (2, Request::AcceptJoinRoom(2, 5)),
        (1, Request::SetOwner(1, 3)),
        (3, Request::LeaveRoom(2)),
        (3, Request::LeaveRoom(1)),
        (3, Request::LeaveRoom(1)),
        (6, Request::LeaveRoom(1)),
        (9, Request::LeaveRoom(1)),
        (4, Request::CreateRoom("mine".into())),
        (2, Request::LeaveRoom(2)),
        (4, Request::CreateRoom("mine".into())),
        (5, Request::AskJoinRoom(3, "hi".into())),
        (1, Request::LeaveRoom(1)),
        (1, Request::LeaveRoom(1)),
        (1, Request::Quit),
    ];
    for (user, request) in steps {
        server.handle_request(user, request);
        assert_in_order(&server, 8, 6);
    }
    for u in [5, 4, 9, 1, 2, 3, 6] {
        let _ = server.remove_user(u);
        assert_in_order(&server, 8, 6);
    }
    assert_eq!(0, server.user_count());
}

#[test]
fn removal_leaves_no_trace() {
    let mut server = Server::new(8);
    for _ in 0..5 {
        server.add_user();
    }
    server.create_room(1, "a".into()).unwrap();
    server.ask_join(2, 1, "".into()).unwrap();
    server.ask_join(3, 1, "".into()).unwrap();
    server.ask_join(4, 1, "".into()).unwrap();
    server.accept_join(1, 1, 2).unwrap();
    server.accept_join(1, 1, 3).unwrap();

    assert_eq!(Ok(Response::sends(1, Message::PlayerLeft(1, 2))), server.remove_user(2));
    assert_eq!(None, server.user_state(2));
    assert_eq!(vec![3], server.get_room(1).unwrap().members);
    assert_eq!(Ok(Response::sends(1, Message::PlayerLeft(1, 4))), server.remove_user(4));
    assert!(server.get_room(1).unwrap().join_requests.is_empty());
    assert_eq!(Err(Error::NoSuchUser), server.remove_user(4));
    assert_eq!(Ok(Response::sends(3, Message::RoomClosed(1))), server.remove_user(1));
    assert_eq!(Some(Error::NoSuchRoom), server.get_room(1).err());
    assert_eq!(Some(UserState::Nowhere), server.user_state(3));
    assert_eq!(Ok(Response::empty()), server.remove_user(5));
    assert_eq!(1, server.user_count());
    assert_in_order(&server, 6, 8);
}

#[test]
fn closing_tells_members_then_requesters() {
    let mut server = Server::new(8);
    for _ in 0..5 {
        server.add_user();
    }
    server.create_room(3, "a".into()).unwrap();
    for u in [5, 1, 2, 4] {
        server.ask_join(u, 1, "".into()).unwrap();
    }
    server.accept_join(3, 1, 2).unwrap();
    server.accept_join(3, 1, 5).unwrap();
    let expected = Response::sends_all(vec![
        (2, Message::RoomClosed(1)),
        (5, Message::RoomClosed(1)),
        (4, Message::RoomClosed(1)),
        (1, Message::RoomClosed(1)),
    ]);
    assert_eq!(Ok(expected), server.close_room(1));
    for u in 1..=5 {
        assert_eq!(Some(UserState::Nowhere), server.user_state(u));
    }
    assert_eq!(Err(Error::NoSuchRoom), server.close_room(1));
}

#[test]
fn every_refusal_has_its_error() {
    let mut server = Server::new(8);
    for _ in 0..4 {
        server.add_user();
    }
    assert_eq!(Err(Error::NoSuchUser), server.create_room(9, "x".into()));
    server.create_room(1, "x".into()).unwrap();
    assert_eq!(Err(Error::AlreadyInARoom), server.create_room(1, "x".into()));
    assert_eq!(Err(Error::NoSuchUser), server.ask_join(9, 1, "".into()));
    assert_eq!(Err(Error::NoSuchRoom), server.ask_join(2, 5, "".into()));
    assert_eq!(Err(Error::AlreadyInARoom), server.ask_join(1, 1, "".into()));
    server.ask_join(2, 1, "".into()).unwrap();
    assert_eq!(Err(Error::AlreadyRequestedJoin), server.ask_join(2, 1, "".into()));
    assert_eq!(Err(Error::AlreadyRequestedJoin), server.create_room(2, "".into()));

    assert_eq!(Err(Error::NoSuchUser), server.accept_join(1, 1, 9));
    assert_eq!(Err(Error::NoSuchRoom), server.accept_join(1, 5, 2));
    assert_eq!(Err(Error::NotRoomOwner), server.accept_join(2, 1, 2));
    assert_eq!(Err(Error::NoSuchJoinRequest), server.accept_join(1, 1, 3));
    assert_eq!(Err(Error::NoSuchUser), server.reject_join(1, 1, 9, "".into()));
    assert_eq!(Err(Error::NoSuchRoom), server.reject_join(1, 5, 2, "".into()));
    assert_eq!(Err(Error::NotRoomOwner), server.reject_join(3, 1, 2, "".into()));
    assert_eq!(Err(Error::NoSuchJoinRequest), server.reject_join(1, 1, 3, "".into()));
    server.accept_join(1, 1, 2).unwrap();
    assert_eq!(Err(Error::AlreadyInARoom), server.create_room(2, "".into()));
    assert_eq!(Err(Error::NoSuchJoinRequest), server.accept_join(1, 1, 2));

    assert_eq!(Err(Error::NoSuchUser), server.leave_room(9, 1));
    assert_eq!(Err(Error::NoSuchRoom), server.leave_room(2, 5));
    assert_eq!(Err(Error::NotInThatRoom), server.leave_room(3, 1));
    server.create_room(3, "y".into()).unwrap();
    assert_eq!(Err(Error::NotInThatRoom), server.leave_room(3, 1));
    assert_eq!(Some(UserState::RoomOwner(2)), server.user_state(3));
    assert_eq!(3, server.get_room(2).unwrap().owner_id);
    assert_eq!(Err(Error::NotInThatRoom), server.leave_room(2, 2));
    assert_eq!(Err(Error::NotInThatRoom), server.leave_room(1, 2));

    assert_eq!(Err(Error::NoSuchRoom), server.send(1, 5, "".into()));
    assert_eq!(Err(Error::NoSuchRoom), server.send_to(1, 5, 2, "".into()));
    assert_eq!(Err(Error::NotRoomOwner), server.send_to(2, 1, 2, "".into()));
    assert_eq!(Err(Error::NoSuchUser), server.send_to(1, 1, 4, "".into()));
    assert_eq!(Err(Error::NoSuchUser), server.send_to(1, 1, 1, "".into()));
    assert_eq!(Err(Error::NoSuchRoom), server.echo_from(1, 5, 2, "".into()));
    assert_eq!(Err(Error::NotRoomOwner), server.echo_from(2, 1, 2, "".into()));
    assert_eq!(Err(Error::NoSuchUser), server.echo_from(1, 1, 4, "".into()));
    assert_eq!(Err(Error::NoSuchUser), server.remove_user(9));
    assert_eq!(Some(Error::NoSuchRoom), server.get_room(5).err());
}

#[test]
fn a_failed_request_changes_nothing() {
    let mut server = Server::new(8);
    for _ in 0..3 {
        server.add_user();
    }
    server.create_room(1, "x".into()).unwrap();
    server.ask_join(2, 1, "".into()).unwrap();
    let failing = vec![
        (3, Request::AcceptJoinRoom(1, 2), Error::NotRoomOwner),
        (3, Request::RejectJoinRoom(1, 2, "".into()), Error::NotRoomOwner),
        (1, Request::AcceptJoinRoom(1, 3), Error::NoSuchJoinRequest),
        (3, Request::LeaveRoom(1), Error::NotInThatRoom),
        (2, Request::CreateRoom("".into()), Error::AlreadyRequestedJoin),
        (1, Request::AskJoinRoom(1, "".into()), Error::AlreadyInARoom),
        (1, Request::EchoFrom(1, 2, "".into()), Error::NoSuchUser),
        (1, Request::SendTo(1, 2, "".into()), Error::NoSuchUser),
        (1, Request::Send(4, "".into()), Error::NoSuchRoom),
    ];
    for (user, request, error) in failing {
        assert_eq!(Response::error(error), server.handle_request(user, request));
        assert_eq!(Some(UserState::RoomOwner(1)), server.user_state(1));
        assert_eq!(Some(UserState::RequestedJoin(1)), server.user_state(2));
        assert_eq!(Some(UserState::Nowhere), server.user_state(3));
        assert_eq!(vec![2], server.get_room(1).unwrap().join_requests);
        assert!(server.get_room(1).unwrap().members.is_empty());
    }
}

#[test]
fn requests_are_handled() {
    let mut server = Server::new(8);
    for _ in 0..3 {
        server.add_user();
    }
    assert_eq!(Response::returning(Message::Pong(5)), server.handle_request(1, Request::Ping(5)));
    assert_eq!(Response::returning(Message::Pong(5)), server.handle_request(9, Request::Ping(5)));
    assert_eq!(Response::empty(), server.handle_request(1, Request::Quit));
    assert_eq!(Response::empty(), server.handle_request(1, Request::SetOwner(1, 2)));
    assert_eq!(
        Response::returning(Message::ListRooms(vec![])),
        server.handle_request(1, Request::ListRooms)
    );
    assert_eq!(
        Response::returning(Message::RoomCreated(1)),
        server.handle_request(2, Request::CreateRoom("b".into()))
    );
    assert_eq!(
        Response::sends(2, Message::JoinRequested(1, 3, "hi".into())),
        server.handle_request(3, Request::AskJoinRoom(1, "hi".into()))
    );
    assert_eq!(
        Response::sends(3, Message::RoomRejected(1, "no".into())),
        server.handle_request(2, Request::RejectJoinRoom(1, 3, "no".into()))
    );
    server.handle_request(3, Request::AskJoinRoom(1, "hi".into()));
    assert_eq!(
        Response::sends(3, Message::RoomJoined(1)),
        server.handle_request(2, Request::AcceptJoinRoom(1, 3))
    );
    assert_eq!(
        Response::sends(3, Message::ReceivedBroadcast(1, "all".into())),
        server.handle_request(2, Request::Send(1, "all".into()))
    );
    assert_eq!(
        Response::sends(2, Message::ReceivedFrom(1, 1, "knock".into())),
        server.handle_request(1, Request::Send(1, "knock".into()))
    );
    assert_eq!(
        Response::sends(3, Message::ReceivedIndividual(1, "you".into())),
        server.handle_request(2, Request::SendTo(1, 3, "you".into()))
    );
    assert_eq!(Response::empty(), server.handle_request(2, Request::EchoFrom(1, 3, "e".into())));
    assert_eq!(
        Response::sends(2, Message::PlayerLeft(1, 3)),
        server.handle_request(3, Request::LeaveRoom(1))
    );
    assert_eq!(
        Response::returning(Message::ListRooms(vec![(1, "b".into())])),
        server.handle_request(3, Request::ListRooms)
    );
}

#[test]
fn rooms_are_listed_oldest_first() {
    let mut server = Server::new(8);
    for _ in 0..4 {
        server.add_user();
    }
    server.create_room(3, "c".into()).unwrap();
    server.create_room(1, "a".into()).unwrap();
    server.create_room(4, "d".into()).unwrap();
    let listed = |server: &Server| match server.list_rooms().returns {
        Some(Message::ListRooms(rooms)) => rooms,
        other => panic!("no list: {:?}", other),
    };
    assert_eq!(
        vec![(1, "c".to_string()), (2, "a".to_string()), (3, "d".to_string())],
        listed(&server)
    );
    server.leave_room(1, 2).unwrap();
    assert_eq!(vec![(1, "c".to_string()), (3, "d".to_string())], listed(&server));
    server.create_room(2, "b".into()).unwrap();
    assert_eq!(
        vec![(1, "c".to_string()), (3, "d".to_string()), (4, "b".to_string())],
        listed(&server)
    );
}

#[test]
fn echo_skips_the_sender() {
    let mut server = Server::new(8);
    for _ in 0..4 {
        server.add_user();
    }
    server.create_room(1, "a".into()).unwrap();
    for u in [2, 3, 4] {
        server.ask_join(u, 1, "".into()).unwrap();
        server.accept_join(1, 1, u).unwrap();
    }
    let expected = Response::sends_all(vec![
        (2, Message::ReceivedBroadcast(1, "e".into())),
        (4, Message::ReceivedBroadcast(1, "e".into())),
    ]);
    assert_eq!(Ok(expected), server.echo_from(1, 1, 3, "e".into()));
}

#[test]
fn identifiers_are_fresh() {
    let mut server = Server::new(3);
    assert_eq!(Some(1), server.add_user());
    assert_eq!(Some(2), server.add_user());
    assert_eq!(Some(3), server.add_user());
    server.remove_user(2).unwrap();
    assert_eq!(Some(4), server.add_user());
    assert_eq!(None, server.add_user());
    server.remove_user(1).unwrap();
    assert_eq!(Some(5), server.add_user());

    assert_eq!(Ok(Response::returning(Message::RoomCreated(1))), server.create_room(3, "".into()));
    assert_eq!(Ok(Response::returning(Message::RoomCreated(2))), server.create_room(4, "".into()));
    server.leave_room(3, 1).unwrap();
    assert_eq!(Ok(Response::returning(Message::RoomCreated(3))), server.create_room(3, "".into()));
}

#[test]
fn a_server_without_room_takes_nobody() {
    let mut server = Server::new(0);
    assert_eq!(None, server.add_user());
    assert_eq!(0, server.user_count());
}

fn used(ids: &[u32]) -> HashMap<u32, ()> {
    ids.iter().map(|id| (*id, ())).collect()
}

#[test]
fn the_next_identifier_is_the_first_free_one_after_the_last() {
    assert_eq!(1, next_id(0, &used(&[])));
    assert_eq!(5, next_id(4, &used(&[1, 3, 4])));
    assert_eq!(7, next_id(4, &used(&[1, 3, 4, 5, 6])));
    assert_eq!(3, next_id(1, &used(&[1, 2, 4])));
    assert_eq!(3, next_id(2, &used(&[1, 2, 4])));
    let crowded: Vec<u32> = (5..=1000).chain([3, 4, 1, 0, u32::MAX]).collect();
    assert_eq!(1001, next_id(2, &used(&crowded)));
}

#[test]
fn identifiers_go_round() {
    assert_eq!(0, next_id(u32::MAX, &used(&[1, 2])));
    assert_eq!(2, next_id(u32::MAX, &used(&[0, 1])));
    assert_eq!(0, next_id(u32::MAX - 1, &used(&[u32::MAX, 1])));
    assert_eq!(3, next_id(u32::MAX - 2, &used(&[u32::MAX - 1, u32::MAX, 0, 1, 2])));
}

#[test]
fn a_dropped_identifier_comes_back_only_after_a_full_round() {
    assert_eq!(6, next_id(5, &used(&[1, 3, 4, 5])));
    assert_eq!(2, next_id(u32::MAX, &used(&[0, 1, 3, 4, 5])));

    let mut server = Server::new(5);
    for expected in 1..=5 {
        assert_eq!(Some(expected), server.add_user());
    }
    server.remove_user(2).unwrap();
    assert_eq!(Some(6), server.add_user());
    server.remove_user(6).unwrap();
    assert_eq!(Some(7), server.add_user());
}

#[test]
fn sorting_keeps_equals_in_their_order() {
    let mut v = vec![(3, "c1"), (1, "a1"), (3, "c2"), (2, "b"), (1, "a2"), (0, "z"), (3, "c3")];
    sort_by_id(&mut v);
    assert_eq!(
        vec![(0, "z"), (1, "a1"), (1, "a2"), (2, "b"), (3, "c1"), (3, "c2"), (3, "c3")],
        v
    );
    let mut empty: Vec<(u32, ())> = vec![];
    sort_by_id(&mut empty);
    assert!(empty.is_empty());
    let mut big: Vec<(RoomID, u32)> = (0..200).rev().map(|i| (i / 3, i)).collect();
    let mut expected = big.clone();
    expected.sort_by_key(|p| p.0);
    sort_by_id(&mut big);
    assert_eq!(expected, big);
}

#[test]
fn canonical_forms_ignore_order() {
    let a = Response {
        returns: Some(Message::ListRooms(vec![(2, "b".into()), (1, "a".into())])),
        sends: vec![
            (5, Message::RoomClosed(1)),
            (2, Message::ListRooms(vec![(9, "i".into()), (8, "h".into())])),
            (5, Message::RoomJoined(1)),
        ],
    };
    let b = Response {
        returns: Some(Message::ListRooms(vec![(1, "a".into()), (2, "b".into())])),
        sends: vec![
            (2, Message::ListRooms(vec![(8, "h".into()), (9, "i".into())])),
            (5, Message::RoomClosed(1)),
            (5, Message::RoomJoined(1)),
        ],
    };
    assert_ne!(a, b);
    assert_eq!(b, a.canonical());
    let mut twice = Response::sends(1, Message::Pong(1));
    twice.canonicalise();
    assert_eq!(Response::sends(1, Message::Pong(1)), twice);
    let mut message = Message::ListRooms(vec![(3, "c".into()), (1, "a".into()), (2, "b".into())]);
    message.canonicalise();
    assert_eq!(Message::ListRooms(vec![(1, "a".into()), (2, "b".into()), (3, "c".into())]), message);
}

#[test]
fn users_and_rooms_are_found() {
    let mut server = Server::new(4);
    server.add_user();
    server.add_user();
    server.create_room(2, "two".into()).unwrap();
    server.ask_join(1, 1, "".into()).unwrap();

    assert_eq!(Some(Error::NoSuchUser), server.get_user_mut(3).err());
    assert_eq!(Some(Error::NoSuchRoom), server.get_room_mut(2).err());
    assert_eq!(Some(Error::NoSuchUser), server.get_user_room_mut(3, 1).err());
    assert_eq!(Some(Error::NoSuchUser), server.get_user_room_mut(3, 2).err());
    assert_eq!(Some(Error::NoSuchRoom), server.get_user_room_mut(1, 2).err());

    let user = server.get_user_mut(2).unwrap();
    assert_eq!((2, UserState::RoomOwner(1)), (user.id, user.state));
    let room = server.get_room_mut(1).unwrap();
    assert_eq!((1, 2, "two"), (room.id, room.owner_id, room.data.as_str()));
    assert_eq!(vec![1], room.join_requests);
    let (user, room) = server.get_user_room_mut(1, 1).unwrap();
    assert_eq!((1, UserState::RequestedJoin(1)), (user.id, user.state));
    assert_eq!(2, room.owner_id);

    let (user, room) = server.get_user_room_mut(1, 1).unwrap();
    room.accept_join_request(user).unwrap();
    assert_eq!(Some(UserState::InRoom(1)), server.user_state(1));
    assert_eq!(vec![1], server.get_room(1).unwrap().members);
    assert_in_order(&server, 4, 4);
}

#[test]
fn the_default_server_is_empty_and_closed() {
    let mut server = Server::default();
    assert_eq!(0, server.user_count());
    assert_eq!(None, server.add_user());
    assert_eq!(Response::returning(Message::ListRooms(vec![])), server.list_rooms());
}
