//! Proofs that every operation keeps the server's invariant, and what the
//! invariant says of users and rooms.

use vstd::prelude::*;
use vstd::relations::injective_on;
use vstd::set_lib::{lemma_len_subset, lemma_map_size};

use crate::ids::{
    has_free_id, id_space, lemma_free_id_by_count, lemma_next_free_id, next_free_id,
};
use crate::models::{lemma_swap_removed, nowhere_check, RoomID, UserID, UserState};
use crate::request::RequestView;
use crate::response::{Error, MessageView, ResponseView};
use crate::state::{broadcast_to, other_than, ServerView};

verus! {

/// A sequence with one more element holds that element and what it held.
pub proof fn lemma_push_contains(s: Seq<UserID>, x: UserID)
    ensures
        forall|u: UserID| s.push(x).contains(u) <==> (s.contains(u) || u == x),
{
    assert forall|u: UserID| s.push(x).contains(u) <==> (s.contains(u) || u == x) by {
        if s.contains(u) {
            let i = choose|i: int| 0 <= i < s.len() && s[i] == u;
            assert(s.push(x)[i] == u);
        }
        if u == x {
            assert(s.push(x)[s.len() as int] == u);
        }
    }
}

/// A new element at the end of a sequence without repetitions repeats
/// nothing.
pub proof fn lemma_push_no_duplicates(s: Seq<UserID>, x: UserID)
    requires
        s.no_duplicates(),
        !s.contains(x),
    ensures
        s.push(x).no_duplicates(),
{
}

/// Two sequences one after the other hold what either holds.
pub proof fn lemma_concat_contains(a: Seq<UserID>, b: Seq<UserID>)
    ensures
        forall|u: UserID| (a + b).contains(u) <==> (a.contains(u) || b.contains(u)),
{
    assert forall|u: UserID| (a + b).contains(u) <==> (a.contains(u) || b.contains(u)) by {
        if a.contains(u) {
            let i = choose|i: int| 0 <= i < a.len() && a[i] == u;
            assert((a + b)[i] == u);
        }
        if b.contains(u) {
            let i = choose|i: int| 0 <= i < b.len() && b[i] == u;
            assert((a + b)[a.len() + i] == u);
        }
    }
}

/// Taking a value out of a sequence without repetitions leaves exactly the
/// other values, in their order and still without repetitions.
pub proof fn lemma_remove_value(s: Seq<RoomID>, v: RoomID)
    requires
        s.no_duplicates(),
    ensures
        s.remove_value(v).no_duplicates(),
        !s.remove_value(v).contains(v),
        forall|x: RoomID| x != v ==> (s.remove_value(v).contains(x) <==> s.contains(x)),
{
    s.index_of_first_ensures(v);
    let t = s.remove_value(v);
    match s.index_of_first(v) {
        Some(i) => {
            assert forall|x: RoomID| x != v && s.contains(x) implies t.contains(x) by {
                let j = choose|j: int| 0 <= j < s.len() && s[j] == x;
                if j >= i {
                    assert(t[j - 1] == x);
                }
            }
        },
        None => {},
    }
}

/// A server without users or rooms is in order.
pub proof fn lemma_new_inv(max_connections: nat)
    ensures
        ServerView::new(max_connections).inv(),
{
}

/// Connecting a user keeps the server in order, and the identifier that the
/// user gets was not in use.
pub proof fn lemma_add_user_inv(s: ServerView)
    requires
        s.inv(),
    ensures
        s.add_user().0.inv(),
        s.add_user().1 matches Some(id) ==> !s.users.contains_key(id),
{
    if !s.is_full() {
        lemma_next_free_id(s.last_user_id, s.users.dom());
        let t = s.add_user().0;
        assert forall|u: UserID, r: RoomID| #[trigger] t.agrees(u, r) by {
            assert(s.agrees(u, r));
        }
    }
}

/// A server that is in order and may not take more users than there are
/// identifiers refuses a user exactly when as many are connected as may be.
pub proof fn lemma_add_user_refused(s: ServerView)
    requires
        s.inv(),
        s.max_connections <= id_space(),
    ensures
        s.add_user().1 is None <==> s.users.len() >= s.max_connections,
        s.add_user().1 is None ==> s.add_user().0 == s,
{
    lemma_free_id_by_count(s.users.dom());
}

/// Closing a room keeps the server in order, also where the room's owner
/// has just been disconnected.
pub proof fn lemma_close_room_inv(s: ServerView, room_id: RoomID, owner_gone: bool)
    requires
        s.inv(),
        s.rooms.contains_key(room_id),
    ensures
        ({
            let from = if owner_gone {
                ServerView { users: s.users.remove(s.rooms[room_id].owner_id), ..s }
            } else {
                s
            };
            from.close_room(room_id).0.inv()
        }),
{
    let room = s.rooms[room_id];
    let from = if owner_gone {
        ServerView { users: s.users.remove(room.owner_id), ..s }
    } else {
        s
    };
    let t = from.close_room(room_id).0;
    lemma_concat_contains(room.members, room.join_requests);
    lemma_remove_value(s.room_order, room_id);
    assert(t.users.dom() =~= from.users.dom());
    assert(s.agrees(room.owner_id, room_id));
    assert forall|u: UserID, r: RoomID| #[trigger] t.agrees(u, r) by {
        assert(s.agrees(u, r));
        assert(s.agrees(u, room_id));
    }
    assert forall|r: RoomID| #[trigger] t.room_order.contains(r) <==> t.rooms.contains_key(r) by {
        assert(s.room_order.contains(r) <==> s.rooms.contains_key(r));
    }
}

/// Disconnecting a user keeps the server in order, and no room holds the
/// user afterwards: not as owner, not as member, not as one who asked to
/// join.
pub proof fn lemma_remove_user_inv(s: ServerView, user_id: UserID)
    requires
        s.inv(),
    ensures
        s.remove_user(user_id).0.inv(),
        s.users.contains_key(user_id) ==> {
            let t = s.remove_user(user_id).0;
            &&& s.remove_user(user_id).1 is Ok
            &&& !t.users.contains_key(user_id)
            &&& forall|r: RoomID|
                !t.owns(user_id, r) && !t.is_member(user_id, r) && !t.has_requested(user_id, r)
        },
{
    if s.users.contains_key(user_id) {
        let t = s.remove_user(user_id).0;
        match s.users[user_id] {
            UserState::Nowhere => {
                assert forall|u: UserID, r: RoomID| #[trigger] t.agrees(u, r) by {
                    assert(s.agrees(u, r));
                }
            },
            UserState::RoomOwner(room_id) => {
                assert(s.agrees(user_id, room_id));
                lemma_close_room_inv(s, room_id, true);
            },
            UserState::InRoom(room_id) => {
                assert(s.agrees(user_id, room_id));
                let room = s.rooms[room_id];
                lemma_swap_removed(room.members, user_id);
                assert forall|u: UserID, r: RoomID| #[trigger] t.agrees(u, r) by {
                    assert(s.agrees(u, r));
                }
            },
            UserState::RequestedJoin(room_id) => {
                assert(s.agrees(user_id, room_id));
                let room = s.rooms[room_id];
                lemma_swap_removed(room.join_requests, user_id);
                assert forall|u: UserID, r: RoomID| #[trigger] t.agrees(u, r) by {
                    assert(s.agrees(u, r));
                }
            },
        }
        assert forall|r: RoomID|
            !t.owns(user_id, r) && !t.is_member(user_id, r) && !t.has_requested(user_id, r) by {
            assert(t.agrees(user_id, r));
        }
    }
}

/// While some user owns no room, an identifier is free for a new room:
/// there are fewer rooms than users, since every room has an owner of its
/// own.
pub proof fn lemma_room_id_free(s: ServerView, user_id: UserID)
    requires
        s.inv(),
        s.users.contains_key(user_id),
        !(s.users[user_id] is RoomOwner),
    ensures
        has_free_id(s.rooms.dom()),
        s.rooms.len() < s.users.len(),
{
    let f = |r: RoomID| s.rooms[r].owner_id;
    let owners = s.rooms.dom().map(f);
    assert(injective_on(f, s.rooms.dom())) by {
        assert forall|one: RoomID, other: RoomID|
            s.rooms.dom().contains(one) && s.rooms.dom().contains(other) && #[trigger] f(one)
                == #[trigger] f(other) implies one == other by {
            assert(s.agrees(f(one), one));
            assert(s.agrees(f(other), other));
        }
    }
    lemma_map_size(s.rooms.dom(), owners, f);
    assert(owners.subset_of(s.users.dom().remove(user_id))) by {
        assert forall|u: UserID| owners.contains(u) implies s.users.dom().remove(
            user_id,
        ).contains(u) by {
            let r = choose|r: RoomID| s.rooms.dom().contains(r) && f(r) == u;
            assert(s.agrees(u, r));
        }
    }
    lemma_len_subset(owners, s.users.dom().remove(user_id));
    lemma_free_id_by_count(s.users.dom());
    lemma_free_id_by_count(s.rooms.dom());
}

/// Creating a room keeps the server in order, and the identifier that the
/// room gets was not in use.
pub proof fn lemma_create_room_inv(s: ServerView, user_id: UserID, data: Seq<char>)
    requires
        s.inv(),
    ensures
        s.create_room(user_id, data).0.inv(),
        s.create_room(user_id, data).1 is Ok ==> !s.rooms.contains_key(
            s.create_room(user_id, data).0.last_room_id,
        ),
{
    if s.users.contains_key(user_id) && nowhere_check(s.users[user_id]) is Ok {
        lemma_room_id_free(s, user_id);
        lemma_next_free_id(s.last_room_id, s.rooms.dom());
        let id = next_free_id(s.last_room_id, s.rooms.dom());
        let t = s.create_room(user_id, data).0;
        lemma_push_contains(s.room_order, id);
        lemma_push_no_duplicates(s.room_order, id);
        assert forall|u: UserID, r: RoomID| #[trigger] t.agrees(u, r) by {
            assert(s.agrees(u, r));
        }
        assert forall|r: RoomID| #[trigger]
            t.room_order.contains(r) <==> t.rooms.contains_key(r) by {
            assert(s.room_order.contains(r) <==> s.rooms.contains_key(r));
        }
    }
}

/// Asking to join a room keeps the server in order.
pub proof fn lemma_ask_join_inv(s: ServerView, user_id: UserID, room_id: RoomID, msg: Seq<char>)
    requires
        s.inv(),
    ensures
        s.ask_join(user_id, room_id, msg).0.inv(),
{
    let t = s.ask_join(user_id, room_id, msg).0;
    if s.ask_join(user_id, room_id, msg).1 is Ok {
        let room = s.rooms[room_id];
        lemma_push_contains(room.join_requests, user_id);
        assert(s.agrees(user_id, room_id));
        assert forall|u: UserID, r: RoomID| #[trigger] t.agrees(u, r) by {
            assert(s.agrees(u, r));
        }
    }
}

/// Accepting a join request keeps the server in order.
pub proof fn lemma_accept_join_inv(
    s: ServerView,
    user_id: UserID,
    room_id: RoomID,
    other_id: UserID,
)
    requires
        s.inv(),
    ensures
        s.accept_join(user_id, room_id, other_id).0.inv(),
{
    let t = s.accept_join(user_id, room_id, other_id).0;
    if s.accept_join(user_id, room_id, other_id).1 is Ok {
        let room = s.rooms[room_id];
        lemma_swap_removed(room.join_requests, other_id);
        lemma_push_contains(room.members, other_id);
        assert(s.agrees(other_id, room_id));
        assert forall|u: UserID, r: RoomID| #[trigger] t.agrees(u, r) by {
            assert(s.agrees(u, r));
        }
    }
}

/// Rejecting a join request keeps the server in order.
pub proof fn lemma_reject_join_inv(
    s: ServerView,
    user_id: UserID,
    room_id: RoomID,
    other_id: UserID,
    reason: Seq<char>,
)
    requires
        s.inv(),
    ensures
        s.reject_join(user_id, room_id, other_id, reason).0.inv(),
{
    let t = s.reject_join(user_id, room_id, other_id, reason).0;
    if s.reject_join(user_id, room_id, other_id, reason).1 is Ok {
        let room = s.rooms[room_id];
        lemma_swap_removed(room.join_requests, other_id);
        assert(s.agrees(other_id, room_id));
        assert forall|u: UserID, r: RoomID| #[trigger] t.agrees(u, r) by {
            assert(s.agrees(u, r));
        }
    }
}

/// Leaving a room keeps the server in order.
pub proof fn lemma_leave_room_inv(s: ServerView, user_id: UserID, room_id: RoomID)
    requires
        s.inv(),
    ensures
        s.leave_room(user_id, room_id).0.inv(),
{
    let t = s.leave_room(user_id, room_id).0;
    if s.users.contains_key(user_id) && s.rooms.contains_key(room_id) {
        let room = s.rooms[room_id];
        if room.owner_id == user_id {
            lemma_close_room_inv(s, room_id, false);
        } else if s.leave_room(user_id, room_id).1 is Ok {
            lemma_swap_removed(room.members, user_id);
            lemma_swap_removed(room.join_requests, user_id);
            assert forall|u: UserID, r: RoomID| #[trigger] t.agrees(u, r) by {
                assert(s.agrees(u, r));
            }
        }
    }
}

/// In a server that is in order, a user who is neither the owner of a room
/// nor a member of it nor one who asked to join it cannot leave it: the
/// request is answered with the error that the user is not in that room,
/// whatever else the user's state is, and nothing changes.
pub proof fn lemma_leave_room_refused(s: ServerView, user_id: UserID, room_id: RoomID)
    requires
        s.inv(),
        s.users.contains_key(user_id),
        s.rooms.contains_key(room_id),
        s.rooms[room_id].owner_id != user_id,
        s.users[user_id] != UserState::InRoom(room_id),
        s.users[user_id] != UserState::RequestedJoin(room_id),
    ensures
        s.leave_room(user_id, room_id) == (s, Err::<ResponseView, Error>(Error::NotInThatRoom)),
        s.handle_request(user_id, RequestView::LeaveRoom(room_id)) == (
            s,
            ResponseView::error(Error::NotInThatRoom),
        ),
{
    assert(s.agrees(user_id, room_id));
}

/// Whatever is asked by whomever, the server stays in order.
pub proof fn lemma_handle_request_inv(s: ServerView, user_id: UserID, request: RequestView)
    requires
        s.inv(),
    ensures
        s.handle_request(user_id, request).0.inv(),
{
    match request {
        RequestView::CreateRoom(data) => {
            lemma_create_room_inv(s, user_id, data);
        },
        RequestView::AskJoinRoom(room_id, msg) => {
            lemma_ask_join_inv(s, user_id, room_id, msg);
        },
        RequestView::AcceptJoinRoom(room_id, other_id) => {
            lemma_accept_join_inv(s, user_id, room_id, other_id);
        },
        RequestView::RejectJoinRoom(room_id, other_id, reason) => {
            lemma_reject_join_inv(s, user_id, room_id, other_id, reason);
        },
        RequestView::LeaveRoom(room_id) => {
            lemma_leave_room_inv(s, user_id, room_id);
        },
        _ => {},
    }
}

/// In a server that is in order, nobody is in a room twice over: the owner
/// of a room is neither among its members nor among those who asked to
/// join, and nobody is both a member and one who asked to join.
pub proof fn lemma_roles_apart(s: ServerView, room_id: RoomID)
    requires
        s.inv(),
        s.rooms.contains_key(room_id),
    ensures
        !s.rooms[room_id].members.contains(s.rooms[room_id].owner_id),
        !s.rooms[room_id].join_requests.contains(s.rooms[room_id].owner_id),
        forall|u: UserID|
            !(s.rooms[room_id].members.contains(u) && s.rooms[room_id].join_requests.contains(u)),
{
    let owner = s.rooms[room_id].owner_id;
    assert(s.agrees(owner, room_id));
    assert forall|u: UserID|
        !(s.rooms[room_id].members.contains(u) && s.rooms[room_id].join_requests.contains(
            u,
        )) by {
        assert(s.agrees(u, room_id));
    }
}

/// In a server that is in order, the users who are nowhere are exactly
/// those whom no room holds.
pub proof fn lemma_nowhere_is_absent(s: ServerView, user_id: UserID)
    requires
        s.inv(),
        s.users.contains_key(user_id),
    ensures
        s.users[user_id] == UserState::Nowhere <==> forall|r: RoomID|
            !s.owns(user_id, r) && !s.is_member(user_id, r) && !s.has_requested(user_id, r),
{
    if s.users[user_id] == UserState::Nowhere {
        assert forall|r: RoomID|
            !s.owns(user_id, r) && !s.is_member(user_id, r) && !s.has_requested(user_id, r) by {
            assert(s.agrees(user_id, r));
        }
    } else {
        let r = match s.users[user_id] {
            UserState::RoomOwner(r) => r,
            UserState::InRoom(r) => r,
            UserState::RequestedJoin(r) => r,
            UserState::Nowhere => 0,
        };
        assert(s.agrees(user_id, r));
        assert(s.owns(user_id, r) || s.is_member(user_id, r) || s.has_requested(user_id, r));
    }
}

/// In a server that is in order, whoever a room names is connected: its
/// owner, its members and those who asked to join.
pub proof fn lemma_room_names_users(s: ServerView, room_id: RoomID)
    requires
        s.inv(),
        s.rooms.contains_key(room_id),
    ensures
        s.users.contains_key(s.rooms[room_id].owner_id),
        forall|u: UserID| s.rooms[room_id].members.contains(u) ==> s.users.contains_key(u),
        forall|u: UserID| s.rooms[room_id].join_requests.contains(u) ==> s.users.contains_key(u),
{
    assert(s.agrees(s.rooms[room_id].owner_id, room_id));
    assert forall|u: UserID| s.rooms[room_id].members.contains(u) implies s.users.contains_key(
        u,
    ) by {
        assert(s.agrees(u, room_id));
    }
    assert forall|u: UserID|
        s.rooms[room_id].join_requests.contains(u) implies s.users.contains_key(u) by {
        assert(s.agrees(u, room_id));
    }
}

/// In a server that is in order, the room that a user's state names is
/// open.
pub proof fn lemma_state_names_room(s: ServerView, user_id: UserID)
    requires
        s.inv(),
        s.users.contains_key(user_id),
    ensures
        match s.users[user_id] {
            UserState::RoomOwner(r) => s.owns(user_id, r),
            UserState::InRoom(r) => s.is_member(user_id, r),
            UserState::RequestedJoin(r) => s.has_requested(user_id, r),
            UserState::Nowhere => true,
        },
{
    match s.users[user_id] {
        UserState::RoomOwner(r) => {
            assert(s.agrees(user_id, r));
        },
        UserState::InRoom(r) => {
            assert(s.agrees(user_id, r));
        },
        UserState::RequestedJoin(r) => {
            assert(s.agrees(user_id, r));
        },
        UserState::Nowhere => {},
    }
}

/// A user who is not nowhere cannot create a room: the request is answered
/// with an error that says so, and nothing changes.
pub proof fn lemma_create_room_refused(s: ServerView, user_id: UserID, data: Seq<char>)
    requires
        s.users.contains_key(user_id),
        s.users[user_id] != UserState::Nowhere,
    ensures
        s.handle_request(user_id, RequestView::CreateRoom(data)) == (
            s,
            ResponseView::error(
                if s.users[user_id] is RequestedJoin {
                    Error::AlreadyRequestedJoin
                } else {
                    Error::AlreadyInARoom
                },
            ),
        ),
{
}

/// When the owner of a room leaves it, the room is closed: it is gone, the
/// owner and everybody in it are nowhere, and exactly the members and those
/// who asked to join are told that it is closed, each once, the members
/// first.
pub proof fn lemma_owner_leaving_closes(s: ServerView, user_id: UserID, room_id: RoomID)
    requires
        s.inv(),
        s.owns(user_id, room_id),
    ensures
        ({
            let room = s.rooms[room_id];
            let (t, r) = s.handle_request(user_id, RequestView::LeaveRoom(room_id));
            &&& !t.rooms.contains_key(room_id)
            &&& t.has_state(user_id, UserState::Nowhere)
            &&& r.returns is None
            &&& r.sends == broadcast_to(
                room.members + room.join_requests,
                MessageView::RoomClosed(room_id),
            )
            &&& r.sends.len() == room.members.len() + room.join_requests.len()
            &&& forall|u: UserID|
                room.members.contains(u) || room.join_requests.contains(u) ==> t.has_state(
                    u,
                    UserState::Nowhere,
                ) && r.sends.contains((u, MessageView::RoomClosed(room_id)))
            &&& forall|i: int|
                0 <= i < r.sends.len() ==> (#[trigger] r.sends[i]).1 == MessageView::RoomClosed(
                    room_id,
                ) && (room.members.contains(r.sends[i].0) || room.join_requests.contains(
                    r.sends[i].0,
                ))
        }),
{
    let room = s.rooms[room_id];
    let guests = room.members + room.join_requests;
    let (t, r) = s.handle_request(user_id, RequestView::LeaveRoom(room_id));
    lemma_concat_contains(room.members, room.join_requests);
    lemma_room_names_users(s, room_id);
    assert forall|u: UserID|
        room.members.contains(u) || room.join_requests.contains(u) implies t.has_state(
        u,
        UserState::Nowhere,
    ) && r.sends.contains((u, MessageView::RoomClosed(room_id))) by {
        let i = choose|i: int| 0 <= i < guests.len() && guests[i] == u;
        assert(r.sends[i] == (u, MessageView::RoomClosed(room_id)));
    }
}

/// A request that is answered with an error changes nothing and sends
/// nothing to anybody else.
pub proof fn lemma_error_changes_nothing(s: ServerView, user_id: UserID, request: RequestView)
    ensures
        ({
            let (t, r) = s.handle_request(user_id, request);
            r.returns matches Some(MessageView::Error(_)) ==> t == s && r.sends.len() == 0
        }),
{
}

/// In a server that is in order, whatever a request causes to be sent goes
/// to users who are connected when the request has been handled.
pub proof fn lemma_sends_reach_users(s: ServerView, user_id: UserID, request: RequestView)
    requires
        s.inv(),
    ensures
        ({
            let (t, r) = s.handle_request(user_id, request);
            forall|i: int| 0 <= i < r.sends.len() ==> t.users.contains_key((#[trigger] r.sends[i]).0)
        }),
{
    let (t, r) = s.handle_request(user_id, request);
    assert forall|i: int| 0 <= i < r.sends.len() implies t.users.contains_key(
        (#[trigger] r.sends[i]).0,
    ) by {
        let room_id = match request {
            RequestView::AskJoinRoom(room_id, _) => room_id,
            RequestView::AcceptJoinRoom(room_id, _) => room_id,
            RequestView::RejectJoinRoom(room_id, _, _) => room_id,
            RequestView::LeaveRoom(room_id) => room_id,
            RequestView::Send(room_id, _) => room_id,
            RequestView::SendTo(room_id, _, _) => room_id,
            RequestView::EchoFrom(room_id, _, _) => room_id,
            _ => 0,
        };
        if s.rooms.contains_key(room_id) {
            let room = s.rooms[room_id];
            lemma_room_names_users(s, room_id);
            if let RequestView::EchoFrom(_, from, _) = request {
                let others = room.members.filter(other_than(from));
                if r.sends.len() > 0 {
                    room.members.lemma_filter_contains_rev(other_than(from), others[i]);
                }
            }
        }
    }
}

/// In a server that is in order, what the disconnection of a user causes
/// to be sent goes to users who are still connected.
pub proof fn lemma_farewells_reach_users(s: ServerView, user_id: UserID)
    requires
        s.inv(),
        s.users.contains_key(user_id),
    ensures
        ({
            let (t, r) = s.remove_user(user_id);
            r matches Ok(response) && response.returns is None && forall|i: int|
                0 <= i < response.sends.len() ==> t.users.contains_key(
                    (#[trigger] response.sends[i]).0,
                )
        }),
{
    let (t, r) = s.remove_user(user_id);
    lemma_state_names_room(s, user_id);
    match s.users[user_id] {
        UserState::RoomOwner(room_id) => {
            lemma_room_names_users(s, room_id);
            lemma_roles_apart(s, room_id);
        },
        UserState::InRoom(room_id) => {
            lemma_room_names_users(s, room_id);
            assert(s.agrees(user_id, room_id));
        },
        UserState::RequestedJoin(room_id) => {
            lemma_room_names_users(s, room_id);
            assert(s.agrees(user_id, room_id));
        },
        UserState::Nowhere => {},
    }
}

} // verus!
