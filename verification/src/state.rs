//! The state of the server as a mathematical value, the outcome of every
//! operation on it, and what holds of every state that the operations reach.

use vstd::prelude::*;

use crate::ids::{has_free_id, next_free_id};
use crate::models::{nowhere_check, swap_removed, RoomID, RoomView, User, UserID, UserState};
use crate::request::RequestView;
use crate::response::{Error, MessageView, ResponseView};

verus! {

/// The users and rooms of a server.
#[verifier::ext_equal]
pub struct ServerView {
    /// How many users may be connected at once.
    pub max_connections: nat,
    /// The identifier that the newest user got.
    pub last_user_id: UserID,
    /// The state of every connected user.
    pub users: Map<UserID, UserState>,
    /// The identifier that the newest room got.
    pub last_room_id: RoomID,
    /// Every open room.
    pub rooms: Map<RoomID, RoomView>,
    /// The identifiers of the open rooms, oldest first.
    pub room_order: Seq<RoomID>,
}

/// The outcome of an operation: the state after it, and what it answers.
pub type Outcome = (ServerView, Result<ResponseView, Error>);

/// One copy of `message` for each of `targets`, in their order.
pub open spec fn broadcast_to(targets: Seq<UserID>, message: MessageView) -> Seq<
    (UserID, MessageView),
> {
    targets.map_values(|u: UserID| (u, message))
}

/// The test that lets every user pass but `user_id`.
pub open spec fn other_than(user_id: UserID) -> spec_fn(UserID) -> bool {
    |u: UserID| u != user_id
}

impl ServerView {
    /// A server without users or rooms.
    pub open spec fn new(max_connections: nat) -> ServerView {
        ServerView {
            max_connections,
            last_user_id: 0,
            users: Map::empty(),
            last_room_id: 0,
            rooms: Map::empty(),
            room_order: Seq::empty(),
        }
    }

    /// Whether `user_id` is connected and in `state`.
    pub open spec fn has_state(self, user_id: UserID, state: UserState) -> bool {
        self.users.contains_key(user_id) && self.users[user_id] == state
    }

    /// Whether `room_id` is open and owned by `user_id`.
    pub open spec fn owns(self, user_id: UserID, room_id: RoomID) -> bool {
        self.rooms.contains_key(room_id) && self.rooms[room_id].owner_id == user_id
    }

    /// Whether `room_id` is open and counts `user_id` among its members.
    pub open spec fn is_member(self, user_id: UserID, room_id: RoomID) -> bool {
        self.rooms.contains_key(room_id) && self.rooms[room_id].members.contains(user_id)
    }

    /// Whether `room_id` is open and holds a join request of `user_id`.
    pub open spec fn has_requested(self, user_id: UserID, room_id: RoomID) -> bool {
        self.rooms.contains_key(room_id) && self.rooms[room_id].join_requests.contains(user_id)
    }

    /// Whether the state of the user `user_id` and the room `room_id`
    /// agree: the user's state is owner of the room exactly if the room has
    /// the user as its owner, it is in the room exactly if the room counts
    /// the user among its members, and it is a request to join the room
    /// exactly if the room holds a join request of the user.
    pub open spec fn agrees(self, user_id: UserID, room_id: RoomID) -> bool {
        &&& self.has_state(user_id, UserState::RoomOwner(room_id)) <==> self.owns(user_id, room_id)
        &&& self.has_state(user_id, UserState::InRoom(room_id)) <==> self.is_member(
            user_id,
            room_id,
        )
        &&& self.has_state(user_id, UserState::RequestedJoin(room_id)) <==> self.has_requested(
            user_id,
            room_id,
        )
    }

    /// Every user's state says exactly where the rooms hold that user.
    pub open spec fn consistent(self) -> bool {
        forall|u: UserID, r: RoomID| #[trigger] self.agrees(u, r)
    }

    /// No room lists a member or a join request twice.
    pub open spec fn distinct(self) -> bool {
        forall|r: RoomID| #[trigger]
            self.rooms.contains_key(r) ==> self.rooms[r].members.no_duplicates()
                && self.rooms[r].join_requests.no_duplicates()
    }

    /// Every room is kept under its own identifier.
    pub open spec fn keyed(self) -> bool {
        forall|r: RoomID| #[trigger] self.rooms.contains_key(r) ==> self.rooms[r].id == r
    }

    /// The order of the rooms lists each open room once and nothing else.
    pub open spec fn listed(self) -> bool {
        &&& self.rooms.dom().finite()
        &&& self.room_order.no_duplicates()
        &&& forall|r: RoomID| #[trigger] self.room_order.contains(r) <==> self.rooms.contains_key(r)
    }

    /// No more users are connected than may be.
    pub open spec fn within_capacity(self) -> bool {
        self.users.dom().finite() && self.users.len() <= self.max_connections
    }

    /// What holds of the server between any two operations.
    pub open spec fn inv(self) -> bool {
        &&& self.consistent()
        &&& self.distinct()
        &&& self.keyed()
        &&& self.listed()
        &&& self.within_capacity()
    }

    /// Whether no further user can be taken in: as many are connected as may
    /// be, or every identifier is in use.
    pub open spec fn is_full(self) -> bool {
        self.users.len() >= self.max_connections || !has_free_id(self.users.dom())
    }

    /// Connecting a user: a full server stays as it is and gives no
    /// identifier; otherwise the user gets the next free identifier and is
    /// nowhere.
    pub open spec fn add_user(self) -> (ServerView, Option<UserID>) {
        if self.is_full() {
            (self, None)
        } else {
            let id = next_free_id(self.last_user_id, self.users.dom());
            (
                ServerView {
                    users: self.users.insert(id, UserState::Nowhere),
                    last_user_id: id,
                    ..self
                },
                Some(id),
            )
        }
    }

    /// Everybody in the room but its owner: the members, then those who
    /// asked to join.
    pub open spec fn guests(room: RoomView) -> Seq<UserID> {
        room.members + room.join_requests
    }

    /// Closing a room: the room is gone, its owner and everybody in it are
    /// nowhere, and everybody in it but the owner is told so.
    pub open spec fn close_room(self, room_id: RoomID) -> Outcome {
        if !self.rooms.contains_key(room_id) {
            (self, Err(Error::NoSuchRoom))
        } else {
            let room = self.rooms[room_id];
            let guests = Self::guests(room);
            (
                ServerView {
                    users: Map::new(
                        |u: UserID| self.users.contains_key(u),
                        |u: UserID|
                            if u == room.owner_id || guests.contains(u) {
                                UserState::Nowhere
                            } else {
                                self.users[u]
                            },
                    ),
                    rooms: self.rooms.remove(room_id),
                    room_order: self.room_order.remove_value(room_id),
                    ..self
                },
                Ok(ResponseView::sends_all(broadcast_to(guests, MessageView::RoomClosed(room_id)))),
            )
        }
    }

    /// Disconnecting a user: the user is gone. An owner's room is closed; a
    /// member or one who asked to join leaves the room, and its owner is
    /// told so.
    pub open spec fn remove_user(self, user_id: UserID) -> Outcome {
        if !self.users.contains_key(user_id) {
            (self, Err(Error::NoSuchUser))
        } else {
            let rest = ServerView { users: self.users.remove(user_id), ..self };
            match self.users[user_id] {
                UserState::Nowhere => (rest, Ok(ResponseView::empty())),
                UserState::RoomOwner(room_id) => rest.close_room(room_id),
                UserState::InRoom(room_id) => {
                    let room = self.rooms[room_id];
                    (
                        ServerView {
                            rooms: self.rooms.insert(
                                room_id,
                                RoomView { members: swap_removed(room.members, user_id), ..room },
                            ),
                            ..rest
                        },
                        Ok(
                            ResponseView::sends(
                                room.owner_id,
                                MessageView::PlayerLeft(room_id, user_id),
                            ),
                        ),
                    )
                },
                UserState::RequestedJoin(room_id) => {
                    let room = self.rooms[room_id];
                    (
                        ServerView {
                            rooms: self.rooms.insert(
                                room_id,
                                RoomView {
                                    join_requests: swap_removed(room.join_requests, user_id),
                                    ..room
                                },
                            ),
                            ..rest
                        },
                        Ok(
                            ResponseView::sends(
                                room.owner_id,
                                MessageView::PlayerLeft(room_id, user_id),
                            ),
                        ),
                    )
                },
            }
        }
    }

    /// The open rooms with their descriptors, oldest first.
    pub open spec fn room_list(self) -> Seq<(RoomID, Seq<char>)> {
        self.room_order.map_values(|r: RoomID| (r, self.rooms[r].data))
    }

    /// Listing the rooms.
    pub open spec fn list_rooms(self) -> ResponseView {
        ResponseView::returning(MessageView::ListRooms(self.room_list()))
    }

    /// Creating a room: a user who is nowhere becomes the owner of a new
    /// room under the next free identifier, and learns that identifier.
    pub open spec fn create_room(self, user_id: UserID, data: Seq<char>) -> Outcome {
        if !self.users.contains_key(user_id) {
            (self, Err(Error::NoSuchUser))
        } else if let Err(e) = nowhere_check(self.users[user_id]) {
            (self, Err(e))
        } else {
            let id = next_free_id(self.last_room_id, self.rooms.dom());
            (
                ServerView {
                    users: self.users.insert(user_id, UserState::RoomOwner(id)),
                    rooms: self.rooms.insert(id, RoomView::new(id, user_id, data)),
                    room_order: self.room_order.push(id),
                    last_room_id: id,
                    ..self
                },
                Ok(ResponseView::returning(MessageView::RoomCreated(id))),
            )
        }
    }

    /// Asking to join a room: a user who is nowhere is added to the join
    /// requests of the room, and its owner is told so.
    pub open spec fn ask_join(self, user_id: UserID, room_id: RoomID, msg: Seq<char>) -> Outcome {
        if !self.users.contains_key(user_id) {
            (self, Err(Error::NoSuchUser))
        } else if !self.rooms.contains_key(room_id) {
            (self, Err(Error::NoSuchRoom))
        } else if let Err(e) = nowhere_check(self.users[user_id]) {
            (self, Err(e))
        } else {
            let room = self.rooms[room_id];
            (
                ServerView {
                    users: self.users.insert(user_id, UserState::RequestedJoin(room_id)),
                    rooms: self.rooms.insert(room_id, room.with_join_request(user_id)),
                    ..self
                },
                Ok(
                    ResponseView::sends(
                        room.owner_id,
                        MessageView::JoinRequested(room_id, user_id, msg),
                    ),
                ),
            )
        }
    }

    /// Accepting a join request: the owner of the room makes `other_id`,
    /// who asked to join, a member, and `other_id` is told so.
    pub open spec fn accept_join(self, user_id: UserID, room_id: RoomID, other_id: UserID)
        -> Outcome {
        if !self.users.contains_key(other_id) {
            (self, Err(Error::NoSuchUser))
        } else if !self.rooms.contains_key(room_id) {
            (self, Err(Error::NoSuchRoom))
        } else if self.rooms[room_id].owner_id != user_id {
            (self, Err(Error::NotRoomOwner))
        } else {
            match self.rooms[room_id].accept_join_request(other_id) {
                Err(e) => (self, Err(e)),
                Ok(room) => (
                    ServerView {
                        users: self.users.insert(other_id, UserState::InRoom(room_id)),
                        rooms: self.rooms.insert(room_id, room),
                        ..self
                    },
                    Ok(ResponseView::sends(other_id, MessageView::RoomJoined(room_id))),
                ),
            }
        }
    }

    /// Rejecting a join request: the owner of the room turns down
    /// `other_id`, who asked to join and is nowhere again, and `other_id` is
    /// told why.
    pub open spec fn reject_join(
        self,
        user_id: UserID,
        room_id: RoomID,
        other_id: UserID,
        reason: Seq<char>,
    ) -> Outcome {
        if !self.users.contains_key(other_id) {
            (self, Err(Error::NoSuchUser))
        } else if !self.rooms.contains_key(room_id) {
            (self, Err(Error::NoSuchRoom))
        } else if self.rooms[room_id].owner_id != user_id {
            (self, Err(Error::NotRoomOwner))
        } else {
            match self.rooms[room_id].cancel_join_request(other_id) {
                Err(e) => (self, Err(e)),
                Ok(room) => (
                    ServerView {
                        users: self.users.insert(other_id, UserState::Nowhere),
                        rooms: self.rooms.insert(room_id, room),
                        ..self
                    },
                    Ok(ResponseView::sends(other_id, MessageView::RoomRejected(room_id, reason))),
                ),
            }
        }
    }

    /// Leaving a room: the owner closes it; a member or one who asked to
    /// join is nowhere again, and the owner is told so. Anybody else, the
    /// owner of another room too, is not in that room.
    pub open spec fn leave_room(self, user_id: UserID, room_id: RoomID) -> Outcome {
        if !self.users.contains_key(user_id) {
            (self, Err(Error::NoSuchUser))
        } else if !self.rooms.contains_key(room_id) {
            (self, Err(Error::NoSuchRoom))
        } else if self.rooms[room_id].owner_id == user_id {
            self.close_room(room_id)
        } else {
            let user = User { id: user_id, state: self.users[user_id] };
            match user.leave_room_spec(self.rooms[room_id]) {
                Err(e) => (self, Err(e)),
                Ok((gone, room)) => (
                    ServerView {
                        users: self.users.insert(user_id, gone.state),
                        rooms: self.rooms.insert(room_id, room),
                        ..self
                    },
                    Ok(
                        ResponseView::sends(
                            self.rooms[room_id].owner_id,
                            MessageView::PlayerLeft(room_id, user_id),
                        ),
                    ),
                ),
            }
        }
    }

    /// Sending to a room: what the owner sends goes to every member; what
    /// anybody else sends goes to the owner, with the sender's identifier.
    pub open spec fn send(self, from_user_id: UserID, room_id: RoomID, payload: Seq<char>)
        -> Result<ResponseView, Error> {
        if !self.rooms.contains_key(room_id) {
            Err(Error::NoSuchRoom)
        } else {
            let room = self.rooms[room_id];
            if from_user_id == room.owner_id {
                Ok(
                    ResponseView::sends_all(
                        broadcast_to(
                            room.members,
                            MessageView::ReceivedBroadcast(room_id, payload),
                        ),
                    ),
                )
            } else {
                Ok(
                    ResponseView::sends(
                        room.owner_id,
                        MessageView::ReceivedFrom(room_id, from_user_id, payload),
                    ),
                )
            }
        }
    }

    /// Sending to one member: only the owner may, and only to a member.
    pub open spec fn send_to(
        self,
        from_user_id: UserID,
        room_id: RoomID,
        to_user_id: UserID,
        payload: Seq<char>,
    ) -> Result<ResponseView, Error> {
        if !self.rooms.contains_key(room_id) {
            Err(Error::NoSuchRoom)
        } else if self.rooms[room_id].owner_id != from_user_id {
            Err(Error::NotRoomOwner)
        } else if !self.rooms[room_id].members.contains(to_user_id) {
            Err(Error::NoSuchUser)
        } else {
            Ok(ResponseView::sends(to_user_id, MessageView::ReceivedIndividual(room_id, payload)))
        }
    }

    /// Passing on what one member sent: only the owner may; the payload goes
    /// to every member but the one it came from.
    pub open spec fn echo_from(
        self,
        user_id: UserID,
        room_id: RoomID,
        from_user_id: UserID,
        payload: Seq<char>,
    ) -> Result<ResponseView, Error> {
        if !self.rooms.contains_key(room_id) {
            Err(Error::NoSuchRoom)
        } else if self.rooms[room_id].owner_id != user_id {
            Err(Error::NotRoomOwner)
        } else if !self.rooms[room_id].members.contains(from_user_id) {
            Err(Error::NoSuchUser)
        } else {
            Ok(
                ResponseView::sends_all(
                    broadcast_to(
                        self.rooms[room_id].members.filter(other_than(from_user_id)),
                        MessageView::ReceivedBroadcast(room_id, payload),
                    ),
                ),
            )
        }
    }

    /// The state after an operation, and its response with an error turned
    /// into an answer to the sender.
    pub open spec fn answered(outcome: Outcome) -> (ServerView, ResponseView) {
        (outcome.0, ResponseView::from_result(outcome.1))
    }

    /// Handling one request of `user_id`: the state after it and the
    /// response. A request that fails changes nothing and is answered with
    /// its error.
    pub open spec fn handle_request(self, user_id: UserID, request: RequestView) -> (
        ServerView,
        ResponseView,
    ) {
        match request {
            RequestView::ListRooms => (self, self.list_rooms()),
            RequestView::Ping(n) => (self, ResponseView::returning(MessageView::Pong(n))),
            RequestView::CreateRoom(data) => Self::answered(self.create_room(user_id, data)),
            RequestView::SetOwner(_, _) => (self, ResponseView::empty()),
            RequestView::AskJoinRoom(room_id, msg) => Self::answered(
                self.ask_join(user_id, room_id, msg),
            ),
            RequestView::AcceptJoinRoom(room_id, other_id) => Self::answered(
                self.accept_join(user_id, room_id, other_id),
            ),
            RequestView::RejectJoinRoom(room_id, other_id, reason) => Self::answered(
                self.reject_join(user_id, room_id, other_id, reason),
            ),
            RequestView::LeaveRoom(room_id) => Self::answered(self.leave_room(user_id, room_id)),
            RequestView::Send(room_id, payload) => (
                self,
                ResponseView::from_result(self.send(user_id, room_id, payload)),
            ),
            RequestView::SendTo(room_id, other_id, payload) => (
                self,
                ResponseView::from_result(self.send_to(user_id, room_id, other_id, payload)),
            ),
            RequestView::EchoFrom(room_id, other_id, payload) => (
                self,
                ResponseView::from_result(self.echo_from(user_id, room_id, other_id, payload)),
            ),
            RequestView::Quit => (self, ResponseView::empty()),
        }
    }
}

} // verus!
