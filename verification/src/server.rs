//! The server's state: every user and every room, and the operations that
//! connect and disconnect users and answer their requests.

use std::collections::hash_map::Entry;
use std::collections::HashMap;
use vstd::prelude::*;

use crate::ids::{lemma_free_id_by_count, next_id};
use crate::invariants::{
    lemma_accept_join_inv, lemma_add_user_inv, lemma_ask_join_inv, lemma_close_room_inv,
    lemma_concat_contains, lemma_create_room_inv, lemma_leave_room_inv, lemma_new_inv,
    lemma_push_contains, lemma_reject_join_inv, lemma_remove_user_inv, lemma_roles_apart,
    lemma_room_id_free, lemma_state_names_room,
};
use crate::models::{index_of, Room, RoomID, User, UserID, UserState};
use crate::request::Request;
use crate::response::{
    lemma_sends_view_push, result_view, room_list_view, sends_view, Error, Message, MessageView,
    Response,
};
use crate::state::{broadcast_to, other_than, ServerView};

verus! {

/// The users and rooms of one server.
pub struct Server {
    max_connections: usize,
    last_user_id: UserID,
    users: HashMap<UserID, User>,
    last_room_id: RoomID,
    rooms: HashMap<RoomID, Room>,
    room_order: Vec<RoomID>,
}

impl View for Server {
    type V = ServerView;

    /// The server as a mathematical value. Of each user it holds the state;
    /// the identifier that a user carries is the one the user is kept under
    /// (`users_keyed`), and so is not held a second time.
    closed spec fn view(&self) -> ServerView {
        ServerView {
            max_connections: self.max_connections as nat,
            last_user_id: self.last_user_id,
            users: Map::new(
                |u: UserID| self.users@.contains_key(u),
                |u: UserID| self.users@[u].state,
            ),
            last_room_id: self.last_room_id,
            rooms: Map::new(|r: RoomID| self.rooms@.contains_key(r), |r: RoomID| self.rooms@[r]@),
            room_order: self.room_order@,
        }
    }
}

impl Default for Server {
    /// A server without users or rooms that takes nobody in.
    fn default() -> (server: Server)
        ensures
            server.wf(),
            server@ == ServerView::new(0),
    {
        Server::new(0)
    }
}

/// Putting a user's state or a room where it already stands changes nothing.
proof fn lemma_same_again(s: ServerView, user_id: UserID, room_id: RoomID)
    ensures
        s.users.contains_key(user_id) ==> s.users.insert(user_id, s.users[user_id]) == s.users,
        s.rooms.contains_key(room_id) ==> s.rooms.insert(room_id, s.rooms[room_id]) == s.rooms,
{
}

impl Server {
    /// Whether every user is kept under their own identifier.
    pub closed spec fn users_keyed(&self) -> bool {
        forall|u: UserID| #[trigger] self.users@.contains_key(u) ==> self.users@[u].id == u
    }

    /// Whether this server is one that its operations can have made.
    pub closed spec fn wf(&self) -> bool {
        self.users_keyed() && self@.inv()
    }

    /// A server that its operations have made is in order.
    pub proof fn lemma_wf_inv(&self)
        requires
            self.wf(),
        ensures
            self@.inv(),
    {
    }

    /// A server that its operations have made keeps every user under their
    /// own identifier.
    pub proof fn lemma_wf_users_keyed(&self)
        requires
            self.wf(),
        ensures
            self.users_keyed(),
    {
    }

    /// A server without users or rooms that takes up to `max_connections`
    /// users at once.
    pub fn new(max_connections: usize) -> (server: Server)
        ensures
            server.wf(),
            server@ == ServerView::new(max_connections as nat),
    {
        let server = Server {
            max_connections,
            last_user_id: 0,
            users: HashMap::new(),
            last_room_id: 0,
            rooms: HashMap::new(),
            room_order: Vec::new(),
        };
        server
    }

    /// The state of the user `user_id`, if connected.
    pub fn user_state(&self, user_id: UserID) -> (state: Option<UserState>)
        ensures
            state == if self@.users.contains_key(user_id) {
                Some(self@.users[user_id])
            } else {
                None
            },
    {
        broadcast use vstd::std_specs::hash::group_hash_axioms;

        match self.users.get(&user_id) {
            Some(user) => Some(user.state),
            None => None,
        }
    }

    /// How many users are connected.
    pub fn user_count(&self) -> (count: usize)
        ensures
            count == self@.users.len(),
    {
        broadcast use vstd::std_specs::hash::group_hash_axioms;

        assert(self@.users.dom() =~= self.users@.dom());
        self.users.len()
    }

    /// The room `room_id`, if open.
    pub fn get_room(&self, room_id: RoomID) -> (r: Result<&Room, Error>)
        ensures
            match r {
                Ok(room) => self@.rooms.contains_key(room_id) && room@ == self@.rooms[room_id],
                Err(e) => e == Error::NoSuchRoom && !self@.rooms.contains_key(room_id),
            },
    {
        broadcast use vstd::std_specs::hash::group_hash_axioms;

        match self.rooms.get(&room_id) {
            Some(room) => Ok(room),
            None => Err(Error::NoSuchRoom),
        }
    }

    /// The user `user_id`, if connected, to be changed in place. Whoever
    /// changes the user answers for the server's order: it is well-formed
    /// afterwards if the user has kept their identifier and the new state
    /// of the server is in order.
    pub fn get_user_mut(&mut self, user_id: UserID) -> (r: Result<&mut User, Error>)
        ensures
            match r {
                Ok(user) => {
                    &&& old(self)@.users.contains_key(user_id)
                    &&& user.state == old(self)@.users[user_id]
                    &&& old(self).users_keyed() ==> user.id == user_id
                    &&& old(self).wf() ==> user.id == user_id
                    &&& final(self)@ =~~= (ServerView {
                        users: old(self)@.users.insert(user_id, final(user).state),
                        ..old(self)@
                    })
                    &&& old(self).users_keyed() && final(user).id == user_id
                        ==> final(self).users_keyed()
                    &&& old(self).wf() && final(user).id == user_id && final(self)@.inv()
                        ==> final(self).wf()
                },
                Err(e) => {
                    &&& e == Error::NoSuchUser
                    &&& !old(self)@.users.contains_key(user_id)
                    &&& final(self)@ =~~= old(self)@
                    &&& old(self).users_keyed() ==> final(self).users_keyed()
                    &&& old(self).wf() ==> final(self).wf()
                },
            },
    {
        broadcast use vstd::std_specs::hash::group_hash_axioms;

        if !self.users.contains_key(&user_id) {
            return Err(Error::NoSuchUser);
        }
        match self.users.entry(user_id) {
            Entry::Occupied(entry) => Ok(entry.into_mut()),
            Entry::Vacant(_) => Err(Error::NoSuchUser),
        }
    }

    /// The room `room_id`, if open, to be changed in place. Whoever changes
    /// the room answers for the server's order: it is well-formed
    /// afterwards if the new state of the server is in order.
    pub fn get_room_mut(&mut self, room_id: RoomID) -> (r: Result<&mut Room, Error>)
        ensures
            match r {
                Ok(room) => {
                    &&& old(self)@.rooms.contains_key(room_id)
                    &&& room@ == old(self)@.rooms[room_id]
                    &&& final(self)@ =~~= (ServerView {
                        rooms: old(self)@.rooms.insert(room_id, final(room)@),
                        ..old(self)@
                    })
                    &&& old(self).users_keyed() ==> final(self).users_keyed()
                    &&& old(self).wf() && final(self)@.inv() ==> final(self).wf()
                },
                Err(e) => {
                    &&& e == Error::NoSuchRoom
                    &&& !old(self)@.rooms.contains_key(room_id)
                    &&& final(self)@ =~~= old(self)@
                    &&& old(self).users_keyed() ==> final(self).users_keyed()
                    &&& old(self).wf() ==> final(self).wf()
                },
            },
    {
        broadcast use vstd::std_specs::hash::group_hash_axioms;

        if !self.rooms.contains_key(&room_id) {
            return Err(Error::NoSuchRoom);
        }
        match self.rooms.entry(room_id) {
            Entry::Occupied(entry) => Ok(entry.into_mut()),
            Entry::Vacant(_) => Err(Error::NoSuchRoom),
        }
    }

    /// The user `user_id` and the room `room_id` together, to be changed in
    /// place; fails for want of the user first, then for want of the room.
    /// Whoever changes them answers for the server's order: it is
    /// well-formed afterwards if the user has kept their identifier and the
    /// new state of the server is in order.
    pub fn get_user_room_mut(&mut self, user_id: UserID, room_id: RoomID) -> (r: Result<
        (&mut User, &mut Room),
        Error,
    >)
        ensures
            match r {
                Ok((user, room)) => {
                    &&& old(self)@.users.contains_key(user_id)
                    &&& old(self)@.rooms.contains_key(room_id)
                    &&& user.state == old(self)@.users[user_id]
                    &&& old(self).users_keyed() ==> user.id == user_id
                    &&& old(self).wf() ==> user.id == user_id
                    &&& room@ == old(self)@.rooms[room_id]
                    &&& final(self)@ =~~= (ServerView {
                        users: old(self)@.users.insert(user_id, final(user).state),
                        rooms: old(self)@.rooms.insert(room_id, final(room)@),
                        ..old(self)@
                    })
                    &&& old(self).users_keyed() && final(user).id == user_id
                        ==> final(self).users_keyed()
                    &&& old(self).wf() && final(user).id == user_id && final(self)@.inv()
                        ==> final(self).wf()
                },
                Err(e) => {
                    &&& e == if old(self)@.users.contains_key(user_id) {
                        Error::NoSuchRoom
                    } else {
                        Error::NoSuchUser
                    }
                    &&& !(old(self)@.users.contains_key(user_id) && old(self)@.rooms.contains_key(
                        room_id,
                    ))
                    &&& final(self)@ =~~= old(self)@
                    &&& old(self).users_keyed() ==> final(self).users_keyed()
                    &&& old(self).wf() ==> final(self).wf()
                },
            },
    {
        broadcast use vstd::std_specs::hash::group_hash_axioms;

        if !self.users.contains_key(&user_id) {
            return Err(Error::NoSuchUser);
        }
        if !self.rooms.contains_key(&room_id) {
            return Err(Error::NoSuchRoom);
        }
        let user = match self.users.entry(user_id) {
            Entry::Occupied(entry) => entry.into_mut(),
            Entry::Vacant(_) => {
                return Err(Error::NoSuchUser);
            },
        };
        let room = match self.rooms.entry(room_id) {
            Entry::Occupied(entry) => entry.into_mut(),
            Entry::Vacant(_) => {
                return Err(Error::NoSuchRoom);
            },
        };
        Ok((user, room))
    }

    /// Connects a user. A full server gives no identifier and stays as it
    /// is; otherwise the user gets the next free identifier.
    pub fn add_user(&mut self) -> (id: Option<UserID>)
        requires
            old(self).wf(),
        ensures
            final(self).wf(),
            (final(self)@, id) == old(self)@.add_user(),
            id matches Some(user_id) ==> !old(self)@.users.contains_key(user_id),
    {
        broadcast use vstd::std_specs::hash::group_hash_axioms;

        proof {
            assert(self@.users.dom() =~= self.users@.dom());
            lemma_free_id_by_count(self.users@.dom());
            lemma_add_user_inv(self@);
        }
        if self.users.len() >= self.max_connections || self.users.len() > u32::MAX as usize {
            return None;
        }
        let user_id = next_id(self.last_user_id, &self.users);
        let user = User::new(user_id);
        self.users.insert(user_id, user);
        self.last_user_id = user_id;
        proof {
            assert(self@ =~~= old(self)@.add_user().0);
        }
        Some(user_id)
    }

    /// Leaves every one of `guests` who is connected nowhere, and makes a
    /// message that the room `room_id` is closed for each of them.
    fn dismiss(&mut self, room_id: RoomID, guests: &Vec<UserID>, messages: &mut Vec<
        (UserID, Message),
    >)
        requires
            old(self).users_keyed(),
        ensures
            final(self).users_keyed(),
            final(self)@ == (ServerView {
                users: Map::new(
                    |u: UserID| old(self)@.users.contains_key(u),
                    |u: UserID|
                        if guests@.contains(u) {
                            UserState::Nowhere
                        } else {
                            old(self)@.users[u]
                        },
                ),
                ..old(self)@
            }),
            sends_view(final(messages)@) == sends_view(old(messages)@) + broadcast_to(
                guests@,
                MessageView::RoomClosed(room_id),
            ),
    {
        let ghost before = self@;
        let ghost sent = sends_view(messages@);
        let ghost closed = MessageView::RoomClosed(room_id);
        for i in 0..guests.len()
            invariant
                self.users_keyed(),
                closed == MessageView::RoomClosed(room_id),
                self@ == (ServerView {
                    users: Map::new(
                        |u: UserID| before.users.contains_key(u),
                        |u: UserID|
                            if guests@.take(i as int).contains(u) {
                                UserState::Nowhere
                            } else {
                                before.users[u]
                            },
                    ),
                    ..before
                }),
                sends_view(messages@) == sent + broadcast_to(guests@.take(i as int), closed),
        {
            let guest = guests[i];
            let ghost queued = messages@;
            match self.get_user_mut(guest) {
                Ok(user) => {
                    user.state = UserState::Nowhere;
                },
                Err(_) => {},
            }
            messages.push((guest, Message::RoomClosed(room_id)));
            proof {
                let upto = guests@.take(i + 1);
                assert(upto =~= guests@.take(i as int).push(guest));
                lemma_push_contains(guests@.take(i as int), guest);
                lemma_sends_view_push(queued, guest, Message::RoomClosed(room_id));
            }
        }
        proof {
            assert(guests@.take(guests.len() as int) =~= guests@);
        }
    }

    /// Closes a room on a server whose users may be out of step with its
    /// rooms.
    fn close_room_unchecked(&mut self, room_id: RoomID) -> (r: Result<Response, Error>)
        requires
            old(self).users_keyed(),
        ensures
            final(self).users_keyed(),
            (final(self)@, result_view(r)) == old(self)@.close_room(room_id),
    {
        broadcast use vstd::std_specs::hash::group_hash_axioms;

        let room = match self.rooms.remove(&room_id) {
            Some(room) => room,
            None => {
                return Err(Error::NoSuchRoom);
            },
        };
        proof {
            self.room_order@.index_of_first_ensures(room_id);
        }
        match index_of(self.room_order.as_slice(), room_id, Error::NoSuchRoom) {
            Ok(index) => {
                self.room_order.remove(index);
            },
            Err(_) => {},
        }
        match self.get_user_mut(room.owner_id) {
            Ok(owner) => {
                owner.state = UserState::Nowhere;
            },
            Err(_) => {},
        }
        let mut messages: Vec<(UserID, Message)> = Vec::new();
        self.dismiss(room_id, &room.members, &mut messages);
        self.dismiss(room_id, &room.join_requests, &mut messages);
        proof {
            let closed = MessageView::RoomClosed(room_id);
            let guests = ServerView::guests(room@);
            lemma_concat_contains(room.members@, room.join_requests@);
            assert(sends_view(messages@) =~= broadcast_to(guests, closed));
        }
        Ok(Response::sends_all(messages))
    }

    /// Closes the room `room_id`: its owner and everybody in it are nowhere,
    /// and everybody in it but the owner is told that it is closed.
    pub fn close_room(&mut self, room_id: RoomID) -> (r: Result<Response, Error>)
        requires
            old(self).wf(),
        ensures
            final(self).wf(),
            (final(self)@, result_view(r)) == old(self)@.close_room(room_id),
    {
        proof {
            if self@.rooms.contains_key(room_id) {
                lemma_close_room_inv(self@, room_id, false);
            }
        }
        self.close_room_unchecked(room_id)
    }

    /// Disconnects the user `user_id`. What the user held is given up: an
    /// owner's room is closed, a member or one who asked to join is taken
    /// out of the room. Fails only where no such user is connected.
    pub fn remove_user(&mut self, user_id: UserID) -> (r: Result<Response, Error>)
        requires
            old(self).wf(),
        ensures
            final(self).wf(),
            (final(self)@, result_view(r)) == old(self)@.remove_user(user_id),
            r is Ok <==> old(self)@.users.contains_key(user_id),
            r is Err ==> r == Err::<Response, Error>(Error::NoSuchUser),
            !final(self)@.users.contains_key(user_id),
            forall|room_id: RoomID|
                !final(self)@.owns(user_id, room_id) && !final(self)@.is_member(user_id, room_id)
                    && !final(self)@.has_requested(user_id, room_id),
    {
        broadcast use vstd::std_specs::hash::group_hash_axioms;

        proof {
            lemma_remove_user_inv(self@, user_id);
            if self@.users.contains_key(user_id) {
                lemma_state_names_room(self@, user_id);
            }
        }
        let mut user = match self.users.remove(&user_id) {
            Some(user) => user,
            None => {
                proof {
                    assert(self@ =~~= old(self)@);
                    assert forall|room_id: RoomID|
                        !self@.owns(user_id, room_id) && !self@.is_member(user_id, room_id)
                            && !self@.has_requested(user_id, room_id) by {
                        assert(self@.agrees(user_id, room_id));
                    }
                }
                return Err(Error::NoSuchUser);
            },
        };
        proof {
            assert(self@ =~~= (ServerView {
                users: old(self)@.users.remove(user_id),
                ..old(self)@
            }));
        }
        // A well-formed server holds the room that a user's state names, and
        // the room holds the user, so the errors below do not occur.
        match user.state {
            UserState::RoomOwner(room_id) => self.close_room_unchecked(room_id),
            UserState::InRoom(room_id) => {
                proof {
                    lemma_roles_apart(old(self)@, room_id);
                }
                let room = self.get_room_mut(room_id)?;
                room.remove_user(user_id)?;
                Ok(Response::sends(room.owner_id, Message::PlayerLeft(room_id, user_id)))
            },
            UserState::RequestedJoin(room_id) => {
                let room = self.get_room_mut(room_id)?;
                room.cancel_join_request(&mut user)?;
                Ok(Response::sends(room.owner_id, Message::PlayerLeft(room_id, user_id)))
            },
            UserState::Nowhere => Ok(Response::empty()),
        }
    }

    /// Lists the open rooms with their descriptors, oldest first.
    pub fn list_rooms(&self) -> (response: Response)
        requires
            self.wf(),
        ensures
            response@ == self@.list_rooms(),
    {
        broadcast use vstd::std_specs::hash::group_hash_axioms;

        let mut rooms: Vec<(RoomID, String)> = Vec::new();
        for i in 0..self.room_order.len()
            invariant
                self.wf(),
                room_list_view(rooms@) == self.room_order@.take(i as int).map_values(
                    |r: RoomID| (r, self@.rooms[r].data),
                ),
        {
            let room_id = self.room_order[i];
            let ghost listed = rooms@;
            proof {
                assert(self@.room_order.contains(room_id));
            }
            match self.rooms.get(&room_id) {
                Some(room) => {
                    rooms.push((room_id, room.data.clone()));
                },
                None => {},
            }
            proof {
                assert(room_list_view(rooms@) =~= room_list_view(listed).push(
                    (room_id, self@.rooms[room_id].data),
                ));
            }
        }
        proof {
            assert(self.room_order@.take(self.room_order.len() as int) =~= self.room_order@);
        }
        Response::returning(Message::ListRooms(rooms))
    }

    /// Opens a room for the user `user_id`, who must be nowhere, and tells
    /// them its identifier.
    pub fn create_room(&mut self, user_id: UserID, data: String) -> (r: Result<Response, Error>)
        requires
            old(self).wf(),
        ensures
            final(self).wf(),
            (final(self)@, result_view(r)) == old(self)@.create_room(user_id, data@),
            r is Ok ==> !old(self)@.rooms.contains_key(final(self)@.last_room_id),
    {
        broadcast use vstd::std_specs::hash::group_hash_axioms;

        proof {
            lemma_create_room_inv(self@, user_id, data@);
        }
        // An identifier is sure to be free only once the user is known to
        // own no room, so the user is looked at before the search.
        match self.user_state(user_id) {
            Some(UserState::Nowhere) => {},
            Some(UserState::RequestedJoin(_)) => {
                return Err(Error::AlreadyRequestedJoin);
            },
            Some(_) => {
                return Err(Error::AlreadyInARoom);
            },
            None => {
                return Err(Error::NoSuchUser);
            },
        }
        proof {
            assert(self@.rooms.dom() =~= self.rooms@.dom());
        }
        let room_id = next_id(self.last_room_id, &self.rooms);
        let room = self.get_user_mut(user_id)?.try_create_room(room_id, data)?;
        self.rooms.insert(room_id, room);
        self.room_order.push(room_id);
        self.last_room_id = room_id;
        proof {
            assert(self@ =~~= old(self)@.create_room(user_id, data@).0);
        }
        Ok(Response::returning(Message::RoomCreated(room_id)))
    }

    /// Files the request of `user_id`, who must be nowhere, to join the
    /// room `room_id`, and tells the room's owner.
    pub fn ask_join(&mut self, user_id: UserID, room_id: RoomID, msg: String) -> (r: Result<
        Response,
        Error,
    >)
        requires
            old(self).wf(),
        ensures
            final(self).wf(),
            (final(self)@, result_view(r)) == old(self)@.ask_join(user_id, room_id, msg@),
    {
        proof {
            lemma_ask_join_inv(self@, user_id, room_id, msg@);
            lemma_same_again(self@, user_id, room_id);
        }
        let (user, room) = self.get_user_room_mut(user_id, room_id)?;
        user.try_join_room(room)?;
        Ok(Response::sends(room.owner_id, Message::JoinRequested(room_id, user.id, msg)))
    }

    /// Lets the owner `user_id` of the room `room_id` accept the join
    /// request of `other_id`, and tells `other_id`.
    pub fn accept_join(&mut self, user_id: UserID, room_id: RoomID, other_id: UserID) -> (r:
        Result<Response, Error>)
        requires
            old(self).wf(),
        ensures
            final(self).wf(),
            (final(self)@, result_view(r)) == old(self)@.accept_join(user_id, room_id, other_id),
    {
        proof {
            lemma_accept_join_inv(self@, user_id, room_id, other_id);
            lemma_same_again(self@, other_id, room_id);
        }
        let (other, room) = self.get_user_room_mut(other_id, room_id)?;
        room.expect_owner(user_id)?;
        room.accept_join_request(other)?;
        Ok(Response::sends(other_id, Message::RoomJoined(room_id)))
    }

    /// Lets the owner `user_id` of the room `room_id` turn down the join
    /// request of `other_id`, and tells `other_id` why.
    pub fn reject_join(
        &mut self,
        user_id: UserID,
        room_id: RoomID,
        other_id: UserID,
        reason: String,
    ) -> (r: Result<Response, Error>)
        requires
            old(self).wf(),
        ensures
            final(self).wf(),
            (final(self)@, result_view(r)) == old(self)@.reject_join(
                user_id,
                room_id,
                other_id,
                reason@,
            ),
    {
        proof {
            lemma_reject_join_inv(self@, user_id, room_id, other_id, reason@);
            lemma_same_again(self@, other_id, room_id);
        }
        let (other, room) = self.get_user_room_mut(other_id, room_id)?;
        room.expect_owner(user_id)?;
        room.cancel_join_request(other)?;
        Ok(Response::sends(other_id, Message::RoomRejected(room_id, reason)))
    }

    /// Takes the user `user_id` out of the room `room_id`. Where the user
    /// owns the room, the room is closed; otherwise the owner is told that
    /// the user left.
    pub fn leave_room(&mut self, user_id: UserID, room_id: RoomID) -> (r: Result<Response, Error>)
        requires
            old(self).wf(),
        ensures
            final(self).wf(),
            (final(self)@, result_view(r)) == old(self)@.leave_room(user_id, room_id),
    {
        proof {
            lemma_leave_room_inv(self@, user_id, room_id);
            lemma_same_again(self@, user_id, room_id);
        }
        let (user, room) = self.get_user_room_mut(user_id, room_id)?;
        if room.owner_id == user.id {
            self.close_room(room_id)
        } else {
            user.leave_room(room)?;
            Ok(Response::sends(room.owner_id, Message::PlayerLeft(room_id, user.id)))
        }
    }

    /// Sends `payload` to the room `room_id`: from its owner to every
    /// member, from anybody else to its owner.
    pub fn send(&self, from_user_id: UserID, room_id: RoomID, payload: String) -> (r: Result<
        Response,
        Error,
    >)
        ensures
            result_view(r) == self@.send(from_user_id, room_id, payload@),
    {
        let room = self.get_room(room_id)?;
        if from_user_id == room.owner_id {
            let mut messages: Vec<(UserID, Message)> = Vec::new();
            let ghost message = MessageView::ReceivedBroadcast(room_id, payload@);
            for i in 0..room.members.len()
                invariant
                    message == MessageView::ReceivedBroadcast(room_id, payload@),
                    sends_view(messages@) == broadcast_to(room.members@.take(i as int), message),
            {
                let ghost queued = messages@;
                let member = room.members[i];
                let copy = Message::ReceivedBroadcast(room_id, payload.clone());
                messages.push((member, copy));
                proof {
                    lemma_sends_view_push(queued, member, copy);
                }
            }
            proof {
                assert(room.members@.take(room.members.len() as int) =~= room.members@);
            }
            Ok(Response::sends_all(messages))
        } else {
            Ok(Response::sends(room.owner_id, Message::ReceivedFrom(room_id, from_user_id, payload)))
        }
    }

    /// Sends `payload` from the owner of the room `room_id` to its member
    /// `to_user_id` alone.
    pub fn send_to(
        &self,
        from_user_id: UserID,
        room_id: RoomID,
        to_user_id: UserID,
        payload: String,
    ) -> (r: Result<Response, Error>)
        ensures
            result_view(r) == self@.send_to(from_user_id, room_id, to_user_id, payload@),
    {
        let room = self.get_room(room_id)?;
        room.expect_owner(from_user_id)?;
        room.expect_member(to_user_id)?;
        Ok(Response::sends(to_user_id, Message::ReceivedIndividual(room_id, payload)))
    }

    /// Passes `payload`, which the member `from_user_id` sent, on to every
    /// other member of the room `room_id`, for its owner.
    pub fn echo_from(
        &self,
        user_id: UserID,
        room_id: RoomID,
        from_user_id: UserID,
        payload: String,
    ) -> (r: Result<Response, Error>)
        ensures
            result_view(r) == self@.echo_from(user_id, room_id, from_user_id, payload@),
    {
        let room = self.get_room(room_id)?;
        room.expect_owner(user_id)?;
        room.expect_member(from_user_id)?;
        let mut messages: Vec<(UserID, Message)> = Vec::new();
        let ghost message = MessageView::ReceivedBroadcast(room_id, payload@);
        let ghost others = other_than(from_user_id);
        for i in 0..room.members.len()
            invariant
                message == MessageView::ReceivedBroadcast(room_id, payload@),
                others == other_than(from_user_id),
                sends_view(messages@) == broadcast_to(
                    room.members@.take(i as int).filter(others),
                    message,
                ),
        {
            let ghost queued = messages@;
            let member = room.members[i];
            proof {
                reveal(Seq::filter);
                assert(room.members@.take(i + 1).drop_last() =~= room.members@.take(i as int));
            }
            if member != from_user_id {
                let copy = Message::ReceivedBroadcast(room_id, payload.clone());
                messages.push((member, copy));
                proof {
                    lemma_sends_view_push(queued, member, copy);
                }
            }
        }
        proof {
            assert(room.members@.take(room.members.len() as int) =~= room.members@);
        }
        Ok(Response::sends_all(messages))
    }

    /// Answers one request of the user `user_id`. A request that fails
    /// changes nothing, and its error is the answer.
    pub fn handle_request(&mut self, user_id: UserID, request: Request) -> (response: Response)
        requires
            old(self).wf(),
        ensures
            final(self).wf(),
            (final(self)@, response@) == old(self)@.handle_request(user_id, request@),
    {
        match request {
            Request::ListRooms => self.list_rooms(),
            Request::Ping(n) => Response::returning(Message::Pong(n)),
            Request::CreateRoom(data) => Response::from_result(self.create_room(user_id, data)),
            Request::SetOwner(_, _) => Response::empty(),
            Request::AskJoinRoom(room_id, msg) => Response::from_result(
                self.ask_join(user_id, room_id, msg),
            ),
            Request::AcceptJoinRoom(room_id, other_id) => Response::from_result(
                self.accept_join(user_id, room_id, other_id),
            ),
            Request::RejectJoinRoom(room_id, other_id, reason) => Response::from_result(
                self.reject_join(user_id, room_id, other_id, reason),
            ),
            Request::LeaveRoom(room_id) => Response::from_result(self.leave_room(user_id, room_id)),
            Request::Send(room_id, payload) => Response::from_result(
                self.send(user_id, room_id, payload),
            ),
            Request::SendTo(room_id, other_id, payload) => Response::from_result(
                self.send_to(user_id, room_id, other_id, payload),
            ),
            Request::EchoFrom(room_id, other_id, payload) => Response::from_result(
                self.echo_from(user_id, room_id, other_id, payload),
            ),
            Request::Quit => Response::empty(),
        }
    }
}

} // verus!
