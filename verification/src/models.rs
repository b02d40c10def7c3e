//! Users and rooms, and the steps that change one user together with one room.

use vstd::prelude::*;

use crate::response::Error;

verus! {

/// Identifier the server assigns to a connected client.
pub type UserID = u32;

/// Identifier the server assigns to a room.
pub type RoomID = u32;

/// Where a user stands with respect to rooms.
#[derive(Debug, Clone, Copy, PartialEq, Eq, Structural)]
pub enum UserState {
    RoomOwner(RoomID),
    InRoom(RoomID),
    RequestedJoin(RoomID),
    Nowhere,
}

impl Default for UserState {
    fn default() -> (state: UserState)
        ensures
            state == UserState::Nowhere,
    {
        UserState::Nowhere
    }
}

/// A connected client.
#[derive(Debug, Clone, Copy)]
pub struct User {
    pub id: UserID,
    pub state: UserState,
}

/// A room: its owner, the descriptor it was created with, its accepted
/// members and the users who wait for the owner's decision, each in the order
/// in which messages to them go out.
#[derive(Debug)]
pub struct Room {
    pub id: RoomID,
    pub owner_id: UserID,
    pub data: String,
    pub members: Vec<UserID>,
    pub join_requests: Vec<UserID>,
}

/// A room as a mathematical value.
#[verifier::ext_equal]
pub struct RoomView {
    pub id: RoomID,
    pub owner_id: UserID,
    pub data: Seq<char>,
    pub members: Seq<UserID>,
    pub join_requests: Seq<UserID>,
}

impl View for Room {
    type V = RoomView;

    open spec fn view(&self) -> RoomView {
        RoomView {
            id: self.id,
            owner_id: self.owner_id,
            data: self.data@,
            members: self.members@,
            join_requests: self.join_requests@,
        }
    }
}

/// The error that keeps a user in `state` from entering a room, if any.
pub open spec fn nowhere_check(state: UserState) -> Result<(), Error> {
    match state {
        UserState::RoomOwner(_) => Err(Error::AlreadyInARoom),
        UserState::InRoom(_) => Err(Error::AlreadyInARoom),
        UserState::RequestedJoin(_) => Err(Error::AlreadyRequestedJoin),
        UserState::Nowhere => Ok(()),
    }
}

/// `s` without the first occurrence of `v`: the last element takes the place
/// that `v` held. A sequence that does not hold `v` stays as it is.
pub open spec fn swap_removed(s: Seq<UserID>, v: UserID) -> Seq<UserID> {
    match s.index_of_first(v) {
        Some(i) => s.update(i, s.last()).drop_last(),
        None => s,
    }
}

/// Taking an element out of a sequence without repetitions leaves exactly the
/// other elements, still without repetitions.
pub proof fn lemma_swap_removed(s: Seq<UserID>, v: UserID)
    requires
        s.no_duplicates(),
    ensures
        swap_removed(s, v).no_duplicates(),
        !swap_removed(s, v).contains(v),
        forall|x: UserID| x != v ==> (swap_removed(s, v).contains(x) <==> s.contains(x)),
        s.contains(v) ==> swap_removed(s, v).len() == s.len() - 1,
        !s.contains(v) ==> swap_removed(s, v) == s,
{
    s.index_of_first_ensures(v);
    let t = swap_removed(s, v);
    match s.index_of_first(v) {
        Some(i) => {
            assert(t.len() == s.len() - 1);
            assert forall|x: UserID| x != v && s.contains(x) implies t.contains(x) by {
                let j = choose|j: int| 0 <= j < s.len() && s[j] == x;
                if j == s.len() - 1 {
                    assert(t[i] == x);
                } else {
                    assert(t[j] == x);
                }
            }
            assert forall|x: UserID| t.contains(x) implies s.contains(x) && x != v by {
                let j = choose|j: int| 0 <= j < t.len() && t[j] == x;
                if j == i {
                    assert(s[s.len() - 1] == x);
                } else {
                    assert(s[j] == x);
                }
            }
        },
        None => {},
    }
}

impl RoomView {
    /// The room that `owner_id` creates under `id` with the descriptor `data`.
    pub open spec fn new(id: RoomID, owner_id: UserID, data: Seq<char>) -> RoomView {
        RoomView { id, owner_id, data, members: Seq::empty(), join_requests: Seq::empty() }
    }

    /// The room after `user_id` asked to join it.
    pub open spec fn with_join_request(self, user_id: UserID) -> RoomView {
        RoomView { join_requests: self.join_requests.push(user_id), ..self }
    }

    /// The room after the member `user_id` became its owner: the former owner
    /// takes the member's place. Fails where `user_id` is no member.
    pub open spec fn set_owner(self, user_id: UserID) -> Result<RoomView, Error> {
        match self.members.index_of_first(user_id) {
            Some(i) => Ok(
                RoomView { owner_id: user_id, members: self.members.update(i, self.owner_id), ..self },
            ),
            None => Err(Error::NoSuchUser),
        }
    }

    /// The room after the join request of `user_id` was taken back or turned
    /// down. Fails where `user_id` has no request pending.
    pub open spec fn cancel_join_request(self, user_id: UserID) -> Result<RoomView, Error> {
        if self.join_requests.contains(user_id) {
            Ok(RoomView { join_requests: swap_removed(self.join_requests, user_id), ..self })
        } else {
            Err(Error::NoSuchJoinRequest)
        }
    }

    /// The room after the join request of `user_id` was accepted: the user
    /// is its newest member. Fails where `user_id` has no request pending.
    pub open spec fn accept_join_request(self, user_id: UserID) -> Result<RoomView, Error> {
        if self.join_requests.contains(user_id) {
            Ok(
                RoomView {
                    join_requests: swap_removed(self.join_requests, user_id),
                    members: self.members.push(user_id),
                    ..self
                },
            )
        } else {
            Err(Error::NoSuchJoinRequest)
        }
    }

    /// The room after the member `user_id` left. Fails for the owner, and
    /// where `user_id` is no member.
    pub open spec fn remove_user(self, user_id: UserID) -> Result<RoomView, Error> {
        if user_id == self.owner_id {
            Err(Error::IsRoomOwner)
        } else if self.members.contains(user_id) {
            Ok(RoomView { members: swap_removed(self.members, user_id), ..self })
        } else {
            Err(Error::NoSuchUser)
        }
    }
}

/// Whether an exclusive step on a room came out as `expected` says: on
/// success the room is the expected one, on failure it is untouched.
pub open spec fn room_step(
    before: Room,
    after: Room,
    result: Result<(), Error>,
    expected: Result<RoomView, Error>,
) -> bool {
    match expected {
        Ok(room) => result is Ok && after@ =~= room,
        Err(e) => result == Err::<(), Error>(e) && after == before,
    }
}

impl User {
    /// A user who has just connected.
    pub fn new(id: UserID) -> (user: User)
        ensures
            user == (User { id, state: UserState::Nowhere }),
    {
        User { id, state: UserState::Nowhere }
    }

    /// Succeeds for a user who is in no room and has asked to join none.
    pub fn expect_nowhere(&self) -> (r: Result<(), Error>)
        ensures
            r == nowhere_check(self.state),
    {
        match self.state {
            UserState::RoomOwner(_) => Err(Error::AlreadyInARoom),
            UserState::InRoom(_) => Err(Error::AlreadyInARoom),
            UserState::RequestedJoin(_) => Err(Error::AlreadyRequestedJoin),
            UserState::Nowhere => Ok(()),
        }
    }

    /// Makes this user the owner of a new room `room_id` and returns the room.
    /// A user who is not nowhere stays as they are.
    pub fn try_create_room(&mut self, room_id: RoomID, data: String) -> (r: Result<Room, Error>)
        ensures
            match nowhere_check(old(self).state) {
                Ok(_) => {
                    &&& r is Ok
                    &&& r->Ok_0@ == RoomView::new(room_id, old(self).id, data@)
                    &&& *final(self) == (User { id: old(self).id, state: UserState::RoomOwner(room_id) })
                },
                Err(e) => r == Err::<Room, Error>(e) && *final(self) == *old(self),
            },
    {
        self.expect_nowhere()?;
        let room = Room::new(room_id, self.id, data);
        self.state = UserState::RoomOwner(room_id);
        Ok(room)
    }

    /// Files this user's request to join `room`. A user who is not nowhere
    /// stays as they are, and so does the room.
    pub fn try_join_room(&mut self, room: &mut Room) -> (r: Result<(), Error>)
        ensures
            match nowhere_check(old(self).state) {
                Ok(_) => {
                    &&& r is Ok
                    &&& final(room)@ == old(room)@.with_join_request(old(self).id)
                    &&& *final(self) == (User {
                        id: old(self).id,
                        state: UserState::RequestedJoin(old(room).id),
                    })
                },
                Err(e) => {
                    &&& r == Err::<(), Error>(e)
                    &&& *final(self) == *old(self)
                    &&& *final(room) == *old(room)
                },
            },
    {
        self.expect_nowhere()?;
        self.state = UserState::RequestedJoin(room.id);
        room.join_requests.push(self.id);
        Ok(())
    }

    /// What becomes of a user and a room when the user leaves it, as a member
    /// or as one who asked to join: the user is nowhere and the room has let
    /// go of them. A user whose state names another room, in whatever way, or
    /// no room at all, is not in that room. The owner of this very room
    /// cannot leave it this way.
    pub open spec fn leave_room_spec(self, room: RoomView) -> Result<(User, RoomView), Error> {
        let gone = User { id: self.id, state: UserState::Nowhere };
        match self.state {
            UserState::RoomOwner(room_id) => if room_id == room.id {
                Err(Error::IsRoomOwner)
            } else {
                Err(Error::NotInThatRoom)
            },
            UserState::InRoom(room_id) => if room_id == room.id {
                match room.remove_user(self.id) {
                    Ok(left) => Ok((gone, left)),
                    Err(e) => Err(e),
                }
            } else {
                Err(Error::NotInThatRoom)
            },
            UserState::RequestedJoin(room_id) => if room_id == room.id {
                match room.cancel_join_request(self.id) {
                    Ok(left) => Ok((gone, left)),
                    Err(e) => Err(e),
                }
            } else {
                Err(Error::NotInThatRoom)
            },
            UserState::Nowhere => Err(Error::NotInThatRoom),
        }
    }

    /// Takes this user out of `room`. On failure neither changes.
    pub fn leave_room(&mut self, room: &mut Room) -> (r: Result<(), Error>)
        ensures
            match old(self).leave_room_spec(old(room)@) {
                Ok((user, left)) => r is Ok && *final(self) == user && final(room)@ == left,
                Err(e) => {
                    &&& r == Err::<(), Error>(e)
                    &&& *final(self) == *old(self)
                    &&& *final(room) == *old(room)
                },
            },
    {
        match self.state {
            UserState::RoomOwner(room_id) => {
                if room_id == room.id {
                    Err(Error::IsRoomOwner)
                } else {
                    Err(Error::NotInThatRoom)
                }
            },
            UserState::InRoom(room_id) => {
                if room_id == room.id {
                    match room.remove_user(self.id) {
                        Ok(_) => {
                            self.state = UserState::Nowhere;
                            Ok(())
                        },
                        Err(e) => Err(e),
                    }
                } else {
                    Err(Error::NotInThatRoom)
                }
            },
            UserState::RequestedJoin(room_id) => {
                if room_id == room.id {
                    room.cancel_join_request(self)
                } else {
                    Err(Error::NotInThatRoom)
                }
            },
            UserState::Nowhere => Err(Error::NotInThatRoom),
        }
    }
}

impl Room {
    /// The room that `owner_id` creates under `id` with the descriptor `data`.
    pub fn new(id: RoomID, owner_id: UserID, data: String) -> (room: Room)
        ensures
            room@ == RoomView::new(id, owner_id, data@),
    {
        Room { id, owner_id, data, members: Vec::new(), join_requests: Vec::new() }
    }

    /// Succeeds for the owner of this room.
    pub fn expect_owner(&self, user_id: UserID) -> (r: Result<(), Error>)
        ensures
            r == if self.owner_id == user_id {
                Ok::<(), Error>(())
            } else {
                Err(Error::NotRoomOwner)
            },
    {
        if self.owner_id == user_id {
            Ok(())
        } else {
            Err(Error::NotRoomOwner)
        }
    }

    /// Succeeds for an accepted member of this room.
    pub fn expect_member(&self, user_id: UserID) -> (r: Result<(), Error>)
        ensures
            r == if self.members@.contains(user_id) {
                Ok::<(), Error>(())
            } else {
                Err(Error::NoSuchUser)
            },
    {
        proof {
            self.members@.index_of_first_ensures(user_id);
        }
        index_of(self.members.as_slice(), user_id, Error::NoSuchUser)?;
        Ok(())
    }

    /// Hands the room to its member `user`: the former owner takes the
    /// member's place among the members, and `user` becomes the owner. Where
    /// `user` is no member, nothing changes.
    pub fn set_owner(&mut self, user: &mut User) -> (r: Result<(), Error>)
        ensures
            room_step(*old(self), *final(self), r, old(self)@.set_owner(old(user).id)),
            final(user).id == old(user).id,
            final(user).state == if r is Ok {
                UserState::RoomOwner(old(self).id)
            } else {
                old(user).state
            },
    {
        proof {
            self.members@.index_of_first_ensures(user.id);
        }
        let index = index_of(self.members.as_slice(), user.id, Error::NoSuchUser)?;
        let former = self.owner_id;
        self.owner_id = self.members[index];
        self.members[index] = former;
        user.state = UserState::RoomOwner(self.id);
        Ok(())
    }

    /// Takes the pending join request of `user` out of this room and leaves
    /// `user` nowhere. Where `user` has no request pending, nothing changes.
    pub fn cancel_join_request(&mut self, user: &mut User) -> (r: Result<(), Error>)
        ensures
            room_step(*old(self), *final(self), r, old(self)@.cancel_join_request(old(user).id)),
            final(user).id == old(user).id,
            final(user).state == if r is Ok {
                UserState::Nowhere
            } else {
                old(user).state
            },
    {
        proof {
            self.join_requests@.index_of_first_ensures(user.id);
        }
        let index = index_of(self.join_requests.as_slice(),user.id,Error::NoSuchJoinRequest,)?;
        self.join_requests.swap_remove(index);
        user.state = UserState::Nowhere;
        Ok(())
    }

    /// Accepts the pending join request of `user`, who becomes the newest
    /// member. Where `user` has no request pending, nothing changes.
    pub fn accept_join_request(&mut self, user: &mut User) -> (r: Result<(), Error>)
        ensures
            room_step(*old(self), *final(self), r, old(self)@.accept_join_request(old(user).id)),
            final(user).id == old(user).id,
            final(user).state == if r is Ok {
                UserState::InRoom(old(self).id)
            } else {
                old(user).state
            },
    {
        self.cancel_join_request(user)?;
        self.members.push(user.id);
        user.state = UserState::InRoom(self.id);
        Ok(())
    }

    /// Takes the member `user_id` out of this room. For the owner, and where
    /// `user_id` is no member, nothing changes.
    pub fn remove_user(&mut self, user_id: UserID) -> (r: Result<(), Error>)
        ensures
            room_step(*old(self), *final(self), r, old(self)@.remove_user(user_id)),
    {
        if user_id == self.owner_id {
            return Err(Error::IsRoomOwner);
        }
        proof {
            self.members@.index_of_first_ensures(user_id);
        }
        let index = index_of(self.members.as_slice(), user_id, Error::NoSuchUser)?;
        self.members.swap_remove(index);
        Ok(())
    }
}

/// The place of the first occurrence of `v` in `arr`, or the error `e` where
/// `arr` does not hold `v`.
pub fn index_of(arr: &[UserID], v: UserID, e: Error) -> (r: Result<usize, Error>)
    ensures
        match r {
            Ok(i) => arr@.index_of_first(v) == Some(i as int),
            Err(x) => x == e && arr@.index_of_first(v) is None,
        },
{
    proof {
        arr@.index_of_first_ensures(v);
    }
    let mut i: usize = 0;
    while i < arr.len()
        invariant
            i <= arr@.len(),
            forall|j: int| 0 <= j < i ==> arr@[j] != v,
        decreases arr@.len() - i,
    {
        if arr[i] == v {
            proof {
                arr@.index_of_first_ensures(v);
            }
            return Ok(i);
        }
        i = i + 1;
    }
    Err(e)
}

} // verus!
