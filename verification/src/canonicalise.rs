//! Canonical forms of messages and responses: lists put in ascending order
//! of identifier, so that two values that differ in order alone become equal.

use vstd::prelude::*;

use crate::models::{RoomID, UserID};
use crate::response::{
    room_list_view, sends_view, Message, MessageView, Response, ResponseView,
};

verus! {

/// Whether the identifiers of `s` never descend.
pub open spec fn ordered<T>(s: Seq<(u32, T)>) -> bool {
    forall|i: int, j: int| 0 <= i <= j < s.len() ==> s[i].0 <= s[j].0
}

/// The place behind the last item of `s` whose identifier is `id` or less;
/// the front where there is none.
pub open spec fn place<T>(s: Seq<(u32, T)>, id: u32) -> int
    decreases s.len(),
{
    if s.len() == 0 {
        0
    } else if s.last().0 <= id {
        s.len() as int
    } else {
        place(s.drop_last(), id)
    }
}

/// The items of `s` in ascending order of identifier, items with one
/// identifier in the order that they have in `s`.
pub open spec fn sorted_by_id<T>(s: Seq<(u32, T)>) -> Seq<(u32, T)>
    decreases s.len(),
{
    if s.len() == 0 {
        s
    } else {
        let front = sorted_by_id(s.drop_last());
        front.insert(place(front, s.last().0), s.last())
    }
}

/// The test that an item has the identifier `id`.
pub open spec fn with_id<T>(id: u32) -> spec_fn((u32, T)) -> bool {
    |item: (u32, T)| item.0 == id
}

/// The place lies within the sequence, what stands before it has an
/// identifier that is not greater (where the sequence is ordered), and
/// what stands from it on has a greater one.
pub proof fn lemma_place<T>(s: Seq<(u32, T)>, id: u32)
    ensures
        0 <= place(s, id) <= s.len(),
        place(s, id) > 0 ==> s[place(s, id) - 1].0 <= id,
        forall|j: int| place(s, id) <= j < s.len() ==> (#[trigger] s[j]).0 > id,
        ordered(s) ==> forall|j: int| 0 <= j < place(s, id) ==> (#[trigger] s[j]).0 <= id,
    decreases s.len(),
{
    if s.len() > 0 && s.last().0 > id {
        lemma_place(s.drop_last(), id);
        let p = place(s.drop_last(), id);
        assert forall|j: int| p <= j < s.len() implies (#[trigger] s[j]).0 > id by {
            if j < s.len() - 1 {
                assert(s.drop_last()[j] == s[j]);
            }
        }
    }
}

/// The sorted sequence is as long as the sequence, and its identifiers
/// never descend.
pub proof fn lemma_sorted_is_ordered<T>(s: Seq<(u32, T)>)
    ensures
        sorted_by_id(s).len() == s.len(),
        ordered(sorted_by_id(s)),
    decreases s.len(),
{
    if s.len() > 0 {
        let front = sorted_by_id(s.drop_last());
        let x = s.last();
        lemma_sorted_is_ordered(s.drop_last());
        lemma_place(front, x.0);
    }
}

/// Filtering a sequence with one more item in some place gives what
/// filtering the part before, the item and the part behind it give.
proof fn lemma_filter_insert<T>(s: Seq<(u32, T)>, p: int, x: (u32, T), keep: spec_fn((u32, T)) -> bool)
    requires
        0 <= p <= s.len(),
    ensures
        s.insert(p, x).filter(keep) == s.take(p).filter(keep) + seq![x].filter(keep) + s.skip(
            p,
        ).filter(keep),
        s.filter(keep) == s.take(p).filter(keep) + s.skip(p).filter(keep),
{
    assert(s.insert(p, x) =~= s.take(p) + seq![x] + s.skip(p));
    assert(s =~= s.take(p) + s.skip(p));
}

/// A sequence of which no item passes a test has nothing left after
/// filtering.
proof fn lemma_filter_none<T>(s: Seq<(u32, T)>, keep: spec_fn((u32, T)) -> bool)
    requires
        forall|j: int| 0 <= j < s.len() ==> !keep(#[trigger] s[j]),
    ensures
        s.filter(keep) == Seq::<(u32, T)>::empty(),
    decreases s.len(),
{
    reveal(Seq::filter);
    if s.len() > 0 {
        lemma_filter_none(s.drop_last(), keep);
    }
}

/// Sorting keeps the items of each identifier, and keeps them in their
/// order: nothing is lost, nothing is added, and items with one identifier
/// do not pass each other.
pub proof fn lemma_sorted_keeps_each_id<T>(s: Seq<(u32, T)>, id: u32)
    ensures
        sorted_by_id(s).filter(with_id(id)) == s.filter(with_id(id)),
    decreases s.len(),
{
    reveal(Seq::filter);
    if s.len() > 0 {
        let keep = with_id::<T>(id);
        let front = sorted_by_id(s.drop_last());
        let x = s.last();
        let p = place(front, x.0);
        lemma_sorted_keeps_each_id(s.drop_last(), id);
        lemma_place(front, x.0);
        lemma_filter_insert(front, p, x, keep);
        assert(seq![x].drop_last() =~= Seq::<(u32, T)>::empty());
        assert(Seq::<(u32, T)>::empty().filter(keep) =~= Seq::<(u32, T)>::empty());
        if x.0 == id {
            lemma_filter_none(front.skip(p), keep);
        }
    }
}

/// What is attached to the identifiers has no part in their order:
/// sorting and then changing every attachment gives what changing every
/// attachment and then sorting gives.
pub proof fn lemma_sorted_maps<A, B>(s: Seq<(u32, A)>, change: spec_fn((u32, A)) -> (u32, B))
    requires
        forall|item: (u32, A)| (#[trigger] change(item)).0 == item.0,
    ensures
        sorted_by_id(s.map_values(change)) == sorted_by_id(s).map_values(change),
    decreases s.len(),
{
    if s.len() > 0 {
        let front = sorted_by_id(s.drop_last());
        let x = s.last();
        lemma_sorted_maps(s.drop_last(), change);
        assert(s.map_values(change).drop_last() =~= s.drop_last().map_values(change));
        lemma_place_maps(front, change, x.0);
        lemma_place(front, x.0);
    }
}

/// The place of an identifier does not depend on what is attached to the
/// identifiers.
proof fn lemma_place_maps<A, B>(s: Seq<(u32, A)>, change: spec_fn((u32, A)) -> (u32, B), id: u32)
    requires
        forall|item: (u32, A)| (#[trigger] change(item)).0 == item.0,
    ensures
        place(s.map_values(change), id) == place(s, id),
    decreases s.len(),
{
    if s.len() > 0 {
        assert(s.map_values(change).drop_last() =~= s.drop_last().map_values(change));
        lemma_place_maps(s.drop_last(), change, id);
    }
}

/// Puts the items of `v` in ascending order of identifier. Items with one
/// identifier keep their order.
pub fn sort_by_id<T>(v: &mut Vec<(u32, T)>)
    ensures
        final(v)@ == sorted_by_id(old(v)@),
{
    let mut taken: Vec<(u32, T)> = Vec::new();
    std::mem::swap(v, &mut taken);
    let ghost input = taken@;
    for item in it: taken
        invariant
            it.seq() == input,
            v@ == sorted_by_id(input.take(it.index() as int)),
    {
        let ghost sorted = v@;
        let mut p: usize = v.len();
        proof {
            assert(sorted.take(p as int) =~= sorted);
        }
        while p > 0 && v[p - 1].0 > item.0
            invariant
                v@ == sorted,
                p <= v@.len(),
                place(sorted, item.0) == place(sorted.take(p as int), item.0),
            decreases p,
        {
            proof {
                assert(sorted.take(p as int).drop_last() =~= sorted.take(p - 1));
            }
            p = p - 1;
        }
        proof {
            let upto = input.take(it.index() + 1);
            assert(upto.drop_last() =~= input.take(it.index() as int));
        }
        v.insert(p, item);
    }
    proof {
        assert(input.take(input.len() as int) =~= input);
    }
}

/// A listed room with its descriptor as a sequence of characters.
pub open spec fn listed_room_view() -> spec_fn((RoomID, String)) -> (RoomID, Seq<char>) {
    |p: (RoomID, String)| (p.0, p.1@)
}

/// An addressed message as a mathematical value.
pub open spec fn addressed_view() -> spec_fn((UserID, Message)) -> (UserID, MessageView) {
    |p: (UserID, Message)| (p.0, p.1@)
}

/// An addressed message with the message in canonical form.
pub open spec fn addressed_canonical() -> spec_fn((UserID, MessageView)) -> (UserID, MessageView) {
    |p: (UserID, MessageView)| (p.0, p.1.canonical())
}

impl MessageView {
    /// This message with a list of rooms in ascending order of identifier.
    /// A message that lists no rooms is its own canonical form.
    pub open spec fn canonical(self) -> MessageView {
        match self {
            MessageView::ListRooms(rooms) => MessageView::ListRooms(sorted_by_id(rooms)),
            _ => self,
        }
    }
}

impl ResponseView {
    /// This response with every message in canonical form, and the
    /// addressed messages in ascending order of addressee.
    pub open spec fn canonical(self) -> ResponseView {
        ResponseView {
            returns: match self.returns {
                Some(message) => Some(message.canonical()),
                None => None,
            },
            sends: sorted_by_id(self.sends.map_values(addressed_canonical())),
        }
    }
}

impl Message {
    /// Puts this message in canonical form.
    pub fn canonicalise(&mut self)
        ensures
            final(self)@ == old(self)@.canonical(),
    {
        match self {
            Message::ListRooms(rooms) => {
                let ghost listed = rooms@;
                sort_by_id(rooms);
                proof {
                    lemma_sorted_maps(listed, listed_room_view());
                }
            },
            _ => {},
        }
    }
}

impl Response {
    /// This response in canonical form.
    pub fn canonical(self) -> (r: Response)
        ensures
            r@ == self@.canonical(),
    {
        let mut r = self;
        r.canonicalise();
        r
    }

    /// Puts this response in canonical form.
    pub fn canonicalise(&mut self)
        ensures
            final(self)@ == old(self)@.canonical(),
    {
        match &mut self.returns {
            Some(message) => {
                message.canonicalise();
            },
            None => {},
        }
        let ghost answer = self.returns;
        let mut taken: Vec<(UserID, Message)> = Vec::new();
        std::mem::swap(&mut self.sends, &mut taken);
        let ghost input = taken@;
        let ghost wanted = sends_view(input).map_values(addressed_canonical());
        for item in it: taken
            invariant
                it.seq() == input,
                wanted == sends_view(input).map_values(addressed_canonical()),
                self.returns == answer,
                sends_view(self.sends@) == wanted.take(it.index() as int),
        {
            let (user_id, mut message) = item;
            message.canonicalise();
            self.sends.push((user_id, message));
            proof {
                assert(wanted.take(it.index() + 1) =~= wanted.take(it.index() as int).push(
                    (user_id, message@),
                ));
            }
        }
        proof {
            assert(wanted.take(input.len() as int) =~= wanted);
        }
        let ghost staged = self.sends@;
        sort_by_id(&mut self.sends);
        proof {
            lemma_sorted_maps(staged, addressed_view());
        }
    }
}

} // verus!
