//! Handing out identifiers: the next identifier is the first free one after
//! the last that was handed out, going round from the largest to zero.

use std::collections::HashMap;
use vstd::prelude::*;
use vstd::relations::injective_on;
use vstd::set_lib::{lemma_int_range, lemma_len_subset, lemma_map_size, set_int_range};

verus! {

/// How many identifiers there are.
pub open spec fn id_space() -> int {
    0x1_0000_0000
}

/// The identifier `k` steps after `last`, where the one after the largest
/// is zero.
pub open spec fn step_id(last: u32, k: int) -> u32 {
    ((last + k) % id_space()) as u32
}

/// Whether some identifier is not in `used`.
pub open spec fn has_free_id(used: Set<u32>) -> bool {
    exists|id: u32| !used.contains(id)
}

/// Whether the identifier `k` steps after `last` is the first free one:
/// it is not in `used`, and every identifier passed on the way is.
pub open spec fn first_free_step(last: u32, used: Set<u32>, k: int) -> bool {
    &&& 1 <= k <= id_space()
    &&& !used.contains(step_id(last, k))
    &&& forall|j: int| 1 <= j < k ==> used.contains(#[trigger] step_id(last, j))
}

/// The first identifier after `last` that is not in `used`. It means
/// something only where one is free.
pub open spec fn next_free_id(last: u32, used: Set<u32>) -> u32 {
    step_id(last, choose|k: int| first_free_step(last, used, k))
}

/// Every identifier is reached from `last` in at least one and at most
/// `id_space()` steps.
pub proof fn lemma_steps_between(last: u32, id: u32) -> (k: int)
    ensures
        1 <= k <= id_space(),
        step_id(last, k) == id,
{
    if id > last {
        id - last
    } else {
        id - last + id_space()
    }
}

/// There is at most one first free step.
pub proof fn lemma_first_free_step_unique(last: u32, used: Set<u32>, k1: int, k2: int)
    requires
        first_free_step(last, used, k1),
        first_free_step(last, used, k2),
    ensures
        k1 == k2,
{
}

/// Where an identifier is free, the next one is free, and the identifiers
/// between `last` and it are all in use.
pub proof fn lemma_next_free_id(last: u32, used: Set<u32>)
    requires
        has_free_id(used),
    ensures
        !used.contains(next_free_id(last, used)),
        exists|k: int| first_free_step(last, used, k) && next_free_id(last, used) == step_id(last, k),
{
    let free = choose|id: u32| !used.contains(id);
    let bound = lemma_steps_between(last, free);
    lemma_first_free_exists(last, used, bound);
}

/// The next identifier in terms of the order of identifiers: where it is
/// greater than `last`, every identifier between the two is in use; where
/// it is not, the search has gone round, so every identifier greater than
/// `last` is in use, and so is every identifier smaller than the one found.
/// An identifier that has been given up is thus handed out again only when
/// all that follow `last` have been passed, and zero only after the largest.
pub proof fn lemma_next_free_id_order(last: u32, used: Set<u32>)
    requires
        has_free_id(used),
    ensures
        ({
            let id = next_free_id(last, used);
            &&& !used.contains(id)
            &&& id > last ==> forall|x: u32| last < x < id ==> used.contains(x)
            &&& id <= last ==> forall|x: u32| x > last || x < id ==> used.contains(x)
        }),
{
    lemma_next_free_id(last, used);
    let id = next_free_id(last, used);
    if id > last {
        assert forall|x: u32| last < x < id implies used.contains(x) by {
            assert(step_id(last, x - last) == x);
        }
    } else {
        assert forall|x: u32| x > last || x < id implies used.contains(x) by {
            if x > last {
                assert(step_id(last, x - last) == x);
            } else {
                assert(step_id(last, x - last + id_space()) == x);
            }
        }
    }
}

/// Below a free step there is a first free step.
proof fn lemma_first_free_exists(last: u32, used: Set<u32>, bound: int)
    requires
        1 <= bound <= id_space(),
        !used.contains(step_id(last, bound)),
    ensures
        exists|k: int| first_free_step(last, used, k),
    decreases bound,
{
    if exists|j: int| 1 <= j < bound && !used.contains(step_id(last, j)) {
        let j = choose|j: int| 1 <= j < bound && !used.contains(step_id(last, j));
        lemma_first_free_exists(last, used, j);
    } else {
        assert(first_free_step(last, used, bound));
    }
}

/// The identifiers are `id_space()` many.
pub proof fn lemma_all_ids_count()
    ensures
        Set::<u32>::full().finite(),
        Set::<u32>::full().len() == id_space(),
{
    let range = set_int_range(0, id_space());
    let f = |i: int| i as u32;
    lemma_int_range(0, id_space());
    assert(range.map(f) =~= Set::<u32>::full()) by {
        assert forall|id: u32| range.map(f).contains(id) by {
            assert(range.contains(id as int));
        }
    }
    lemma_map_size(range, Set::<u32>::full(), f);
}

/// A finite set that holds fewer identifiers than there are leaves one free,
/// and one that leaves one free holds fewer than there are.
pub proof fn lemma_free_id_by_count(used: Set<u32>)
    requires
        used.finite(),
    ensures
        has_free_id(used) <==> used.len() < id_space(),
        used.len() <= id_space(),
{
    lemma_all_ids_count();
    if !has_free_id(used) {
        assert(used =~= Set::<u32>::full());
    } else {
        let free = choose|id: u32| !used.contains(id);
        lemma_len_subset(used, Set::<u32>::full().remove(free));
    }
}

/// The first identifier after `last_id` that is no key of `map`.
pub fn next_id<T>(last_id: u32, map: &HashMap<u32, T>) -> (id: u32)
    requires
        has_free_id(map@.dom()),
    ensures
        id == next_free_id(last_id, map@.dom()),
        !map@.contains_key(id),
{
    broadcast use vstd::std_specs::hash::group_hash_axioms;

    let ghost used = map@.dom();
    proof {
        lemma_next_free_id(last_id, used);
    }
    let ghost goal = choose|k: int| first_free_step(last_id, used, k);
    let mut id = last_id;
    let ghost mut k: int = 0;
    loop
        invariant
            used == map@.dom(),
            first_free_step(last_id, used, goal),
            0 <= k < goal,
            id == if k == 0 {
                last_id
            } else {
                step_id(last_id, k)
            },
            forall|j: int| 1 <= j <= k ==> used.contains(#[trigger] step_id(last_id, j)),
        decreases goal - k,
    {
        id = id.wrapping_add(1);
        proof {
            k = k + 1;
        }
        if !map.contains_key(&id) {
            proof {
                lemma_first_free_step_unique(last_id, used, k, goal);
            }
            return id;
        }
    }
}

} // verus!
