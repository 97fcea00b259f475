//! Remembering which events were seen, in bounded space.
use vstd::prelude::*;

use crate::text::{list_contains, texts};

verus! {

/// How many event ids a subscription remembers.
pub const DEDUP_CAPACITY: usize = 10_000;

/// The remembered ids after one more was seen, oldest first. Where there is no room, the
/// oldest is forgotten.
pub open spec fn remember(seen: Seq<Seq<char>>, id: Seq<char>, capacity: nat) -> Seq<Seq<char>> {
    if seen.contains(id) || capacity == 0 {
        seen
    } else if seen.len() < capacity {
        seen.push(id)
    } else {
        seen.drop_first().push(id)
    }
}

/// The remembered ids after a row of ids was seen.
pub open spec fn remember_all(
    seen: Seq<Seq<char>>,
    ids: Seq<Seq<char>>,
    capacity: nat,
) -> Seq<Seq<char>>
    decreases ids.len(),
{
    if ids.len() == 0 {
        seen
    } else {
        remember_all(remember(seen, ids[0], capacity), ids.drop_first(), capacity)
    }
}

/// The most recent ids, at most `capacity` of them.
#[derive(Debug)]
pub struct BoundedDedup {
    seen: Vec<String>,
    capacity: usize,
}

impl BoundedDedup {
    /// The remembered ids, oldest first.
    pub closed spec fn seen(self) -> Seq<Seq<char>> {
        texts(self.seen@)
    }

    /// How many ids are remembered at most.
    pub closed spec fn capacity(self) -> nat {
        self.capacity as nat
    }

    #[verifier::type_invariant]
    spec fn is_bounded(self) -> bool {
        self.seen@.len() <= self.capacity && texts(self.seen@).no_duplicates()
    }

    /// Remembers nothing yet.
    pub fn new(capacity: usize) -> (dedup: Self)
        ensures
            dedup.seen() == Seq::<Seq<char>>::empty(),
            dedup.capacity() == capacity,
    {
        let dedup = BoundedDedup { seen: Vec::new(), capacity };
        assert(dedup.seen() =~= Seq::<Seq<char>>::empty());
        dedup
    }

    /// Remembers an id and says whether it is new.
    pub fn insert(&mut self, id: &str) -> (new: bool)
        ensures
            new == !old(self).seen().contains(id@),
            final(self).seen() == remember(old(self).seen(), id@, old(self).capacity()),
            final(self).capacity() == old(self).capacity(),
            final(self).seen().len() <= final(self).capacity(),
            final(self).seen().no_duplicates(),
    {
        proof {
            use_type_invariant(&*self);
        }
        if list_contains(&self.seen, id) {
            return false;
        }
        if self.capacity == 0 {
            return true;
        }
        let ghost before = texts(self.seen@);
        let mut seen: Vec<String> = Vec::new();
        core::mem::swap(&mut seen, &mut self.seen);
        if seen.len() >= self.capacity {
            seen.remove(0);
            assert(texts(seen@) =~= before.drop_first());
        }
        let ghost room = seen@;
        seen.push(id.to_owned());
        assert(texts(seen@) =~= texts(room).push(id@));
        proof {
            lemma_stays_distinct(before, id@, self.capacity as nat);
        }
        self.seen = seen;
        true
    }
}

/// Among distinct ids, one more that is new is distinct from them.
pub proof fn lemma_stays_distinct(seen: Seq<Seq<char>>, id: Seq<char>, capacity: nat)
    requires
        seen.no_duplicates(),
        seen.len() <= capacity,
    ensures
        remember(seen, id, capacity).no_duplicates(),
{
    let next = remember(seen, id, capacity);
    if !seen.contains(id) && capacity > 0 {
        let shift: int = if seen.len() < capacity {
            0
        } else {
            1
        };
        assert forall|i: int, j: int|
            0 <= i < next.len() && 0 <= j < next.len() && i != j implies next[i] != next[j] by {
            if i < next.len() - 1 {
                assert(next[i] == seen[i + shift]);
            }
            if j < next.len() - 1 {
                assert(next[j] == seen[j + shift]);
            }
        }
    }
}

/// Whether all of the ids lie in a set.
pub open spec fn lie_in(seen: Seq<Seq<char>>, ids: Set<Seq<char>>) -> bool {
    forall|i: int| 0 <= i < seen.len() ==> ids.contains(#[trigger] seen[i])
}

/// Where no more ids come than there is room for, none is forgotten.
pub proof fn lemma_room_for_all(
    seen: Seq<Seq<char>>,
    id: Seq<char>,
    ids: Set<Seq<char>>,
    capacity: nat,
)
    requires
        seen.no_duplicates(),
        lie_in(seen, ids),
        ids.contains(id),
        ids.finite(),
        ids.len() <= capacity,
    ensures
        remember(seen, id, capacity) == (if seen.contains(id) {
            seen
        } else {
            seen.push(id)
        }),
        remember(seen, id, capacity).no_duplicates(),
        lie_in(remember(seen, id, capacity), ids),
{
    if !seen.contains(id) {
        seen.unique_seq_to_set();
        let more = seen.to_set().insert(id);
        assert(!seen.to_set().contains(id));
        assert forall|other: Seq<char>| more.contains(other) implies ids.contains(other) by {
            if other != id {
                let i = choose|i: int| 0 <= i < seen.len() && seen[i] == other;
                assert(ids.contains(seen[i]));
            }
        }
        vstd::set_lib::lemma_len_subset(more, ids);
    }
    seen.unique_seq_to_set();
    assert forall|other: Seq<char>| seen.to_set().contains(other) implies ids.contains(other) by {
        let i = choose|i: int| 0 <= i < seen.len() && seen[i] == other;
        assert(ids.contains(seen[i]));
    }
    vstd::set_lib::lemma_len_subset(seen.to_set(), ids);
    lemma_stays_distinct(seen, id, capacity);
}

/// An id at position `at` outlasts as many others as there is room behind it.
proof fn lemma_outlasts(seen: Seq<Seq<char>>, at: int, ids: Seq<Seq<char>>, capacity: nat)
    requires
        0 <= at < seen.len() <= capacity,
        ids.len() <= at + capacity - seen.len(),
    ensures
        remember_all(seen, ids, capacity).contains(seen[at]),
    decreases ids.len(),
{
    if ids.len() > 0 {
        let next = remember(seen, ids[0], capacity);
        if seen.contains(ids[0]) || seen.len() < capacity {
            assert(next[at] == seen[at]);
            lemma_outlasts(next, at, ids.drop_first(), capacity);
        } else {
            assert(next[at - 1] == seen[at]);
            lemma_outlasts(next, at - 1, ids.drop_first(), capacity);
        }
    }
}

/// A new id is remembered until as many others as the capacity have been seen: until then it
/// is not new again.
pub proof fn new_id_is_remembered(
    seen: Seq<Seq<char>>,
    id: Seq<char>,
    ids: Seq<Seq<char>>,
    capacity: nat,
)
    requires
        seen.len() <= capacity,
        !seen.contains(id),
        ids.len() < capacity,
    ensures
        remember_all(remember(seen, id, capacity), ids, capacity).contains(id),
{
    let next = remember(seen, id, capacity);
    assert(next[next.len() - 1] == id);
    lemma_outlasts(next, next.len() - 1, ids, capacity);
}

/// Seeing an id makes it remembered, where anything is remembered at all, and brings in no
/// other; it makes forget at most the oldest one, and that only where there is no room.
pub proof fn only_the_oldest_is_forgotten(
    seen: Seq<Seq<char>>,
    id: Seq<char>,
    capacity: nat,
    other: Seq<char>,
)
    ensures
        capacity > 0 ==> remember(seen, id, capacity).contains(id),
        remember(seen, id, capacity).contains(other) ==> seen.contains(other) || other == id,
        seen.contains(other) && !remember(seen, id, capacity).contains(other) ==> other == seen[0]
            && seen.len() >= capacity && !seen.contains(id),
{
    let next = remember(seen, id, capacity);
    if capacity > 0 && !seen.contains(id) {
        assert(next[next.len() - 1] == id);
        let shift: int = if seen.len() < capacity {
            0
        } else {
            1
        };
        if next.contains(other) && other != id {
            let i = choose|i: int| 0 <= i < next.len() && next[i] == other;
            assert(next[i] == seen[i + shift]);
        }
        if seen.contains(other) && seen.len() > 0 {
            let i = choose|i: int| 0 <= i < seen.len() && seen[i] == other;
            if i >= shift {
                assert(next[i - shift] == other);
            }
        }
    }
}

} // verus!
