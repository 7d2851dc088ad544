//! The room registry: a process-wide lookup from room name to room slot with
//! create-if-absent semantics.
//!
//! The registry records only the names, in creation order and without
//! duplicates; the caller keeps the rooms themselves in a parallel collection
//! indexed by the returned slot, and guards both with one lock so that
//! lookup-or-insert stays a single atomic critical section. Two lookups of
//! one name can then never create two distinct rooms.

use vstd::prelude::*;

use crate::game::{distinct_seq, find_index, lemma_pos_of_unique, pos_of, strs_view};

verus! {

/// The names of all rooms created so far; a room's slot is its index here.
pub struct RoomRegistry {
    pub names: Vec<String>,
}

impl RoomRegistry {
    /// Room names never repeat.
    pub open spec fn wf(&self) -> bool {
        distinct_seq(strs_view(self.names@))
    }

    /// An empty registry.
    pub fn new() -> (r: RoomRegistry)
        ensures
            r.wf(),
            r.names@.len() == 0,
    {
        RoomRegistry { names: Vec::new() }
    }

    /// The slot of the room called `name`, created now if it did not exist;
    /// the flag says whether it was created. The same name always resolves to
    /// the same slot, and a new room takes the next free slot.
    pub fn lookup_or_create(&mut self, name: &String) -> (r: (usize, bool))
        requires
            old(self).wf(),
        ensures
            final(self).wf(),
            (r.0 as int) < final(self).names@.len(),
            strs_view(final(self).names@)[r.0 as int] == name@,
            r.1 == !strs_view(old(self).names@).contains(name@),
            !r.1 ==> final(self).names@ == old(self).names@ && r.0 as int == pos_of(
                strs_view(old(self).names@), name@),
            r.1 ==> strs_view(final(self).names@) == strs_view(old(self).names@).push(name@)
                && r.0 as int == old(self).names@.len(),
    {
        match find_index(&self.names, name) {
            Some(i) => {
                proof {
                    lemma_pos_of_unique(strs_view(self.names@), name@, i as int);
                }
                (i, false)
            },
            None => {
                let id = self.names.len();
                self.names.push(name.clone());
                proof {
                    let v1 = strs_view(final(self).names@);
                    let v0 = strs_view(old(self).names@);
                    assert(v1 =~= v0.push(name@));
                    assert forall|i: int, j: int| 0 <= i < j < v1.len() implies v1[i]
                        != v1[j] by {
                        if j == v1.len() - 1 {
                            assert(v0.contains(v0[i]));
                        }
                    }
                }
                (id, true)
            },
        }
    }
}

} // verus!
