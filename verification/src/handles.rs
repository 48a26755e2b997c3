//! Handle table: open connections are known to the host by small integers.
//!
//! A handle is never zero, because zero is what the host is given when an
//! open fails, and is never issued twice. The counter only goes up; when it
//! has run through every number the table issues no more handles.
//!
//! No function here asks anything of its caller. A table made by `new` is
//! well formed and every function keeps it so.

use std::collections::HashMap;
use vstd::prelude::*;

verus! {

/// The handle that means "no connection".
pub const NO_HANDLE: u32 = 0;

/// Connections by handle, and the counter that names the next one.
pub struct HandleTable<T> {
    next: u32,
    entries: HashMap<u32, T>,
}

impl<T> View for HandleTable<T> {
    type V = Map<u32, T>;

    closed spec fn view(&self) -> Map<u32, T> {
        self.entries@
    }
}

/// The counter after issuing `id`: one more, or zero once the numbers have
/// run out.
pub open spec fn counter_after(id: u32) -> u32 {
    if id == 0 || id == u32::MAX {
        0
    } else {
        (id + 1) as u32
    }
}

impl<T> HandleTable<T> {
    /// The handle that the next open will get; zero when none is left.
    pub closed spec fn next_id(&self) -> u32 {
        self.next
    }

    /// Whether `id` has been issued at some time.
    pub open spec fn issued(&self, id: u32) -> bool {
        0 < id && (self.next_id() == 0 || id < self.next_id())
    }

    /// Every handle in the table has been issued: none is zero, none is
    /// still to come.
    pub open spec fn wf(&self) -> bool {
        forall|k: u32| #[trigger] self@.contains_key(k) ==> self.issued(k)
    }

    /// An empty table whose first handle will be 1.
    pub fn new() -> (table: Self)
        ensures
            table.wf(),
            table@ == Map::<u32, T>::empty(),
            table.next_id() == 1,
    {
        HandleTable { next: 1, entries: HashMap::new() }
    }

    /// An empty table whose first handle will be `first`; with zero, a
    /// table that issues no handle at all.
    pub fn starting_at(first: u32) -> (table: Self)
        ensures
            table.wf(),
            table@ == Map::<u32, T>::empty(),
            table.next_id() == first,
    {
        HandleTable { next: first, entries: HashMap::new() }
    }

    /// In a well-formed table the handle that comes next names nothing
    /// yet.
    pub proof fn lemma_next_is_fresh(&self)
        requires
            self.wf(),
        ensures
            !self@.contains_key(self.next_id()),
    {
        if self@.contains_key(self.next_id()) {
            assert(self.issued(self.next_id()));
        }
    }

    /// Issues the next handle and moves the counter on. The answer is zero
    /// once the numbers have run out.
    pub fn next_handle(&mut self) -> (id: u32)
        ensures
            final(self)@ == old(self)@,
            id == old(self).next_id(),
            final(self).next_id() == counter_after(id),
            id != NO_HANDLE ==> final(self).issued(id),
            old(self).wf() ==> final(self).wf() && !old(self)@.contains_key(id),
    {
        let id: u32 = self.next;
        if id == 0 || id == u32::MAX {
            self.next = 0;
        } else {
            self.next = id + 1;
        }
        proof {
            if old(self).wf() {
                old(self).lemma_next_is_fresh();
                assert forall|k: u32| #[trigger] self@.contains_key(k) implies self.issued(k) by {
                    assert(old(self)@.contains_key(k));
                    assert(old(self).issued(k));
                }
            }
        }
        id
    }

    /// Stores a connection under the next handle and returns the handle,
    /// which is not zero and named nothing before. When no handle is left,
    /// or the next one is taken, nothing is stored and the connection
    /// comes back to the caller. In a well-formed table the next handle is
    /// never taken, so that only running out of numbers can fail.
    pub fn insert(&mut self, value: T) -> (out: Result<u32, T>)
        ensures
            out is Ok <==> old(self).next_id() != NO_HANDLE && !old(self)@.contains_key(
                old(self).next_id(),
            ),
            match out {
                Ok(id) => {
                    &&& id == old(self).next_id()
                    &&& final(self)@ == old(self)@.insert(id, value)
                    &&& final(self).next_id() == counter_after(id)
                },
                Err(back) => {
                    &&& back == value
                    &&& final(self)@ == old(self)@
                    &&& final(self).next_id() == old(self).next_id()
                },
            },
            old(self).wf() ==> final(self).wf(),
            old(self).wf() ==> (out is Ok <==> old(self).next_id() != NO_HANDLE),
    {
        broadcast use vstd::std_specs::hash::group_hash_axioms;

        proof {
            if self.wf() {
                self.lemma_next_is_fresh();
            }
        }
        let id: u32 = self.next;
        if id == NO_HANDLE || self.entries.contains_key(&id) {
            return Err(value);
        }
        let issued: u32 = self.next_handle();
        let ghost mid = *self;
        self.entries.insert(issued, value);
        proof {
            if old(self).wf() {
                assert forall|k: u32| #[trigger] self@.contains_key(k) implies self.issued(k) by {
                    if k != issued {
                        assert(mid@.contains_key(k));
                    }
                }
            }
        }
        Ok(issued)
    }

    /// Whether a connection is stored under `id`.
    pub fn contains(&self, id: u32) -> (found: bool)
        ensures
            found == self@.contains_key(id),
    {
        broadcast use vstd::std_specs::hash::group_hash_axioms;

        self.entries.contains_key(&id)
    }

    /// The connection stored under `id`, if any.
    pub fn get(&self, id: u32) -> (value: Option<&T>)
        ensures
            value == if self@.contains_key(id) {
                Some(&self@[id])
            } else {
                None
            },
    {
        broadcast use vstd::std_specs::hash::group_hash_axioms;

        self.entries.get(&id)
    }

    /// Takes the connection stored under `id` out of the table. A handle
    /// that is not in the table, such as one that was removed before,
    /// gives `None` and changes nothing.
    pub fn remove(&mut self, id: u32) -> (value: Option<T>)
        ensures
            final(self).next_id() == old(self).next_id(),
            final(self)@ == old(self)@.remove(id),
            value == if old(self)@.contains_key(id) {
                Some(old(self)@[id])
            } else {
                None
            },
            old(self).wf() ==> final(self).wf(),
    {
        broadcast use vstd::std_specs::hash::group_hash_axioms;

        let value = self.entries.remove(&id);
        proof {
            if old(self).wf() {
                assert forall|k: u32| #[trigger] self@.contains_key(k) implies self.issued(k) by {
                    assert(old(self)@.contains_key(k));
                }
            }
        }
        value
    }

    /// How many connections are stored.
    pub fn len(&self) -> (n: usize)
        ensures
            n == self@.len(),
    {
        broadcast use vstd::std_specs::hash::group_hash_axioms;

        self.entries.len()
    }
}

} // verus!
