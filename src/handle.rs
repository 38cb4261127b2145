//! Handles: slots of a per-thread handle area that hold object addresses,
//! so that a collector can update them. A handle scope records the area's
//! offset at entry and restores it at exit, discarding the handles made
//! inside.
use vstd::prelude::*;
use crate::memory::Address;

verus! {

/// Slots per chunk of the handle area.
pub const HANDLES_PER_CHUNK: usize = 128;

/// The handle area of a thread: the slots in use, in order.
pub struct HandleData {
    pub slots: Vec<Address>,
}

impl HandleData {
    /// The area offset: how many slots are in use.
    pub open spec fn spec_offset(&self) -> nat {
        self.slots@.len()
    }

    pub fn new() -> (r: HandleData)
        ensures
            r.spec_offset() == 0,
    {
        HandleData { slots: Vec::new() }
    }

    pub fn offset(&self) -> (r: usize)
        ensures
            r == self.spec_offset(),
    {
        self.slots.len()
    }

    /// How many chunks the slots in use occupy.
    pub fn chunks(&self) -> (r: usize)
        ensures
            r == (self.spec_offset() + HANDLES_PER_CHUNK - 1) / (HANDLES_PER_CHUNK as int),
    {
        let n = self.slots.len();
        n / HANDLES_PER_CHUNK + if n % HANDLES_PER_CHUNK == 0 {
            0
        } else {
            1
        }
    }
}

/// A scope over a handle area: the offset it was entered at.
pub struct HandleScope {
    pub prev: usize,
}

impl HandleScope {
    /// Enters a scope.
    pub fn new_with_data(data: &HandleData) -> (r: HandleScope)
        ensures
            r.prev == data.spec_offset(),
    {
        HandleScope { prev: data.slots.len() }
    }

    /// A new handle holding `ptr`, in the next slot.
    pub fn make_handle(data: &mut HandleData, ptr: Address) -> (r: Handle)
        ensures
            final(data).slots@ == old(data).slots@.push(ptr),
            r.location == Some(old(data).spec_offset() as usize),
    {
        let at = data.slots.len();
        data.slots.push(ptr);
        Handle { location: Some(at) }
    }

    /// Leaves the scope: every handle made since entry is discarded.
    pub fn exit(self, data: &mut HandleData)
        requires
            self.prev <= old(data).spec_offset(),
        ensures
            final(data).spec_offset() == self.prev,
            final(data).slots@ == old(data).slots@.subrange(0, self.prev as int),
    {
        data.slots.truncate(self.prev);
    }
}

/// Handle-scope discipline: entering a scope, making any number of handles
/// (only ever adding slots) and exiting leaves the area offset exactly at
/// its value on entry, with the slots from before untouched.
pub proof fn lemma_scope_restores(before: Seq<Address>, during: Seq<Address>, scope: HandleScope)
    requires
        scope.prev == before.len(),
        before.len() <= during.len(),
        during.subrange(0, before.len() as int) == before,
    ensures
        during.subrange(0, scope.prev as int).len() == before.len(),
        during.subrange(0, scope.prev as int) == before,
{
}

/// The handle location names a slot in use.
pub open spec fn live(loc: Option<usize>, n: nat) -> bool {
    loc is Some && loc.unwrap() < n
}

/// A handle: the index of its slot, or none for the null handle.
#[derive(Clone, Copy, Debug, PartialEq, Eq, Structural)]
pub struct Handle {
    pub location: Option<usize>,
}

impl Handle {
    pub fn new(data: &mut HandleData, ptr: Address) -> (r: Handle)
        ensures
            final(data).slots@ == old(data).slots@.push(ptr),
            r.location == Some(old(data).spec_offset() as usize),
    {
        HandleScope::make_handle(data, ptr)
    }

    pub fn null() -> (r: Handle)
        ensures
            r.location.is_none(),
    {
        Handle { location: None }
    }

    pub fn is_null(&self) -> (r: bool)
        ensures
            r == self.location.is_none(),
    {
        self.location.is_none()
    }

    pub fn is_not_null(&self) -> (r: bool)
        ensures
            r == self.location.is_some(),
    {
        self.location.is_some()
    }

    /// The address the handle holds (null for the null handle or a
    /// discarded one).
    pub fn value(&self, data: &HandleData) -> (r: Address)
        ensures
            live(self.location, data.slots@.len()) ==> r == data.slots@[self.location.unwrap() as int],
            !live(self.location, data.slots@.len()) ==> r.addr == 0,
    {
        match self.location {
            Some(i) => {
                if i < data.slots.len() {
                    data.slots[i]
                } else {
                    Address { addr: 0 }
                }
            },
            None => Address { addr: 0 },
        }
    }

    /// Stores `v` in the handle's slot; `false` when it has none.
    pub fn set_value(&self, data: &mut HandleData, v: Address) -> (r: bool)
        ensures
            r == live(self.location, old(data).slots@.len()),
            r ==> final(data).slots@ == old(data).slots@.update(self.location.unwrap() as int, v),
            !r ==> final(data).slots@ == old(data).slots@,
    {
        match self.location {
            Some(i) => {
                if i < data.slots.len() {
                    data.slots.set(i, v);
                    true
                } else {
                    false
                }
            },
            None => false,
        }
    }

    /// Exchanges the addresses held by two live handles.
    pub fn swap(&self, that: &Handle, data: &mut HandleData) -> (r: bool)
        ensures
            r ==> ({
                let i = self.location.unwrap() as int;
                let j = that.location.unwrap() as int;
                final(data).slots@ == old(data).slots@.update(i, old(data).slots@[j]).update(j, old(data).slots@[i])
            }),
            !r ==> final(data).slots@ == old(data).slots@,
            r == (live(self.location, old(data).slots@.len()) && live(that.location, old(data).slots@.len())),
    {
        match (self.location, that.location) {
            (Some(i), Some(j)) => {
                if i < data.slots.len() && j < data.slots.len() {
                    let a = data.slots[i];
                    let b = data.slots[j];
                    data.slots.set(i, b);
                    data.slots.set(j, a);
                    true
                } else {
                    false
                }
            },
            _ => false,
        }
    }
}

} // verus!
