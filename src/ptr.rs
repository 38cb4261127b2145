//! Typed addresses of managed objects.
use vstd::prelude::*;
use crate::memory::Address;

verus! {

/// The address of a managed object; zero is null.
#[derive(Clone, Copy, Debug, PartialEq, Eq, Structural)]
pub struct Ptr {
    pub addr: usize,
}

impl Ptr {
    pub fn new(addr: usize) -> (r: Ptr)
        ensures
            r.addr == addr,
    {
        Ptr { addr }
    }

    pub fn from_addr(a: Address) -> (r: Ptr)
        ensures
            r.addr == a.addr,
    {
        Ptr { addr: a.addr }
    }

    pub fn from_usize(addr: usize) -> (r: Ptr)
        ensures
            r.addr == addr,
    {
        Ptr { addr }
    }

    pub fn from_isize(addr: isize) -> (r: Ptr)
        requires
            addr >= 0,
        ensures
            r.addr == addr,
    {
        Ptr { addr: addr as usize }
    }

    /// The address `bytes` past the object at `base`.
    pub fn from_ref_offset_bytes(base: Ptr, bytes: usize) -> (r: Ptr)
        requires
            base.addr + bytes <= usize::MAX,
        ensures
            r.addr == base.addr + bytes,
    {
        Ptr { addr: base.addr + bytes }
    }

    pub fn null() -> (r: Ptr)
        ensures
            r.addr == 0,
    {
        Ptr { addr: 0 }
    }

    pub fn is_null(&self) -> (r: bool)
        ensures
            r == (self.addr == 0),
    {
        self.addr == 0
    }

    pub fn is_not_null(&self) -> (r: bool)
        ensures
            r == (self.addr != 0),
    {
        self.addr != 0
    }

    /// The same address, seen as an object of another type.
    pub fn cast(&self) -> (r: Ptr)
        ensures
            r == *self,
    {
        *self
    }

    /// The address of element `count` of an array of `size`-byte elements
    /// starting here.
    pub fn offset(&self, count: usize, size: usize) -> (r: Option<Ptr>)
        ensures
            self.addr + count * size <= usize::MAX ==> r == Some(Ptr { addr: (self.addr + count * size) as usize }),
            self.addr + count * size > usize::MAX ==> r.is_none(),
    {
        match count.checked_mul(size) {
            Some(d) => match self.addr.checked_add(d) {
                Some(a) => Some(Ptr { addr: a }),
                None => None,
            },
            None => {
                assert(count * size > usize::MAX);
                assert(self.addr + count * size > usize::MAX) by (nonlinear_arith)
                    requires
                        count * size > usize::MAX,
                ;
                None
            },
        }
    }

    pub fn as_address(&self) -> (r: Address)
        ensures
            r.addr == self.addr,
    {
        Address { addr: self.addr }
    }

    pub fn as_usize(&self) -> (r: usize)
        ensures
            r == self.addr,
    {
        self.addr
    }

    pub fn as_isize(&self) -> (r: isize)
        requires
            self.addr <= isize::MAX,
        ensures
            r == self.addr,
    {
        self.addr as isize
    }
}

} // verus!
