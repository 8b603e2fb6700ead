//! What every space has: a name and a range of addresses.

use crate::util::address::Address;
use crate::util::address::ObjectReference;
use crate::util::constants::bytes_to_pages_up;
use crate::util::constants::spec_bytes_to_pages_up;
use crate::util::heap::Heap;
use vstd::prelude::*;

verus! {

/// Why a collection could not go on.
#[derive(Debug, Clone, Copy, PartialEq, Eq, Structural)]
pub enum GcError {
    /// The space that objects are copied to has no room for a copy.
    OutOfMemory,
}

/// The number of bytes that an object with `num_fields` fields takes: a
/// header word and a word for each field.
pub open spec fn spec_object_size(num_fields: nat) -> int {
    8 * (num_fields as int + 1)
}

/// The range of addresses of a space, and how much of it is in use.
/// Objects are allocated from the start of the range upwards.
pub struct CommonSpace {
    name: &'static str,
    start: Address,
    extent: usize,
    cursor: usize,
}

impl CommonSpace {
    /// The name of the space.
    pub closed spec fn name(&self) -> &'static str {
        self.name
    }

    /// The first address of the space.
    pub closed spec fn start(&self) -> int {
        self.start@
    }

    /// The number of bytes in the range of the space.
    pub closed spec fn extent(&self) -> int {
        self.extent as int
    }

    /// The number of bytes in use, counted from the start.
    pub closed spec fn used(&self) -> int {
        self.cursor as int
    }

    /// The range lies within the address space, does not take in address
    /// zero, and no more is in use than there is.
    pub open spec fn wf(&self) -> bool {
        &&& 0 < self.start()
        &&& self.start() + self.extent() <= usize::MAX
        &&& 0 <= self.used() <= self.extent()
    }

    /// Whether `addr` lies in the range of the space.
    pub open spec fn contains(&self, addr: int) -> bool {
        self.start() <= addr < self.start() + self.extent()
    }

    /// Whether the ranges of two spaces have no address in common.
    pub open spec fn disjoint(&self, other: &CommonSpace) -> bool {
        self.start() + self.extent() <= other.start() || other.start() + other.extent()
            <= self.start()
    }

    /// Every object of `heap` that lies in the space lies in the part of
    /// it that is in use.
    pub open spec fn covers(&self, heap: &Heap) -> bool {
        forall|o: ObjectReference|
            #[trigger] heap.objects().contains_key(o) && self.contains(o@) ==> o@ < self.start()
                + self.used()
    }

    /// An unused space with the range of `extent` bytes from `start` on.
    pub fn new(name: &'static str, start: Address, extent: usize) -> (s: Self)
        requires
            0 < start@,
            start@ + extent <= usize::MAX,
        ensures
            s.wf(),
            s.name() == name,
            s.start() == start@,
            s.extent() == extent,
            s.used() == 0,
    {
        Self { name, start, extent, cursor: 0 }
    }

    /// The first address of the space.
    pub fn start_address(&self) -> (a: Address)
        ensures
            a@ == self.start(),
    {
        self.start
    }

    /// The number of bytes in the range of the space.
    pub fn extent_bytes(&self) -> (n: usize)
        ensures
            n == self.extent(),
    {
        self.extent
    }

    /// The number of bytes in use.
    pub fn used_bytes(&self) -> (n: usize)
        ensures
            n == self.used(),
    {
        self.cursor
    }

    /// The name of the space.
    pub fn get_name(&self) -> (name: &'static str)
        ensures
            name == self.name(),
    {
        self.name
    }

    /// Whether `object` lies in the space.
    pub fn in_space(&self, object: ObjectReference) -> (b: bool)
        requires
            self.wf(),
        ensures
            b == self.contains(object@),
    {
        self.address_in_space(object.to_address())
    }

    /// Whether `addr` lies in the space.
    pub fn address_in_space(&self, addr: Address) -> (b: bool)
        requires
            self.wf(),
        ensures
            b == self.contains(addr@),
    {
        self.start.0 <= addr.0 && addr.0 - self.start.0 < self.extent
    }

    /// The number of pages of the space that are in use.
    pub fn reserved_pages(&self) -> (pages: usize)
        ensures
            pages == spec_bytes_to_pages_up(self.used()),
    {
        bytes_to_pages_up(self.cursor)
    }

    /// Takes `bytes` bytes from the unused part of the space. Returns the
    /// address of the first, or nothing if so many are not left.
    pub fn acquire(&mut self, bytes: usize) -> (addr: Option<Address>)
        requires
            old(self).wf(),
        ensures
            final(self).wf(),
            final(self).name() == old(self).name(),
            final(self).start() == old(self).start(),
            final(self).extent() == old(self).extent(),
            old(self).used() + bytes <= old(self).extent() ==> addr == Some(
                Address((old(self).start() + old(self).used()) as usize),
            ) && final(self).used() == old(self).used() + bytes,
            old(self).used() + bytes > old(self).extent() ==> addr is None && final(self).used()
                == old(self).used(),
    {
        if bytes <= self.extent - self.cursor {
            let addr = Address(self.start.0 + self.cursor);
            self.cursor = self.cursor + bytes;
            Some(addr)
        } else {
            None
        }
    }

    /// Gives back all of the space.
    pub fn reset(&mut self)
        ensures
            final(self).name() == old(self).name(),
            final(self).start() == old(self).start(),
            final(self).extent() == old(self).extent(),
            final(self).used() == 0,
    {
        self.cursor = 0;
    }
}

/// The number of bytes that an object with `num_fields` fields takes, or
/// nothing if that exceeds the machine's numbers.
pub fn object_size(num_fields: usize) -> (size: Option<usize>)
    ensures
        spec_object_size(num_fields as nat) <= usize::MAX ==> size == Some(
            spec_object_size(num_fields as nat) as usize,
        ),
        spec_object_size(num_fields as nat) > usize::MAX ==> size is None,
{
    if num_fields >= usize::MAX / 8 {
        None
    } else {
        Some(8 * (num_fields + 1))
    }
}

} // verus!
