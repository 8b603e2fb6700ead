//! The edge shapes of a runtime that has several.

use crate::util::address::Address;
use crate::util::address::ObjectReference;
use crate::util::memory::spec_word_at;
use crate::util::memory::Memory;
use crate::vm::edge_shape::Edge;
use crate::vm::edge_shape::SimpleEdge;
use vstd::prelude::*;

verus! {

/// The number of low bits that a compressed reference leaves out.
pub const COMPRESSED_SHIFT: usize = 3;

/// The compressed form of the reference with the address `raw`: the
/// address shifted down, cut to 32 bits.
pub open spec fn spec_compress(raw: usize) -> u32 {
    (raw >> COMPRESSED_SHIFT) as u32
}

/// The address that a compressed reference stands for.
pub open spec fn spec_expand(compressed: u32) -> usize {
    (compressed as usize) << COMPRESSED_SHIFT
}

/// Compressing and expanding gives back an address that is a multiple of
/// eight and fits into 32 bits once it is shifted down.
pub proof fn lemma_compress_round_trip(raw: usize)
    requires
        raw % 8 == 0,
        raw / 8 <= u32::MAX,
    ensures
        spec_expand(spec_compress(raw)) == raw,
{
    assert(((raw >> 3usize) as u32 as usize) << 3usize == raw) by (bit_vector)
        requires
            raw % 8 == 0,
            raw / 8 <= 0xffff_ffffusize,
    ;
}

/// A 32-bit word that holds a reference in compressed form, on a machine
/// with wider addresses.
#[derive(Clone, Copy, Debug, PartialEq, Eq, Hash, Structural)]
pub struct CompressedOopEdge {
    slot_addr: Address,
}

impl CompressedOopEdge {
    /// The address of the word.
    pub closed spec fn slot(&self) -> Address {
        self.slot_addr
    }

    /// The edge whose word lies at `address`.
    pub fn from_address(address: Address) -> (e: Self)
        ensures
            e.slot() == address,
    {
        Self { slot_addr: address }
    }

    /// The address of the word.
    pub fn as_address(&self) -> (a: Address)
        ensures
            a == self.slot(),
    {
        self.slot_addr
    }
}

impl Edge for CompressedOopEdge {
    open spec fn can_load(&self, words: Map<usize, usize>) -> bool {
        true
    }

    open spec fn spec_load(&self, words: Map<usize, usize>) -> ObjectReference {
        ObjectReference(spec_expand(spec_word_at(words, self.slot().0) as u32))
    }

    open spec fn can_store(&self, object: ObjectReference) -> bool {
        true
    }

    open spec fn spec_store(&self, words: Map<usize, usize>, object: ObjectReference) -> Map<
        usize,
        usize,
    > {
        words.insert(self.slot().0, spec_compress(object.0) as usize)
    }

    fn load(&self, mem: &Memory) -> (object: ObjectReference) {
        let compressed: u32 = #[verifier::truncate]
        (mem.load(self.slot_addr) as u32);
        let expanded: usize = (compressed as usize) << COMPRESSED_SHIFT;
        ObjectReference(expanded)
    }

    fn store(&self, mem: &mut Memory, object: ObjectReference)
        ensures
            object.0 % 8 == 0 && object.0 / 8 <= u32::MAX ==> self.spec_load(final(mem)@) == object,
    {
        let expanded: usize = object.0;
        let compressed: u32 = #[verifier::truncate]
        ((expanded >> COMPRESSED_SHIFT) as u32);
        proof {
            if object.0 % 8 == 0 && object.0 / 8 <= u32::MAX {
                lemma_compress_round_trip(object.0);
            }
            assert(compressed as usize as u32 == compressed);
        }
        mem.store(self.slot_addr, compressed as usize);
    }
}

/// A word that holds a pointer into the middle of an object, at a known
/// distance from its start.
#[derive(Clone, Copy, Debug, PartialEq, Eq, Hash, Structural)]
pub struct OffsetEdge {
    slot_addr: Address,
    offset: usize,
}

impl OffsetEdge {
    /// The address of the word.
    pub closed spec fn slot(&self) -> Address {
        self.slot_addr
    }

    /// The distance of the pointer from the start of the object.
    pub closed spec fn distance(&self) -> usize {
        self.offset
    }

    /// The edge at `address` whose pointer is to the start of the object.
    pub fn new_no_offset(address: Address) -> (e: Self)
        ensures
            e.slot() == address,
            e.distance() == 0,
    {
        Self { slot_addr: address, offset: 0 }
    }

    /// The edge at `address` whose pointer is `offset` bytes behind the
    /// start of the object.
    pub fn new_with_offset(address: Address, offset: usize) -> (e: Self)
        ensures
            e.slot() == address,
            e.distance() == offset,
    {
        Self { slot_addr: address, offset }
    }

    /// The address of the word.
    pub fn slot_address(&self) -> (a: Address)
        ensures
            a == self.slot(),
    {
        self.slot_addr
    }

    /// The distance of the pointer from the start of the object.
    pub fn offset(&self) -> (offset: usize)
        ensures
            offset == self.distance(),
    {
        self.offset
    }
}

impl Edge for OffsetEdge {
    open spec fn can_load(&self, words: Map<usize, usize>) -> bool {
        spec_word_at(words, self.slot().0) >= self.distance()
    }

    open spec fn spec_load(&self, words: Map<usize, usize>) -> ObjectReference {
        ObjectReference((spec_word_at(words, self.slot().0) - self.distance()) as usize)
    }

    open spec fn can_store(&self, object: ObjectReference) -> bool {
        object.0 + self.distance() <= usize::MAX
    }

    open spec fn spec_store(&self, words: Map<usize, usize>, object: ObjectReference) -> Map<
        usize,
        usize,
    > {
        words.insert(self.slot().0, (object.0 + self.distance()) as usize)
    }

    fn load(&self, mem: &Memory) -> (object: ObjectReference) {
        let middle: usize = mem.load(self.slot_addr);
        let begin: usize = middle - self.offset;
        ObjectReference(begin)
    }

    fn store(&self, mem: &mut Memory, object: ObjectReference)
        ensures
            self.can_load(final(mem)@),
            self.spec_load(final(mem)@) == object,
    {
        let begin: usize = object.0;
        let middle: usize = begin + self.offset;
        mem.store(self.slot_addr, middle);
    }
}

/// An edge that is the reference itself and lies nowhere in memory. It
/// cannot be changed.
#[derive(Clone, Copy, Debug, PartialEq, Eq, Hash, Structural)]
pub struct ValueEdge {
    value: ObjectReference,
}

impl ValueEdge {
    /// The reference that the edge is.
    pub closed spec fn held(&self) -> ObjectReference {
        self.value
    }

    /// The edge that is `value`.
    pub fn new(value: ObjectReference) -> (e: Self)
        ensures
            e.held() == value,
    {
        Self { value }
    }

    /// The reference that the edge is.
    pub fn value(&self) -> (v: ObjectReference)
        ensures
            v == self.held(),
    {
        self.value
    }
}

impl Edge for ValueEdge {
    open spec fn can_load(&self, words: Map<usize, usize>) -> bool {
        true
    }

    open spec fn spec_load(&self, words: Map<usize, usize>) -> ObjectReference {
        self.held()
    }

    open spec fn can_store(&self, object: ObjectReference) -> bool {
        true
    }

    open spec fn spec_store(&self, words: Map<usize, usize>, object: ObjectReference) -> Map<
        usize,
        usize,
    > {
        words
    }

    fn load(&self, mem: &Memory) -> (object: ObjectReference) {
        self.value
    }

    fn store(&self, mem: &mut Memory, object: ObjectReference) {
        // Value edges cannot be changed.
    }
}

/// Any of the shapes of edge that the runtime has.
#[derive(Clone, Copy, Debug, PartialEq, Eq, Hash, Structural)]
pub enum DummyVMEdge {
    Simple(SimpleEdge),
    Compressed(CompressedOopEdge),
    Offset(OffsetEdge),
    Value(ValueEdge),
}

impl Edge for DummyVMEdge {
    open spec fn can_load(&self, words: Map<usize, usize>) -> bool {
        match self {
            DummyVMEdge::Simple(e) => e.can_load(words),
            DummyVMEdge::Compressed(e) => e.can_load(words),
            DummyVMEdge::Offset(e) => e.can_load(words),
            DummyVMEdge::Value(e) => e.can_load(words),
        }
    }

    open spec fn spec_load(&self, words: Map<usize, usize>) -> ObjectReference {
        match self {
            DummyVMEdge::Simple(e) => e.spec_load(words),
            DummyVMEdge::Compressed(e) => e.spec_load(words),
            DummyVMEdge::Offset(e) => e.spec_load(words),
            DummyVMEdge::Value(e) => e.spec_load(words),
        }
    }

    open spec fn can_store(&self, object: ObjectReference) -> bool {
        match self {
            DummyVMEdge::Simple(e) => e.can_store(object),
            DummyVMEdge::Compressed(e) => e.can_store(object),
            DummyVMEdge::Offset(e) => e.can_store(object),
            DummyVMEdge::Value(e) => e.can_store(object),
        }
    }

    open spec fn spec_store(&self, words: Map<usize, usize>, object: ObjectReference) -> Map<
        usize,
        usize,
    > {
        match self {
            DummyVMEdge::Simple(e) => e.spec_store(words, object),
            DummyVMEdge::Compressed(e) => e.spec_store(words, object),
            DummyVMEdge::Offset(e) => e.spec_store(words, object),
            DummyVMEdge::Value(e) => e.spec_store(words, object),
        }
    }

    fn load(&self, mem: &Memory) -> (object: ObjectReference) {
        match self {
            DummyVMEdge::Simple(e) => e.load(mem),
            DummyVMEdge::Compressed(e) => e.load(mem),
            DummyVMEdge::Offset(e) => e.load(mem),
            DummyVMEdge::Value(e) => e.load(mem),
        }
    }

    fn store(&self, mem: &mut Memory, object: ObjectReference) {
        match self {
            DummyVMEdge::Simple(e) => e.store(mem, object),
            DummyVMEdge::Compressed(e) => e.store(mem, object),
            DummyVMEdge::Offset(e) => e.store(mem, object),
            DummyVMEdge::Value(e) => e.store(mem, object),
        }
    }
}

} // verus!
