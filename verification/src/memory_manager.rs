//! What the toolkit offers to the runtime that embeds it: setting up a
//! heap, allocating, and asking whether an address is an object.

use crate::plan::global::AllocationSemantics;
use crate::plan::global::Options;
use crate::plan::nogc::global::spec_nogc_layout_fits;
use crate::plan::nogc::global::NoGC;
use crate::util::address::Address;
use crate::util::address::ObjectReference;
use crate::util::heap::Heap;
use vstd::prelude::*;

verus! {

/// An instance of the toolkit: a plan and the heap that it manages.
pub struct MMTK {
    pub plan: NoGC,
    pub heap: Heap,
}

/// The number of fields of the object that an allocation of `size` bytes
/// makes: the words of the object but the first, which is its header.
pub open spec fn spec_fields_for_size(size: int) -> int {
    if size <= 8 {
        0
    } else {
        (size - 1) / 8
    }
}

impl MMTK {
    /// What holds of every instance: the plan holds of the heap.
    pub open spec fn wf(&self) -> bool {
        self.plan.plan_inv(&self.heap)
    }
}

/// The options of an instance with a heap of `heap_size` bytes and one
/// collector thread.
pub open spec fn spec_default_options(heap_size: usize) -> Options {
    Options {
        threads: 1,
        max_heap_size: heap_size,
        min_nursery: 0,
        max_nursery: heap_size,
        full_heap_system_gc: false,
        stress_factor: 0,
    }
}

/// Sets up an instance with a heap of `heap_size` bytes, without objects.
pub fn gc_init(heap_size: usize) -> (mmtk: MMTK)
    requires
        spec_nogc_layout_fits(spec_default_options(heap_size)),
    ensures
        mmtk.wf(),
        mmtk.heap.objects() == Map::<ObjectReference, Seq<ObjectReference>>::empty(),
        mmtk.heap.roots() == Seq::<ObjectReference>::empty(),
        mmtk.plan.base.options == spec_default_options(heap_size),
{
    let options = Options {
        threads: 1,
        max_heap_size: heap_size,
        min_nursery: 0,
        max_nursery: heap_size,
        full_heap_system_gc: false,
        stress_factor: 0,
    };
    let heap = Heap::new();
    let plan = NoGC::new(options, &heap);
    MMTK { plan, heap }
}

/// Allocates an object of `size` bytes. Returns the address at which it
/// starts, or address zero if the space has no room for it.
pub fn allocate(mmtk: &mut MMTK, size: usize, semantics: AllocationSemantics) -> (addr: Address)
    requires
        old(mmtk).wf(),
    ensures
        final(mmtk).wf(),
        final(mmtk).heap.roots() == old(mmtk).heap.roots(),
        addr@ != 0 <==> old(mmtk).plan.spec_has_room(
            spec_fields_for_size(size as int) as usize,
            semantics,
        ),
        addr@ != 0 ==> addr@ == old(mmtk).plan.spec_allocation_space(semantics).start() + old(
            mmtk,
        ).plan.spec_allocation_space(semantics).used(),
        addr@ == 0 ==> final(mmtk).heap.objects() == old(mmtk).heap.objects(),
        addr@ != 0 ==> !old(mmtk).heap.objects().contains_key(ObjectReference(addr.0)) && final(mmtk).heap.objects() == old(mmtk).heap.objects().insert(
            ObjectReference(addr.0),
            Seq::new(spec_fields_for_size(size as int) as nat, |k: int| ObjectReference(0)),
        ),
{
    let num_fields: usize = if size <= 8 {
        0
    } else {
        (size - 1) / 8
    };
    match mmtk.plan.allocate(&mut mmtk.heap, num_fields, semantics) {
        Some(object) => object.to_address(),
        None => Address::zero(),
    }
}

/// Whether an object was allocated at `object`.
pub fn is_alloced(mmtk: &MMTK, object: ObjectReference) -> (b: bool)
    ensures
        b == mmtk.heap.objects().contains_key(object),
{
    mmtk.heap.is_object(object)
}

/// Whether `object` is an object in memory that the toolkit mapped: it is
/// not null and was allocated.
pub fn is_mapped_object(mmtk: &MMTK, object: ObjectReference) -> (b: bool)
    ensures
        b == (object@ != 0 && mmtk.heap.objects().contains_key(object)),
{
    !object.is_null() && mmtk.heap.is_object(object)
}

} // verus!
