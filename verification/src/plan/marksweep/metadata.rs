//! The side metadata of the mark-sweep plan: a bit for each word that
//! tells whether an object was allocated there, and a bit that tells whether
//! that object is marked. The metadata of a chunk is there once the chunk
//! was made active.

use crate::util::address::spec_align_down;
use crate::util::address::Address;
use crate::util::address::ObjectReference;
use crate::util::constants::log_bytes_in_word;
use crate::util::constants::spec_log_bytes_in_word;
use crate::util::constants::BYTES_IN_CHUNK;
use crate::util::metadata::global::MetadataSpec;
use crate::util::metadata::side_metadata::helpers::metadata_address_range_size;
use crate::util::metadata::side_metadata::helpers::spec_metadata_address_range_size;
use crate::util::metadata::side_metadata::helpers::spec_unit_index;
use crate::util::metadata::side_metadata::helpers::valid_data_address;
use crate::util::metadata::side_metadata::table::lemma_table_store_load;
use crate::util::metadata::side_metadata::table::spec_table_load;
use crate::util::metadata::side_metadata::table::spec_table_spec;
use crate::util::metadata::side_metadata::table::spec_table_store;
use crate::util::metadata::side_metadata::table::SideMetadataTable;
use std::collections::HashSet;
use vstd::arithmetic::power2::lemma2_to64;
use vstd::arithmetic::power2::pow2;
use vstd::prelude::*;

verus! {

broadcast use vstd::std_specs::hash::group_hash_axioms;

/// The specification of the allocation bits: one bit for each word, in a
/// table that starts at address zero of the metadata.
pub open spec fn spec_alloc_metadata_spec() -> MetadataSpec {
    MetadataSpec {
        is_side_metadata: true,
        is_global: false,
        offset: 0,
        num_of_bits: 1,
        log_min_obj_size: spec_log_bytes_in_word() as usize,
    }
}

/// The specification of the mark bits: one bit for each word, in a table
/// right behind that of the allocation bits.
pub open spec fn spec_marking_metadata_spec() -> MetadataSpec {
    MetadataSpec {
        is_side_metadata: true,
        is_global: false,
        offset: spec_metadata_address_range_size(spec_alloc_metadata_spec()) as isize,
        num_of_bits: 1,
        log_min_obj_size: spec_log_bytes_in_word() as usize,
    }
}

/// Both specifications are ones whose entries a table loads and stores.
pub proof fn lemma_specs_valid()
    ensures
        spec_table_spec(spec_alloc_metadata_spec()),
        spec_table_spec(spec_marking_metadata_spec()),
        spec_marking_metadata_spec().offset == spec_metadata_address_range_size(
            spec_alloc_metadata_spec(),
        ),
{
    lemma2_to64();
    vstd::arithmetic::power2::lemma2_to64_rest();
    if usize::BITS == 64 {
        assert(spec_metadata_address_range_size(spec_alloc_metadata_spec()) == pow2(41));
        assert(spec_metadata_address_range_size(spec_marking_metadata_spec()) == pow2(41));
    } else {
        assert(spec_metadata_address_range_size(spec_alloc_metadata_spec()) == pow2(27));
        assert(spec_metadata_address_range_size(spec_marking_metadata_spec()) == pow2(27));
    }
}

/// The specification of the allocation bits.
pub fn alloc_metadata_spec() -> (s: MetadataSpec)
    ensures
        s == spec_alloc_metadata_spec(),
{
    MetadataSpec {
        is_side_metadata: true,
        is_global: false,
        offset: 0,
        num_of_bits: 1,
        log_min_obj_size: log_bytes_in_word(),
    }
}

/// The specification of the mark bits.
pub fn marking_metadata_spec() -> (s: MetadataSpec)
    ensures
        s == spec_marking_metadata_spec(),
{
    proof {
        lemma_specs_valid();
    }
    let alloc = alloc_metadata_spec();
    let size = metadata_address_range_size(&alloc);
    MetadataSpec {
        is_side_metadata: true,
        is_global: false,
        offset: size as isize,
        num_of_bits: 1,
        log_min_obj_size: log_bytes_in_word(),
    }
}

/// The side metadata of the plan: the chunks that are active and the
/// table of the bits.
pub struct MarkSweepMetadata {
    active_chunks: HashSet<usize>,
    table: SideMetadataTable,
}

impl MarkSweepMetadata {
    /// The addresses at which the active chunks start.
    pub closed spec fn active_chunks(&self) -> Set<usize> {
        self.active_chunks@
    }

    /// The bytes of the table of the bits.
    pub closed spec fn bits(&self) -> Map<usize, u8> {
        self.table@
    }

    /// Whether the chunk that `address` lies in is active.
    pub open spec fn spec_meta_space_mapped(&self, address: Address) -> bool {
        self.active_chunks().contains(spec_align_down(address@, BYTES_IN_CHUNK as int) as usize)
    }

    /// Whether the allocation bit of `address` is set.
    pub open spec fn spec_alloc_bit(&self, address: Address) -> bool {
        spec_table_load(self.bits(), spec_alloc_metadata_spec(), address@) == 1
    }

    /// Whether the mark bit of `address` is set.
    pub open spec fn spec_mark_bit(&self, address: Address) -> bool {
        spec_table_load(self.bits(), spec_marking_metadata_spec(), address@) == 1
    }

    /// Metadata without active chunks, in which no bit is set.
    pub fn new() -> (m: Self)
        ensures
            m.active_chunks() == Set::<usize>::empty(),
            m.bits() == Map::<usize, u8>::empty(),
    {
        MarkSweepMetadata { active_chunks: HashSet::new(), table: SideMetadataTable::new() }
    }

    /// Whether the chunk that `address` lies in is active.
    pub fn meta_space_mapped(&self, address: Address) -> (mapped: bool)
        ensures
            mapped == self.spec_meta_space_mapped(address),
    {
        let chunk_start = address.align_down(BYTES_IN_CHUNK);
        self.active_chunks.contains(&chunk_start.0)
    }

    /// Makes the chunk that starts at `chunk_start` active. Returns whether
    /// it was not active before.
    pub fn map_meta_space_for_chunk(&mut self, chunk_start: Address) -> (newly: bool)
        ensures
            newly == !old(self).active_chunks().contains(chunk_start.0),
            final(self).active_chunks() == old(self).active_chunks().insert(chunk_start.0),
            final(self).bits() == old(self).bits(),
    {
        if self.active_chunks.contains(&chunk_start.0) {
            assert(self.active_chunks() =~= old(self).active_chunks().insert(chunk_start.0));
            return false;
        }
        self.active_chunks.insert(chunk_start.0);
        true
    }

    /// Whether `object` was allocated by this plan: its chunk is active
    /// and its allocation bit is set.
    pub fn is_malloced(&self, object: ObjectReference) -> (b: bool)
        requires
            valid_data_address(object@),
        ensures
            b == (self.spec_meta_space_mapped(Address(object.0)) && self.spec_alloc_bit(
                Address(object.0),
            )),
    {
        proof {
            lemma_specs_valid();
        }
        let address = object.to_address();
        self.meta_space_mapped(address) && self.table.load_atomic(&alloc_metadata_spec(), address)
            == 1
    }

    /// Whether `object` is marked.
    pub fn is_marked(&self, object: ObjectReference) -> (b: bool)
        requires
            valid_data_address(object@),
            self.spec_meta_space_mapped(Address(object.0)),
        ensures
            b == self.spec_mark_bit(Address(object.0)),
    {
        proof {
            lemma_specs_valid();
        }
        let address = object.to_address();
        self.table.load_atomic(&marking_metadata_spec(), address) == 1
    }

    /// Sets the allocation bit of `address`.
    pub fn set_alloc_bit(&mut self, address: Address)
        requires
            valid_data_address(address@),
            old(self).spec_meta_space_mapped(address),
        ensures
            final(self).active_chunks() == old(self).active_chunks(),
            final(self).bits() == spec_table_store(
                old(self).bits(),
                spec_alloc_metadata_spec(),
                address@,
                1,
            ),
            final(self).spec_alloc_bit(address),
    {
        proof {
            lemma_specs_valid();
        }
        self.table.store_atomic(&alloc_metadata_spec(), address, 1);
    }

    /// Sets the mark bit of `address`.
    pub fn set_mark_bit(&mut self, address: Address)
        requires
            valid_data_address(address@),
            old(self).spec_meta_space_mapped(address),
        ensures
            final(self).active_chunks() == old(self).active_chunks(),
            final(self).bits() == spec_table_store(
                old(self).bits(),
                spec_marking_metadata_spec(),
                address@,
                1,
            ),
            final(self).spec_mark_bit(address),
    {
        proof {
            lemma_specs_valid();
        }
        self.table.store_atomic(&marking_metadata_spec(), address, 1);
    }

    /// Clears the allocation bit of `address`.
    pub fn unset_alloc_bit(&mut self, address: Address)
        requires
            valid_data_address(address@),
            old(self).spec_meta_space_mapped(address),
        ensures
            final(self).active_chunks() == old(self).active_chunks(),
            final(self).bits() == spec_table_store(
                old(self).bits(),
                spec_alloc_metadata_spec(),
                address@,
                0,
            ),
            !final(self).spec_alloc_bit(address),
    {
        proof {
            lemma_specs_valid();
        }
        self.table.store_atomic(&alloc_metadata_spec(), address, 0);
    }

    /// Clears the mark bit of `address`.
    pub fn unset_mark_bit(&mut self, address: Address)
        requires
            valid_data_address(address@),
            old(self).spec_meta_space_mapped(address),
        ensures
            final(self).active_chunks() == old(self).active_chunks(),
            final(self).bits() == spec_table_store(
                old(self).bits(),
                spec_marking_metadata_spec(),
                address@,
                0,
            ),
            !final(self).spec_mark_bit(address),
    {
        proof {
            lemma_specs_valid();
        }
        self.table.store_atomic(&marking_metadata_spec(), address, 0);
    }
}

/// A store of a bit under one of the two specifications leaves every bit
/// under the other as it is, and the bits of other words under the same
/// specification too.
pub proof fn lemma_bits_independent(bytes: Map<usize, u8>, a: int, value: int, b: int)
    requires
        valid_data_address(a),
        valid_data_address(b),
        0 <= value <= 1,
    ensures
        spec_table_load(
            spec_table_store(bytes, spec_alloc_metadata_spec(), a, value),
            spec_marking_metadata_spec(),
            b,
        ) == spec_table_load(bytes, spec_marking_metadata_spec(), b),
        spec_table_load(
            spec_table_store(bytes, spec_marking_metadata_spec(), a, value),
            spec_alloc_metadata_spec(),
            b,
        ) == spec_table_load(bytes, spec_alloc_metadata_spec(), b),
        spec_unit_index(spec_alloc_metadata_spec(), a) != spec_unit_index(
            spec_alloc_metadata_spec(),
            b,
        ) ==> spec_table_load(
            spec_table_store(bytes, spec_alloc_metadata_spec(), a, value),
            spec_alloc_metadata_spec(),
            b,
        ) == spec_table_load(bytes, spec_alloc_metadata_spec(), b),
        spec_unit_index(spec_marking_metadata_spec(), a) != spec_unit_index(
            spec_marking_metadata_spec(),
            b,
        ) ==> spec_table_load(
            spec_table_store(bytes, spec_marking_metadata_spec(), a, value),
            spec_marking_metadata_spec(),
            b,
        ) == spec_table_load(bytes, spec_marking_metadata_spec(), b),
{
    lemma_specs_valid();
    let alloc = spec_alloc_metadata_spec();
    let mark = spec_marking_metadata_spec();
    crate::util::metadata::side_metadata::helpers::lemma_meta_addr_in_range(alloc, a);
    crate::util::metadata::side_metadata::helpers::lemma_meta_addr_in_range(alloc, b);
    crate::util::metadata::side_metadata::helpers::lemma_meta_addr_in_range(mark, a);
    crate::util::metadata::side_metadata::helpers::lemma_meta_addr_in_range(mark, b);
    lemma_table_store_load(bytes, alloc, a, value, b);
    lemma_table_store_load(bytes, mark, a, value, b);
}

} // verus!
