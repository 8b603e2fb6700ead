//! A table of side metadata: the bytes that hold the entries, and loads
//! and stores of single entries. An entry of up to eight bits lies within
//! one byte; a wider one takes whole bytes, the lowest first.

use crate::util::address::Address;
use crate::util::metadata::global::MetadataSpec;
use crate::util::metadata::side_metadata::helpers::address_to_meta_address;
use crate::util::metadata::side_metadata::helpers::lemma_meta_bit_position_injective;
use crate::util::metadata::side_metadata::helpers::lemma_meta_position_split;
use crate::util::metadata::side_metadata::helpers::meta_byte_lshift;
use crate::util::metadata::side_metadata::helpers::meta_byte_mask;
use crate::util::metadata::side_metadata::helpers::spec_meta_addr;
use crate::util::metadata::side_metadata::helpers::spec_meta_byte_lshift;
use crate::util::metadata::side_metadata::helpers::spec_meta_byte_mask;
use crate::util::metadata::side_metadata::helpers::spec_unit_index;
use crate::util::metadata::side_metadata::helpers::valid_data_address;
use crate::util::metadata::side_metadata::helpers::valid_side_spec;
use std::collections::HashMap;
use vstd::arithmetic::power2::lemma2_to64;
use vstd::arithmetic::power2::pow2;
use vstd::prelude::*;

verus! {

broadcast use vstd::std_specs::hash::group_hash_axioms;

/// The entry of `mask` bits that lies `shift` bits up in `byte`.
pub open spec fn spec_byte_load(byte: u8, shift: u8, mask: u8) -> u8 {
    (byte >> shift) & mask
}

/// `byte` with the entry of `mask` bits that lies `shift` bits up set to
/// `value`.
pub open spec fn spec_byte_store(byte: u8, shift: u8, mask: u8, value: u8) -> u8 {
    (byte & !(mask << shift)) | (value << shift)
}

/// Whether `mask` selects an entry that fits into a byte `shift` bits up.
pub open spec fn spec_entry_fits(shift: u8, mask: u8) -> bool {
    ||| (mask == 1 && shift < 8)
    ||| (mask == 3 && shift <= 6)
    ||| (mask == 15 && shift <= 4)
    ||| (mask == 255 && shift == 0)
}

/// The number of bits that `mask` selects.
pub open spec fn spec_mask_bits(mask: u8) -> int {
    if mask == 1 {
        1
    } else if mask == 3 {
        2
    } else if mask == 15 {
        4
    } else {
        8
    }
}

/// An entry that was stored is what a load gives.
pub proof fn lemma_byte_store_load(byte: u8, shift: u8, mask: u8, value: u8)
    requires
        spec_entry_fits(shift, mask),
        value <= mask,
    ensures
        spec_byte_load(spec_byte_store(byte, shift, mask, value), shift, mask) == value,
{
    if mask == 1 {
        assert((((byte & !(1u8 << shift)) | (value << shift)) >> shift) & 1u8 == value)
            by (bit_vector)
            requires
                shift < 8,
                value <= 1,
        ;
    } else if mask == 3 {
        assert((((byte & !(3u8 << shift)) | (value << shift)) >> shift) & 3u8 == value)
            by (bit_vector)
            requires
                shift <= 6,
                value <= 3,
        ;
    } else if mask == 15 {
        assert((((byte & !(15u8 << shift)) | (value << shift)) >> shift) & 15u8 == value)
            by (bit_vector)
            requires
                shift <= 4,
                value <= 15,
        ;
    } else {
        assert((((byte & !(255u8 << shift)) | (value << shift)) >> shift) & 255u8 == value)
            by (bit_vector)
            requires
                shift == 0,
        ;
    }
}

/// A store of an entry leaves the entries of the same width beside it as
/// they are.
pub proof fn lemma_byte_store_other(byte: u8, shift: u8, mask: u8, value: u8, other: u8)
    requires
        spec_entry_fits(shift, mask),
        spec_entry_fits(other, mask),
        value <= mask,
        shift + spec_mask_bits(mask) <= other || other + spec_mask_bits(mask) <= shift,
    ensures
        spec_byte_load(spec_byte_store(byte, shift, mask, value), other, mask) == spec_byte_load(
            byte,
            other,
            mask,
        ),
{
    if mask == 1 {
        assert((((byte & !(1u8 << shift)) | (value << shift)) >> other) & 1u8 == (byte >> other)
            & 1u8) by (bit_vector)
            requires
                shift < 8,
                other < 8,
                value <= 1,
                shift != other,
        ;
    } else if mask == 3 {
        assert((((byte & !(3u8 << shift)) | (value << shift)) >> other) & 3u8 == (byte >> other)
            & 3u8) by (bit_vector)
            requires
                shift <= 6,
                other <= 6,
                value <= 3,
                shift + 2 <= other || other + 2 <= shift,
        ;
    } else if mask == 15 {
        assert((((byte & !(15u8 << shift)) | (value << shift)) >> other) & 15u8 == (byte >> other)
            & 15u8) by (bit_vector)
            requires
                shift <= 4,
                other <= 4,
                value <= 15,
                shift + 4 <= other || other + 4 <= shift,
        ;
    }
}

/// The byte at `addr` of a table that holds `bytes`. A byte that was never
/// written is zero.
pub open spec fn spec_byte_at(bytes: Map<usize, u8>, addr: int) -> u8 {
    if 0 <= addr <= usize::MAX && bytes.contains_key(addr as usize) {
        bytes[addr as usize]
    } else {
        0
    }
}

/// One more than the largest number that `n` bytes hold.
pub open spec fn spec_bytes_limit(n: nat) -> nat
    decreases n,
{
    if n == 0 {
        1
    } else {
        256 * spec_bytes_limit((n - 1) as nat)
    }
}

/// The number that the `n` bytes from `addr` on hold, the lowest byte
/// first.
pub open spec fn spec_bytes_load(bytes: Map<usize, u8>, addr: int, n: nat) -> nat
    decreases n,
{
    if n == 0 {
        0
    } else {
        spec_byte_at(bytes, addr) as nat + 256 * spec_bytes_load(bytes, addr + 1, (n - 1) as nat)
    }
}

/// The bytes of a table after `value` was written into the `n` bytes from
/// `addr` on, the lowest byte first.
pub open spec fn spec_bytes_store(bytes: Map<usize, u8>, addr: int, n: nat, value: nat) -> Map<
    usize,
    u8,
>
    decreases n,
{
    if n == 0 {
        bytes
    } else {
        spec_bytes_store(
            bytes.insert(addr as usize, (value % 256) as u8),
            addr + 1,
            (n - 1) as nat,
            value / 256,
        )
    }
}

/// What `n` bytes hold is below their limit.
pub proof fn lemma_bytes_load_bound(bytes: Map<usize, u8>, addr: int, n: nat)
    ensures
        spec_bytes_load(bytes, addr, n) < spec_bytes_limit(n),
    decreases n,
{
    if n > 0 {
        lemma_bytes_load_bound(bytes, addr + 1, (n - 1) as nat);
    }
}

/// The limit grows with the number of bytes.
pub proof fn lemma_bytes_limit_grows(m: nat, n: nat)
    requires
        m <= n,
    ensures
        0 < spec_bytes_limit(m) <= spec_bytes_limit(n),
    decreases n,
{
    if n > 0 && m < n {
        lemma_bytes_limit_grows(m, (n - 1) as nat);
    } else if n > 0 {
        lemma_bytes_limit_grows((m - 1) as nat, (n - 1) as nat);
    }
}

/// The limits of two, four and eight bytes.
pub proof fn lemma_bytes_limits()
    ensures
        spec_bytes_limit(1) == 0x100,
        spec_bytes_limit(2) == 0x1_0000,
        spec_bytes_limit(4) == 0x1_0000_0000,
        spec_bytes_limit(8) == 0x1_0000_0000_0000_0000,
{
    reveal_with_fuel(spec_bytes_limit, 9);
}

/// A write into bytes leaves the bytes outside of them as they are.
pub proof fn lemma_bytes_store_outside(bytes: Map<usize, u8>, addr: int, n: nat, value: nat, k: int)
    requires
        0 <= addr,
        addr + n <= usize::MAX + 1,
        k < addr || addr + n <= k,
    ensures
        spec_byte_at(spec_bytes_store(bytes, addr, n, value), k) == spec_byte_at(bytes, k),
    decreases n,
{
    if n > 0 {
        lemma_bytes_store_outside(
            bytes.insert(addr as usize, (value % 256) as u8),
            addr + 1,
            (n - 1) as nat,
            value / 256,
            k,
        );
    }
}

/// What bytes hold depends on those bytes alone.
pub proof fn lemma_bytes_load_same(bytes: Map<usize, u8>, other: Map<usize, u8>, addr: int, n: nat)
    requires
        forall|k: int| addr <= k < addr + n ==> spec_byte_at(bytes, k) == spec_byte_at(other, k),
    ensures
        spec_bytes_load(bytes, addr, n) == spec_bytes_load(other, addr, n),
    decreases n,
{
    if n > 0 {
        lemma_bytes_load_same(bytes, other, addr + 1, (n - 1) as nat);
    }
}

/// What was written into bytes is what they hold.
pub proof fn lemma_bytes_store_load(bytes: Map<usize, u8>, addr: int, n: nat, value: nat)
    requires
        0 <= addr,
        addr + n <= usize::MAX + 1,
        value < spec_bytes_limit(n),
    ensures
        spec_bytes_load(spec_bytes_store(bytes, addr, n, value), addr, n) == value,
    decreases n,
{
    if n > 0 {
        let first = bytes.insert(addr as usize, (value % 256) as u8);
        let after = spec_bytes_store(first, addr + 1, (n - 1) as nat, value / 256);
        lemma_bytes_store_outside(first, addr + 1, (n - 1) as nat, value / 256, addr);
        lemma_bytes_store_load(first, addr + 1, (n - 1) as nat, value / 256);
        assert(spec_byte_at(after, addr) == (value % 256) as u8);
    }
}

/// The number of bytes that an entry of `s` takes, if it takes whole
/// bytes.
pub open spec fn spec_entry_bytes(s: MetadataSpec) -> nat {
    (s.num_of_bits / 8) as nat
}

/// One more than the largest value that an entry of `s` holds.
pub open spec fn spec_entry_limit(s: MetadataSpec) -> int {
    if s.num_of_bits <= 8 {
        spec_meta_byte_mask(s) + 1
    } else {
        spec_bytes_limit(spec_entry_bytes(s)) as int
    }
}

/// The limit of an entry is two to the power of its width.
pub proof fn lemma_entry_limit(s: MetadataSpec)
    requires
        valid_side_spec(s),
    ensures
        spec_entry_limit(s) == pow2(s.num_of_bits as nat),
{
    lemma2_to64();
    lemma_bytes_limits();
}

/// The entry for the data address `a` under `s` in a table that holds
/// `bytes`.
pub open spec fn spec_table_load(bytes: Map<usize, u8>, s: MetadataSpec, a: int) -> int {
    if s.num_of_bits <= 8 {
        spec_byte_load(
            spec_byte_at(bytes, spec_meta_addr(s, a)),
            spec_meta_byte_lshift(s, a) as u8,
            spec_meta_byte_mask(s) as u8,
        ) as int
    } else {
        spec_bytes_load(bytes, spec_meta_addr(s, a), spec_entry_bytes(s)) as int
    }
}

/// The bytes of a table after the entry for the data address `a` under `s`
/// was set to `value`.
pub open spec fn spec_table_store(bytes: Map<usize, u8>, s: MetadataSpec, a: int, value: int) -> Map<
    usize,
    u8,
> {
    if s.num_of_bits <= 8 {
        bytes.insert(
            spec_meta_addr(s, a) as usize,
            spec_byte_store(
                spec_byte_at(bytes, spec_meta_addr(s, a)),
                spec_meta_byte_lshift(s, a) as u8,
                spec_meta_byte_mask(s) as u8,
                value as u8,
            ),
        )
    } else {
        spec_bytes_store(bytes, spec_meta_addr(s, a), spec_entry_bytes(s), value as nat)
    }
}

/// A specification whose entries a table loads and stores: a valid one
/// whose entries are no wider than a word of the machine.
pub open spec fn spec_table_spec(s: MetadataSpec) -> bool {
    valid_side_spec(s) && s.num_of_bits <= usize::BITS
}

/// The bytes of an entry that takes whole bytes lie in the table, and the
/// entries of different units have no byte in common.
pub proof fn lemma_wide_entries(s: MetadataSpec, a: int, b: int)
    requires
        valid_side_spec(s),
        s.num_of_bits > 8,
        valid_data_address(a),
        valid_data_address(b),
    ensures
        0 <= spec_meta_addr(s, a),
        spec_meta_addr(s, a) + spec_entry_bytes(s) <= usize::MAX,
        spec_unit_index(s, a) == spec_unit_index(s, b) ==> spec_meta_addr(s, a) == spec_meta_addr(
            s,
            b,
        ),
        spec_unit_index(s, a) != spec_unit_index(s, b) ==> spec_meta_addr(s, a) + spec_entry_bytes(
            s,
        ) <= spec_meta_addr(s, b) || spec_meta_addr(s, b) + spec_entry_bytes(s) <= spec_meta_addr(
            s,
            a,
        ),
{
    crate::util::metadata::side_metadata::helpers::lemma_meta_addr_in_range(s, a);
    crate::util::metadata::side_metadata::helpers::lemma_meta_addr_in_range(s, b);
    lemma_meta_position_split(s, a);
    lemma_meta_position_split(s, b);
    lemma_meta_bit_position_injective(s, a, b);
    lemma_meta_bit_position_injective(s, b, a);
}

/// After a store, a load of the same entry gives what was stored, and a
/// load of the entry of another unit of data under the same specification
/// gives what it gave before.
pub proof fn lemma_table_store_load(bytes: Map<usize, u8>, s: MetadataSpec, a: int, value: int, b: int)
    requires
        valid_side_spec(s),
        valid_data_address(a),
        valid_data_address(b),
        0 <= value < spec_entry_limit(s),
    ensures
        spec_table_load(spec_table_store(bytes, s, a, value), s, a) == value,
        spec_unit_index(s, a) != spec_unit_index(s, b) ==> spec_table_load(
            spec_table_store(bytes, s, a, value),
            s,
            b,
        ) == spec_table_load(bytes, s, b),
        spec_unit_index(s, a) == spec_unit_index(s, b) ==> spec_table_load(
            spec_table_store(bytes, s, a, value),
            s,
            b,
        ) == value,
{
    if s.num_of_bits <= 8 {
        crate::util::metadata::side_metadata::helpers::lemma_meta_addr_in_range(s, a);
        crate::util::metadata::side_metadata::helpers::lemma_meta_addr_in_range(s, b);
        lemma_meta_position_split(s, a);
        lemma_meta_position_split(s, b);
        lemma_meta_bit_position_injective(s, a, b);
        lemma_meta_bit_position_injective(s, b, a);
        let shift_a = spec_meta_byte_lshift(s, a) as u8;
        let shift_b = spec_meta_byte_lshift(s, b) as u8;
        let mask = spec_meta_byte_mask(s) as u8;
        let byte = spec_byte_at(bytes, spec_meta_addr(s, a));
        assert(spec_entry_fits(shift_a, mask));
        assert(spec_entry_fits(shift_b, mask));
        lemma_byte_store_load(byte, shift_a, mask, value as u8);
        if spec_unit_index(s, a) != spec_unit_index(s, b) {
            if spec_meta_addr(s, a) == spec_meta_addr(s, b) {
                assert(spec_mask_bits(mask) == s.num_of_bits);
                lemma_byte_store_other(byte, shift_a, mask, value as u8, shift_b);
            }
        }
    } else {
        let n = spec_entry_bytes(s);
        let at = spec_meta_addr(s, a);
        let after = spec_bytes_store(bytes, at, n, value as nat);
        lemma_wide_entries(s, a, b);
        lemma_bytes_store_load(bytes, at, n, value as nat);
        if spec_unit_index(s, a) != spec_unit_index(s, b) {
            let other = spec_meta_addr(s, b);
            assert forall|k: int| other <= k < other + n implies spec_byte_at(after, k)
                == spec_byte_at(bytes, k) by {
                lemma_bytes_store_outside(bytes, at, n, value as nat, k);
            }
            lemma_bytes_load_same(after, bytes, other, n);
        }
    }
}

/// The bytes of the tables of side metadata.
pub struct SideMetadataTable {
    bytes: HashMap<usize, u8>,
}

impl View for SideMetadataTable {
    type V = Map<usize, u8>;

    /// The bytes that were written, by address.
    closed spec fn view(&self) -> Map<usize, u8> {
        self.bytes@
    }
}

impl SideMetadataTable {
    /// A table in which every entry is zero.
    pub fn new() -> (t: Self)
        ensures
            t@ == Map::<usize, u8>::empty(),
    {
        SideMetadataTable { bytes: HashMap::new() }
    }

    /// The byte at `addr`.
    fn byte_at(&self, addr: Address) -> (byte: u8)
        ensures
            byte == spec_byte_at(self@, addr@),
    {
        match self.bytes.get(&addr.0) {
            Some(b) => *b,
            None => 0,
        }
    }

    /// What the `n` bytes from `addr` on hold, the lowest byte first.
    fn load_bytes(&self, addr: Address, n: usize) -> (value: usize)
        requires
            addr@ + n <= usize::MAX,
            spec_bytes_limit(n as nat) <= usize::MAX + 1,
        ensures
            value == spec_bytes_load(self@, addr@, n as nat),
    {
        let mut value: usize = 0;
        let mut i: usize = n;
        while i > 0
            invariant
                i <= n,
                addr@ + n <= usize::MAX,
                spec_bytes_limit(n as nat) <= usize::MAX + 1,
                value == spec_bytes_load(self@, addr@ + i, (n - i) as nat),
            decreases i,
        {
            i = i - 1;
            let byte = self.byte_at(Address(addr.0 + i));
            proof {
                lemma_bytes_load_bound(self@, addr@ + i + 1, (n - i - 1) as nat);
                lemma_bytes_limit_grows((n - i) as nat, n as nat);
            }
            value = value * 256 + byte as usize;
        }
        value
    }

    /// Writes `value` into the `n` bytes from `addr` on, the lowest byte
    /// first.
    fn store_bytes(&mut self, addr: Address, n: usize, value: usize)
        requires
            addr@ + n <= usize::MAX,
        ensures
            final(self)@ == spec_bytes_store(old(self)@, addr@, n as nat, value as nat),
    {
        let mut rest: usize = value;
        let mut i: usize = 0;
        while i < n
            invariant
                i <= n,
                addr@ + n <= usize::MAX,
                spec_bytes_store(old(self)@, addr@, n as nat, value as nat) == spec_bytes_store(
                    self@,
                    addr@ + i,
                    (n - i) as nat,
                    rest as nat,
                ),
            decreases n - i,
        {
            self.bytes.insert(addr.0 + i, (rest % 256) as u8);
            rest = rest / 256;
            i = i + 1;
        }
    }

    /// Loads the entry for `data_addr` under `spec`.
    pub fn load_atomic(&self, spec: &MetadataSpec, data_addr: Address) -> (value: usize)
        requires
            spec_table_spec(*spec),
            valid_data_address(data_addr@),
        ensures
            value == spec_table_load(self@, *spec, data_addr@),
            value < spec_entry_limit(*spec),
    {
        let meta_addr = address_to_meta_address(spec, data_addr);
        if spec.num_of_bits <= 8 {
            let shift = meta_byte_lshift(spec, data_addr);
            let mask = meta_byte_mask(spec);
            let byte = self.byte_at(meta_addr);
            let value: u8 = (byte >> shift) & mask;
            assert(((byte >> shift) & mask) <= mask) by (bit_vector);
            value as usize
        } else {
            proof {
                lemma_wide_entries(*spec, data_addr@, data_addr@);
                lemma_bytes_limits();
                lemma_bytes_load_bound(self@, meta_addr@, spec_entry_bytes(*spec));
            }
            self.load_bytes(meta_addr, spec.num_of_bits / 8)
        }
    }

    /// Stores `value` as the entry for `data_addr` under `spec`.
    pub fn store_atomic(&mut self, spec: &MetadataSpec, data_addr: Address, value: usize)
        requires
            spec_table_spec(*spec),
            valid_data_address(data_addr@),
            value < spec_entry_limit(*spec),
        ensures
            final(self)@ == spec_table_store(old(self)@, *spec, data_addr@, value as int),
            spec_table_load(final(self)@, *spec, data_addr@) == value,
    {
        let meta_addr = address_to_meta_address(spec, data_addr);
        proof {
            lemma_table_store_load(old(self)@, *spec, data_addr@, value as int, data_addr@);
        }
        if spec.num_of_bits <= 8 {
            let shift = meta_byte_lshift(spec, data_addr);
            let mask = meta_byte_mask(spec);
            let old_val = self.byte_at(meta_addr);
            proof {
                lemma_meta_position_split(*spec, data_addr@);
                assert(spec_entry_fits(shift, mask));
            }
            let shifted_mask: u8 = mask << shift;
            let shifted_value: u8 = (value as u8) << shift;
            let new_val: u8 = (old_val & !shifted_mask) | shifted_value;
            self.bytes.insert(meta_addr.0, new_val);
        } else {
            proof {
                lemma_wide_entries(*spec, data_addr@, data_addr@);
            }
            self.store_bytes(meta_addr, spec.num_of_bits / 8, value);
        }
    }

    /// Stores `new_value` as the entry for `data_addr` under `spec` if the
    /// entry is `old_value`, and tells whether it was.
    pub fn compare_exchange_atomic(
        &mut self,
        spec: &MetadataSpec,
        data_addr: Address,
        old_value: usize,
        new_value: usize,
    ) -> (exchanged: bool)
        requires
            spec_table_spec(*spec),
            valid_data_address(data_addr@),
            new_value < spec_entry_limit(*spec),
        ensures
            exchanged == (spec_table_load(old(self)@, *spec, data_addr@) == old_value),
            exchanged ==> final(self)@ == spec_table_store(
                old(self)@,
                *spec,
                data_addr@,
                new_value as int,
            ),
            !exchanged ==> final(self)@ == old(self)@,
    {
        if self.load_atomic(spec, data_addr) == old_value {
            self.store_atomic(spec, data_addr, new_value);
            true
        } else {
            false
        }
    }

    /// Loads the entry for `data_addr` under `spec` and hands it to
    /// `update`. If `update` gives a value, that value is stored as the
    /// entry, and the value that was loaded is returned as a success; if it
    /// gives none, nothing is stored, and the value that was loaded is
    /// returned as a failure.
    pub fn fetch_update_atomic<F: FnMut(usize) -> Option<usize>>(
        &mut self,
        spec: &MetadataSpec,
        data_addr: Address,
        update: &mut F,
    ) -> (res: Result<usize, usize>)
        requires
            spec_table_spec(*spec),
            valid_data_address(data_addr@),
            forall|v: usize| v < spec_entry_limit(*spec) ==> call_requires(*old(update), (v,)),
            forall|v: usize, new_value: usize|
                (#[trigger] call_ensures(*old(update), (v,), Some(new_value))) ==> new_value
                    < spec_entry_limit(*spec),
        ensures
            res matches Ok(v) ==> {
                &&& v == spec_table_load(old(self)@, *spec, data_addr@)
                &&& exists|new_value: usize|
                    (#[trigger] call_ensures(*old(update), (v,), Some(new_value))) && final(self)@
                        == spec_table_store(old(self)@, *spec, data_addr@, new_value as int)
            },
            res matches Err(v) ==> {
                &&& v == spec_table_load(old(self)@, *spec, data_addr@)
                &&& call_ensures(*old(update), (v,), None)
                &&& final(self)@ == old(self)@
            },
    {
        let old_value = self.load_atomic(spec, data_addr);
        match update(old_value) {
            Some(new_value) => {
                assert(call_ensures(*old(update), (old_value,), Some(new_value)));
                self.store_atomic(spec, data_addr, new_value);
                assert(self@ == spec_table_store(old(self)@, *spec, data_addr@, new_value as int));
                assert(old_value == spec_table_load(old(self)@, *spec, data_addr@));
                Ok(old_value)
            },
            None => Err(old_value),
        }
    }
}

} // verus!
