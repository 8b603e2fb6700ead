//! Address arithmetic between data and its side metadata.
//!
//! A side-metadata table keeps `num_of_bits` bits for every unit of
//! `2^log_min_obj_size` bytes of data. The entry of the unit with index `u`
//! starts `u * num_of_bits` bits after the start of the table.

use crate::util::address::Address;
use crate::util::constants::spec_log_address_space;
use crate::util::constants::LOG_BITS_IN_BYTE;
use crate::util::constants::LOG_BYTES_IN_CHUNK;
use crate::util::metadata::global::MetadataSpec;
use vstd::arithmetic::power2::lemma2_to64;
use vstd::arithmetic::power2::lemma_pow2_adds;
use vstd::arithmetic::power2::lemma_pow2_pos;
use vstd::arithmetic::power2::pow2;
use vstd::bits::lemma_usize_pow2_no_overflow;
use vstd::bits::lemma_usize_shl_is_mul;
use vstd::bits::lemma_usize_shr_is_div;
use vstd::prelude::*;

verus! {

/// Whether `n` is a width that an entry may have: a power of two up to 64.
pub open spec fn is_bit_width(n: int) -> bool {
    n == 1 || n == 2 || n == 4 || n == 8 || n == 16 || n == 32 || n == 64
}

/// log2 of an entry width.
pub open spec fn spec_log_num_of_bits(n: int) -> int {
    if n == 1 {
        0
    } else if n == 2 {
        1
    } else if n == 4 {
        2
    } else if n == 8 {
        3
    } else if n == 16 {
        4
    } else if n == 32 {
        5
    } else {
        6
    }
}

/// The number of address bits by which a data address is shifted to give the
/// offset, in bytes, of its metadata in the table.
pub open spec fn spec_addr_rshift(s: MetadataSpec) -> int {
    LOG_BITS_IN_BYTE + s.log_min_obj_size - spec_log_num_of_bits(s.num_of_bits as int)
}

/// The number of bytes reserved for the table of `s`: enough for every unit
/// of the data address space.
pub open spec fn spec_metadata_address_range_size(s: MetadataSpec) -> int {
    pow2((spec_log_address_space() - spec_addr_rshift(s)) as nat) as int
}

/// A specification of side metadata that the arithmetic of this module is
/// defined for: an entry is a power of two of bits and no larger than the
/// data it describes, the unit lies within the address space, and the
/// reserved table fits into the address space.
pub open spec fn valid_side_spec(s: MetadataSpec) -> bool {
    &&& s.is_side_metadata
    &&& s.offset >= 0
    &&& is_bit_width(s.num_of_bits as int)
    &&& s.log_min_obj_size <= spec_log_address_space()
    &&& s.log_min_obj_size < usize::BITS
    &&& 0 <= spec_addr_rshift(s) <= spec_log_address_space()
    &&& spec_addr_rshift(s) < usize::BITS
    &&& s.offset + spec_metadata_address_range_size(s) <= usize::MAX
}

/// A data address that metadata is kept for.
pub open spec fn valid_data_address(a: int) -> bool {
    0 <= a < pow2(spec_log_address_space())
}

/// The index of the unit of data that `a` lies in.
pub open spec fn spec_unit_index(s: MetadataSpec, a: int) -> int {
    a / (pow2(s.log_min_obj_size as nat) as int)
}

/// The offset in bits, from the start of the table, of the entry for `a`.
pub open spec fn spec_meta_bit_index(s: MetadataSpec, a: int) -> int {
    spec_unit_index(s, a) * s.num_of_bits
}

/// The address of the metadata byte in which the entry for `a` starts.
pub open spec fn spec_meta_addr(s: MetadataSpec, a: int) -> int {
    s.offset + spec_meta_bit_index(s, a) / 8
}

/// The index, within its first byte, of the lowest bit of the entry for `a`.
pub open spec fn spec_meta_byte_lshift(s: MetadataSpec, a: int) -> int {
    spec_meta_bit_index(s, a) % 8
}

/// The position of the lowest bit of the entry for `a`, counted in bits
/// from address zero.
pub open spec fn spec_meta_bit_position(s: MetadataSpec, a: int) -> int {
    s.offset * 8 + spec_meta_bit_index(s, a)
}

/// The mask that selects an entry of at most eight bits once it is shifted
/// down to bit zero.
pub open spec fn spec_meta_byte_mask(s: MetadataSpec) -> int {
    if s.num_of_bits == 1 {
        1
    } else if s.num_of_bits == 2 {
        3
    } else if s.num_of_bits == 4 {
        15
    } else {
        255
    }
}

/// What multiplying by an entry width comes to for each width there is.
pub proof fn lemma_mul_bit_width(u: int, bits: int)
    by (nonlinear_arith)
    requires
        is_bit_width(bits),
    ensures
        bits == 1 ==> u * bits == u,
        bits == 2 ==> u * bits == 2 * u,
        bits == 4 ==> u * bits == 4 * u,
        bits == 8 ==> u * bits == 8 * u,
        bits == 16 ==> u * bits == 16 * u,
        bits == 32 ==> u * bits == 32 * u,
        bits == 64 ==> u * bits == 64 * u,
{
}

/// Dividing by a power of two keeps a number below the matching power.
pub proof fn lemma_div_pow2_bound(a: int, e: nat, f: nat)
    requires
        0 <= a < pow2(e + f),
    ensures
        0 <= a / (pow2(e) as int) < pow2(f),
{
    lemma_pow2_adds(e, f);
    lemma_pow2_pos(e);
    lemma_pow2_pos(f);
    let d = pow2(e) as int;
    let m = pow2(f) as int;
    assert(0 <= a / d < m) by (nonlinear_arith)
        requires
            d > 0,
            m > 0,
            0 <= a < d * m,
    ;
}

/// A unit index scaled by a power of two no larger than the unit does not
/// exceed the address it was taken from.
pub proof fn lemma_scaled_unit_le(a: int, e: nat, l: nat)
    requires
        0 <= a,
        l <= e,
    ensures
        0 <= (a / (pow2(e) as int)) * pow2(l) <= a,
{
    lemma_pow2_adds(l, (e - l) as nat);
    lemma_pow2_pos(l);
    lemma_pow2_pos((e - l) as nat);
    lemma_pow2_pos(e);
    let d = pow2(e) as int;
    let p = pow2(l) as int;
    let q = pow2((e - l) as nat) as int;
    assert(0 <= (a / d) * p <= a) by (nonlinear_arith)
        requires
            d == p * q,
            p > 0,
            q > 0,
            0 <= a,
    ;
}

/// The width of an entry is two to the power of its logarithm.
pub proof fn lemma_num_of_bits_is_pow2(n: int)
    requires
        is_bit_width(n),
    ensures
        n == pow2(spec_log_num_of_bits(n) as nat),
        0 <= spec_log_num_of_bits(n) <= 6,
{
    lemma2_to64();
}

/// Every entry of a valid table lies within the bytes reserved for the
/// table: the byte in which it starts, and its last bit too.
pub proof fn lemma_meta_addr_in_range(s: MetadataSpec, a: int)
    requires
        valid_side_spec(s),
        valid_data_address(a),
    ensures
        s.offset <= spec_meta_addr(s, a) < s.offset + spec_metadata_address_range_size(s),
        spec_meta_bit_position(s, a) + s.num_of_bits <= 8 * (s.offset
            + spec_metadata_address_range_size(s)),
        0 <= spec_meta_bit_index(s, a),
{
    let log = spec_log_address_space();
    let lm = s.log_min_obj_size as nat;
    let lb = spec_log_num_of_bits(s.num_of_bits as int) as nat;
    let rs = spec_addr_rshift(s) as nat;
    let u = spec_unit_index(s, a);
    let bits = s.num_of_bits as int;
    lemma_num_of_bits_is_pow2(bits);
    lemma_div_pow2_bound(a, lm, (log - lm) as nat);
    let units = pow2((log - lm) as nat) as int;
    assert(u + 1 <= units);
    // 8 * range == units * bits
    lemma2_to64();
    lemma_pow2_adds(3, (log - rs) as nat);
    lemma_pow2_adds((log - lm) as nat, lb);
    assert(3 + (log - rs) == (log - lm) + lb);
    let range = spec_metadata_address_range_size(s);
    assert(8 * range == units * bits);
    assert((u + 1) * bits <= units * bits && 0 <= u * bits) by (nonlinear_arith)
        requires
            0 <= u,
            u + 1 <= units,
            bits > 0,
    ;
    assert((u + 1) * bits == u * bits + bits) by (nonlinear_arith);
}

/// Two data addresses share a metadata entry exactly when they lie in the
/// same unit; the entries of different units do not overlap.
pub proof fn lemma_meta_bit_position_injective(s: MetadataSpec, a: int, b: int)
    requires
        valid_side_spec(s),
        0 <= a,
        0 <= b,
    ensures
        spec_unit_index(s, a) == spec_unit_index(s, b) <==> spec_meta_bit_position(s, a)
            == spec_meta_bit_position(s, b),
        spec_unit_index(s, a) < spec_unit_index(s, b) ==> spec_meta_bit_position(s, a)
            + s.num_of_bits <= spec_meta_bit_position(s, b),
{
    let ua = spec_unit_index(s, a);
    let ub = spec_unit_index(s, b);
    let bits = s.num_of_bits as int;
    assert(ua < ub ==> ua * bits + bits <= ub * bits) by (nonlinear_arith)
        requires
            bits > 0,
    ;
    assert(ub < ua ==> ub * bits + bits <= ua * bits) by (nonlinear_arith)
        requires
            bits > 0,
    ;
}

/// The bit position of an entry is the address of its first byte and the
/// shift within that byte; an entry of up to eight bits lies within one
/// byte, and a wider one starts on a byte boundary.
pub proof fn lemma_meta_position_split(s: MetadataSpec, a: int)
    requires
        valid_side_spec(s),
        0 <= a,
    ensures
        spec_meta_bit_position(s, a) == 8 * spec_meta_addr(s, a) + spec_meta_byte_lshift(s, a),
        0 <= spec_meta_byte_lshift(s, a) < 8,
        s.num_of_bits <= 8 ==> spec_meta_byte_lshift(s, a) + s.num_of_bits <= 8,
        s.num_of_bits >= 8 ==> spec_meta_byte_lshift(s, a) == 0,
        spec_meta_byte_lshift(s, a) % (s.num_of_bits as int) == 0 || s.num_of_bits >= 8,
{
    let u = spec_unit_index(s, a);
    lemma_pow2_pos(s.log_min_obj_size as nat);
    assert(0 <= u) by (nonlinear_arith)
        requires
            u == a / (pow2(s.log_min_obj_size as nat) as int),
            pow2(s.log_min_obj_size as nat) > 0,
            0 <= a,
    ;
    lemma_mul_bit_width(u, s.num_of_bits as int);
}

/// log2 of an entry width.
pub fn log_num_of_bits(num_of_bits: usize) -> (r: usize)
    requires
        is_bit_width(num_of_bits as int),
    ensures
        r == spec_log_num_of_bits(num_of_bits as int),
{
    if num_of_bits == 1 {
        0
    } else if num_of_bits == 2 {
        1
    } else if num_of_bits == 4 {
        2
    } else if num_of_bits == 8 {
        3
    } else if num_of_bits == 16 {
        4
    } else if num_of_bits == 32 {
        5
    } else {
        6
    }
}

/// The shift that turns a data address, or an amount of data, into the
/// offset or amount of its metadata in bytes.
pub fn addr_rshift(spec: &MetadataSpec) -> (r: usize)
    requires
        valid_side_spec(*spec),
    ensures
        r == spec_addr_rshift(*spec),
        r < usize::BITS,
{
    LOG_BITS_IN_BYTE + spec.log_min_obj_size - log_num_of_bits(spec.num_of_bits)
}

/// The size in bytes of the table reserved for `spec`.
pub fn metadata_address_range_size(spec: &MetadataSpec) -> (size: usize)
    requires
        valid_side_spec(*spec),
    ensures
        size == spec_metadata_address_range_size(*spec),
{
    let shift: usize = crate::util::constants::log_address_space() - addr_rshift(spec);
    proof {
        lemma2_to64();
        lemma_usize_shl_is_mul(1usize, shift);
    }
    1usize << shift
}

/// The address of the metadata byte in which the entry for `data_addr`
/// starts.
pub fn address_to_meta_address(spec: &MetadataSpec, data_addr: Address) -> (meta: Address)
    requires
        valid_side_spec(*spec),
        valid_data_address(data_addr@),
    ensures
        meta@ == spec_meta_addr(*spec, data_addr@),
{
    let lb: usize = log_num_of_bits(spec.num_of_bits);
    let unit: usize = data_addr.0 >> spec.log_min_obj_size;
    proof {
        lemma_usize_shr_is_div(data_addr.0, spec.log_min_obj_size);
        lemma_meta_addr_in_range(*spec, data_addr@);
        lemma_mul_bit_width(unit as int, spec.num_of_bits as int);
        lemma2_to64();
        if lb <= 3 {
            lemma_usize_shr_is_div(unit, (3 - lb) as usize);
        } else {
            lemma_scaled_unit_le(data_addr@, spec.log_min_obj_size as nat, (lb - 3) as nat);
            lemma_usize_shl_is_mul(unit, (lb - 3) as usize);
        }
    }
    let rel: usize = if lb <= 3 {
        unit >> (3 - lb)
    } else {
        unit << (lb - 3)
    };
    assert(rel == spec_meta_bit_index(*spec, data_addr@) / 8) by {
        assert(unit == spec_unit_index(*spec, data_addr@));
        if lb == 0 {
            assert(rel == unit as nat / pow2(3));
        } else if lb == 1 {
            assert(rel == unit as nat / pow2(2));
        } else if lb == 2 {
            assert(rel == unit as nat / pow2(1));
        } else if lb == 3 {
            assert(rel == unit as nat / pow2(0));
        } else if lb == 4 {
            assert(rel == unit * pow2(1));
        } else if lb == 5 {
            assert(rel == unit * pow2(2));
        } else {
            assert(rel == unit * pow2(3));
        }
    }
    Address(spec.offset as usize + rel)
}

/// The index, within its byte, of the lowest bit of the entry for
/// `data_addr`. It is zero for entries of eight bits or more.
pub fn meta_byte_lshift(spec: &MetadataSpec, data_addr: Address) -> (shift: u8)
    requires
        valid_side_spec(*spec),
    ensures
        shift == spec_meta_byte_lshift(*spec, data_addr@),
        shift < 8,
        spec.num_of_bits <= 8 ==> shift + spec.num_of_bits <= 8,
{
    let bits: usize = spec.num_of_bits;
    let unit: usize = data_addr.0 >> spec.log_min_obj_size;
    proof {
        lemma_meta_position_split(*spec, data_addr@);
        lemma_usize_shr_is_div(data_addr.0, spec.log_min_obj_size);
        lemma_mul_bit_width(unit as int, bits as int);
    }
    let low: usize = if bits == 1 {
        unit % 8
    } else if bits == 2 {
        (unit % 4) * 2
    } else if bits == 4 {
        (unit % 2) * 4
    } else {
        0
    };
    low as u8
}

/// The mask that selects an entry of up to eight bits at bit zero.
pub fn meta_byte_mask(spec: &MetadataSpec) -> (mask: u8)
    requires
        is_bit_width(spec.num_of_bits as int),
        spec.num_of_bits <= 8,
    ensures
        mask == spec_meta_byte_mask(*spec),
{
    if spec.num_of_bits == 1 {
        1
    } else if spec.num_of_bits == 2 {
        3
    } else if spec.num_of_bits == 4 {
        15
    } else {
        255
    }
}

/// The number of metadata bytes that one chunk of data takes, for entries
/// of `2^log_num_of_bits` bits per unit of `2^log_min_obj_size` bytes.
pub open spec fn spec_metadata_bytes_per_chunk(log_min_obj_size: int, log_num_of_bits: int) -> int {
    pow2((LOG_BYTES_IN_CHUNK - LOG_BITS_IN_BYTE - log_min_obj_size + log_num_of_bits) as nat) as int
}

/// The number of metadata bytes that one chunk of data takes.
pub fn metadata_bytes_per_chunk(log_min_obj_size: usize, log_num_of_bits: usize) -> (bytes: usize)
    requires
        log_num_of_bits <= 6,
        log_min_obj_size <= LOG_BYTES_IN_CHUNK - LOG_BITS_IN_BYTE + log_num_of_bits,
    ensures
        bytes == spec_metadata_bytes_per_chunk(log_min_obj_size as int, log_num_of_bits as int),
        bytes >= 1,
{
    let shift: usize = LOG_BYTES_IN_CHUNK - LOG_BITS_IN_BYTE + log_num_of_bits - log_min_obj_size;
    proof {
        lemma_pow2_pos(shift as nat);
        lemma_usize_pow2_no_overflow(shift as nat);
        lemma_usize_shl_is_mul(1usize, shift);
    }
    1usize << shift
}

} // verus!
