//! Visiting a range of metadata bits at byte granularity.
//!
//! The metadata of a range of data need not start or end on a byte
//! boundary. Such a range of bits is visited as up to three pieces: the bits
//! that remain in its first byte, the whole bytes in the middle, and the bits
//! taken from its last byte.

use crate::util::address::Address;
use vstd::prelude::*;

verus! {

/// The index of a bit within a byte, counted from the low-order bit.
pub type BitOffset = usize;

/// A run of whole bytes, or a run of bits within one byte: the unit in
/// which a contiguous range of metadata bits is visited.
#[derive(Debug, Clone, Copy, PartialEq, Eq, Structural)]
pub enum BitByteRange {
    /// The whole bytes from `start` up to, not including, `end`.
    Bytes { start: Address, end: Address },
    /// The bits `bit_start` up to, not including, `bit_end` of the byte at
    /// `addr`. `bit_end` may be 8, which takes in the highest bit.
    BitsInByte { addr: Address, bit_start: BitOffset, bit_end: BitOffset },
}

/// A run of whole words, or of bytes within one word.
#[derive(Debug, Clone, Copy, PartialEq, Eq, Structural)]
pub enum ByteWordRange {
    /// The whole words from `start` up to, not including, `end`.
    Words { start: Address, end: Address },
    /// The bytes from `start` up to, not including, `end`, within one word.
    BytesInWord { start: Address, end: Address },
}

impl BitByteRange {
    /// The position of the first bit of the range, counted from address zero.
    pub open spec fn first_bit(self) -> int {
        match self {
            BitByteRange::Bytes { start, end } => 8 * start@,
            BitByteRange::BitsInByte { addr, bit_start, bit_end } => 8 * addr@ + bit_start,
        }
    }

    /// The position just behind the last bit of the range.
    pub open spec fn end_bit(self) -> int {
        match self {
            BitByteRange::Bytes { start, end } => 8 * end@,
            BitByteRange::BitsInByte { addr, bit_start, bit_end } => 8 * addr@ + bit_end,
        }
    }

    /// Whether the bit at position `bit` belongs to the range.
    pub open spec fn contains_bit(self, bit: int) -> bool {
        self.first_bit() <= bit < self.end_bit()
    }
}

/// A range of bits that starts at bit `bit_start` of the byte at
/// `byte_start` and ends before bit `bit_end` of the byte at `byte_end`:
/// both offsets lie within a byte, and the end is not before the start.
pub open spec fn valid_meta_bit_range(
    byte_start: Address,
    bit_start: u8,
    byte_end: Address,
    bit_end: u8,
) -> bool {
    &&& bit_start < 8
    &&& bit_end < 8
    &&& (byte_start@ < byte_end@ || (byte_start@ == byte_end@ && bit_start <= bit_end))
}

/// The pieces in which a range of bits is visited from its low end to its
/// high end.
///
/// An empty range has no piece. A range that starts and ends on byte
/// boundaries is one run of bytes. A range within one byte is one run of
/// bits. Any other range is the bits left in its first byte, the bytes
/// between (if there is any), and the bits before `bit_end` in its last
/// byte; the last piece is left out when the range ends on the boundary
/// right behind its first byte.
pub open spec fn spec_meta_bit_ranges_ascending(
    byte_start: Address,
    bit_start: u8,
    byte_end: Address,
    bit_end: u8,
) -> Seq<BitByteRange> {
    let prefix = BitByteRange::BitsInByte {
        addr: byte_start,
        bit_start: bit_start as usize,
        bit_end: 8usize,
    };
    let middle = BitByteRange::Bytes { start: Address((byte_start.0 + 1) as usize), end: byte_end };
    let suffix = BitByteRange::BitsInByte {
        addr: byte_end,
        bit_start: 0usize,
        bit_end: bit_end as usize,
    };
    if byte_start == byte_end && bit_start == bit_end {
        Seq::empty()
    } else if bit_start == 0 && bit_end == 0 {
        seq![BitByteRange::Bytes { start: byte_start, end: byte_end }]
    } else if byte_start == byte_end {
        seq![
            BitByteRange::BitsInByte {
                addr: byte_start,
                bit_start: bit_start as usize,
                bit_end: bit_end as usize,
            },
        ]
    } else if byte_start@ + 1 == byte_end@ && bit_end == 0 {
        seq![prefix]
    } else if byte_start@ + 1 < byte_end@ {
        seq![prefix, middle, suffix]
    } else {
        seq![prefix, suffix]
    }
}

/// The pieces in which a range of bits is visited, in the order of the
/// visits: from the low end when `forwards`, else from the high end.
pub open spec fn spec_meta_bit_ranges(
    byte_start: Address,
    bit_start: u8,
    byte_end: Address,
    bit_end: u8,
    forwards: bool,
) -> Seq<BitByteRange> {
    let ascending = spec_meta_bit_ranges_ascending(byte_start, bit_start, byte_end, bit_end);
    if forwards {
        ascending
    } else {
        ascending.reverse()
    }
}

/// Whether a visit that took in the first `n` of `ranges`, in order, and
/// then ended, is one that ended at the first piece on which the visitor
/// answered `true`, or behind the last piece if there was none: `stopped`
/// tells which.
pub open spec fn visited_first<V: FnMut(BitByteRange) -> bool>(
    visitor: V,
    ranges: Seq<BitByteRange>,
    stopped: bool,
    n: int,
) -> bool {
    &&& 0 <= n <= ranges.len()
    &&& stopped ==> n >= 1
    &&& !stopped ==> n == ranges.len()
    &&& forall|i: int|
        0 <= i < n ==> call_ensures(visitor, (#[trigger] ranges[i],), stopped && i == n - 1)
}

/// What a visit of `ranges` in order comes to when it ends at the first
/// piece on which the visitor answers `true`: `stopped` tells whether there
/// was such a piece, every piece before it was answered with `false`, and no
/// piece behind it was visited.
pub open spec fn visited_until_stop<V: FnMut(BitByteRange) -> bool>(
    visitor: V,
    ranges: Seq<BitByteRange>,
    stopped: bool,
) -> bool {
    exists|n: int| #[trigger] visited_first(visitor, ranges, stopped, n)
}

/// How many of `ranges` hold the bit at position `bit`.
pub open spec fn visit_count(ranges: Seq<BitByteRange>, bit: int) -> nat
    decreases ranges.len(),
{
    if ranges.len() == 0 {
        0
    } else {
        let rest = visit_count(ranges.drop_last(), bit);
        if ranges.last().contains_bit(bit) {
            rest + 1
        } else {
            rest
        }
    }
}

/// The pieces of a valid range of bits cover every bit of the range once
/// and no other bit, and they follow each other in the direction asked for.
pub proof fn lemma_meta_bit_ranges_cover_once(
    byte_start: Address,
    bit_start: u8,
    byte_end: Address,
    bit_end: u8,
    forwards: bool,
)
    requires
        valid_meta_bit_range(byte_start, bit_start, byte_end, bit_end),
    ensures
        ({
            let ranges = spec_meta_bit_ranges(byte_start, bit_start, byte_end, bit_end, forwards);
            let first = 8 * byte_start@ + bit_start;
            let end = 8 * byte_end@ + bit_end;
            &&& ranges.len() <= 3
            &&& forall|bit: int|
                visit_count(ranges, bit) == (if first <= bit < end {
                    1nat
                } else {
                    0nat
                })
            &&& forall|i: int, j: int|
                0 <= i < j < ranges.len() ==> if forwards {
                    (#[trigger] ranges[i]).end_bit() <= (#[trigger] ranges[j]).first_bit()
                } else {
                    ranges[j].end_bit() <= ranges[i].first_bit()
                }
            &&& forall|i: int|
                0 <= i < ranges.len() ==> (#[trigger] ranges[i]).first_bit() <= ranges[i].end_bit()
        }),
{
    let asc = spec_meta_bit_ranges_ascending(byte_start, bit_start, byte_end, bit_end);
    let ranges = spec_meta_bit_ranges(byte_start, bit_start, byte_end, bit_end, forwards);
    let first = 8 * byte_start@ + bit_start;
    let end = 8 * byte_end@ + bit_end;
    assert(ranges.len() == asc.len());
    assert forall|bit: int|
        visit_count(ranges, bit) == (if first <= bit < end {
            1nat
        } else {
            0nat
        }) by {
        lemma_visit_count_small(ranges, bit);
    }
}

/// The count of the pieces that hold a bit, written out for up to three
/// pieces.
proof fn lemma_visit_count_small(ranges: Seq<BitByteRange>, bit: int)
    requires
        ranges.len() <= 3,
    ensures
        ranges.len() == 0 ==> visit_count(ranges, bit) == 0,
        ranges.len() == 1 ==> visit_count(ranges, bit) == (if ranges[0].contains_bit(bit) {
            1nat
        } else {
            0nat
        }),
        ranges.len() == 2 ==> visit_count(ranges, bit) == (if ranges[0].contains_bit(bit) {
            1nat
        } else {
            0nat
        }) + (if ranges[1].contains_bit(bit) {
            1nat
        } else {
            0nat
        }),
        ranges.len() == 3 ==> visit_count(ranges, bit) == (if ranges[0].contains_bit(bit) {
            1nat
        } else {
            0nat
        }) + (if ranges[1].contains_bit(bit) {
            1nat
        } else {
            0nat
        }) + (if ranges[2].contains_bit(bit) {
            1nat
        } else {
            0nat
        }),
    decreases ranges.len(),
{
    if ranges.len() > 0 {
        lemma_visit_count_small(ranges.drop_last(), bit);
    }
}

/// Visits the bits from bit `bit_start` of the byte at `byte_start` up to,
/// not including, bit `bit_end` of the byte at `byte_end`, piece by piece.
///
/// The pieces come from the low end when `forwards`, else from the high
/// end. The visitor answers `true` to stop the visit. The result tells
/// whether it did.
pub fn iterate_meta_bits<V>(
    byte_start: Address,
    bit_start: u8,
    byte_end: Address,
    bit_end: u8,
    forwards: bool,
    visitor: &mut V,
) -> (stopped: bool) where V: FnMut(BitByteRange) -> bool
    requires
        valid_meta_bit_range(byte_start, bit_start, byte_end, bit_end),
        forall|r: BitByteRange|
            spec_meta_bit_ranges(byte_start, bit_start, byte_end, bit_end, forwards).contains(r)
                ==> call_requires(*old(visitor), (r,)),
    ensures
        *final(visitor) == *old(visitor),
        visited_until_stop(
            *old(visitor),
            spec_meta_bit_ranges(byte_start, bit_start, byte_end, bit_end, forwards),
            stopped,
        ),
{
    let ghost ranges = spec_meta_bit_ranges(byte_start, bit_start, byte_end, bit_end, forwards);
    let ghost asc = spec_meta_bit_ranges_ascending(byte_start, bit_start, byte_end, bit_end);
    let ghost f = *visitor;
    // Start and end are the same: there is nothing to visit.
    if byte_start.0 == byte_end.0 && bit_start == bit_end {
        proof {
            assert(ranges.len() == 0);
            assert(visited_first(f, ranges, false, 0));
        }
        return false;
    }
    // Whole bytes.
    if bit_start == 0 && bit_end == 0 {
        let whole = BitByteRange::Bytes { start: byte_start, end: byte_end };
        proof {
            assert(asc =~= seq![whole]);
            assert(ranges =~= seq![whole]);
            assert(ranges[0] == whole);
            assert(ranges.contains(whole));
        }
        let stop = visitor(whole);
        proof {
            lemma_visited_one(f, ranges, stop);
        }
        return stop;
    }
    if byte_start.0 == byte_end.0 {
        // Bits of one byte, between the start bit and the end bit.
        let bits = BitByteRange::BitsInByte {
            addr: byte_start,
            bit_start: bit_start as usize,
            bit_end: bit_end as usize,
        };
        proof {
            assert(asc =~= seq![bits]);
            assert(ranges =~= seq![bits]);
            assert(ranges[0] == bits);
            assert(ranges.contains(bits));
        }
        let stop = visitor(bits);
        proof {
            lemma_visited_one(f, ranges, stop);
        }
        return stop;
    }
    let prefix = BitByteRange::BitsInByte {
        addr: byte_start,
        bit_start: bit_start as usize,
        bit_end: 8usize,
    };
    if byte_start.0 + 1 == byte_end.0 && bit_end == 0 {
        // Bits of one byte, from the start bit to the end of the byte.
        proof {
            assert(asc =~= seq![prefix]);
            assert(ranges =~= seq![prefix]);
            assert(ranges[0] == prefix);
            assert(ranges.contains(prefix));
        }
        let stop = visitor(prefix);
        proof {
            lemma_visited_one(f, ranges, stop);
        }
        return stop;
    }
    let middle_start = Address(byte_start.0 + 1);
    let middle = BitByteRange::Bytes { start: middle_start, end: byte_end };
    let suffix = BitByteRange::BitsInByte {
        addr: byte_end,
        bit_start: 0usize,
        bit_end: bit_end as usize,
    };
    let has_middle = middle_start.0 < byte_end.0;
    proof {
        if has_middle {
            assert(asc =~= seq![prefix, middle, suffix]);
            if forwards {
                assert(ranges[0] == prefix && ranges[1] == middle && ranges[2] == suffix);
            } else {
                assert(ranges[0] == suffix && ranges[1] == middle && ranges[2] == prefix);
            }
        } else {
            assert(asc =~= seq![prefix, suffix]);
            if forwards {
                assert(ranges[0] == prefix && ranges[1] == suffix);
            } else {
                assert(ranges[0] == suffix && ranges[1] == prefix);
            }
        }
    }
    proof {
        assert(ranges.contains(prefix) && ranges.contains(suffix));
        assert(has_middle ==> ranges.contains(middle));
    }
    let (first, last) = if forwards {
        (prefix, suffix)
    } else {
        (suffix, prefix)
    };
    let stop_first = visitor(first);
    if stop_first {
        proof {
            lemma_visited_prefix(f, ranges, 1, true);
        }
        return true;
    }
    if has_middle {
        let stop_middle = visitor(middle);
        if stop_middle {
            proof {
                lemma_visited_prefix(f, ranges, 2, true);
            }
            return true;
        }
    }
    let stop_last = visitor(last);
    proof {
        lemma_visited_prefix(f, ranges, ranges.len() as int, stop_last);
    }
    stop_last
}

/// A visit of a single piece is a visit until the first stop.
proof fn lemma_visited_one<V: FnMut(BitByteRange) -> bool>(
    visitor: V,
    ranges: Seq<BitByteRange>,
    stopped: bool,
)
    requires
        ranges.len() == 1,
        call_ensures(visitor, (ranges[0],), stopped),
    ensures
        visited_until_stop(visitor, ranges, stopped),
{
    lemma_visited_prefix(visitor, ranges, 1, stopped);
}

/// Visits of the first `n` pieces, of which only the last may have been
/// answered with `true`, are a visit until the first stop if either the last
/// was so answered or no piece is left.
proof fn lemma_visited_prefix<V: FnMut(BitByteRange) -> bool>(
    visitor: V,
    ranges: Seq<BitByteRange>,
    n: int,
    stopped: bool,
)
    requires
        1 <= n <= ranges.len(),
        !stopped ==> n == ranges.len(),
        forall|i: int|
            0 <= i < n ==> call_ensures(visitor, (#[trigger] ranges[i],), stopped && i == n - 1),
    ensures
        visited_until_stop(visitor, ranges, stopped),
{
    assert(visited_first(visitor, ranges, stopped, n));
}

} // verus!
