//! Sizes that the rest of the toolkit is built on.

use vstd::prelude::*;

verus! {

/// log2 of the number of bits in a byte.
pub const LOG_BITS_IN_BYTE: usize = 3;

/// The number of bits in a byte.
pub const BITS_IN_BYTE: usize = 8;

/// log2 of the number of bytes in a page.
pub const LOG_BYTES_IN_PAGE: usize = 12;

/// The number of bytes in a page.
pub const BYTES_IN_PAGE: usize = 4096;

/// log2 of the number of bytes in a chunk, the granularity at which the
/// address space is handed to spaces and at which metadata is mapped.
pub const LOG_BYTES_IN_CHUNK: usize = 22;

/// The number of bytes in a chunk.
pub const BYTES_IN_CHUNK: usize = 4194304;

/// log2 of the number of bytes in a machine word.
pub open spec fn spec_log_bytes_in_word() -> nat {
    if usize::BITS == 64 {
        3
    } else {
        2
    }
}

/// log2 of the number of bytes in a machine word.
pub fn log_bytes_in_word() -> (r: usize)
    ensures
        r == spec_log_bytes_in_word(),
{
    if usize::BITS == 64 {
        3
    } else {
        2
    }
}

/// log2 of the size of the address space that data addresses are drawn
/// from: 47 on a 64-bit machine, 32 on a 32-bit one.
pub open spec fn spec_log_address_space() -> nat {
    if usize::BITS == 64 {
        47
    } else {
        32
    }
}

/// log2 of the size of the address space that data addresses are drawn from.
pub fn log_address_space() -> (r: usize)
    ensures
        r == spec_log_address_space(),
{
    if usize::BITS == 64 {
        47
    } else {
        32
    }
}

/// Policy-specific metadata of one chunk may take at most
/// `BYTES_IN_CHUNK >> LOG_LOCAL_SIDE_METADATA_WORST_CASE_RATIO` bytes.
pub const LOG_LOCAL_SIDE_METADATA_WORST_CASE_RATIO: usize = 3;

/// The address at which the heap starts.
pub const HEAP_START: usize = 0x1000_0000;

/// The number of whole pages needed to hold `bytes` bytes.
pub open spec fn spec_bytes_to_pages_up(bytes: int) -> int {
    (bytes + BYTES_IN_PAGE - 1) / (BYTES_IN_PAGE as int)
}

/// Rounds a byte count up to whole pages.
pub fn bytes_to_pages_up(bytes: usize) -> (pages: usize)
    ensures
        pages == spec_bytes_to_pages_up(bytes as int),
        pages * BYTES_IN_PAGE >= bytes,
        bytes > 0 ==> (pages - 1) * BYTES_IN_PAGE < bytes,
        pages <= bytes,
{
    let whole: usize = bytes / BYTES_IN_PAGE;
    if bytes % BYTES_IN_PAGE == 0 {
        whole
    } else {
        whole + 1
    }
}

} // verus!
