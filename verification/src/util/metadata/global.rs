//! Specifications of metadata bit-sets, the set of them that a space uses,
//! and what has to be mapped for them.

use crate::util::address::spec_align_down;
use crate::util::address::spec_align_up;
use crate::util::address::Address;
use crate::util::constants::BYTES_IN_CHUNK;
use crate::util::constants::BYTES_IN_PAGE;
use crate::util::constants::LOG_BYTES_IN_PAGE;
use crate::util::constants::LOG_LOCAL_SIDE_METADATA_WORST_CASE_RATIO;
use crate::util::constants::spec_log_address_space;
use crate::util::metadata::side_metadata::helpers::addr_rshift;
use crate::util::metadata::side_metadata::helpers::address_to_meta_address;
use crate::util::metadata::side_metadata::helpers::log_num_of_bits;
use crate::util::metadata::side_metadata::helpers::metadata_bytes_per_chunk;
use crate::util::metadata::side_metadata::helpers::spec_addr_rshift;
use crate::util::metadata::side_metadata::helpers::spec_log_num_of_bits;
use crate::util::metadata::side_metadata::helpers::spec_meta_addr;
use crate::util::metadata::side_metadata::helpers::spec_metadata_bytes_per_chunk;
use crate::util::metadata::side_metadata::helpers::valid_side_spec;
use crate::util::mmapper::MmapError;
use crate::util::mmapper::MmapKind;
use crate::util::mmapper::MmapRequest;
use crate::util::mmapper::Mmapper;
use crate::util::text::hex_text;
use crate::util::text::spec_hex;
use crate::util::text::spec_truth;
use crate::util::text::truth_text;
use vstd::arithmetic::power2::lemma2_to64;
use vstd::arithmetic::power2::lemma_pow2_pos;
use vstd::arithmetic::power2::pow2;
use vstd::bits::lemma_usize_shl_is_mul;
use vstd::bits::lemma_usize_shr_is_div;
use vstd::prelude::*;

verus! {

/// The specification of one metadata bit-set: where it lives and how many
/// bits it keeps for how much data.
#[derive(Clone, Copy, Debug, PartialEq, Eq, Hash, Structural)]
pub struct MetadataSpec {
    /// Whether the metadata is kept on the side (`true`) or in the object
    /// header (`false`).
    pub is_side_metadata: bool,
    /// Whether the metadata is global or specific to one policy.
    pub is_global: bool,
    /// For side metadata, the address at which the table starts; for
    /// in-header metadata, the bit offset from the object reference.
    pub offset: isize,
    /// The number of bits kept per unit of data: a power of two.
    pub num_of_bits: usize,
    /// log2 of the size of the unit of data that one entry describes.
    pub log_min_obj_size: usize,
}

/// What stands for `offset` where it is given in hexadecimal: the offset
/// itself, or its two's complement if it is negative.
pub open spec fn spec_offset_bits(offset: isize) -> nat {
    if offset >= 0 {
        offset as nat
    } else {
        (usize::MAX + 1 + offset) as nat
    }
}

/// The text that describes `s`: each of its fields by name, the numbers in
/// hexadecimal.
pub open spec fn spec_debug_text(s: MetadataSpec) -> Seq<char> {
    "MetadataSpec { **side?: "@ + spec_truth(s.is_side_metadata) + ", **global: "@ + spec_truth(
        s.is_global,
    ) + " **offset: 0x"@ + spec_hex(spec_offset_bits(s.offset)) + " **num_of_bits: 0x"@ + spec_hex(
        s.num_of_bits as nat,
    ) + " **log_min_obj_size: 0x"@ + spec_hex(s.log_min_obj_size as nat) + " }"@
}

impl MetadataSpec {
    /// The text that describes the specification.
    pub fn debug_text(&self) -> (text: String)
        ensures
            text@ == spec_debug_text(*self),
    {
        let offset_bits: usize = if self.offset >= 0 {
            self.offset as usize
        } else {
            usize::MAX - ((-(self.offset + 1)) as usize)
        };
        let mut text = String::from_str("MetadataSpec { **side?: ");
        text.append(truth_text(self.is_side_metadata));
        text.append(", **global: ");
        text.append(truth_text(self.is_global));
        text.append(" **offset: 0x");
        text.append(hex_text(offset_bits).as_str());
        text.append(" **num_of_bits: 0x");
        text.append(hex_text(self.num_of_bits).as_str());
        text.append(" **log_min_obj_size: 0x");
        text.append(hex_text(self.log_min_obj_size).as_str());
        text.append(" }");
        text
    }
}

/// All the side metadata specifications that a policy works with: those of
/// the plan and its own.
pub struct MetadataContext {
    /// Those of the plan.
    pub global: Vec<MetadataSpec>,
    /// Those of the policy.
    pub local: Vec<MetadataSpec>,
}

impl MetadataContext {
    /// The global specifications of a plan, given those that the plan adds.
    pub fn new_global_specs(specs: &[MetadataSpec]) -> (ret: Vec<MetadataSpec>)
        ensures
            ret@ == specs@,
    {
        let mut ret: Vec<MetadataSpec> = Vec::new();
        let mut i: usize = 0;
        while i < specs.len()
            invariant
                i <= specs@.len(),
                ret@ == specs@.subrange(0, i as int),
            decreases specs@.len() - i,
        {
            ret.push(specs[i]);
            i = i + 1;
            assert(ret@ =~= specs@.subrange(0, i as int));
        }
        assert(specs@.subrange(0, i as int) =~= specs@);
        ret
    }

    /// The specifications in the order in which they are mapped: the global
    /// ones, then the local ones.
    pub open spec fn all_specs(&self) -> Seq<MetadataSpec> {
        self.global@ + self.local@
    }

    /// Every specification is one of side metadata that the arithmetic is
    /// defined for.
    pub open spec fn wf(&self) -> bool {
        forall|i: int| 0 <= i < self.all_specs().len() ==> valid_side_spec(#[trigger] self.all_specs()[i])
    }
}

/// `n` divided by `2^shift`, rounded up.
pub open spec fn spec_div_ceil_pow2(n: int, shift: int) -> int {
    (n + pow2(shift as nat) - 1) / (pow2(shift as nat) as int)
}

/// What rounding up a division comes to, given quotient and remainder.
proof fn lemma_div_ceil(n: int, d: int, q: int, r: int)
    requires
        d > 0,
        n == q * d + r,
        0 <= r < d,
    ensures
        (n + d - 1) / d == if r == 0 {
            q
        } else {
            q + 1
        },
        n / d == q,
{
    vstd::arithmetic::div_mod::lemma_fundamental_div_mod_converse(n, d, q, r);
    if r == 0 {
        vstd::arithmetic::div_mod::lemma_fundamental_div_mod_converse(n + d - 1, d, q, d - 1);
    } else {
        assert((q + 1) * d == q * d + d) by (nonlinear_arith);
        vstd::arithmetic::div_mod::lemma_fundamental_div_mod_converse(n + d - 1, d, q + 1, r - 1);
    }
}

/// `n` divided by `2^shift`, rounded up.
pub fn div_ceil_pow2(n: usize, shift: usize) -> (q: usize)
    requires
        shift < usize::BITS,
    ensures
        q == spec_div_ceil_pow2(n as int, shift as int),
        q <= n,
        q * pow2(shift as nat) >= n,
{
    let down: usize = n >> shift;
    proof {
        lemma_usize_shr_is_div(n, shift);
        lemma_pow2_pos(shift as nat);
        let d = pow2(shift as nat) as int;
        vstd::arithmetic::div_mod::lemma_fundamental_div_mod(n as int, d);
        vstd::arithmetic::mul::lemma_mul_is_commutative(d, n as int / d);
        assert(0 <= (n as int / d) * d <= n) by (nonlinear_arith)
            requires
                n as int == (n as int / d) * d + (n as int % d),
                0 <= n as int % d,
                d > 0,
                n >= 0,
        ;
        lemma_usize_shl_is_mul(down, shift);
        lemma_div_ceil(n as int, d, down as int, n as int % d);
        assert(down * d >= down) by (nonlinear_arith)
            requires
                d >= 1,
                down >= 0,
        ;
        assert((down + 1) * d == down * d + d) by (nonlinear_arith);
    }
    let back: usize = down << shift;
    if back == n {
        down
    } else {
        down + 1
    }
}

/// The pages reserved for the metadata of `data_pages` pages of data, over
/// `specs`: for each, the data pages shifted down, rounded up.
pub open spec fn spec_reserved_pages(specs: Seq<MetadataSpec>, data_pages: int) -> int
    decreases specs.len(),
{
    if specs.len() == 0 {
        0
    } else {
        spec_reserved_pages(specs.drop_last(), data_pages) + spec_div_ceil_pow2(
            data_pages,
            spec_addr_rshift(specs.last()),
        )
    }
}

/// The reserved pages of a list of specifications are those of its parts.
pub proof fn lemma_reserved_pages_concat(a: Seq<MetadataSpec>, b: Seq<MetadataSpec>, data_pages: int)
    ensures
        spec_reserved_pages(a + b, data_pages) == spec_reserved_pages(a, data_pages)
            + spec_reserved_pages(b, data_pages),
    decreases b.len(),
{
    if b.len() == 0 {
        assert(a + b =~= a);
    } else {
        assert((a + b).drop_last() =~= a + b.drop_last());
        assert((a + b).last() == b.last());
        lemma_reserved_pages_concat(a, b.drop_last(), data_pages);
    }
}

/// The first address that is mapped for the metadata, under `s`, of the
/// data from `start` on: the address of the first entry, rounded down to a
/// page.
pub open spec fn spec_mmap_start(s: MetadataSpec, start: int) -> int {
    spec_align_down(spec_meta_addr(s, start), BYTES_IN_PAGE as int)
}

/// The number of bytes mapped for the metadata, under `s`, of `size` bytes
/// of data from `start` on: from the first address mapped to the end of the
/// last entry, rounded up to a page.
pub open spec fn spec_mmap_size(s: MetadataSpec, start: int, size: int) -> int {
    spec_align_up(
        spec_meta_addr(s, start) + spec_div_ceil_pow2(size, spec_addr_rshift(s)),
        BYTES_IN_PAGE as int,
    ) - spec_mmap_start(s, start)
}

/// A range of data that metadata can be mapped for: it starts on a page
/// boundary, is whole pages long, and lies within the data address space,
/// and the pages that hold its metadata lie within the machine's addresses.
pub open spec fn valid_data_range(s: MetadataSpec, start: int, size: int) -> bool {
    &&& 0 <= start
    &&& 0 <= size
    &&& start % (BYTES_IN_PAGE as int) == 0
    &&& size % (BYTES_IN_PAGE as int) == 0
    &&& start + size <= pow2(spec_log_address_space())
    &&& start < pow2(spec_log_address_space())
    &&& spec_mmap_start(s, start) + spec_mmap_size(s, start, size) <= usize::MAX
}

/// The request that maps, or sets aside, the metadata under `s` of `size`
/// bytes of data from `start` on; none if no byte is to be mapped.
pub open spec fn spec_mmap_request(s: MetadataSpec, start: int, size: int, no_reserve: bool) -> Option<
    MmapRequest,
> {
    if spec_mmap_size(s, start, size) > 0 {
        Some(
            MmapRequest {
                kind: if no_reserve {
                    MmapKind::Quarantine
                } else {
                    MmapKind::Commit
                },
                start: Address(spec_mmap_start(s, start) as usize),
                pages: (spec_mmap_size(s, start, size) / (BYTES_IN_PAGE as int)) as usize,
            },
        )
    } else {
        None
    }
}

/// The range that is to be mapped for the metadata under `spec` of `size`
/// bytes of data from `start` on: its first address and its size in bytes.
pub fn contiguous_metadata_mmap_range(spec: &MetadataSpec, start: Address, size: usize) -> (range: (
    Address,
    usize,
))
    requires
        valid_side_spec(*spec),
        valid_data_range(*spec, start@, size as int),
    ensures
        range.0@ == spec_mmap_start(*spec, start@),
        range.1 == spec_mmap_size(*spec, start@, size as int),
        range.1 % BYTES_IN_PAGE == 0,
{
    let metadata_start = address_to_meta_address(spec, start);
    let mmap_start = metadata_start.align_down(BYTES_IN_PAGE);
    let metadata_size = div_ceil_pow2(size, addr_rshift(spec));
    proof {
        assert(spec_mmap_start(*spec, start@) == mmap_start@);
        assert(spec_mmap_start(*spec, start@) + spec_mmap_size(*spec, start@, size as int)
            == spec_align_up(metadata_start@ + metadata_size, BYTES_IN_PAGE as int));
    }
    let mmap_end = Address(metadata_start.0 + metadata_size).align_up(BYTES_IN_PAGE);
    (mmap_start, mmap_end.0 - mmap_start.0)
}

/// The side metadata of a space.
pub struct SideMetadata {
    context: MetadataContext,
}

/// The state of a mapper after `r` has been asked of it while it held
/// `requests` and had `pages_left` pages to commit, or the refusal.
pub open spec fn spec_apply_request(r: MmapRequest, requests: Seq<MmapRequest>, pages_left: int) -> (
    Result<(), MmapError>,
    Seq<MmapRequest>,
    int,
) {
    if r.kind == MmapKind::Commit && r.pages > pages_left {
        (Err(MmapError { start: r.start, pages: r.pages }), requests, pages_left)
    } else {
        (
            Ok(()),
            requests.push(r),
            if r.kind == MmapKind::Commit {
                pages_left - r.pages
            } else {
                pages_left
            },
        )
    }
}

/// The outcome of mapping the metadata of a range of data, specification by
/// specification in the order given, on a mapper that holds `requests` and
/// has `pages_left` pages to commit. The first refusal ends it; what was
/// mapped before stays.
pub open spec fn spec_map_metadata(
    specs: Seq<MetadataSpec>,
    start: int,
    size: int,
    no_reserve: bool,
    requests: Seq<MmapRequest>,
    pages_left: int,
) -> (Result<(), MmapError>, Seq<MmapRequest>, int)
    decreases specs.len(),
{
    if specs.len() == 0 {
        (Ok(()), requests, pages_left)
    } else {
        match spec_mmap_request(specs[0], start, size, no_reserve) {
            None => spec_map_metadata(
                specs.drop_first(),
                start,
                size,
                no_reserve,
                requests,
                pages_left,
            ),
            Some(r) => {
                let applied = spec_apply_request(r, requests, pages_left);
                if applied.0 is Err {
                    applied
                } else {
                    spec_map_metadata(
                        specs.drop_first(),
                        start,
                        size,
                        no_reserve,
                        applied.1,
                        applied.2,
                    )
                }
            },
        }
    }
}

/// Mapping for a list of specifications is mapping for its first part and,
/// unless that was refused, for the rest on what the first part left.
pub proof fn lemma_map_metadata_concat(
    a: Seq<MetadataSpec>,
    b: Seq<MetadataSpec>,
    start: int,
    size: int,
    no_reserve: bool,
    requests: Seq<MmapRequest>,
    pages_left: int,
)
    ensures
        spec_map_metadata(a + b, start, size, no_reserve, requests, pages_left) == ({
            let first = spec_map_metadata(a, start, size, no_reserve, requests, pages_left);
            if first.0 is Err {
                first
            } else {
                spec_map_metadata(b, start, size, no_reserve, first.1, first.2)
            }
        }),
    decreases a.len(),
{
    if a.len() == 0 {
        assert(a + b =~= b);
    } else {
        assert((a + b).drop_first() =~= a.drop_first() + b);
        assert((a + b)[0] == a[0]);
        match spec_mmap_request(a[0], start, size, no_reserve) {
            None => {
                lemma_map_metadata_concat(
                    a.drop_first(),
                    b,
                    start,
                    size,
                    no_reserve,
                    requests,
                    pages_left,
                );
            },
            Some(r) => {
                let applied = spec_apply_request(r, requests, pages_left);
                if applied.0 is Ok {
                    lemma_map_metadata_concat(
                        a.drop_first(),
                        b,
                        start,
                        size,
                        no_reserve,
                        applied.1,
                        applied.2,
                    );
                }
            },
        }
    }
}

/// The requests that give back the metadata of a range of data, one for
/// each specification that has any byte mapped for it.
pub open spec fn spec_unmap_requests(specs: Seq<MetadataSpec>, start: int, size: int) -> Seq<
    MmapRequest,
>
    decreases specs.len(),
{
    if specs.len() == 0 {
        Seq::empty()
    } else {
        let rest = spec_unmap_requests(specs.drop_last(), start, size);
        match spec_mmap_request(specs.last(), start, size, false) {
            None => rest,
            Some(r) => rest.push(MmapRequest { kind: MmapKind::Release, start: r.start, pages: r.pages }),
        }
    }
}

/// The unmap requests of a list of specifications are those of its parts.
pub proof fn lemma_unmap_requests_concat(
    a: Seq<MetadataSpec>,
    b: Seq<MetadataSpec>,
    start: int,
    size: int,
)
    ensures
        spec_unmap_requests(a + b, start, size) == spec_unmap_requests(a, start, size)
            + spec_unmap_requests(b, start, size),
    decreases b.len(),
{
    if b.len() == 0 {
        assert(a + b =~= a);
        assert(spec_unmap_requests(a, start, size) + Seq::<MmapRequest>::empty()
            =~= spec_unmap_requests(a, start, size));
    } else {
        assert((a + b).drop_last() =~= a + b.drop_last());
        assert((a + b).last() == b.last());
        lemma_unmap_requests_concat(a, b.drop_last(), start, size);
        let ra = spec_unmap_requests(a, start, size);
        let rb = spec_unmap_requests(b.drop_last(), start, size);
        match spec_mmap_request(b.last(), start, size, false) {
            None => {},
            Some(r) => {
                let u = MmapRequest { kind: MmapKind::Release, start: r.start, pages: r.pages };
                assert((ra + rb).push(u) =~= ra + rb.push(u));
            },
        }
    }
}

/// The reserved pages of any list of specifications are not negative.
pub proof fn lemma_reserved_pages_nonnegative(specs: Seq<MetadataSpec>, data_pages: int)
    requires
        data_pages >= 0,
        forall|i: int| 0 <= i < specs.len() ==> valid_side_spec(#[trigger] specs[i]),
    ensures
        spec_reserved_pages(specs, data_pages) >= 0,
    decreases specs.len(),
{
    if specs.len() > 0 {
        lemma_reserved_pages_nonnegative(specs.drop_last(), data_pages);
        let shift = spec_addr_rshift(specs.last());
        lemma_pow2_pos(shift as nat);
        let d = pow2(shift as nat) as int;
        assert((data_pages + d - 1) / d >= 0) by (nonlinear_arith)
            requires
                d > 0,
                data_pages >= 0,
        ;
    }
}

/// Adds to `acc` the pages reserved over `specs`.
fn add_reserved_pages(specs: &Vec<MetadataSpec>, data_pages: usize, acc: usize) -> (total: usize)
    requires
        forall|i: int| 0 <= i < specs@.len() ==> valid_side_spec(#[trigger] specs@[i]),
        acc + spec_reserved_pages(specs@, data_pages as int) <= usize::MAX,
    ensures
        total == acc + spec_reserved_pages(specs@, data_pages as int),
{
    let mut total: usize = acc;
    let mut i: usize = 0;
    assert(specs@.subrange(0, 0) =~= Seq::<MetadataSpec>::empty());
    while i < specs.len()
        invariant
            i <= specs@.len(),
            forall|k: int| 0 <= k < specs@.len() ==> valid_side_spec(#[trigger] specs@[k]),
            total == acc + spec_reserved_pages(specs@.subrange(0, i as int), data_pages as int),
            acc + spec_reserved_pages(specs@, data_pages as int) <= usize::MAX,
        decreases specs@.len() - i,
    {
        let spec = &specs[i];
        let rshift = addr_rshift(spec);
        let pages = div_ceil_pow2(data_pages, rshift);
        proof {
            let next = specs@.subrange(0, i + 1);
            let rest = specs@.subrange(i + 1, specs@.len() as int);
            assert(next.drop_last() =~= specs@.subrange(0, i as int));
            assert(next.last() == specs@[i as int]);
            assert(next + rest =~= specs@);
            lemma_reserved_pages_concat(next, rest, data_pages as int);
            lemma_reserved_pages_nonnegative(rest, data_pages as int);
        }
        total = total + pages;
        i = i + 1;
    }
    assert(specs@.subrange(0, i as int) =~= specs@);
    total
}

/// Asks `mmapper` for the metadata, under each of `specs` in order, of
/// `size` bytes of data from `start` on, until one is refused.
fn map_each(
    specs: &Vec<MetadataSpec>,
    start: Address,
    size: usize,
    no_reserve: bool,
    mmapper: &mut Mmapper,
) -> (res: Result<(), MmapError>)
    requires
        forall|i: int|
            0 <= i < specs@.len() ==> valid_side_spec(#[trigger] specs@[i]) && valid_data_range(
                specs@[i],
                start@,
                size as int,
            ),
    ensures
        (res, final(mmapper).requests(), final(mmapper).pages_left()) == spec_map_metadata(
            specs@,
            start@,
            size as int,
            no_reserve,
            old(mmapper).requests(),
            old(mmapper).pages_left(),
        ),
{
    let mut i: usize = 0;
    assert(specs@.subrange(0, specs@.len() as int) =~= specs@);
    while i < specs.len()
        invariant
            i <= specs@.len(),
            forall|k: int|
                0 <= k < specs@.len() ==> valid_side_spec(#[trigger] specs@[k])
                    && valid_data_range(specs@[k], start@, size as int),
            spec_map_metadata(
                specs@,
                start@,
                size as int,
                no_reserve,
                old(mmapper).requests(),
                old(mmapper).pages_left(),
            ) == spec_map_metadata(
                specs@.subrange(i as int, specs@.len() as int),
                start@,
                size as int,
                no_reserve,
                mmapper.requests(),
                mmapper.pages_left(),
            ),
        decreases specs@.len() - i,
    {
        let ghost rest = specs@.subrange(i as int, specs@.len() as int);
        assert(rest[0] == specs@[i as int]);
        assert(rest.drop_first() =~= specs@.subrange(i + 1, specs@.len() as int));
        let spec = &specs[i];
        let (mmap_start, mmap_size) = contiguous_metadata_mmap_range(spec, start, size);
        if mmap_size > 0 {
            let pages: usize = mmap_size >> LOG_BYTES_IN_PAGE;
            proof {
                lemma_usize_shr_is_div(mmap_size, LOG_BYTES_IN_PAGE);
                lemma2_to64();
            }
            let outcome = if !no_reserve {
                mmapper.ensure_mapped(mmap_start, pages)
            } else {
                mmapper.quarantine_address_range(mmap_start, pages)
            };
            match outcome {
                Ok(_) => {},
                Err(e) => {
                    return Err(e);
                },
            }
        }
        i = i + 1;
    }
    Ok(())
}

/// Asks `mmapper` to give back the metadata, under each of `specs`, of
/// `size` bytes of data from `start` on.
fn unmap_each(specs: &Vec<MetadataSpec>, start: Address, size: usize, mmapper: &mut Mmapper)
    requires
        forall|i: int|
            0 <= i < specs@.len() ==> valid_side_spec(#[trigger] specs@[i]) && valid_data_range(
                specs@[i],
                start@,
                size as int,
            ),
    ensures
        final(mmapper).requests() == old(mmapper).requests() + spec_unmap_requests(
            specs@,
            start@,
            size as int,
        ),
        final(mmapper).pages_left() == old(mmapper).pages_left(),
{
    let mut i: usize = 0;
    assert(specs@.subrange(0, 0) =~= Seq::<MetadataSpec>::empty());
    assert(old(mmapper).requests() + Seq::<MmapRequest>::empty() =~= old(mmapper).requests());
    while i < specs.len()
        invariant
            i <= specs@.len(),
            forall|k: int|
                0 <= k < specs@.len() ==> valid_side_spec(#[trigger] specs@[k])
                    && valid_data_range(specs@[k], start@, size as int),
            mmapper.requests() == old(mmapper).requests() + spec_unmap_requests(
                specs@.subrange(0, i as int),
                start@,
                size as int,
            ),
            mmapper.pages_left() == old(mmapper).pages_left(),
        decreases specs@.len() - i,
    {
        let ghost next = specs@.subrange(0, i + 1);
        assert(next.drop_last() =~= specs@.subrange(0, i as int));
        assert(next.last() == specs@[i as int]);
        let ghost before = spec_unmap_requests(specs@.subrange(0, i as int), start@, size as int);
        let spec = &specs[i];
        let (mmap_start, mmap_size) = contiguous_metadata_mmap_range(spec, start, size);
        if mmap_size > 0 {
            let pages: usize = mmap_size >> LOG_BYTES_IN_PAGE;
            proof {
                lemma_usize_shr_is_div(mmap_size, LOG_BYTES_IN_PAGE);
                lemma2_to64();
            }
            mmapper.ensure_unmapped(mmap_start, pages);
            assert((old(mmapper).requests() + before).push(
                MmapRequest { kind: MmapKind::Release, start: mmap_start, pages },
            ) =~= old(mmapper).requests() + before.push(
                MmapRequest { kind: MmapKind::Release, start: mmap_start, pages },
            ));
        }
        i = i + 1;
    }
    assert(specs@.subrange(0, i as int) =~= specs@);
}

/// A specification whose metadata can be packed chunk by chunk: an entry
/// is a power of two of bits, and the entries of one chunk take at least a
/// byte.
pub open spec fn chunked_side_spec(s: MetadataSpec) -> bool {
    &&& crate::util::metadata::side_metadata::helpers::is_bit_width(s.num_of_bits as int)
    &&& s.log_min_obj_size <= crate::util::constants::LOG_BYTES_IN_CHUNK
        - crate::util::constants::LOG_BITS_IN_BYTE + spec_log_num_of_bits(s.num_of_bits as int)
}

/// The number of bytes of metadata per chunk that `specs` take together.
pub open spec fn spec_local_metadata_per_chunk(specs: Seq<MetadataSpec>) -> int
    decreases specs.len(),
{
    if specs.len() == 0 {
        0
    } else {
        spec_local_metadata_per_chunk(specs.drop_last()) + spec_metadata_bytes_per_chunk(
            specs.last().log_min_obj_size as int,
            spec_log_num_of_bits(specs.last().num_of_bits as int),
        )
    }
}

impl SideMetadata {
    /// The specifications that this side metadata is made of.
    pub closed spec fn context(&self) -> &MetadataContext {
        &self.context
    }

    /// Every specification is one that the arithmetic is defined for, and
    /// the metadata of the given range of data can be mapped for it.
    pub open spec fn can_map(&self, start: int, size: int) -> bool {
        forall|i: int|
            0 <= i < self.context().all_specs().len() ==> valid_side_spec(
                #[trigger] self.context().all_specs()[i],
            ) && valid_data_range(self.context().all_specs()[i], start, size)
    }

    /// The side metadata of a space with the given specifications.
    pub fn new(context: MetadataContext) -> (s: SideMetadata)
        ensures
            *s.context() == context,
    {
        Self { context }
    }

    /// The specifications that this side metadata is made of.
    pub fn get_context(&self) -> (c: &MetadataContext)
        ensures
            c == self.context(),
    {
        &self.context
    }

    /// The specifications of the policy.
    pub fn get_local_specs(&self) -> (specs: &[MetadataSpec])
        ensures
            specs@ == self.context().local@,
    {
        self.context.local.as_slice()
    }

    /// The pages reserved for side metadata, given the pages of data in
    /// use: for each specification, the data pages shifted down by its
    /// shift, rounded up.
    pub fn calculate_reserved_pages(&self, data_pages: usize) -> (total: usize)
        requires
            self.context().wf(),
            spec_reserved_pages(self.context().all_specs(), data_pages as int) <= usize::MAX,
        ensures
            total == spec_reserved_pages(self.context().all_specs(), data_pages as int),
    {
        proof {
            let g = self.context.global@;
            let l = self.context.local@;
            lemma_reserved_pages_concat(g, l, data_pages as int);
            assert forall|i: int| 0 <= i < g.len() implies valid_side_spec(#[trigger] g[i]) by {
                assert(g[i] == self.context().all_specs()[i]);
            }
            assert forall|i: int| 0 <= i < l.len() implies valid_side_spec(#[trigger] l[i]) by {
                assert(l[i] == self.context().all_specs()[g.len() + i]);
            }
            lemma_reserved_pages_nonnegative(g, data_pages as int);
            lemma_reserved_pages_nonnegative(l, data_pages as int);
        }
        let global = add_reserved_pages(&self.context.global, data_pages, 0);
        add_reserved_pages(&self.context.local, data_pages, global)
    }

    /// Forgets nothing: side metadata keeps no state between collections.
    pub fn reset(&self) {
    }

    /// Maps the metadata of `size` bytes of data from `start` on, and
    /// commits memory to it. This can be called at page granularity.
    ///
    /// The specifications are taken in order, the global ones first. The
    /// first refusal is returned; what was mapped before it stays mapped.
    pub fn try_map_metadata_space(&self, start: Address, size: usize, mmapper: &mut Mmapper) -> (res:
        Result<(), MmapError>)
        requires
            self.can_map(start@, size as int),
        ensures
            (res, final(mmapper).requests(), final(mmapper).pages_left()) == spec_map_metadata(
                self.context().all_specs(),
                start@,
                size as int,
                false,
                old(mmapper).requests(),
                old(mmapper).pages_left(),
            ),
    {
        self.map_metadata_internal(start, size, false, mmapper)
    }

    /// Sets the address range aside that holds the metadata of `size` bytes
    /// of data from `start` on, without committing memory to it. This is
    /// meant to be called at chunk granularity.
    pub fn try_map_metadata_address_range(
        &self,
        start: Address,
        size: usize,
        mmapper: &mut Mmapper,
    ) -> (res: Result<(), MmapError>)
        requires
            self.can_map(start@, size as int),
            start@ % (BYTES_IN_CHUNK as int) == 0,
            size % BYTES_IN_CHUNK == 0,
        ensures
            (res, final(mmapper).requests(), final(mmapper).pages_left()) == spec_map_metadata(
                self.context().all_specs(),
                start@,
                size as int,
                true,
                old(mmapper).requests(),
                old(mmapper).pages_left(),
            ),
            res is Ok,
    {
        let res = self.map_metadata_internal(start, size, true, mmapper);
        proof {
            lemma_quarantine_is_never_refused(
                self.context().all_specs(),
                start@,
                size as int,
                old(mmapper).requests(),
                old(mmapper).pages_left(),
            );
        }
        res
    }

    /// Maps the metadata of a range of data: the global specifications
    /// first, then the local ones, each as one contiguous table.
    pub fn map_metadata_internal(
        &self,
        start: Address,
        size: usize,
        no_reserve: bool,
        mmapper: &mut Mmapper,
    ) -> (res: Result<(), MmapError>)
        requires
            self.can_map(start@, size as int),
        ensures
            (res, final(mmapper).requests(), final(mmapper).pages_left()) == spec_map_metadata(
                self.context().all_specs(),
                start@,
                size as int,
                no_reserve,
                old(mmapper).requests(),
                old(mmapper).pages_left(),
            ),
    {
        proof {
            let g = self.context.global@;
            let l = self.context.local@;
            assert forall|i: int| 0 <= i < g.len() implies valid_side_spec(#[trigger] g[i])
                && valid_data_range(g[i], start@, size as int) by {
                assert(g[i] == self.context().all_specs()[i]);
            }
            assert forall|i: int| 0 <= i < l.len() implies valid_side_spec(#[trigger] l[i])
                && valid_data_range(l[i], start@, size as int) by {
                assert(l[i] == self.context().all_specs()[g.len() + i]);
            }
            lemma_map_metadata_concat(
                g,
                l,
                start@,
                size as int,
                no_reserve,
                old(mmapper).requests(),
                old(mmapper).pages_left(),
            );
        }
        match map_each(&self.context.global, start, size, no_reserve, mmapper) {
            Ok(_) => {},
            Err(e) => {
                return Err(e);
            },
        }
        map_each(&self.context.local, start, size, no_reserve, mmapper)
    }

    /// Gives back the metadata of `size` bytes of data from `start` on.
    pub fn ensure_unmap_metadata_space(&self, start: Address, size: usize, mmapper: &mut Mmapper)
        requires
            self.can_map(start@, size as int),
        ensures
            final(mmapper).requests() == old(mmapper).requests() + spec_unmap_requests(
                self.context().all_specs(),
                start@,
                size as int,
            ),
            final(mmapper).pages_left() == old(mmapper).pages_left(),
    {
        proof {
            let g = self.context.global@;
            let l = self.context.local@;
            assert forall|i: int| 0 <= i < g.len() implies valid_side_spec(#[trigger] g[i])
                && valid_data_range(g[i], start@, size as int) by {
                assert(g[i] == self.context().all_specs()[i]);
            }
            assert forall|i: int| 0 <= i < l.len() implies valid_side_spec(#[trigger] l[i])
                && valid_data_range(l[i], start@, size as int) by {
                assert(l[i] == self.context().all_specs()[g.len() + i]);
            }
            lemma_unmap_requests_concat(g, l, start@, size as int);
        }
        unmap_each(&self.context.global, start, size, mmapper);
        unmap_each(&self.context.local, start, size, mmapper);
        assert((old(mmapper).requests() + spec_unmap_requests(
            self.context.global@,
            start@,
            size as int,
        )) + spec_unmap_requests(self.context.local@, start@, size as int) =~= old(
            mmapper,
        ).requests() + (spec_unmap_requests(self.context.global@, start@, size as int)
            + spec_unmap_requests(self.context.local@, start@, size as int)));
    }

    /// The bytes of metadata that the local specifications take per chunk
    /// when they are packed chunk by chunk, and whether that stays within
    /// the share of a chunk that is set aside for it.
    pub fn local_metadata_per_chunk(&self) -> (r: (usize, bool))
        requires
            forall|i: int|
                0 <= i < self.context().local@.len() ==> chunked_side_spec(
                    #[trigger] self.context().local@[i],
                ),
            spec_local_metadata_per_chunk(self.context().local@) <= usize::MAX,
        ensures
            r.0 == spec_local_metadata_per_chunk(self.context().local@),
            r.1 == (r.0 <= BYTES_IN_CHUNK / 8),
    {
        let specs = &self.context.local;
        let mut total: usize = 0;
        let mut i: usize = 0;
        assert(specs@.subrange(0, 0) =~= Seq::<MetadataSpec>::empty());
        while i < specs.len()
            invariant
                i <= specs@.len(),
                specs == &self.context.local,
                forall|k: int| 0 <= k < specs@.len() ==> chunked_side_spec(#[trigger] specs@[k]),
                total == spec_local_metadata_per_chunk(specs@.subrange(0, i as int)),
                spec_local_metadata_per_chunk(specs@) <= usize::MAX,
            decreases specs@.len() - i,
        {
            let spec = &specs[i];
            proof {
                let next = specs@.subrange(0, i + 1);
                assert(next.drop_last() =~= specs@.subrange(0, i as int));
                assert(next.last() == specs@[i as int]);
                lemma_local_per_chunk_monotone(specs@, i + 1);
            }
            proof {
                lemma_usize_shr_is_div(BYTES_IN_CHUNK, LOG_LOCAL_SIDE_METADATA_WORST_CASE_RATIO);
                lemma2_to64();
            }
            let bytes = metadata_bytes_per_chunk(
                spec.log_min_obj_size,
                log_num_of_bits(spec.num_of_bits),
            );
            total = total + bytes;
            i = i + 1;
        }
        assert(specs@.subrange(0, i as int) =~= specs@);
        proof {
            lemma_usize_shr_is_div(BYTES_IN_CHUNK, LOG_LOCAL_SIDE_METADATA_WORST_CASE_RATIO);
            lemma2_to64();
        }
        (total, total <= BYTES_IN_CHUNK >> LOG_LOCAL_SIDE_METADATA_WORST_CASE_RATIO)
    }
}

/// Setting address ranges aside is never refused.
pub proof fn lemma_quarantine_is_never_refused(
    specs: Seq<MetadataSpec>,
    start: int,
    size: int,
    requests: Seq<MmapRequest>,
    pages_left: int,
)
    ensures
        spec_map_metadata(specs, start, size, true, requests, pages_left).0 is Ok,
        spec_map_metadata(specs, start, size, true, requests, pages_left).2 == pages_left,
    decreases specs.len(),
{
    if specs.len() > 0 {
        match spec_mmap_request(specs[0], start, size, true) {
            None => {
                lemma_quarantine_is_never_refused(
                    specs.drop_first(),
                    start,
                    size,
                    requests,
                    pages_left,
                );
            },
            Some(r) => {
                lemma_quarantine_is_never_refused(
                    specs.drop_first(),
                    start,
                    size,
                    requests.push(r),
                    pages_left,
                );
            },
        }
    }
}

/// The bytes per chunk of a part of the specifications do not exceed those
/// of all of them.
proof fn lemma_local_per_chunk_monotone(specs: Seq<MetadataSpec>, n: int)
    requires
        0 <= n <= specs.len(),
    ensures
        0 <= spec_local_metadata_per_chunk(specs.subrange(0, n)) <= spec_local_metadata_per_chunk(
            specs,
        ),
    decreases specs.len() - n,
{
    if n == specs.len() {
        assert(specs.subrange(0, n) =~= specs);
        lemma_local_per_chunk_nonnegative(specs);
    } else {
        lemma_local_per_chunk_monotone(specs, n + 1);
        let next = specs.subrange(0, n + 1);
        assert(next.drop_last() =~= specs.subrange(0, n));
        lemma_local_per_chunk_nonnegative(specs.subrange(0, n));
    }
}

/// The bytes per chunk of any specifications are not negative.
proof fn lemma_local_per_chunk_nonnegative(specs: Seq<MetadataSpec>)
    ensures
        0 <= spec_local_metadata_per_chunk(specs),
    decreases specs.len(),
{
    if specs.len() > 0 {
        lemma_local_per_chunk_nonnegative(specs.drop_last());
    }
}

} // verus!
