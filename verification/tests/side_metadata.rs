use mmtk::plan::marksweep::metadata::alloc_metadata_spec;
use mmtk::plan::marksweep::metadata::marking_metadata_spec;
use mmtk::plan::marksweep::metadata::MarkSweepMetadata;
use mmtk::util::address::Address;
use mmtk::util::address::ObjectReference;
use mmtk::util::constants::bytes_to_pages_up;
use mmtk::util::constants::log_address_space;
use mmtk::util::metadata::global::contiguous_metadata_mmap_range;
use mmtk::util::metadata::global::div_ceil_pow2;
use mmtk::util::metadata::side_metadata::helpers::addr_rshift;
use mmtk::util::metadata::side_metadata::helpers::address_to_meta_address;
use mmtk::util::metadata::side_metadata::helpers::log_num_of_bits;
use mmtk::util::metadata::side_metadata::helpers::meta_byte_lshift;
use mmtk::util::metadata::side_metadata::helpers::meta_byte_mask;
use mmtk::util::metadata::side_metadata::helpers::metadata_address_range_size;
use mmtk::util::metadata::side_metadata::helpers::metadata_bytes_per_chunk;
use mmtk::util::metadata::side_metadata::ranges::iterate_meta_bits;
use mmtk::util::metadata::side_metadata::ranges::BitByteRange;
use mmtk::util::metadata::side_metadata::table::SideMetadataTable;
use mmtk::util::metadata::MetadataContext;
use mmtk::util::metadata::MetadataSpec;
use mmtk::util::metadata::SideMetadata;
use mmtk::util::mmapper::MmapError;
use mmtk::util::mmapper::MmapKind;
use mmtk::util::mmapper::MmapRequest;
use mmtk::util::mmapper::Mmapper;

const BASE: isize = 0x2000_0000;

fn spec(num_of_bits: usize, log_min_obj_size: usize) -> MetadataSpec {
    MetadataSpec {
        is_side_metadata: true,
        is_global: true,
        offset: BASE,
        num_of_bits,
        log_min_obj_size,
    }
}

#[test]
fn one_bit_per_word() {
    let s = spec(1, 3);
    assert_eq!(addr_rshift(&s), 6);
    // the unit with index 0x80: byte 0x10 of the table, bit 0
    assert_eq!(address_to_meta_address(&s, Address(0x400)), Address(0x2000_0010));
    assert_eq!(meta_byte_lshift(&s, Address(0x400)), 0);
    // three units on: the same byte, bit 3
    assert_eq!(address_to_meta_address(&s, Address(0x418)), Address(0x2000_0010));
    assert_eq!(meta_byte_lshift(&s, Address(0x418)), 3);
    // an address within the unit has the entry of the unit
    assert_eq!(address_to_meta_address(&s, Address(0x41f)), Address(0x2000_0010));
    assert_eq!(meta_byte_lshift(&s, Address(0x41f)), 3);
    assert_eq!(meta_byte_mask(&s), 1);
}

#[test]
fn two_bits_per_word() {
    let s = spec(2, 3);
    assert_eq!(addr_rshift(&s), 5);
    assert_eq!(address_to_meta_address(&s, Address(0x400)), Address(0x2000_0020));
    assert_eq!(meta_byte_lshift(&s, Address(0x400)), 0);
    assert_eq!(meta_byte_lshift(&s, Address(0x408)), 2);
    assert_eq!(meta_byte_lshift(&s, Address(0x410)), 4);
    assert_eq!(meta_byte_lshift(&s, Address(0x418)), 6);
    assert_eq!(address_to_meta_address(&s, Address(0x420)), Address(0x2000_0021));
    assert_eq!(meta_byte_lshift(&s, Address(0x420)), 0);
    assert_eq!(meta_byte_mask(&s), 3);
}

#[test]
fn wide_entries() {
    let s = spec(16, 4);
    assert_eq!(log_num_of_bits(16), 4);
    assert_eq!(addr_rshift(&s), 3);
    // two bytes for each unit of sixteen bytes
    assert_eq!(address_to_meta_address(&s, Address(0x400)), Address(0x2000_0080));
    assert_eq!(address_to_meta_address(&s, Address(0x410)), Address(0x2000_0082));
    assert_eq!(meta_byte_lshift(&s, Address(0x410)), 0);
    let b = spec(8, 3);
    assert_eq!(address_to_meta_address(&b, Address(0x408)), Address(0x2000_0081));
    assert_eq!(meta_byte_mask(&b), 255);
    let n = spec(4, 3);
    assert_eq!(meta_byte_lshift(&n, Address(0x408)), 4);
    assert_eq!(meta_byte_mask(&n), 15);
}

#[test]
fn reserved_range() {
    let s = spec(1, 3);
    let log = log_address_space();
    assert_eq!(metadata_address_range_size(&s), 1usize << (log - 6));
    // the last data address has its entry in the last byte of the range
    let last = Address((1usize << log) - 1);
    let meta = address_to_meta_address(&s, last);
    assert_eq!(meta.0, BASE as usize + (1usize << (log - 6)) - 1);
    assert_eq!(metadata_bytes_per_chunk(3, 0), 1 << 16);
    assert_eq!(metadata_bytes_per_chunk(3, 1), 1 << 17);
    assert_eq!(metadata_bytes_per_chunk(22, 3), 1);
}

#[test]
fn distinct_units_have_distinct_bits() {
    let s = spec(2, 3);
    let mut seen = std::collections::HashSet::new();
    for unit in 0..4096usize {
        let a = Address(unit << 3);
        let position = address_to_meta_address(&s, a).0 * 8 + meta_byte_lshift(&s, a) as usize;
        assert_eq!(position, BASE as usize * 8 + unit * 2);
        assert!(seen.insert(position));
        // every address of the unit has the same position
        let b = Address((unit << 3) + 7);
        assert_eq!(
            address_to_meta_address(&s, b).0 * 8 + meta_byte_lshift(&s, b) as usize,
            position
        );
    }
}

#[test]
fn rounding_up() {
    assert_eq!(div_ceil_pow2(100, 6), 2);
    assert_eq!(div_ceil_pow2(128, 6), 2);
    assert_eq!(div_ceil_pow2(129, 6), 3);
    assert_eq!(div_ceil_pow2(0, 6), 0);
    assert_eq!(div_ceil_pow2(usize::MAX, 0), usize::MAX);
    assert_eq!(div_ceil_pow2(usize::MAX, 1), usize::MAX / 2 + 1);
    assert_eq!(bytes_to_pages_up(0), 0);
    assert_eq!(bytes_to_pages_up(1), 1);
    assert_eq!(bytes_to_pages_up(4096), 1);
    assert_eq!(bytes_to_pages_up(4097), 2);
}

fn side_metadata() -> SideMetadata {
    let global = MetadataContext::new_global_specs(&[spec(1, 3)]);
    let local = vec![MetadataSpec {
        is_side_metadata: true,
        is_global: false,
        offset: 0x4000_0000,
        num_of_bits: 2,
        log_min_obj_size: 3,
    }];
    SideMetadata::new(MetadataContext { global, local })
}

#[test]
fn reserved_pages() {
    let m = side_metadata();
    assert_eq!(m.get_context().global.len(), 1);
    assert_eq!(m.get_local_specs().len(), 1);
    // 100 pages of data: two pages at 1/64 and four pages at 1/32
    assert_eq!(m.calculate_reserved_pages(100), 2 + 4);
    assert_eq!(m.calculate_reserved_pages(0), 0);
    assert_eq!(m.calculate_reserved_pages(1), 2);
    m.reset();
    let (bytes, fits) = m.local_metadata_per_chunk();
    assert_eq!(bytes, 1 << 17);
    assert!(fits);
}

#[test]
fn mapping_the_metadata_of_a_page() {
    let m = side_metadata();
    let mut mmapper = Mmapper::new(16);
    // a page of data at 0x1000_0000
    let (start, size) = contiguous_metadata_mmap_range(&spec(1, 3), Address(0x1000_0000), 4096);
    assert_eq!(start, Address(0x2040_0000));
    assert_eq!(size, 4096);
    let res = m.try_map_metadata_space(Address(0x1000_0000), 4096, &mut mmapper);
    assert_eq!(res, Ok(()));
    assert_eq!(
        mmapper.get_requests().as_slice(),
        &[
            MmapRequest { kind: MmapKind::Commit, start: Address(0x2040_0000), pages: 1 },
            MmapRequest { kind: MmapKind::Commit, start: Address(0x4080_0000), pages: 1 },
        ]
    );
    assert_eq!(mmapper.get_pages_left(), 14);
    assert!(mmapper.is_mapped_address(Address(0x2040_0000)));
    assert!(mmapper.is_mapped_address(Address(0x2040_0fff)));
    assert!(!mmapper.is_mapped_address(Address(0x2040_1000)));
    assert!(!mmapper.is_mapped_address(Address(0x203f_ffff)));
    // the metadata of every address of the page is mapped
    let meta = address_to_meta_address(&spec(1, 3), Address(0x1000_0fff));
    assert!(mmapper.is_mapped_address(meta));

    m.ensure_unmap_metadata_space(Address(0x1000_0000), 4096, &mut mmapper);
    assert_eq!(mmapper.get_requests().len(), 4);
    assert_eq!(
        mmapper.get_requests()[2],
        MmapRequest { kind: MmapKind::Release, start: Address(0x2040_0000), pages: 1 }
    );
    assert!(!mmapper.is_mapped_address(Address(0x2040_0000)));
    assert_eq!(mmapper.get_pages_left(), 14);
}

#[test]
fn mapping_is_refused_without_budget() {
    let m = side_metadata();
    let mut mmapper = Mmapper::new(1);
    let res = m.try_map_metadata_space(Address(0x1000_0000), 4096, &mut mmapper);
    // the global table was mapped, the local one was refused
    assert_eq!(res, Err(MmapError { start: Address(0x4080_0000), pages: 1 }));
    assert_eq!(mmapper.get_requests().len(), 1);
    assert_eq!(mmapper.get_pages_left(), 0);

    // setting the range aside takes nothing from the budget
    let mut mmapper = Mmapper::new(0);
    let res = m.try_map_metadata_address_range(Address(0x1000_0000), 1 << 22, &mut mmapper);
    assert_eq!(res, Ok(()));
    assert_eq!(
        mmapper.get_requests().as_slice(),
        &[
            MmapRequest { kind: MmapKind::Quarantine, start: Address(0x2040_0000), pages: 16 },
            MmapRequest { kind: MmapKind::Quarantine, start: Address(0x4080_0000), pages: 32 },
        ]
    );
    assert!(!mmapper.is_mapped_address(Address(0x2040_0000)));
    let res = m.map_metadata_internal(Address(0x1000_0000), 4096, false, &mut mmapper);
    assert_eq!(res, Err(MmapError { start: Address(0x2040_0000), pages: 1 }));
}

fn visit(
    byte_start: usize,
    bit_start: u8,
    byte_end: usize,
    bit_end: u8,
    forwards: bool,
    stop_at: Option<usize>,
) -> (bool, Vec<BitByteRange>) {
    let mut seen = vec![];
    let stopped = iterate_meta_bits(
        Address(byte_start),
        bit_start,
        Address(byte_end),
        bit_end,
        forwards,
        &mut |range| {
            seen.push(range);
            Some(seen.len()) == stop_at
        },
    );
    (stopped, seen)
}

fn bits(addr: usize, bit_start: usize, bit_end: usize) -> BitByteRange {
    BitByteRange::BitsInByte { addr: Address(addr), bit_start, bit_end }
}

fn bytes(start: usize, end: usize) -> BitByteRange {
    BitByteRange::Bytes { start: Address(start), end: Address(end) }
}

#[test]
fn iterating_bits() {
    // nothing
    assert_eq!(visit(0x100, 3, 0x100, 3, true, None), (false, vec![]));
    // whole bytes
    assert_eq!(visit(0x100, 0, 0x104, 0, true, None), (false, vec![bytes(0x100, 0x104)]));
    assert_eq!(visit(0x100, 0, 0x104, 0, false, Some(1)), (true, vec![bytes(0x100, 0x104)]));
    // within one byte
    assert_eq!(visit(0x100, 2, 0x100, 5, true, None), (false, vec![bits(0x100, 2, 5)]));
    // to the end of one byte
    assert_eq!(visit(0x100, 2, 0x101, 0, false, None), (false, vec![bits(0x100, 2, 8)]));
    // two neighbouring bytes
    assert_eq!(
        visit(0x100, 2, 0x101, 5, true, None),
        (false, vec![bits(0x100, 2, 8), bits(0x101, 0, 5)])
    );
    // start, middle and end
    assert_eq!(
        visit(0x100, 3, 0x103, 5, true, None),
        (false, vec![bits(0x100, 3, 8), bytes(0x101, 0x103), bits(0x103, 0, 5)])
    );
    assert_eq!(
        visit(0x100, 3, 0x103, 5, false, None),
        (false, vec![bits(0x103, 0, 5), bytes(0x101, 0x103), bits(0x100, 3, 8)])
    );
    // the first byte as bits even where it is whole
    assert_eq!(
        visit(0x100, 0, 0x102, 4, true, None),
        (false, vec![bits(0x100, 0, 8), bytes(0x101, 0x102), bits(0x102, 0, 4)])
    );
    // an end on a byte boundary
    assert_eq!(
        visit(0x100, 3, 0x103, 0, true, None),
        (false, vec![bits(0x100, 3, 8), bytes(0x101, 0x103), bits(0x103, 0, 0)])
    );
}

#[test]
fn iterating_bits_stops_early() {
    assert_eq!(visit(0x100, 3, 0x103, 5, true, Some(1)), (true, vec![bits(0x100, 3, 8)]));
    assert_eq!(
        visit(0x100, 3, 0x103, 5, true, Some(2)),
        (true, vec![bits(0x100, 3, 8), bytes(0x101, 0x103)])
    );
    assert_eq!(
        visit(0x100, 3, 0x103, 5, false, Some(2)),
        (true, vec![bits(0x103, 0, 5), bytes(0x101, 0x103)])
    );
    assert_eq!(visit(0x100, 3, 0x103, 5, true, Some(3)).0, true);
    assert_eq!(visit(0x100, 3, 0x103, 5, true, Some(4)).0, false);
}

fn bit_positions(range: &BitByteRange) -> Vec<usize> {
    match *range {
        BitByteRange::Bytes { start, end } => (start.0 * 8..end.0 * 8).collect(),
        BitByteRange::BitsInByte { addr, bit_start, bit_end } => {
            (addr.0 * 8 + bit_start..addr.0 * 8 + bit_end).collect()
        }
    }
}

#[test]
fn every_bit_is_visited_once_in_order() {
    for byte_end in 0x100..0x104usize {
        for bit_start in 0..8u8 {
            for bit_end in 0..8u8 {
                if byte_end == 0x100 && bit_end < bit_start {
                    continue;
                }
                let first = 0x100 * 8 + bit_start as usize;
                let end = byte_end * 8 + bit_end as usize;
                let (stopped, seen) = visit(0x100, bit_start, byte_end, bit_end, true, None);
                assert!(!stopped);
                let visited: Vec<usize> = seen.iter().flat_map(bit_positions).collect();
                assert_eq!(visited, (first..end).collect::<Vec<usize>>());
                let (_, seen) = visit(0x100, bit_start, byte_end, bit_end, false, None);
                let mut visited: Vec<usize> = vec![];
                for range in seen.iter() {
                    let mut positions = bit_positions(range);
                    positions.reverse();
                    visited.extend(positions);
                }
                visited.reverse();
                assert_eq!(visited, (first..end).collect::<Vec<usize>>());
            }
        }
    }
}

#[test]
fn table_of_entries() {
    let s = spec(2, 3);
    let mut table = SideMetadataTable::new();
    assert_eq!(table.load_atomic(&s, Address(0x400)), 0);
    table.store_atomic(&s, Address(0x408), 3);
    table.store_atomic(&s, Address(0x410), 2);
    assert_eq!(table.load_atomic(&s, Address(0x400)), 0);
    assert_eq!(table.load_atomic(&s, Address(0x408)), 3);
    assert_eq!(table.load_atomic(&s, Address(0x40f)), 3);
    assert_eq!(table.load_atomic(&s, Address(0x410)), 2);
    assert_eq!(table.load_atomic(&s, Address(0x418)), 0);
    table.store_atomic(&s, Address(0x408), 1);
    assert_eq!(table.load_atomic(&s, Address(0x408)), 1);
    assert_eq!(table.load_atomic(&s, Address(0x410)), 2);
    assert!(!table.compare_exchange_atomic(&s, Address(0x410), 1, 3));
    assert_eq!(table.load_atomic(&s, Address(0x410)), 2);
    assert!(table.compare_exchange_atomic(&s, Address(0x410), 2, 0));
    assert_eq!(table.load_atomic(&s, Address(0x410)), 0);
    assert_eq!(table.load_atomic(&s, Address(0x408)), 1);
}

#[test]
fn allocation_and_mark_bits() {
    let alloc = alloc_metadata_spec();
    let mark = marking_metadata_spec();
    assert_eq!(alloc.offset, 0);
    assert_eq!(mark.offset as usize, metadata_address_range_size(&alloc));
    assert_eq!(alloc.num_of_bits, 1);

    let mut m = MarkSweepMetadata::new();
    let object = ObjectReference(0x40_0040);
    assert!(!m.meta_space_mapped(Address(0x40_0040)));
    assert!(!m.is_malloced(object));
    assert!(m.map_meta_space_for_chunk(Address(0x40_0000)));
    assert!(!m.map_meta_space_for_chunk(Address(0x40_0000)));
    assert!(m.meta_space_mapped(Address(0x40_0040)));
    assert!(m.meta_space_mapped(Address(0x7f_ffff)));
    assert!(!m.meta_space_mapped(Address(0x80_0000)));
    assert!(!m.is_malloced(object));
    assert!(!m.is_marked(object));

    m.set_alloc_bit(Address(0x40_0040));
    assert!(m.is_malloced(object));
    assert!(!m.is_marked(object));
    assert!(!m.is_malloced(ObjectReference(0x40_0048)));
    assert!(!m.is_malloced(ObjectReference(0x40_0038)));

    m.set_mark_bit(Address(0x40_0040));
    assert!(m.is_marked(object));
    assert!(m.is_malloced(object));
    m.set_mark_bit(Address(0x40_0048));
    m.unset_mark_bit(Address(0x40_0040));
    assert!(!m.is_marked(object));
    assert!(m.is_marked(ObjectReference(0x40_0048)));
    assert!(m.is_malloced(object));
    m.unset_alloc_bit(Address(0x40_0040));
    assert!(!m.is_malloced(object));
    assert!(m.is_marked(ObjectReference(0x40_0048)));
}

#[test]
fn addresses() {
    let a = Address::from_usize(0x1234);
    assert_eq!(a.as_usize(), 0x1234);
    assert_eq!(a.align_down(0x100), Address(0x1200));
    assert_eq!(a.align_up(0x100), Address(0x1300));
    assert_eq!(Address(0x1200).align_up(0x100), Address(0x1200));
    assert!(Address(0x1200).is_aligned_to(0x100));
    assert!(!a.is_aligned_to(0x100));
    assert_eq!(a.add(4), Address(0x1238));
    assert_eq!(a.sub(4), Address(0x1230));
    assert_eq!(a.diff(Address(0x1000)), 0x234);
    assert!(Address::zero().is_zero());
    assert!(ObjectReference::null().is_null());
    assert_eq!(ObjectReference::from_address(a).to_address(), a);
    assert_eq!(ObjectReference(7).value(), 7);
}

#[test]
fn table_of_wide_entries() {
    for bits in [16usize, 32, 64] {
        if bits > usize::BITS as usize {
            continue;
        }
        // an entry for every 16 bytes of data
        let s = spec(bits, 4);
        let max = if bits == usize::BITS as usize { usize::MAX } else { (1usize << bits) - 1 };
        let mut table = SideMetadataTable::new();
        assert_eq!(table.load_atomic(&s, Address(0x400)), 0);
        table.store_atomic(&s, Address(0x410), max);
        table.store_atomic(&s, Address(0x420), 0x1234);
        table.store_atomic(&s, Address(0x400), 0x00ff);
        assert_eq!(table.load_atomic(&s, Address(0x400)), 0x00ff);
        assert_eq!(table.load_atomic(&s, Address(0x410)), max);
        assert_eq!(table.load_atomic(&s, Address(0x41f)), max);
        assert_eq!(table.load_atomic(&s, Address(0x420)), 0x1234);
        assert_eq!(table.load_atomic(&s, Address(0x430)), 0);
        table.store_atomic(&s, Address(0x410), 0x0100);
        assert_eq!(table.load_atomic(&s, Address(0x400)), 0x00ff);
        assert_eq!(table.load_atomic(&s, Address(0x410)), 0x0100);
        assert_eq!(table.load_atomic(&s, Address(0x420)), 0x1234);
        assert!(table.compare_exchange_atomic(&s, Address(0x420), 0x1234, max - 1));
        assert!(!table.compare_exchange_atomic(&s, Address(0x420), 0x1234, 7));
        assert_eq!(table.load_atomic(&s, Address(0x420)), max - 1);
    }
    // the lowest byte of an entry comes first
    let s = spec(16, 4);
    let byte = spec(8, 3);
    let mut table = SideMetadataTable::new();
    table.store_atomic(&s, Address(0), 0xabcd);
    assert_eq!(address_to_meta_address(&s, Address(0)), address_to_meta_address(&byte, Address(0)));
    assert_eq!(table.load_atomic(&byte, Address(0)), 0xcd);
    assert_eq!(table.load_atomic(&byte, Address(8)), 0xab);
    assert_eq!(table.load_atomic(&byte, Address(16)), 0);
}

#[test]
fn fetch_and_update() {
    let s = spec(4, 3);
    let mut table = SideMetadataTable::new();
    table.store_atomic(&s, Address(0x408), 9);
    table.store_atomic(&s, Address(0x400), 5);
    let mut calls = 0;
    let mut increment = |v: usize| {
        calls += 1;
        if v < 15 {
            Some(v + 1)
        } else {
            None
        }
    };
    assert_eq!(table.fetch_update_atomic(&s, Address(0x408), &mut increment), Ok(9));
    assert_eq!(table.load_atomic(&s, Address(0x408)), 10);
    for expected in 10..15 {
        assert_eq!(table.fetch_update_atomic(&s, Address(0x408), &mut increment), Ok(expected));
    }
    // the entry is full: nothing is stored
    assert_eq!(table.fetch_update_atomic(&s, Address(0x408), &mut increment), Err(15));
    assert_eq!(table.load_atomic(&s, Address(0x408)), 15);
    assert_eq!(table.load_atomic(&s, Address(0x400)), 5);
    assert_eq!(calls, 7);
    let s = spec(32, 3);
    let mut keep = |_: usize| None;
    assert_eq!(table.fetch_update_atomic(&s, Address(0x1000), &mut keep), Err(0));
    let mut set = |v: usize| Some(v + 0x1_0001);
    assert_eq!(table.fetch_update_atomic(&s, Address(0x1000), &mut set), Ok(0));
    assert_eq!(table.fetch_update_atomic(&s, Address(0x1000), &mut set), Ok(0x1_0001));
    assert_eq!(table.load_atomic(&s, Address(0x1000)), 0x2_0002);
}

#[test]
fn a_specification_as_text() {
    let s = MetadataSpec {
        is_side_metadata: true,
        is_global: false,
        offset: 0x2000_0000,
        num_of_bits: 16,
        log_min_obj_size: 3,
    };
    assert_eq!(
        s.debug_text(),
        "MetadataSpec { **side?: true, **global: false **offset: 0x20000000 **num_of_bits: 0x10 \
         **log_min_obj_size: 0x3 }"
    );
    for offset in [0isize, 1, -1, -16, isize::MAX, isize::MIN] {
        let s = MetadataSpec {
            is_side_metadata: false,
            is_global: true,
            offset,
            num_of_bits: 1,
            log_min_obj_size: 0,
        };
        let expected = format!(
            "MetadataSpec {{ **side?: {}, **global: {} **offset: 0x{:x} **num_of_bits: 0x{:x} **log_min_obj_size: 0x{:x} }}",
            s.is_side_metadata, s.is_global, s.offset, s.num_of_bits, s.log_min_obj_size
        );
        assert_eq!(s.debug_text(), expected);
    }
}
