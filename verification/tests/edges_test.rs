use mmtk::util::address::Address;
use mmtk::util::address::ObjectReference;
use mmtk::util::memory::Memory;
use mmtk::vm::edge_shape::Edge;
use mmtk::vm::edge_shape::SimpleEdge;
use mmtk::vmbindings::dummyvm::edges::CompressedOopEdge;
use mmtk::vmbindings::dummyvm::edges::DummyVMEdge;
use mmtk::vmbindings::dummyvm::edges::OffsetEdge;
use mmtk::vmbindings::dummyvm::edges::ValueEdge;

struct TwoObjects {
    objref1: ObjectReference,
    objref2: ObjectReference,
}

fn fixture() -> TwoObjects {
    TwoObjects {
        objref1: ObjectReference(0x4000),
        objref2: ObjectReference(0x1_0000),
    }
}

const SLOT: usize = 0x9000;

#[test]
pub fn load_simple() {
    let fixture = fixture();
    let mut mem = Memory::new();
    mem.store(Address(SLOT), fixture.objref1.0);

    let edge = SimpleEdge::from_address(Address(SLOT));
    let objref = edge.load(&mem);

    assert_eq!(objref, fixture.objref1);
}

#[test]
pub fn store_simple() {
    let fixture = fixture();
    let mut mem = Memory::new();
    mem.store(Address(SLOT), fixture.objref1.0);

    let edge = SimpleEdge::from_address(Address(SLOT));
    edge.store(&mut mem, fixture.objref2);
    assert_eq!(mem.load(Address(SLOT)), fixture.objref2.0);

    let objref = edge.load(&mem);
    assert_eq!(objref, fixture.objref2);
}

#[test]
pub fn load_compressed() {
    let fixture = fixture();
    let usize1 = fixture.objref1.to_address().as_usize();
    assert!(usize1 >> 3 <= u32::MAX as usize);
    let mut mem = Memory::new();
    // the slot holds the reference in compressed form
    mem.store(Address(SLOT), usize1 >> 3);
    assert_eq!(mem.load(Address(SLOT)), 0x800);

    let edge = CompressedOopEdge::from_address(Address(SLOT));
    let objref = edge.load(&mem);

    assert_eq!(objref, fixture.objref1);
}

#[test]
pub fn store_compressed() {
    let fixture = fixture();
    let usize1 = fixture.objref1.to_address().as_usize();
    let usize2 = fixture.objref2.to_address().as_usize();
    let mut mem = Memory::new();
    mem.store(Address(SLOT), usize1 >> 3);

    let edge = CompressedOopEdge::from_address(Address(SLOT));
    edge.store(&mut mem, fixture.objref2);
    assert_eq!(mem.load(Address(SLOT)), usize2 >> 3);

    let objref = edge.load(&mem);
    assert_eq!(objref, fixture.objref2);
}

#[test]
pub fn compressed_drops_low_bits() {
    let mut mem = Memory::new();
    let edge = CompressedOopEdge::from_address(Address(SLOT));
    edge.store(&mut mem, ObjectReference(0x4007));
    assert_eq!(mem.load(Address(SLOT)), 0x800);
    assert_eq!(edge.load(&mem), ObjectReference(0x4000));
    assert_eq!(edge.as_address(), Address(SLOT));
}

#[test]
pub fn load_offset() {
    const OFFSET: usize = 48;
    let fixture = fixture();
    let addr1 = fixture.objref1.to_address();
    let mut mem = Memory::new();
    mem.store(Address(SLOT), addr1.0 + OFFSET);

    let edge = OffsetEdge::new_with_offset(Address(SLOT), OFFSET);
    let objref = edge.load(&mem);

    assert_eq!(objref, fixture.objref1);
}

#[test]
pub fn offset_edge_reads_start_of_object() {
    // the slot holds 0x1_0030, the object starts at 0x1_0000
    let mut mem = Memory::new();
    mem.store(Address(SLOT), 0x1_0030);
    let edge = OffsetEdge::new_with_offset(Address(SLOT), 48);
    assert_eq!(edge.load(&mem), ObjectReference(0x1_0000));
    assert_eq!(edge.offset(), 48);
    assert_eq!(edge.slot_address(), Address(SLOT));
    let plain = OffsetEdge::new_no_offset(Address(SLOT));
    assert_eq!(plain.offset(), 0);
    assert_eq!(plain.load(&mem), ObjectReference(0x1_0030));
}

#[test]
pub fn store_offset() {
    const OFFSET: usize = 48;
    let fixture = fixture();
    let addr1 = fixture.objref1.to_address();
    let addr2 = fixture.objref2.to_address();
    let mut mem = Memory::new();
    mem.store(Address(SLOT), addr1.0 + OFFSET);

    let edge = OffsetEdge::new_with_offset(Address(SLOT), OFFSET);
    edge.store(&mut mem, fixture.objref2);
    assert_eq!(mem.load(Address(SLOT)), addr2.0 + OFFSET);

    let objref = edge.load(&mem);
    assert_eq!(objref, fixture.objref2);
}

#[test]
pub fn load_value() {
    let fixture = fixture();
    let mem = Memory::new();
    let edge = ValueEdge::new(fixture.objref1);
    let objref = edge.load(&mem);

    assert_eq!(objref, fixture.objref1);
    assert_eq!(edge.value(), fixture.objref1);
}

#[test]
pub fn value_edge_cannot_be_changed() {
    let fixture = fixture();
    let mut mem = Memory::new();
    let edge = ValueEdge::new(fixture.objref1);
    edge.store(&mut mem, fixture.objref2);
    assert_eq!(edge.load(&mem), fixture.objref1);
    assert_eq!(mem.load(Address(SLOT)), 0);
}

#[test]
pub fn mixed() {
    const OFFSET: usize = 48;
    const SLOT1: usize = 0x9000;
    const SLOT3: usize = 0x9008;

    let fixture = fixture();
    let addr1 = fixture.objref1.to_address();
    let addr2 = fixture.objref2.to_address();

    let mut mem = Memory::new();
    mem.store(Address(SLOT1), fixture.objref1.0);
    mem.store(Address(SLOT3), addr1.0 + OFFSET);

    let edge1 = SimpleEdge::from_address(Address(SLOT1));
    let edge3 = OffsetEdge::new_with_offset(Address(SLOT3), OFFSET);
    let edge4 = ValueEdge::new(fixture.objref1);

    let de1 = DummyVMEdge::Simple(edge1);
    let de3 = DummyVMEdge::Offset(edge3);
    let de4 = DummyVMEdge::Value(edge4);

    let edges = vec![de1, de3, de4];
    for (i, edge) in edges.iter().enumerate() {
        let objref = edge.load(&mem);
        assert_eq!(objref, fixture.objref1, "Edge {} is not properly loaded", i);
    }

    let mutable_edges = vec![de1, de3];
    for (i, edge) in mutable_edges.iter().enumerate() {
        edge.store(&mut mem, fixture.objref2);
        let objref = edge.load(&mem);
        assert_eq!(
            objref, fixture.objref2,
            "Edge {} is not properly loaded after store",
            i
        );
    }

    assert_eq!(mem.load(Address(SLOT1)), fixture.objref2.0);
    assert_eq!(mem.load(Address(SLOT3)), addr2.0 + OFFSET);
}

#[test]
pub fn address_is_an_edge() {
    let mut mem = Memory::new();
    let slot = Address(SLOT);
    assert_eq!(slot.load(&mem), ObjectReference(0));
    slot.store(&mut mem, ObjectReference(0x4000));
    assert_eq!(slot.load(&mem), ObjectReference(0x4000));
    slot.prefetch_load();
    slot.prefetch_store();
}
