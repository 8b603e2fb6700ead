use mmtk::memory_manager::allocate;
use mmtk::memory_manager::gc_init;
use mmtk::memory_manager::is_alloced;
use mmtk::memory_manager::is_mapped_object;
use mmtk::memory_manager::MMTK;
use mmtk::plan::AllocationSemantics;
use mmtk::util::address::Address;
use mmtk::util::address::ObjectReference;

struct Fixture {
    mmtk: MMTK,
    addr: Address,
    objref: ObjectReference,
}

fn with_fixture<F: Fn(&Fixture)>(func: F) {
    const MB: usize = 1024 * 1024;
    // 1MB heap
    let mut mmtk = gc_init(MB);

    let size = 8;
    let semantics = AllocationSemantics::Default;

    // A relatively small object, typical for Ruby.
    let addr = allocate(&mut mmtk, size, semantics);
    assert!(!addr.is_zero());

    let objref = ObjectReference::from_address(addr);
    func(&Fixture { mmtk, addr, objref });
}

fn both(fixture: &Fixture, object: ObjectReference) -> (bool, bool) {
    (
        is_alloced(&fixture.mmtk, object),
        is_mapped_object(&fixture.mmtk, object),
    )
}

#[test]
pub fn conservatism_null() {
    with_fixture(|fixture| {
        assert_eq!(both(fixture, ObjectReference(0)), (false, false));
    });
}

#[test]
pub fn conservatism_max() {
    with_fixture(|fixture| {
        assert_eq!(both(fixture, ObjectReference(usize::MAX)), (false, false));
    });
}

#[test]
pub fn conservatism_direct_hit() {
    with_fixture(|fixture| {
        assert_eq!(both(fixture, fixture.objref), (true, true));
    });
}

#[test]
pub fn conservatism_small_offset_aligned() {
    with_fixture(|fixture| {
        assert_eq!(
            both(fixture, ObjectReference::from_address(fixture.addr.add(8))),
            (false, false)
        );
    });
}

#[test]
pub fn conservatism_small_offset_unaligned() {
    with_fixture(|fixture| {
        assert_eq!(
            both(fixture, ObjectReference::from_address(fixture.addr.add(1))),
            (false, false)
        );
    });
}

#[test]
pub fn conservatism_medium_offset_aligned_4k() {
    with_fixture(|fixture| {
        assert_eq!(
            both(fixture, ObjectReference::from_address(fixture.addr.add(4 * 1024))),
            (false, false)
        );
    });
}

#[test]
pub fn conservatism_medium_offset_aligned_64k() {
    with_fixture(|fixture| {
        assert_eq!(
            both(fixture, ObjectReference::from_address(fixture.addr.add(64 * 1024))),
            (false, false)
        );
    });
}

#[test]
pub fn conservatism_medium_offset_aligned_1m() {
    with_fixture(|fixture| {
        assert_eq!(
            both(fixture, ObjectReference::from_address(fixture.addr.add(1024 * 1024))),
            (false, false)
        );
    });
}

#[test]
pub fn conservatism_medium_offset_aligned_32m() {
    with_fixture(|fixture| {
        assert_eq!(
            both(
                fixture,
                ObjectReference::from_address(fixture.addr.add(32 * 1024 * 1024))
            ),
            (false, false)
        );
    });
}

#[test]
pub fn conservatism_medium_offset_aligned_1g() {
    with_fixture(|fixture| {
        assert_eq!(
            both(
                fixture,
                ObjectReference::from_address(fixture.addr.add(1024 * 1024 * 1024))
            ),
            (false, false)
        );
    });
}

#[test]
pub fn conservatism_medium_offset_aligned_32g() {
    with_fixture(|fixture| {
        assert_eq!(
            both(
                fixture,
                ObjectReference::from_address(fixture.addr.add(32 * 1024 * 1024 * 1024))
            ),
            (false, false)
        );
    });
}

#[test]
pub fn allocation_lays_objects_one_behind_the_other() {
    let mut mmtk = gc_init(1024 * 1024);
    let a = allocate(&mut mmtk, 8, AllocationSemantics::Default);
    let b = allocate(&mut mmtk, 24, AllocationSemantics::Default);
    let c = allocate(&mut mmtk, 8, AllocationSemantics::Default);
    assert_eq!(a, Address(0x1000_0000));
    assert_eq!(b, Address(0x1000_0008));
    // 24 bytes: a header and two fields
    assert_eq!(c, Address(0x1000_0020));
    assert_eq!(mmtk.heap.num_fields(ObjectReference(b.0)), 2);
    assert_eq!(mmtk.heap.num_fields(ObjectReference(a.0)), 0);
    // the immortal space lies behind the default space
    let d = allocate(&mut mmtk, 8, AllocationSemantics::Immortal);
    assert_eq!(d, Address(0x1000_0000 + 1024 * 1024));
    let e = allocate(&mut mmtk, 8, AllocationSemantics::Los);
    assert_eq!(e, Address(0x1000_0000 + 2 * 1024 * 1024));
}

#[test]
pub fn allocation_fails_when_the_space_is_full() {
    let mut mmtk = gc_init(64);
    // 64 bytes: eight objects of eight bytes
    for i in 0..8 {
        let a = allocate(&mut mmtk, 8, AllocationSemantics::Default);
        assert_eq!(a, Address(0x1000_0000 + 8 * i));
    }
    let a = allocate(&mut mmtk, 8, AllocationSemantics::Default);
    assert!(a.is_zero());
    assert!(mmtk.plan.collection_required(&mmtk.heap, true));
    assert!(!mmtk.plan.collection_required(&mmtk.heap, false));
    assert_eq!(mmtk.plan.get_used_pages(&mmtk.heap), 1);
    assert!(!mmtk.plan.constraints().collects_garbage);
}
