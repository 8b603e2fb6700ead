use mmtk::macros::trace_object::derive_plan_trace_object;
use mmtk::macros::trace_object::generate_create_scan_work;
use mmtk::macros::trace_object::generate_may_move_objects;
use mmtk::macros::trace_object::generate_trace_object;
use mmtk::macros::trace_object::get_fields_with_attribute;
use mmtk::macros::trace_object::get_trace_attribute;
use mmtk::macros::trace_object::get_unique_field_with_attribute;
use mmtk::macros::trace_object::has_attribute;
use mmtk::macros::trace_object::CopySemantics;
use mmtk::macros::trace_object::DeriveError;
use mmtk::macros::trace_object::Field;
use mmtk::macros::trace_object::FieldAttribute;
use mmtk::macros::trace_object::TraceTarget;
use mmtk::macros::trace_object::TracedSpace;
use mmtk::plan::immix::gc_work::ImmixGCWorkContext;
use mmtk::plan::pageprotect::gc_work::PPGCWorkContext;
use mmtk::plan::semispace::gc_work::SSGCWorkContext;
use mmtk::policy::gc_work::GCWorkContext;
use mmtk::policy::gc_work::DEFAULT_TRACE;
use mmtk::util::address::Address;
use mmtk::util::address::ObjectReference;
use mmtk::util::reference_processor::ReferenceProcessor;
use mmtk::util::reference_processor::ReferenceProcessors;
use mmtk::util::reference_processor::Semantics;

fn field(index: usize, attributes: Vec<FieldAttribute>) -> Field {
    Field { index, attributes }
}

/// A plan like the one with a nursery and two semispaces, built on the
/// common plan.
fn fields() -> Vec<Field> {
    vec![
        field(0, vec![]),
        field(3, vec![FieldAttribute::Trace(Some(CopySemantics::DefaultCopy))]),
        field(4, vec![FieldAttribute::ScanWork, FieldAttribute::Trace(None)]),
        field(5, vec![FieldAttribute::Trace(Some(CopySemantics::PromoteToMature))]),
        field(6, vec![FieldAttribute::FallbackTrace]),
    ]
}

#[test]
fn deriving_the_tracing_of_a_plan() {
    let derived = derive_plan_trace_object(&fields()).unwrap();
    assert_eq!(
        derived.spaces,
        vec![
            TracedSpace { field: 3, copy: Some(CopySemantics::DefaultCopy) },
            TracedSpace { field: 4, copy: None },
            TracedSpace { field: 5, copy: Some(CopySemantics::PromoteToMature) },
        ]
    );
    assert_eq!(derived.parent, Some(6));
    assert_eq!(derived.scan_work, Some(4));

    // the first space that claims the object traces it
    assert_eq!(
        derived.trace_target(&vec![false, true, true]),
        TraceTarget::Space(TracedSpace { field: 4, copy: None })
    );
    assert_eq!(
        derived.trace_target(&vec![true, true, false]),
        TraceTarget::Space(TracedSpace { field: 3, copy: Some(CopySemantics::DefaultCopy) })
    );
    assert_eq!(derived.trace_target(&vec![false, false, false]), TraceTarget::Parent(6));

    // a plan that is built on no other
    let base = derive_plan_trace_object(&vec![
        field(1, vec![FieldAttribute::Trace(None)]),
        field(2, vec![FieldAttribute::Trace(None)]),
    ])
    .unwrap();
    assert_eq!(base.parent, None);
    // without a field marked for it, the first traced space makes the scan work
    assert_eq!(base.scan_work, Some(1));
    assert_eq!(base.trace_target(&vec![false, false]), TraceTarget::NoMoreSpaces);
    assert_eq!(
        base.trace_target(&vec![false, true]),
        TraceTarget::Space(TracedSpace { field: 2, copy: None })
    );

    let none = derive_plan_trace_object(&vec![field(0, vec![])]).unwrap();
    assert!(none.spaces.is_empty());
    assert_eq!(none.scan_work, None);
    assert_eq!(none.trace_target(&vec![]), TraceTarget::NoMoreSpaces);
}

#[test]
fn marks_that_may_stand_once() {
    let mut twice = fields();
    twice.push(field(7, vec![FieldAttribute::ScanWork]));
    assert!(matches!(
        derive_plan_trace_object(&twice),
        Err(DeriveError::MoreThanOneScanWork)
    ));
    let mut twice = fields();
    twice.push(field(7, vec![FieldAttribute::FallbackTrace]));
    assert!(matches!(
        derive_plan_trace_object(&twice),
        Err(DeriveError::MoreThanOneFallbackTrace)
    ));
    twice.push(field(8, vec![FieldAttribute::ScanWork]));
    assert!(matches!(
        derive_plan_trace_object(&twice),
        Err(DeriveError::MoreThanOneScanWork)
    ));
    assert_eq!(get_fields_with_attribute(&twice, FieldAttribute::ScanWork), vec![4, 8]);
    assert_eq!(
        get_unique_field_with_attribute(
            &fields(),
            FieldAttribute::FallbackTrace,
            DeriveError::MoreThanOneFallbackTrace
        ),
        Ok(Some(6))
    );
    assert_eq!(
        get_unique_field_with_attribute(
            &vec![],
            FieldAttribute::FallbackTrace,
            DeriveError::MoreThanOneFallbackTrace
        ),
        Ok(None)
    );
    let f = &fields()[2];
    assert!(has_attribute(f, FieldAttribute::ScanWork));
    assert!(has_attribute(f, FieldAttribute::Trace(None)));
    assert!(!has_attribute(f, FieldAttribute::FallbackTrace));
    assert_eq!(get_trace_attribute(f), Some(None));
    assert_eq!(get_trace_attribute(&fields()[0]), None);
    assert_eq!(get_trace_attribute(&fields()[1]), Some(Some(CopySemantics::DefaultCopy)));
}

#[test]
fn parts_of_the_derivation() {
    let spaces = vec![
        TracedSpace { field: 2, copy: None },
        TracedSpace { field: 1, copy: Some(CopySemantics::Mature) },
    ];
    assert_eq!(generate_trace_object(&spaces, Some(9)), (spaces.clone(), Some(9)));
    assert_eq!(generate_create_scan_work(&spaces, Some(1)), Some(1));
    assert_eq!(generate_create_scan_work(&spaces, None), Some(2));
    assert_eq!(generate_create_scan_work(&vec![], None), None);
    assert!(!generate_may_move_objects(&vec![], None));
    assert!(!generate_may_move_objects(&vec![false, false], Some(false)));
    assert!(generate_may_move_objects(&vec![false, true], Some(false)));
    assert!(generate_may_move_objects(&vec![false, false], Some(true)));
    assert!(!generate_may_move_objects(&vec![false], None));
}

#[test]
fn kinds_of_trace() {
    assert_eq!(SSGCWorkContext.trace_kind(), DEFAULT_TRACE);
    assert_eq!(PPGCWorkContext.trace_kind(), DEFAULT_TRACE);
    assert_eq!(ImmixGCWorkContext::<1>.trace_kind(), 1);
    assert_eq!(DEFAULT_TRACE, u8::MAX);
}

#[test]
fn reference_tables() {
    let mut p = ReferenceProcessors::new();
    for s in [Semantics::SOFT, Semantics::WEAK, Semantics::PHANTOM] {
        assert_eq!(p.get(s).len(), 0);
        assert_eq!(p.get(s).get_nursery_index(), 0);
    }
    p.add_soft_candidate(ObjectReference(0x10), ObjectReference(0x100));
    p.add_weak_candidate(ObjectReference(0x20), ObjectReference(0x200));
    p.add_weak_candidate(ObjectReference(0x28), ObjectReference(0x200));
    p.add_phantom_candidate(ObjectReference(0x30), ObjectReference(0x300));
    assert_eq!(p.get(Semantics::SOFT).len(), 1);
    assert_eq!(p.get(Semantics::WEAK).len(), 2);
    assert_eq!(p.get(Semantics::WEAK).get(1), Address(0x28));
    assert_eq!(p.get(Semantics::PHANTOM).get(0), Address(0x30));

    // the soft and the weak references are scanned: one weak reference goes
    let mut seen = vec![];
    p.scan_weak_refs(&mut |r: ObjectReference| {
        seen.push(r);
        if r == ObjectReference(0x20) {
            ObjectReference(0)
        } else {
            ObjectReference(r.0 + 0x1000)
        }
    });
    assert_eq!(seen, vec![ObjectReference(0x10), ObjectReference(0x20), ObjectReference(0x28)]);
    assert_eq!(p.get(Semantics::SOFT).len(), 1);
    assert_eq!(p.get(Semantics::SOFT).get(0), Address(0x1010));
    assert_eq!(p.get(Semantics::WEAK).len(), 1);
    assert_eq!(p.get(Semantics::WEAK).get(0), Address(0x1028));
    assert_eq!(p.get(Semantics::WEAK).get_nursery_index(), 1);
    assert_eq!(p.get(Semantics::PHANTOM).len(), 1);
    p.scan_soft_refs(&mut |r: ObjectReference| r);
    p.scan_phantom_refs(&mut |_r: ObjectReference| ObjectReference(0));
    assert_eq!(p.get(Semantics::PHANTOM).len(), 0);
    assert_eq!(p.get(Semantics::SOFT).get(0), Address(0x1010));

    // the references are forwarded as they were before the scan
    let mut forwarded = vec![];
    p.forward_refs(&mut |r: ObjectReference| forwarded.push(r));
    assert_eq!(forwarded, vec![ObjectReference(0x1010), ObjectReference(0x20)]);
}

#[test]
fn scanning_the_new_references_only() {
    let mut p = ReferenceProcessor::new(Semantics::WEAK);
    p.add_candidate(ObjectReference(0x10), ObjectReference(0));
    p.add_candidate(ObjectReference(0x18), ObjectReference(0));
    p.scan(&mut |r: ObjectReference| r, false);
    assert_eq!(p.get_nursery_index(), 2);
    p.add_candidate(ObjectReference(0x20), ObjectReference(0));
    p.add_candidate(ObjectReference(0x28), ObjectReference(0));
    let mut seen = vec![];
    p.scan(
        &mut |r: ObjectReference| {
            seen.push(r);
            if r.0 == 0x20 {
                ObjectReference(0)
            } else {
                r
            }
        },
        true,
    );
    // only the new references were looked at
    assert_eq!(seen, vec![ObjectReference(0x20), ObjectReference(0x28)]);
    assert_eq!(p.len(), 3);
    assert_eq!(p.get(0), Address(0x10));
    assert_eq!(p.get(1), Address(0x18));
    assert_eq!(p.get(2), Address(0x28));
    assert_eq!(p.get_nursery_index(), 3);
    let mut n = 0;
    p.forward(&mut |_r: ObjectReference| n += 1, false);
    assert_eq!(n, 3);
}
