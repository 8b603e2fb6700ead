//! The tables of the reference objects of the runtime: soft, weak and
//! phantom references, which the collector treats in a collection after the
//! objects that are strongly reachable.
//!
//! What happens to a single reference is decided by the runtime; the
//! tables keep those that remain.

use crate::util::address::Address;
use crate::util::address::ObjectReference;
use vstd::prelude::*;

verus! {

/// The strength of a reference.
#[derive(Debug, Clone, Copy, PartialEq, Eq, Hash, Structural)]
pub enum Semantics {
    SOFT,
    WEAK,
    PHANTOM,
}

/// The number of references that a table first has room for.
pub const INITIAL_SIZE: usize = 256;

/// The table of the references of one strength.
pub struct ReferenceProcessor {
    /// The references, in the order in which they were added.
    references: Vec<Address>,
    /// The references as they were before the last scan, until they are
    /// forwarded.
    unforwarded_references: Option<Vec<Address>>,
    /// The number of references that were in the table after the last
    /// scan: those behind are new.
    nursery_index: usize,
    semantics: Semantics,
}

/// The references of `results` that are not null, in order, as addresses.
pub open spec fn spec_kept(results: Seq<ObjectReference>) -> Seq<Address>
    decreases results.len(),
{
    if results.len() == 0 {
        Seq::empty()
    } else if results.last()@ == 0 {
        spec_kept(results.drop_last())
    } else {
        spec_kept(results.drop_last()).push(Address(results.last().0))
    }
}

/// The place from which a scan takes the references: behind the old ones
/// if only the new ones are scanned, else the first.
pub open spec fn spec_scan_from(nursery: bool, nursery_index: int) -> int {
    if nursery {
        nursery_index
    } else {
        0
    }
}

/// Whether `results` are what `process_reference` gave for the references
/// of `references` from place `from` on, one after the other.
pub open spec fn spec_scan_results<F: FnMut(ObjectReference) -> ObjectReference>(
    process_reference: F,
    references: Seq<Address>,
    from: int,
    results: Seq<ObjectReference>,
) -> bool {
    &&& results.len() == references.len() - from
    &&& forall|i: int|
        0 <= i < results.len() ==> call_ensures(
            process_reference,
            (ObjectReference(references[from + i].0),),
            #[trigger] results[i],
        )
}

/// Whether the referent of the soft reference `reference` was retained as
/// far as it had to be: `is_live` was asked whether the reference is alive;
/// if it said so, `get_referent` was asked for the referent; and if that is
/// not null, `retain` was called with it.
pub open spec fn spec_retained<
    L: FnMut(ObjectReference) -> bool,
    G: FnMut(ObjectReference) -> ObjectReference,
    R: FnMut(ObjectReference),
>(is_live: L, get_referent: G, retain: R, reference: ObjectReference) -> bool {
    exists|live: bool|
        (#[trigger] call_ensures(is_live, (reference,), live)) && (live ==> exists|
            referent: ObjectReference,
        |
            (#[trigger] call_ensures(get_referent, (reference,), referent)) && (referent@ != 0
                ==> call_ensures(retain, (referent,), ())))
}

impl ReferenceProcessor {
    /// The new references are not counted among the old.
    pub open spec fn wf(&self) -> bool {
        self.nursery_index() <= self.references().len()
    }

    /// The references in the table, in the order in which they were added.
    pub closed spec fn references(&self) -> Seq<Address> {
        self.references@
    }

    /// The references as they were before the last scan, if they were not
    /// forwarded since.
    pub closed spec fn unforwarded_references(&self) -> Option<Seq<Address>> {
        match self.unforwarded_references {
            Some(v) => Some(v@),
            None => None,
        }
    }

    /// The number of references that were in the table after the last
    /// scan.
    pub closed spec fn nursery_index(&self) -> int {
        self.nursery_index as int
    }

    /// The strength of the references of the table.
    pub closed spec fn semantics(&self) -> Semantics {
        self.semantics
    }

    /// An empty table for references of the given strength.
    pub fn new(semantics: Semantics) -> (p: Self)
        ensures
            p.references() == Seq::<Address>::empty(),
            p.unforwarded_references() is None,
            p.nursery_index() == 0,
            p.semantics() == semantics,
            p.wf(),
    {
        ReferenceProcessor {
            references: Vec::with_capacity(INITIAL_SIZE),
            unforwarded_references: None,
            nursery_index: 0,
            semantics,
        }
    }

    /// The number of references in the table.
    pub fn len(&self) -> (n: usize)
        ensures
            n == self.references().len(),
    {
        self.references.len()
    }

    /// The reference at place `index` of the table.
    pub fn get(&self, index: usize) -> (reference: Address)
        requires
            index < self.references().len(),
        ensures
            reference == self.references()[index as int],
    {
        self.references[index]
    }

    /// The number of references that count as old.
    pub fn get_nursery_index(&self) -> (n: usize)
        ensures
            n == self.nursery_index(),
    {
        self.nursery_index
    }

    /// Adds the reference object `reff` to the table. It is for the
    /// runtime to make it refer to `referent`.
    pub fn add_candidate(&mut self, reff: ObjectReference, referent: ObjectReference)
        ensures
            final(self).references() == old(self).references().push(Address(reff.0)),
            final(self).unforwarded_references() == old(self).unforwarded_references(),
            final(self).nursery_index() == old(self).nursery_index(),
            final(self).semantics() == old(self).semantics(),
            old(self).wf() ==> final(self).wf(),
    {
        self.references.push(reff.to_address());
    }

    /// Hands every reference as it was before the last scan to
    /// `forward_reference`, for the runtime to make the reference and its
    /// referent follow the objects that were moved. After that the table
    /// keeps the references before the scan no longer.
    pub fn forward<F: FnMut(ObjectReference)>(&mut self, forward_reference: &mut F, nursery: bool)
        requires
            old(self).unforwarded_references() is Some,
            old(self).unforwarded_references().unwrap().len() >= old(self).references().len(),
            forall|i: int|
                0 <= i < old(self).references().len() ==> call_requires(
                    *old(forward_reference),
                    (ObjectReference(
                        (#[trigger] old(self).unforwarded_references().unwrap()[i]).0,
                    ),),
                ),
        ensures
            final(self).references() == old(self).references(),
            final(self).unforwarded_references() is None,
            final(self).nursery_index() == old(self).nursery_index(),
            final(self).semantics() == old(self).semantics(),
            *final(forward_reference) == *old(forward_reference),
    {
        let mut taken: Option<Vec<Address>> = None;
        core::mem::swap(&mut taken, &mut self.unforwarded_references);
        let unforwarded_references = taken.unwrap();
        let n = self.references.len();
        let mut i: usize = 0;
        while i < n
            invariant
                i <= n,
                n == old(self).references().len(),
                unforwarded_references@ == old(self).unforwarded_references().unwrap(),
                unforwarded_references@.len() >= n,
                *forward_reference == *old(forward_reference),
                forall|j: int|
                    0 <= j < n ==> call_requires(
                        *old(forward_reference),
                        (ObjectReference((#[trigger] unforwarded_references@[j]).0),),
                    ),
            decreases n - i,
        {
            let reference = ObjectReference::from_address(unforwarded_references[i]);
            assert(reference == ObjectReference(unforwarded_references@[i as int].0));
            forward_reference(reference);
            i = i + 1;
        }
    }

    /// Scans the references: all of them, or only the new ones if
    /// `nursery`. Each is handed to `process_reference`, by which the
    /// runtime decides whether the reference stays, and where it lies now. A
    /// reference for which null comes back leaves the table; the others stay
    /// in their order, each at the place that came back. All that are left
    /// count as old afterwards. The table keeps the references as they were
    /// before, to be forwarded.
    pub fn scan<F: FnMut(ObjectReference) -> ObjectReference>(
        &mut self,
        process_reference: &mut F,
        nursery: bool,
    )
        requires
            old(self).wf(),
            forall|i: int|
                0 <= i < old(self).references().len() ==> call_requires(
                    *old(process_reference),
                    (ObjectReference((#[trigger] old(self).references()[i]).0),),
                ),
        ensures
            *final(process_reference) == *old(process_reference),
            final(self).semantics() == old(self).semantics(),
            final(self).unforwarded_references() == Some(old(self).references()),
            final(self).nursery_index() == final(self).references().len(),
            final(self).wf(),
            exists|results: Seq<ObjectReference>| (#[trigger] spec_scan_results(
                    *old(process_reference),
                    old(self).references(),
                    spec_scan_from(nursery, old(self).nursery_index()),
                    results,
                )) && final(self).references() == old(self).references().subrange(
                    0,
                    spec_scan_from(nursery, old(self).nursery_index()),
                ) + spec_kept(results),
    {
        let from: usize = if nursery {
            self.nursery_index
        } else {
            0
        };
        let n = self.references.len();
        let mut kept: Vec<Address> = Vec::new();
        let mut before: Vec<Address> = Vec::new();
        // keep what is not scanned
        let mut i: usize = 0;
        while i < n
            invariant
                i <= n,
                n == self.references@.len(),
                self.references@ == old(self).references(),
                before@ == self.references@.subrange(0, i as int),
                kept@ == self.references@.subrange(0, if i <= from {
                    i as int
                } else {
                    from as int
                }),
                from <= n,
            decreases n - i,
        {
            before.push(self.references[i]);
            if i < from {
                kept.push(self.references[i]);
            }
            i = i + 1;
            proof {
                assert(before@ =~= self.references@.subrange(0, i as int));
                assert(kept@ =~= self.references@.subrange(0, if i <= from {
                    i as int
                } else {
                    from as int
                }));
            }
        }
        assert(before@ =~= self.references@);
        let ghost mut results: Seq<ObjectReference> = Seq::empty();
        let mut from_index: usize = from;
        proof {
            assert(kept@ =~= self.references@.subrange(0, from as int) + spec_kept(results));
        }
        while from_index < n
            invariant
                from <= from_index <= n,
                n == self.references@.len(),
                self.references@ == old(self).references(),
                *process_reference == *old(process_reference),
                results.len() == from_index - from,
                forall|j: int|
                    0 <= j < results.len() ==> call_ensures(
                        *old(process_reference),
                        (ObjectReference(self.references@[from + j].0),),
                        #[trigger] results[j],
                    ),
                kept@ == self.references@.subrange(0, from as int) + spec_kept(results),
                forall|j: int|
                    0 <= j < n ==> call_requires(
                        *old(process_reference),
                        (ObjectReference((#[trigger] self.references@[j]).0),),
                    ),
            decreases n - from_index,
        {
            let reference = ObjectReference::from_address(self.references[from_index]);
            assert(reference == ObjectReference(self.references@[from_index as int].0));
            // Whether the reference stays, and where it lies now.
            let new_reference = process_reference(reference);
            let ghost results_before = results;
            proof {
                results = results.push(new_reference);
                assert(results.drop_last() =~= results_before);
                assert forall|j: int| 0 <= j < results.len() implies call_ensures(
                    *old(process_reference),
                    (ObjectReference(self.references@[from + j].0),),
                    #[trigger] results[j],
                ) by {
                    if j < results_before.len() {
                        assert(results[j] == results_before[j]);
                    }
                }
            }
            if !new_reference.is_null() {
                kept.push(new_reference.to_address());
                proof {
                    assert(kept@ =~= self.references@.subrange(0, from as int) + spec_kept(
                        results,
                    ));
                }
            }
            from_index = from_index + 1;
        }
        let nursery_index = kept.len();
        proof {
            assert(spec_scan_results(
                *old(process_reference),
                old(self).references(),
                from as int,
                results,
            ));
        }
        *self = ReferenceProcessor {
            references: kept,
            unforwarded_references: Some(before),
            nursery_index,
            semantics: self.semantics,
        };
        proof {
            let start = spec_scan_from(nursery, old(self).nursery_index());
            assert(start == from);
            assert(self.references() == old(self).references().subrange(0, start) + spec_kept(
                results,
            ));
            assert(spec_scan_results(
                *old(process_reference),
                old(self).references(),
                start,
                results,
            ));
        }
    }
}

impl ReferenceProcessor {
    /// Retains the referent of the soft reference `reference` if the
    /// reference itself is alive: `is_live` tells whether it is,
    /// `get_referent` gives its referent, and `retain` keeps the referent
    /// alive. A reference that is not known to be alive is left for later,
    /// and so is one without referent.
    fn retain_referent<
        L: FnMut(ObjectReference) -> bool,
        G: FnMut(ObjectReference) -> ObjectReference,
        R: FnMut(ObjectReference),
    >(
        &self,
        is_live: &mut L,
        get_referent: &mut G,
        retain: &mut R,
        reference: ObjectReference,
    )
        requires
            reference@ != 0,
            self.semantics() == Semantics::SOFT,
            call_requires(*old(is_live), (reference,)),
            call_requires(*old(get_referent), (reference,)),
            forall|referent: ObjectReference|
                referent@ != 0 ==> call_requires(*old(retain), (referent,)),
        ensures
            *final(is_live) == *old(is_live),
            *final(get_referent) == *old(get_referent),
            *final(retain) == *old(retain),
            spec_retained(*old(is_live), *old(get_referent), *old(retain), reference),
    {
        let live = is_live(reference);
        assert(call_ensures(*old(is_live), (reference,), live));
        if !live {
            // The reference may become reachable yet: the decision is put
            // off.
            return ;
        }
        // The reference is reachable for sure: its referent is retained.
        let referent = get_referent(reference);
        assert(call_ensures(*old(get_referent), (reference,), referent));
        if !referent.is_null() {
            retain(referent);
            assert(call_ensures(*old(retain), (referent,), ()));
        }
    }

    /// Scans the soft references, all of them or only the new ones if
    /// `nursery`, to retain the referents of those that are alive: for each
    /// in turn `is_live` is asked, and for one that is alive `get_referent`,
    /// and `retain` is called with a referent that is not null. The table
    /// stays as it is, and keeps a copy of itself to be forwarded.
    pub fn scan_retain<
        L: FnMut(ObjectReference) -> bool,
        G: FnMut(ObjectReference) -> ObjectReference,
        R: FnMut(ObjectReference),
    >(
        &mut self,
        is_live: &mut L,
        get_referent: &mut G,
        retain: &mut R,
        nursery: bool,
    )
        requires
            old(self).wf(),
            old(self).semantics() == Semantics::SOFT,
            forall|i: int|
                0 <= i < old(self).references().len() ==> (#[trigger] old(self).references()[i])@
                    != 0,
            forall|reference: ObjectReference|
                call_requires(*old(is_live), (reference,)) && call_requires(
                    *old(get_referent),
                    (reference,),
                ),
            forall|referent: ObjectReference|
                referent@ != 0 ==> call_requires(*old(retain), (referent,)),
        ensures
            *final(is_live) == *old(is_live),
            *final(get_referent) == *old(get_referent),
            *final(retain) == *old(retain),
            final(self).references() == old(self).references(),
            final(self).nursery_index() == old(self).nursery_index(),
            final(self).semantics() == old(self).semantics(),
            final(self).unforwarded_references() == Some(old(self).references()),
            final(self).wf(),
            forall|i: int|
                spec_scan_from(nursery, old(self).nursery_index()) <= i < old(
                    self,
                ).references().len() ==> spec_retained(
                    *old(is_live),
                    *old(get_referent),
                    *old(retain),
                    ObjectReference((#[trigger] old(self).references()[i]).0),
                ),
    {
        let n = self.references.len();
        let mut before: Vec<Address> = Vec::new();
        let mut i: usize = 0;
        while i < n
            invariant
                i <= n,
                n == self.references@.len(),
                *self == *old(self),
                before@ == self.references@.subrange(0, i as int),
            decreases n - i,
        {
            before.push(self.references[i]);
            i = i + 1;
            assert(before@ =~= self.references@.subrange(0, i as int));
        }
        assert(before@ =~= self.references@);
        self.unforwarded_references = Some(before);
        let mut from_index: usize = if nursery {
            self.nursery_index
        } else {
            0
        };
        let ghost start = from_index as int;
        while from_index < n
            invariant
                start <= from_index,
                start == spec_scan_from(nursery, old(self).nursery_index()),
                forall|i: int|
                    start <= i < from_index && i < n ==> spec_retained(
                        *old(is_live),
                        *old(get_referent),
                        *old(retain),
                        ObjectReference((#[trigger] self.references@[i]).0),
                    ),
                n == self.references@.len(),
                self.references@ == old(self).references(),
                self.nursery_index == old(self).nursery_index,
                self.semantics == old(self).semantics,
                self.semantics() == Semantics::SOFT,
                self.unforwarded_references() == Some(old(self).references()),
                *is_live == *old(is_live),
                *get_referent == *old(get_referent),
                *retain == *old(retain),
                forall|j: int| 0 <= j < n ==> (#[trigger] self.references@[j])@ != 0,
                forall|reference: ObjectReference|
                    call_requires(*old(is_live), (reference,)) && call_requires(
                        *old(get_referent),
                        (reference,),
                    ),
                forall|referent: ObjectReference|
                    referent@ != 0 ==> call_requires(*old(retain), (referent,)),
            decreases n - from_index,
        {
            let reference = ObjectReference::from_address(self.references[from_index]);
            assert(self.references@[from_index as int]@ != 0);
            self.retain_referent(is_live, get_referent, retain, reference);
            from_index = from_index + 1;
        }
    }
}

/// The tables of the references of all strengths.
pub struct ReferenceProcessors {
    soft: ReferenceProcessor,
    weak: ReferenceProcessor,
    phantom: ReferenceProcessor,
}

impl ReferenceProcessors {
    /// The table of the soft references.
    pub closed spec fn soft(&self) -> &ReferenceProcessor {
        &self.soft
    }

    /// The table of the weak references.
    pub closed spec fn weak(&self) -> &ReferenceProcessor {
        &self.weak
    }

    /// The table of the phantom references.
    pub closed spec fn phantom(&self) -> &ReferenceProcessor {
        &self.phantom
    }

    /// Every table is well formed.
    pub open spec fn wf(&self) -> bool {
        self.soft().wf() && self.weak().wf() && self.phantom().wf()
    }

    /// The table of the references of the given strength.
    pub open spec fn spec_get(&self, semantics: Semantics) -> &ReferenceProcessor {
        match semantics {
            Semantics::SOFT => self.soft(),
            Semantics::WEAK => self.weak(),
            Semantics::PHANTOM => self.phantom(),
        }
    }

    /// Empty tables.
    pub fn new() -> (p: Self)
        ensures
            p.wf(),
            forall|s: Semantics|
                (#[trigger] p.spec_get(s)).references() == Seq::<Address>::empty() && p.spec_get(
                    s,
                ).semantics() == s && p.spec_get(s).nursery_index() == 0 && p.spec_get(
                    s,
                ).unforwarded_references() is None,
    {
        ReferenceProcessors {
            soft: ReferenceProcessor::new(Semantics::SOFT),
            weak: ReferenceProcessor::new(Semantics::WEAK),
            phantom: ReferenceProcessor::new(Semantics::PHANTOM),
        }
    }

    /// The table of the references of the given strength.
    pub fn get(&self, semantics: Semantics) -> (p: &ReferenceProcessor)
        ensures
            p == self.spec_get(semantics),
    {
        match semantics {
            Semantics::SOFT => &self.soft,
            Semantics::WEAK => &self.weak,
            Semantics::PHANTOM => &self.phantom,
        }
    }

    /// Adds a soft reference.
    pub fn add_soft_candidate(&mut self, reff: ObjectReference, referent: ObjectReference)
        ensures
            old(self).wf() ==> final(self).wf(),
            final(self).soft().references() == old(self).soft().references().push(Address(reff.0)),
            final(self).soft().nursery_index() == old(self).soft().nursery_index(),
            final(self).soft().semantics() == old(self).soft().semantics(),
            final(self).soft().unforwarded_references() == old(self).soft().unforwarded_references(),
            *final(self).weak() == *old(self).weak(),
            *final(self).phantom() == *old(self).phantom(),
    {
        self.soft.add_candidate(reff, referent);
    }

    /// Adds a weak reference.
    pub fn add_weak_candidate(&mut self, reff: ObjectReference, referent: ObjectReference)
        ensures
            old(self).wf() ==> final(self).wf(),
            final(self).weak().references() == old(self).weak().references().push(Address(reff.0)),
            final(self).weak().nursery_index() == old(self).weak().nursery_index(),
            final(self).weak().semantics() == old(self).weak().semantics(),
            final(self).weak().unforwarded_references() == old(self).weak().unforwarded_references(),
            *final(self).soft() == *old(self).soft(),
            *final(self).phantom() == *old(self).phantom(),
    {
        self.weak.add_candidate(reff, referent);
    }

    /// Adds a phantom reference.
    pub fn add_phantom_candidate(&mut self, reff: ObjectReference, referent: ObjectReference)
        ensures
            old(self).wf() ==> final(self).wf(),
            final(self).phantom().references() == old(self).phantom().references().push(
                Address(reff.0),
            ),
            final(self).phantom().nursery_index() == old(self).phantom().nursery_index(),
            final(self).phantom().semantics() == old(self).phantom().semantics(),
            final(self).phantom().unforwarded_references() == old(
                self,
            ).phantom().unforwarded_references(),
            *final(self).soft() == *old(self).soft(),
            *final(self).weak() == *old(self).weak(),
    {
        self.phantom.add_candidate(reff, referent);
    }

    /// Scans the soft references, all of them.
    pub fn scan_soft_refs<F: FnMut(ObjectReference) -> ObjectReference>(
        &mut self,
        process_reference: &mut F,
    )
        requires
            old(self).wf(),
            forall|i: int|
                0 <= i < old(self).soft().references().len() ==> call_requires(
                    *old(process_reference),
                    (ObjectReference((#[trigger] old(self).soft().references()[i]).0),),
                ),
        ensures
            final(self).wf(),
            *final(process_reference) == *old(process_reference),
            *final(self).weak() == *old(self).weak(),
            *final(self).phantom() == *old(self).phantom(),
            final(self).soft().unforwarded_references() == Some(old(self).soft().references()),
            final(self).soft().nursery_index() == final(self).soft().references().len(),
            exists|results: Seq<ObjectReference>| (#[trigger] spec_scan_results(
                    *old(process_reference),
                    old(self).soft().references(),
                    0,
                    results,
                )) && final(self).soft().references() == spec_kept(results),
    {
        self.soft.scan(process_reference, false);
        proof {
            let results = choose|results: Seq<ObjectReference>| (#[trigger] spec_scan_results(
                    *old(process_reference),
                    old(self).soft().references(),
                    0,
                    results,
                )) && self.soft().references() == old(self).soft().references().subrange(0, 0)
                    + spec_kept(results);
            assert(old(self).soft().references().subrange(0, 0) + spec_kept(results) =~= spec_kept(
                results,
            ));
        }
    }

    /// Scans the phantom references, all of them.
    pub fn scan_phantom_refs<F: FnMut(ObjectReference) -> ObjectReference>(
        &mut self,
        process_reference: &mut F,
    )
        requires
            old(self).wf(),
            forall|i: int|
                0 <= i < old(self).phantom().references().len() ==> call_requires(
                    *old(process_reference),
                    (ObjectReference((#[trigger] old(self).phantom().references()[i]).0),),
                ),
        ensures
            final(self).wf(),
            *final(process_reference) == *old(process_reference),
            *final(self).weak() == *old(self).weak(),
            *final(self).soft() == *old(self).soft(),
            final(self).phantom().unforwarded_references() == Some(old(self).phantom().references()),
            final(self).phantom().nursery_index() == final(self).phantom().references().len(),
            exists|results: Seq<ObjectReference>| (#[trigger] spec_scan_results(
                    *old(process_reference),
                    old(self).phantom().references(),
                    0,
                    results,
                )) && final(self).phantom().references() == spec_kept(results),
    {
        self.phantom.scan(process_reference, false);
        proof {
            let results = choose|results: Seq<ObjectReference>| (#[trigger] spec_scan_results(
                    *old(process_reference),
                    old(self).phantom().references(),
                    0,
                    results,
                )) && self.phantom().references() == old(self).phantom().references().subrange(
                    0,
                    0,
                ) + spec_kept(results);
            assert(old(self).phantom().references().subrange(0, 0) + spec_kept(results)
                =~= spec_kept(results));
        }
    }

    /// Scans the soft references and then the weak references, all of
    /// them.
    pub fn scan_weak_refs<F: FnMut(ObjectReference) -> ObjectReference>(
        &mut self,
        process_reference: &mut F,
    )
        requires
            old(self).wf(),
            forall|i: int|
                0 <= i < old(self).soft().references().len() ==> call_requires(
                    *old(process_reference),
                    (ObjectReference((#[trigger] old(self).soft().references()[i]).0),),
                ),
            forall|i: int|
                0 <= i < old(self).weak().references().len() ==> call_requires(
                    *old(process_reference),
                    (ObjectReference((#[trigger] old(self).weak().references()[i]).0),),
                ),
        ensures
            final(self).wf(),
            *final(process_reference) == *old(process_reference),
            *final(self).phantom() == *old(self).phantom(),
            final(self).soft().unforwarded_references() == Some(old(self).soft().references()),
            final(self).weak().unforwarded_references() == Some(old(self).weak().references()),
            final(self).soft().nursery_index() == final(self).soft().references().len(),
            final(self).weak().nursery_index() == final(self).weak().references().len(),
            exists|results: Seq<ObjectReference>| (#[trigger] spec_scan_results(
                    *old(process_reference),
                    old(self).soft().references(),
                    0,
                    results,
                )) && final(self).soft().references() == spec_kept(results),
            exists|results: Seq<ObjectReference>| (#[trigger] spec_scan_results(
                    *old(process_reference),
                    old(self).weak().references(),
                    0,
                    results,
                )) && final(self).weak().references() == spec_kept(results),
    {
        self.scan_soft_refs(process_reference);
        self.weak.scan(process_reference, false);
        proof {
            let results = choose|results: Seq<ObjectReference>| (#[trigger] spec_scan_results(
                    *old(process_reference),
                    old(self).weak().references(),
                    0,
                    results,
                )) && self.weak().references() == old(self).weak().references().subrange(0, 0)
                    + spec_kept(results);
            assert(old(self).weak().references().subrange(0, 0) + spec_kept(results) =~= spec_kept(
                results,
            ));
        }
    }

    /// Forwards the references of all strengths: first the soft, then the
    /// weak, then the phantom ones.
    pub fn forward_refs<F: FnMut(ObjectReference)>(&mut self, forward_reference: &mut F)
        requires
            forall|s: Semantics|
                {
                    let p = #[trigger] old(self).spec_get(s);
                    &&& p.unforwarded_references() is Some
                    &&& p.unforwarded_references().unwrap().len() >= p.references().len()
                    &&& forall|i: int|
                        0 <= i < p.references().len() ==> call_requires(
                            *old(forward_reference),
                            (ObjectReference((#[trigger] p.unforwarded_references().unwrap()[i]).0),),
                        )
                },
        ensures
            *final(forward_reference) == *old(forward_reference),
            forall|s: Semantics|
                {
                    let p = #[trigger] final(self).spec_get(s);
                    &&& p.unforwarded_references() is None
                    &&& p.references() == old(self).spec_get(s).references()
                    &&& p.nursery_index() == old(self).spec_get(s).nursery_index()
                    &&& p.semantics() == old(self).spec_get(s).semantics()
                },
    {
        proof {
            let a = old(self).spec_get(Semantics::SOFT);
            let b = old(self).spec_get(Semantics::WEAK);
            let c = old(self).spec_get(Semantics::PHANTOM);
        }
        self.soft.forward(forward_reference, false);
        self.weak.forward(forward_reference, false);
        self.phantom.forward(forward_reference, false);
    }
}

} // verus!
