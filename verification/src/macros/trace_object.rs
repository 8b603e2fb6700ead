//! The derivation of how a plan traces an object.
//!
//! A plan is described by its fields. A field that is marked `trace` is a
//! space that is tried for an object, in the order of the fields; the mark
//! may name the way in which the space copies. The field that is marked
//! `fallback_trace` is the plan that this plan is built on, to which an
//! object goes that no space claims. The field that is marked `scan_work`
//! is the space that makes the packets that scan objects; without such a
//! field, the first traced space does.

use vstd::prelude::*;

verus! {

/// The way in which a space copies an object that it traces.
#[derive(Debug, Clone, Copy, PartialEq, Eq, Hash, Structural)]
pub enum CopySemantics {
    DefaultCopy,
    Nursery,
    PromoteToMature,
    Mature,
}

/// A mark on a field of a plan.
#[derive(Debug, Clone, Copy, PartialEq, Eq, Hash, Structural)]
pub enum FieldAttribute {
    /// The field is a space to trace in, which copies in the given way if
    /// one is given.
    Trace(Option<CopySemantics>),
    /// The field is the space that makes the packets that scan objects.
    ScanWork,
    /// The field is the plan to which objects go that no space claims.
    FallbackTrace,
}

/// A field of a plan: its place among the fields and its marks.
pub struct Field {
    pub index: usize,
    pub attributes: Vec<FieldAttribute>,
}

/// A traced space: the place of the field and the way in which the space
/// copies.
#[derive(Debug, Clone, Copy, PartialEq, Eq, Hash, Structural)]
pub struct TracedSpace {
    pub field: usize,
    pub copy: Option<CopySemantics>,
}

/// Why no tracing can be derived.
#[derive(Debug, Clone, Copy, PartialEq, Eq, Hash, Structural)]
pub enum DeriveError {
    /// More than one field is marked `scan_work`.
    MoreThanOneScanWork,
    /// More than one field is marked `fallback_trace`.
    MoreThanOneFallbackTrace,
}

/// Where an object goes to be traced.
#[derive(Debug, Clone, Copy, PartialEq, Eq, Hash, Structural)]
pub enum TraceTarget {
    /// To the space in this field, which copies in this way.
    Space(TracedSpace),
    /// To the plan in this field.
    Parent(usize),
    /// Nowhere: no space claims the object and there is no plan to fall
    /// back on.
    NoMoreSpaces,
}

/// What is derived for a plan.
pub struct PlanTraceObject {
    /// The spaces that are tried, in order.
    pub spaces: Vec<TracedSpace>,
    /// The plan that this plan is built on, if it is built on one.
    pub parent: Option<usize>,
    /// The field that makes the packets that scan objects, if there is
    /// one.
    pub scan_work: Option<usize>,
}

/// The way of copying that the first `trace` mark among `attributes` names,
/// if there is a `trace` mark at all.
pub open spec fn spec_trace_attribute(attributes: Seq<FieldAttribute>) -> Option<
    Option<CopySemantics>,
>
    decreases attributes.len(),
{
    if attributes.len() == 0 {
        None
    } else {
        match attributes[0] {
            FieldAttribute::Trace(copy) => Some(copy),
            _ => spec_trace_attribute(attributes.drop_first()),
        }
    }
}

/// Whether `attribute` is among `attributes`.
pub open spec fn spec_has_attribute(
    attributes: Seq<FieldAttribute>,
    attribute: FieldAttribute,
) -> bool {
    attributes.contains(attribute)
}

/// The traced spaces among `fields`, in the order of the fields.
pub open spec fn spec_traced_spaces(fields: Seq<Field>) -> Seq<TracedSpace>
    decreases fields.len(),
{
    if fields.len() == 0 {
        Seq::empty()
    } else {
        let rest = spec_traced_spaces(fields.drop_last());
        match spec_trace_attribute(fields.last().attributes@) {
            Some(copy) => rest.push(TracedSpace { field: fields.last().index, copy }),
            None => rest,
        }
    }
}

/// The places of the fields among `fields` that have the mark `attribute`,
/// in the order of the fields.
pub open spec fn spec_fields_with(fields: Seq<Field>, attribute: FieldAttribute) -> Seq<usize>
    decreases fields.len(),
{
    if fields.len() == 0 {
        Seq::empty()
    } else {
        let rest = spec_fields_with(fields.drop_last(), attribute);
        if spec_has_attribute(fields.last().attributes@, attribute) {
            rest.push(fields.last().index)
        } else {
            rest
        }
    }
}

/// The way of copying that the first `trace` mark of a field names, if the
/// field has such a mark.
pub fn get_trace_attribute(field: &Field) -> (copy: Option<Option<CopySemantics>>)
    ensures
        copy == spec_trace_attribute(field.attributes@),
{
    let mut i: usize = 0;
    let n = field.attributes.len();
    assert(field.attributes@.subrange(0, n as int) =~= field.attributes@);
    while i < n
        invariant
            i <= n,
            n == field.attributes@.len(),
            spec_trace_attribute(field.attributes@) == spec_trace_attribute(
                field.attributes@.subrange(i as int, n as int),
            ),
        decreases n - i,
    {
        let ghost rest = field.attributes@.subrange(i as int, n as int);
        assert(rest[0] == field.attributes@[i as int]);
        assert(rest.drop_first() =~= field.attributes@.subrange(i + 1, n as int));
        match field.attributes[i] {
            FieldAttribute::Trace(copy) => {
                return Some(copy);
            },
            _ => {},
        }
        i = i + 1;
    }
    None
}

/// Whether a field has the mark `attribute`.
pub fn has_attribute(field: &Field, attribute: FieldAttribute) -> (has: bool)
    ensures
        has == spec_has_attribute(field.attributes@, attribute),
{
    let mut i: usize = 0;
    let n = field.attributes.len();
    while i < n
        invariant
            i <= n,
            n == field.attributes@.len(),
            forall|j: int| 0 <= j < i ==> field.attributes@[j] != attribute,
        decreases n - i,
    {
        if field.attributes[i] == attribute {
            return true;
        }
        i = i + 1;
    }
    false
}

/// The places of the fields that have the mark `attribute`, in the order
/// of the fields.
pub fn get_fields_with_attribute(fields: &Vec<Field>, attribute: FieldAttribute) -> (found: Vec<
    usize,
>)
    ensures
        found@ == spec_fields_with(fields@, attribute),
{
    let mut found: Vec<usize> = Vec::new();
    let mut i: usize = 0;
    assert(fields@.subrange(0, 0) =~= Seq::<Field>::empty());
    while i < fields.len()
        invariant
            i <= fields@.len(),
            found@ == spec_fields_with(fields@.subrange(0, i as int), attribute),
        decreases fields@.len() - i,
    {
        let ghost next = fields@.subrange(0, i + 1);
        assert(next.drop_last() =~= fields@.subrange(0, i as int));
        assert(next.last() == fields@[i as int]);
        if has_attribute(&fields[i], attribute) {
            found.push(fields[i].index);
        }
        i = i + 1;
    }
    assert(fields@.subrange(0, i as int) =~= fields@);
    found
}

/// The field that has the mark `attribute`, if there is one; an error if
/// there are more.
pub fn get_unique_field_with_attribute(
    fields: &Vec<Field>,
    attribute: FieldAttribute,
    error: DeriveError,
) -> (res: Result<Option<usize>, DeriveError>)
    ensures
        spec_fields_with(fields@, attribute).len() == 0 ==> res == Ok::<
            Option<usize>,
            DeriveError,
        >(None),
        spec_fields_with(fields@, attribute).len() == 1 ==> res == Ok::<
            Option<usize>,
            DeriveError,
        >(Some(spec_fields_with(fields@, attribute)[0])),
        spec_fields_with(fields@, attribute).len() > 1 ==> res == Err::<
            Option<usize>,
            DeriveError,
        >(error),
{
    let found = get_fields_with_attribute(fields, attribute);
    if found.len() == 0 {
        Ok(None)
    } else if found.len() == 1 {
        Ok(Some(found[0]))
    } else {
        Err(error)
    }
}

/// The spaces that tracing tries, in order, and the plan that it falls
/// back on: the traced fields as they are.
pub fn generate_trace_object(space_fields: &Vec<TracedSpace>, parent_field: Option<usize>) -> (table:
    (Vec<TracedSpace>, Option<usize>))
    ensures
        table.0@ == space_fields@,
        table.1 == parent_field,
{
    let mut spaces: Vec<TracedSpace> = Vec::new();
    let mut i: usize = 0;
    while i < space_fields.len()
        invariant
            i <= space_fields@.len(),
            spaces@ == space_fields@.subrange(0, i as int),
        decreases space_fields@.len() - i,
    {
        spaces.push(space_fields[i]);
        i = i + 1;
        assert(spaces@ =~= space_fields@.subrange(0, i as int));
    }
    assert(space_fields@.subrange(0, i as int) =~= space_fields@);
    (spaces, parent_field)
}

/// The field that makes the packets that scan objects: the field that is
/// marked for it, or else the first traced space, or else none.
pub fn generate_create_scan_work(space_fields: &Vec<TracedSpace>, scan_work_field: Option<usize>) -> (field:
    Option<usize>)
    ensures
        field == spec_scan_work_field(space_fields@, scan_work_field),
{
    match scan_work_field {
        // The plan names a field for it.
        Some(f) => Some(f),
        None => {
            if space_fields.len() > 0 {
                // Else the first traced space makes them.
                Some(space_fields[0].field)
            } else {
                None
            }
        },
    }
}

/// The field that makes the packets that scan objects.
pub open spec fn spec_scan_work_field(space_fields: Seq<TracedSpace>, scan_work_field: Option<usize>) -> Option<
    usize,
> {
    match scan_work_field {
        Some(f) => Some(f),
        None => if space_fields.len() > 0 {
            Some(space_fields[0].field)
        } else {
            None
        },
    }
}

/// Whether a plan may move objects: if one of its traced spaces may, or
/// the plan that it is built on. `space_may_move` tells it of each traced
/// space, in order.
pub fn generate_may_move_objects(space_may_move: &Vec<bool>, parent_may_move: Option<bool>) -> (may_move:
    bool)
    ensures
        may_move == (space_may_move@.contains(true) || parent_may_move == Some(true)),
{
    let mut i: usize = 0;
    while i < space_may_move.len()
        invariant
            i <= space_may_move@.len(),
            forall|j: int| 0 <= j < i ==> !space_may_move@[j],
        decreases space_may_move@.len() - i,
    {
        if space_may_move[i] {
            return true;
        }
        i = i + 1;
    }
    match parent_may_move {
        Some(b) => b,
        None => false,
    }
}

/// Derives the tracing of a plan from its fields: the spaces that are
/// tried, in the order of the fields; the plan to fall back on; and the
/// field that makes the packets that scan objects.
pub fn derive_plan_trace_object(fields: &Vec<Field>) -> (res: Result<PlanTraceObject, DeriveError>)
    ensures
        spec_fields_with(fields@, FieldAttribute::ScanWork).len() > 1 ==> (res matches Err(e) && e
            == DeriveError::MoreThanOneScanWork),
        spec_fields_with(fields@, FieldAttribute::ScanWork).len() <= 1 && spec_fields_with(
            fields@,
            FieldAttribute::FallbackTrace,
        ).len() > 1 ==> (res matches Err(e) && e == DeriveError::MoreThanOneFallbackTrace),
        spec_fields_with(fields@, FieldAttribute::ScanWork).len() <= 1 && spec_fields_with(
            fields@,
            FieldAttribute::FallbackTrace,
        ).len() <= 1 ==> (res matches Ok(derived) && {
            &&& derived.spaces@ == spec_traced_spaces(fields@)
            &&& derived.parent == (if spec_fields_with(
                fields@,
                FieldAttribute::FallbackTrace,
            ).len() == 1 {
                Some(spec_fields_with(fields@, FieldAttribute::FallbackTrace)[0])
            } else {
                None
            })
            &&& derived.scan_work == spec_scan_work_field(
                spec_traced_spaces(fields@),
                if spec_fields_with(fields@, FieldAttribute::ScanWork).len() == 1 {
                    Some(spec_fields_with(fields@, FieldAttribute::ScanWork)[0])
                } else {
                    None
                },
            )
        }),
{
    let mut space_fields: Vec<TracedSpace> = Vec::new();
    let mut i: usize = 0;
    assert(fields@.subrange(0, 0) =~= Seq::<Field>::empty());
    while i < fields.len()
        invariant
            i <= fields@.len(),
            space_fields@ == spec_traced_spaces(fields@.subrange(0, i as int)),
        decreases fields@.len() - i,
    {
        let ghost next = fields@.subrange(0, i + 1);
        assert(next.drop_last() =~= fields@.subrange(0, i as int));
        assert(next.last() == fields@[i as int]);
        match get_trace_attribute(&fields[i]) {
            Some(copy) => {
                space_fields.push(TracedSpace { field: fields[i].index, copy });
            },
            None => {},
        }
        i = i + 1;
    }
    assert(fields@.subrange(0, i as int) =~= fields@);
    let scan_work = get_unique_field_with_attribute(
        fields,
        FieldAttribute::ScanWork,
        DeriveError::MoreThanOneScanWork,
    )?;
    let fallback = get_unique_field_with_attribute(
        fields,
        FieldAttribute::FallbackTrace,
        DeriveError::MoreThanOneFallbackTrace,
    )?;
    let scan_work_field = generate_create_scan_work(&space_fields, scan_work);
    let (spaces, parent) = generate_trace_object(&space_fields, fallback);
    Ok(PlanTraceObject { spaces, parent, scan_work: scan_work_field })
}

impl PlanTraceObject {
    /// The place among the first `n` traced spaces of the first that
    /// claims the object, given of each traced space, in order, whether it
    /// claims the object.
    pub open spec fn spec_first_claim(claims: Seq<bool>, n: int) -> Option<int>
        decreases n,
    {
        if n <= 0 {
            None
        } else {
            match Self::spec_first_claim(claims, n - 1) {
                Some(i) => Some(i),
                None => if claims[n - 1] {
                    Some(n - 1)
                } else {
                    None
                },
            }
        }
    }

    /// Where an object goes to be traced, given of each traced space, in
    /// order, whether it claims the object: to the first space that claims
    /// it; if none does, to the plan that this plan is built on; and nowhere
    /// if there is no such plan.
    pub fn trace_target(&self, claims: &Vec<bool>) -> (target: TraceTarget)
        requires
            claims@.len() == self.spaces@.len(),
        ensures
            target == (match Self::spec_first_claim(claims@, claims@.len() as int) {
                Some(i) => TraceTarget::Space(self.spaces@[i]),
                None => match self.parent {
                    Some(p) => TraceTarget::Parent(p),
                    None => TraceTarget::NoMoreSpaces,
                },
            }),
            // the space that is chosen claims the object, and none before it does
            target matches TraceTarget::Space(s) ==> (exists|i: int|
                0 <= i < claims@.len() && (#[trigger] claims@[i]) && self.spaces@[i] == s && forall|
                    j: int,
                | 0 <= j < i ==> !claims@[j]),
            !(target is Space) ==> forall|j: int| 0 <= j < claims@.len() ==> !claims@[j],
    {
        let mut i: usize = 0;
        while i < claims.len()
            invariant
                i <= claims@.len(),
                claims@.len() == self.spaces@.len(),
                Self::spec_first_claim(claims@, i as int) is None,
                forall|j: int| 0 <= j < i ==> !claims@[j],
            decreases claims@.len() - i,
        {
            if claims[i] {
                proof {
                    Self::lemma_first_claim_stays(claims@, i + 1, claims@.len() as int);
                }
                return TraceTarget::Space(self.spaces[i]);
            }
            i = i + 1;
        }
        match self.parent {
            Some(p) => TraceTarget::Parent(p),
            None => TraceTarget::NoMoreSpaces,
        }
    }

    /// Once a space is found to claim the object, it stays the first when
    /// more spaces are looked at.
    pub proof fn lemma_first_claim_stays(claims: Seq<bool>, n: int, m: int)
        requires
            0 <= n <= m,
            Self::spec_first_claim(claims, n) is Some,
        ensures
            Self::spec_first_claim(claims, m) == Self::spec_first_claim(claims, n),
        decreases m - n,
    {
        if n < m {
            Self::lemma_first_claim_stays(claims, n, m - 1);
        }
    }
}

} // verus!
