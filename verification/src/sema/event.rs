//! Validation and memory layout of event records.
use vstd::prelude::*;
use crate::ast::map::Type;
use crate::emit::ebpf_obj::maps::type_bytes;
use crate::ast::event::{EventDecl, EventField, EventType, PrimitiveType};
use crate::parser::token::SourceLoc;
use crate::text::str_eq;

verus! {

/// Why an event declaration was rejected.
#[derive(Debug)]
pub enum EventValidationError {
    DuplicateEventName(String, SourceLoc),
    EmptyEvent(String, SourceLoc),
    DuplicateField(String, SourceLoc),
    ZeroLengthArray(SourceLoc),
    NestedArray(SourceLoc),
    EventTooLarge(String, u32, SourceLoc),
}

/// Largest event record, in bytes.
pub const MAX_EVENT_SIZE: u32 = 512;

/// Size and alignment of a scalar element.
pub open spec fn prim_layout(p: PrimitiveType) -> (u32, u32) {
    match p {
        PrimitiveType::U32 | PrimitiveType::I32 => (4, 4),
        PrimitiveType::U64 | PrimitiveType::I64 => (8, 8),
    }
}

/// Event fields are laid out as the machine stores the scalar types: each
/// scalar takes the bytes the object back end gives the map type of the
/// same name and is aligned to its size; a byte array takes one byte per
/// element with no alignment; a scalar array takes its element's size per
/// element and its element's alignment.
pub proof fn lemma_field_types_take_their_width(ty: EventType)
    ensures
        ty == EventType::U32 ==> type_layout(ty) == Some((type_bytes(Type::U32), type_bytes(Type::U32))),
        ty == EventType::U64 ==> type_layout(ty) == Some((type_bytes(Type::U64), type_bytes(Type::U64))),
        ty == EventType::I32 ==> type_layout(ty) == Some((type_bytes(Type::I32), type_bytes(Type::I32))),
        ty == EventType::I64 ==> type_layout(ty) == Some((type_bytes(Type::I64), type_bytes(Type::I64))),
        ty matches EventType::Bytes(n) ==> n > 0 ==> type_layout(ty) == Some((n, 1u32)),
        forall|p: PrimitiveType| prim_layout(p) == (type_bytes(prim_type(p)), type_bytes(prim_type(p))),
{
}

/// The map type of the same name as an array element type.
pub open spec fn prim_type(p: PrimitiveType) -> Type {
    match p {
        PrimitiveType::U32 => Type::U32,
        PrimitiveType::U64 => Type::U64,
        PrimitiveType::I32 => Type::I32,
        PrimitiveType::I64 => Type::I64,
    }
}

/// Size and alignment of a field type; `None` for a zero-length array.
/// An array's size is the element size times the length, wrapped to 32 bits.
pub open spec fn type_layout(ty: EventType) -> Option<(u32, u32)> {
    match ty {
        EventType::U32 | EventType::I32 => Some((4, 4)),
        EventType::U64 | EventType::I64 => Some((8, 8)),
        EventType::Bytes(len) => if len == 0 { None } else { Some((len, 1)) },
        EventType::Array { elem, len } => if len == 0 {
            None
        } else {
            Some((prim_layout(elem).0.wrapping_mul(len), prim_layout(elem).1))
        },
    }
}

/// `offset` rounded up to `align` (a power of two), in wrapping 32-bit arithmetic.
pub open spec fn align_up_spec(offset: u32, align: u32) -> u32 {
    offset.wrapping_add((align - 1) as u32) & !((align - 1) as u32)
}

/// Every field type has a layout.
pub open spec fn fields_valid(fields: Seq<EventField>) -> bool {
    forall|i: int| 0 <= i < fields.len() ==> (#[trigger] type_layout(fields[i].ty)) is Some
}

/// The layout of a field, zero-sized where it has none.
pub open spec fn field_size_align(f: EventField) -> (u32, u32) {
    match type_layout(f.ty) {
        Some(l) => l,
        None => (0, 1),
    }
}

/// Running (end offset, largest alignment) after laying out `fields` in order.
pub open spec fn layout_end(fields: Seq<EventField>) -> (u32, u32)
    decreases fields.len(),
{
    if fields.len() == 0 {
        (0, 1)
    } else {
        let prev = layout_end(fields.drop_last());
        let (size, align) = field_size_align(fields.last());
        (
            align_up_spec(prev.0, align).wrapping_add(size),
            if prev.1 >= align { prev.1 } else { align },
        )
    }
}

/// The offset at which field `i` is placed.
pub open spec fn field_offset_at(fields: Seq<EventField>, i: int) -> u32 {
    align_up_spec(layout_end(fields.subrange(0, i)).0, field_size_align(fields[i]).1)
}

/// The total size of an event record: the end of the last field rounded up
/// to the largest field alignment.
pub open spec fn event_size(fields: Seq<EventField>) -> u32 {
    align_up_spec(layout_end(fields).0, layout_end(fields).1)
}

/// The index of the first field named `name`, if any.
pub open spec fn first_field_named(fields: Seq<EventField>, name: Seq<char>) -> Option<int>
    decreases fields.len(),
{
    if fields.len() == 0 {
        None
    } else {
        match first_field_named(fields.drop_last(), name) {
            Some(i) => Some(i),
            None => if fields.last().name@ == name { Some(fields.len() - 1) } else { None },
        }
    }
}

/// Whether some string in `names` equals `name`.
pub open spec fn has_name(names: Seq<String>, name: Seq<char>) -> bool {
    exists|i: int| 0 <= i < names.len() && (#[trigger] names[i])@ == name
}

/// The first field that repeats an earlier field's name or has no layout.
pub open spec fn first_bad_field(fields: Seq<EventField>) -> Option<int>
    decreases fields.len(),
{
    if fields.len() == 0 {
        None
    } else {
        match first_bad_field(fields.drop_last()) {
            Some(i) => Some(i),
            None => {
                let last = fields.len() - 1;
                if first_field_named(fields.drop_last(), fields[last].name@) is Some
                    || type_layout(fields[last].ty) is None {
                    Some(last)
                } else {
                    None
                }
            },
        }
    }
}

/// The error `check_event` reports for the field at index `i`.
pub open spec fn bad_field_error(fields: Seq<EventField>, i: int) -> EventValidationError {
    if first_field_named(fields.subrange(0, i), fields[i].name@) is Some {
        EventValidationError::DuplicateField(fields[i].name, fields[i].loc)
    } else {
        EventValidationError::ZeroLengthArray(fields[i].loc)
    }
}

fn primitive_layout(p: &PrimitiveType) -> (r: (u32, u32))
    ensures
        r == prim_layout(*p),
{
    match p {
        PrimitiveType::U32 | PrimitiveType::I32 => (4, 4),
        PrimitiveType::U64 | PrimitiveType::I64 => (8, 8),
    }
}

pub(crate) fn validate_event_type(ty: &EventType, loc: SourceLoc) -> (r: Result<(u32, u32), EventValidationError>)
    ensures
        r matches Ok(l) ==> type_layout(*ty) == Some(l),
        r is Err ==> type_layout(*ty) is None && r == Err::<(u32, u32), _>(EventValidationError::ZeroLengthArray(loc)),
{
    match ty {
        EventType::U32 => Ok((4, 4)),
        EventType::I32 => Ok((4, 4)),
        EventType::U64 => Ok((8, 8)),
        EventType::I64 => Ok((8, 8)),
        EventType::Bytes(len) => {
            if *len == 0 {
                return Err(EventValidationError::ZeroLengthArray(loc));
            }
            Ok((*len, 1))
        },
        EventType::Array { elem, len } => {
            if *len == 0 {
                return Err(EventValidationError::ZeroLengthArray(loc));
            }
            let (elem_size, elem_align) = primitive_layout(elem);
            Ok((elem_size.wrapping_mul(*len), elem_align))
        },
    }
}

/// Rounds `offset` up to `align`, a power of two, in wrapping 32-bit arithmetic.
pub fn align_up(offset: u32, align: u32) -> (r: u32)
    requires
        align >= 1,
    ensures
        r == align_up_spec(offset, align),
{
    offset.wrapping_add(align - 1) & !(align - 1)
}

/// `first_field_named` finds a field exactly when some field has the name,
/// and it finds the first one.
pub proof fn lemma_first_field_named(fields: Seq<EventField>, name: Seq<char>)
    ensures
        first_field_named(fields, name) is Some <==> exists|j: int| 0 <= j < fields.len() && (#[trigger] fields[j]).name@ == name,
        first_field_named(fields, name) matches Some(i) ==> 0 <= i < fields.len() && fields[i].name@ == name
            && forall|j: int| 0 <= j < i ==> (#[trigger] fields[j]).name@ != name,
    decreases fields.len(),
{
    if fields.len() > 0 {
        let init = fields.drop_last();
        lemma_first_field_named(init, name);
        assert forall|j: int| 0 <= j < init.len() implies #[trigger] init[j] == fields[j] by {}
        if first_field_named(init, name) is None {
            assert forall|j: int| 0 <= j < init.len() implies (#[trigger] fields[j]).name@ != name by {
                assert(init[j] == fields[j]);
            }
            if fields.last().name@ != name {
                assert forall|j: int| 0 <= j < fields.len() implies (#[trigger] fields[j]).name@ != name by {
                    if j < init.len() {
                        assert(init[j] == fields[j]);
                    }
                }
            }
        } else {
            let i = first_field_named(init, name)->0;
            assert(init[i] == fields[i]);
            assert forall|j: int| 0 <= j < i implies (#[trigger] fields[j]).name@ != name by {
                assert(init[j] == fields[j]);
            }
        }
    }
}

/// Whether `names` holds a string equal to `name`.
pub fn contains_name(names: &Vec<String>, name: &str) -> (r: bool)
    ensures
        r == has_name(names@, name@),
{
    let mut i: usize = 0;
    while i < names.len()
        invariant
            i <= names@.len(),
            forall|j: int| 0 <= j < i ==> (#[trigger] names@[j])@ != name@,
        decreases names@.len() - i,
    {
        if str_eq(names[i].as_str(), name) {
            assert(names@[i as int]@ == name@);
            return true;
        }
        i = i + 1;
    }
    false
}

/// What `check_event` reports for an event whose name is new: an empty
/// field list, the first bad field, or a record over 512 bytes.
pub open spec fn event_body_error(name: String, fields: Seq<EventField>, loc: SourceLoc) -> Option<EventValidationError> {
    if fields.len() == 0 {
        Some(EventValidationError::EmptyEvent(name, loc))
    } else if first_bad_field(fields) is Some {
        Some(bad_field_error(fields, first_bad_field(fields)->0))
    } else if event_size_exact(fields) > MAX_EVENT_SIZE {
        Some(EventValidationError::EventTooLarge(name, reported_size(event_size_exact(fields)), loc))
    } else {
        None
    }
}

/// Fields with no bad field have distinct names and each has a layout.
proof fn lemma_no_bad_field(fields: Seq<EventField>)
    requires
        first_bad_field(fields) is None,
    ensures
        forall|i: int, j: int| 0 <= i < j < fields.len() ==> (#[trigger] fields[i]).name@ != (#[trigger] fields[j]).name@,
        forall|i: int| 0 <= i < fields.len() ==> type_layout((#[trigger] fields[i]).ty) is Some,
    decreases fields.len(),
{
    if fields.len() > 0 {
        let init = fields.drop_last();
        lemma_no_bad_field(init);
        let last = fields.len() - 1;
        lemma_first_field_named(init, fields[last].name@);
        assert forall|i: int, j: int| 0 <= i < j < fields.len() implies (#[trigger] fields[i]).name@ != (#[trigger] fields[j]).name@ by {
            assert(init[i] == fields[i]);
            if j < last {
                assert(init[j] == fields[j]);
            }
        }
        assert forall|i: int| 0 <= i < fields.len() implies type_layout((#[trigger] fields[i]).ty) is Some by {
            if i < last {
                assert(init[i] == fields[i]);
            }
        }
    }
}

/// An event whose body passes validation has at least one field, no two
/// fields of one name, no zero-length array, and a record of at most 512
/// bytes; and every event with those properties passes.
pub proof fn lemma_accepted_event_shape(name: String, fields: Seq<EventField>, loc: SourceLoc)
    ensures
        event_body_error(name, fields, loc) is None <==> {
            &&& fields.len() > 0
            &&& forall|i: int, j: int| 0 <= i < j < fields.len() ==> (#[trigger] fields[i]).name@ != (#[trigger] fields[j]).name@
            &&& forall|i: int| 0 <= i < fields.len() ==> type_layout((#[trigger] fields[i]).ty) is Some
            &&& event_size_exact(fields) <= 512
        },
{
    if first_bad_field(fields) is None {
        lemma_no_bad_field(fields);
    } else {
        lemma_bad_field_is_bad(fields);
    }
}

/// The field `first_bad_field` names repeats an earlier name or has no
/// layout.
proof fn lemma_bad_field_is_bad(fields: Seq<EventField>)
    requires
        first_bad_field(fields) is Some,
    ensures
        ({
            let k = first_bad_field(fields)->0;
            &&& 0 <= k < fields.len()
            &&& (exists|j: int| 0 <= j < k && (#[trigger] fields[j]).name@ == fields[k].name@)
                || type_layout(fields[k].ty) is None
        }),
    decreases fields.len(),
{
    let init = fields.drop_last();
    if first_bad_field(init) is Some {
        lemma_bad_field_is_bad(init);
        let k = first_bad_field(init)->0;
        assert(init[k] == fields[k]);
        if exists|j: int| 0 <= j < k && (#[trigger] init[j]).name@ == init[k].name@ {
            let j = choose|j: int| 0 <= j < k && (#[trigger] init[j]).name@ == init[k].name@;
            assert(init[j] == fields[j]);
        }
    } else {
        let last = fields.len() - 1;
        lemma_first_field_named(init, fields[last].name@);
        if first_field_named(init, fields[last].name@) is Some {
            let j = first_field_named(init, fields[last].name@)->0;
            assert(init[j] == fields[j]);
        }
    }
}

/// The first error among events declared in order (name, fields,
/// location): a name used by an earlier event, or an error of the event
/// itself.
pub open spec fn first_event_error(events: Seq<(String, Seq<EventField>, SourceLoc)>) -> Option<EventValidationError>
    decreases events.len(),
{
    if events.len() == 0 {
        None
    } else {
        match first_event_error(events.drop_last()) {
            Some(e) => Some(e),
            None => {
                let (name, fields, loc) = events.last();
                if exists|j: int| 0 <= j < events.len() - 1 && (#[trigger] events[j]).0@ == name@ {
                    Some(EventValidationError::DuplicateEventName(name, loc))
                } else {
                    event_body_error(name, fields, loc)
                }
            },
        }
    }
}

/// Validates an event declaration and records its name in `event_names`.
///
/// The name is recorded unless it is already there. The checks come in
/// order: a repeated event name, an empty field list, then field by field a
/// repeated field name or a zero-length array, and last a record larger
/// than 512 bytes.
pub fn check_event(event: &EventDecl, event_names: &mut Vec<String>) -> (r: Result<(), EventValidationError>)
    ensures
        has_name(old(event_names)@, event.name@) ==> final(event_names)@ == old(event_names)@
            && r == Err::<(), _>(EventValidationError::DuplicateEventName(event.name, event.loc)),
        !has_name(old(event_names)@, event.name@) ==> r == match event_body_error(event.name, event.fields@, event.loc) {
            Some(e) => Err(e),
            None => Ok(()),
        },
        !has_name(old(event_names)@, event.name@) ==> final(event_names)@ == old(event_names)@.push(event.name)
            && r == (if event.fields@.len() == 0 {
                Err(EventValidationError::EmptyEvent(event.name, event.loc))
            } else if first_bad_field(event.fields@) is Some {
                Err(bad_field_error(event.fields@, first_bad_field(event.fields@)->0))
            } else if event_size_exact(event.fields@) > MAX_EVENT_SIZE {
                Err(EventValidationError::EventTooLarge(event.name, reported_size(event_size_exact(event.fields@)), event.loc))
            } else {
                Ok(())
            }),
        r is Ok <==> {
            &&& !has_name(old(event_names)@, event.name@)
            &&& event.fields@.len() > 0
            &&& forall|i: int, j: int| 0 <= i < j < event.fields@.len()
                ==> (#[trigger] event.fields@[i]).name@ != (#[trigger] event.fields@[j]).name@
            &&& forall|i: int| 0 <= i < event.fields@.len() ==> type_layout((#[trigger] event.fields@[i]).ty) is Some
            &&& event_size_exact(event.fields@) <= 512
        },
{
    proof { lemma_accepted_event_shape(event.name, event.fields@, event.loc); }
    if contains_name(event_names, event.name.as_str()) {
        return Err(EventValidationError::DuplicateEventName(event.name.clone(), event.loc));
    }
    event_names.push(event.name.clone());

    if event.fields.len() == 0 {
        return Err(EventValidationError::EmptyEvent(event.name.clone(), event.loc));
    }

    let ghost fields = event.fields@;
    let mut field_names: Vec<String> = Vec::new();
    let mut offset: u64 = 0;
    let mut max_align: u32 = 1;
    let mut i: usize = 0;
    while i < event.fields.len()
        invariant
            fields == event.fields@,
            fields.len() > 0,
            !has_name(old(event_names)@, event.name@),
            event_names@ == old(event_names)@.push(event.name),
            i <= fields.len(),
            field_names@.len() == i,
            forall|j: int| 0 <= j < i ==> (#[trigger] field_names@[j])@ == fields[j].name@,
            first_bad_field(fields.subrange(0, i as int)) is None,
            offset as int == clamp(layout_end_int(fields.subrange(0, i as int)).0),
            max_align as int == layout_end_int(fields.subrange(0, i as int)).1,
            layout_end_int(fields.subrange(0, i as int)).0 >= 0,
            max_align == 1 || max_align == 4 || max_align == 8,
        decreases fields.len() - i,
    {
        let field = &event.fields[i];
        let ghost pre = fields.subrange(0, i as int);
        let ghost next = fields.subrange(0, i + 1);
        assert(next.drop_last() == pre);
        assert(next.last() == fields[i as int]);
        proof {
            lemma_first_field_named(pre, field.name@);
            assert forall|j: int| 0 <= j < pre.len() implies #[trigger] pre[j] == fields[j] by {}
            if has_name(field_names@, field.name@) {
                let j = choose|j: int| 0 <= j < field_names@.len() && (#[trigger] field_names@[j])@ == field.name@;
                assert(pre[j].name@ == field.name@);
            }
            if first_field_named(pre, field.name@) is Some {
                let j = first_field_named(pre, field.name@)->0;
                assert(field_names@[j]@ == field.name@);
            }
        }
        if contains_name(&field_names, field.name.as_str()) {
            assert(first_bad_field(next) == Some(i as int));
            assert(fields.subrange(0, i as int) == pre);
            proof { lemma_first_bad_field_prefix(fields, i as int); }
            return Err(EventValidationError::DuplicateField(field.name.clone(), field.loc));
        }
        field_names.push(field.name.clone());
        let (size, align) = match validate_event_type(&field.ty, field.loc) {
            Ok(l) => l,
            Err(e) => {
                assert(first_bad_field(next) == Some(i as int));
                proof { lemma_first_bad_field_prefix(fields, i as int); }
                return Err(e);
            },
        };
        if align > max_align {
            max_align = align;
        }
        let exact = field_size_u64(field);
        proof {
            lemma_field_align(*field);
            lemma_size_exact(*field);
            lemma_clamp_step(layout_end_int(pre).0, offset as int, align as int, exact as int);
        }
        let placed = round_up_u64(offset, align as u64);
        let end = placed + exact;
        offset = if end > CLAMP { CLAMP } else { end };
        i = i + 1;
    }
    assert(fields.subrange(0, fields.len() as int) == fields);
    proof { lemma_clamp_final(layout_end_int(fields).0, offset as int, max_align as int); }
    let total = round_up_u64(offset, max_align as u64);
    if total > MAX_EVENT_SIZE as u64 {
        let reported: u32 = if total <= u32::MAX as u64 { total as u32 } else { u32::MAX };
        return Err(EventValidationError::EventTooLarge(event.name.clone(), reported, event.loc));
    }
    Ok(())
}

/// Where the running end is capped while checking sizes: far above any
/// size that passes, and a multiple of every alignment.
pub const CLAMP: u64 = 0x100_0000_0000;

/// `x`, capped at `CLAMP`.
pub open spec fn clamp(x: int) -> int {
    if x < CLAMP { x } else { CLAMP as int }
}

/// Capping before or after placing one more field gives the same result.
proof fn lemma_clamp_step(prev: int, off: int, a: int, s: int)
    requires
        prev >= 0,
        off == clamp(prev),
        a == 1 || a == 4 || a == 8,
        s >= 0,
    ensures
        clamp(round_up_int(off, a) + s) == clamp(round_up_int(prev, a) + s),
        round_up_int(prev, a) + s >= 0,
        round_up_int(off, a) <= off + 7,
{
    lemma_round_up_bounds(prev, a);
    lemma_round_up_bounds(off, a);
    if prev >= CLAMP {
        let c = CLAMP as int;
        assert(round_up_int(c, a) == c) by (nonlinear_arith)
            requires
                c == 0x100_0000_0000,
                a == 1 || a == 4 || a == 8,
                round_up_int(c, a) == (if a <= 1 { c } else { ((c + a - 1) / a) * a }),
        ;
    }
}

/// Rounding up keeps a value or raises it by less than the alignment.
proof fn lemma_round_up_bounds(x: int, a: int)
    requires
        x >= 0,
        a == 1 || a == 4 || a == 8,
    ensures
        x <= round_up_int(x, a) < x + a,
{
    if a > 1 {
        let q = (x + a - 1) / a;
        assert(q * a <= x + a - 1 && x + a - 1 < q * a + a) by (nonlinear_arith)
            requires
                a > 1,
                q == (x + a - 1) / a,
        ;
    }
}

/// The capped end decides the size check and the reported size as the
/// exact end does.
proof fn lemma_clamp_final(end: int, off: int, a: int)
    requires
        end >= 0,
        off == clamp(end),
        a == 1 || a == 4 || a == 8,
    ensures
        (round_up_int(off, a) > 512) == (round_up_int(end, a) > 512),
        reported_size(round_up_int(off, a)) == reported_size(round_up_int(end, a)),
        round_up_int(off, a) <= CLAMP + 7,
{
    lemma_round_up_bounds(end, a);
    lemma_round_up_bounds(off, a);
    if end >= CLAMP {
        let c = CLAMP as int;
        assert(round_up_int(c, a) == c) by (nonlinear_arith)
            requires
                c == 0x100_0000_0000,
                a == 1 || a == 4 || a == 8,
                round_up_int(c, a) == (if a <= 1 { c } else { ((c + a - 1) / a) * a }),
        ;
    }
}

/// `x` rounded up to `a`, one of 1, 4 and 8.
fn round_up_u64(x: u64, a: u64) -> (r: u64)
    requires
        x <= CLAMP,
        a == 1 || a == 4 || a == 8,
    ensures
        r as int == round_up_int(x as int, a as int),
{
    proof { lemma_round_up_bounds(x as int, a as int); }
    if a <= 1 {
        x
    } else {
        let q = (x + a - 1) / a;
        assert(q * a == round_up_int(x as int, a as int));
        q * a
    }
}

/// A field's exact size in bytes.
fn field_size_u64(f: &EventField) -> (r: u64)
    ensures
        r as int == field_size_exact(*f),
        r <= 8 * 0xffff_ffff,
{
    match &f.ty {
        EventType::U32 => 4,
        EventType::I32 => 4,
        EventType::U64 => 8,
        EventType::I64 => 8,
        EventType::Bytes(len) => if *len == 0 { 0 } else { *len as u64 },
        EventType::Array { elem, len } => {
            let (e, _) = primitive_layout(elem);
            assert(e as u64 * *len as u64 <= 8 * 0xffff_ffff) by (nonlinear_arith)
                requires
                    e <= 8,
                    *len <= 0xffff_ffff,
            ;
            e as u64 * *len as u64
        },
    }
}

/// An event that passes the size check lays out within 32 bits.
pub proof fn lemma_accepted_event_fits(fields: Seq<EventField>)
    requires
        fields_valid(fields),
        event_size_exact(fields) <= MAX_EVENT_SIZE,
    ensures
        layout_fits(fields),
{
    lemma_layout_nonneg(fields);
    lemma_round_up_bounds(layout_end_int(fields).0, layout_end_int(fields).1);
}

/// The exact running end is not negative, and the largest alignment is 1, 4 or 8.
proof fn lemma_layout_nonneg(fields: Seq<EventField>)
    requires
        fields_valid(fields),
    ensures
        layout_end_int(fields).0 >= 0,
        layout_end_int(fields).1 == 1 || layout_end_int(fields).1 == 4 || layout_end_int(fields).1 == 8,
    decreases fields.len(),
{
    if fields.len() > 0 {
        let pre = fields.drop_last();
        assert forall|i: int| 0 <= i < pre.len() implies (#[trigger] type_layout(pre[i].ty)) is Some by {
            assert(pre[i] == fields[i]);
        }
        lemma_layout_nonneg(pre);
        assert(type_layout(fields[fields.len() - 1].ty) is Some);
        lemma_field_align(fields.last());
        lemma_size_exact(fields.last());
        lemma_round_up_bounds(layout_end_int(pre).0, field_size_align(fields.last()).1 as int);
    }
}

/// The size of an event record, from its validated fields.
pub fn compute_event_size(event: &EventDecl) -> (r: u32)
    requires
        fields_valid(event.fields@),
    ensures
        r == event_size(event.fields@),
{
    let ghost fields = event.fields@;
    let mut offset: u32 = 0;
    let mut max_align: u32 = 1;
    let mut i: usize = 0;
    while i < event.fields.len()
        invariant
            fields == event.fields@,
            fields_valid(fields),
            i <= fields.len(),
            (offset, max_align) == layout_end(fields.subrange(0, i as int)),
            max_align >= 1,
        decreases fields.len() - i,
    {
        let field = &event.fields[i];
        let ghost next = fields.subrange(0, i + 1);
        assert(next.drop_last() == fields.subrange(0, i as int));
        assert(next.last() == fields[i as int]);
        assert(type_layout(fields[i as int].ty) is Some);
        let (size, align) = match validate_event_type(&field.ty, field.loc) {
            Ok(l) => l,
            Err(_) => {
                return 0;
            },
        };
        if align > max_align {
            max_align = align;
        }
        offset = align_up(offset, align);
        offset = offset.wrapping_add(size);
        i = i + 1;
    }
    assert(fields.subrange(0, fields.len() as int) == fields);
    align_up(offset, max_align)
}

/// The offset of the first field named `field_name`, if there is one.
pub fn compute_field_offset(event: &EventDecl, field_name: &str) -> (r: Option<u32>)
    requires
        fields_valid(event.fields@),
    ensures
        r == (match first_field_named(event.fields@, field_name@) {
            Some(i) => Some(field_offset_at(event.fields@, i)),
            None => None,
        }),
{
    match locate_field(event, field_name) {
        Some((offset, _size)) => Some(offset),
        None => None,
    }
}

/// The size of the first field named `field_name`, if there is one.
pub fn compute_field_size(event: &EventDecl, field_name: &str) -> (r: Option<u32>)
    requires
        fields_valid(event.fields@),
    ensures
        r == (match first_field_named(event.fields@, field_name@) {
            Some(i) => Some(field_size_align(event.fields@[i]).0),
            None => None,
        }),
{
    match locate_field(event, field_name) {
        Some((_offset, size)) => Some(size),
        None => None,
    }
}

/// Offset and size of the first field with the given name.
fn locate_field(event: &EventDecl, field_name: &str) -> (r: Option<(u32, u32)>)
    requires
        fields_valid(event.fields@),
    ensures
        r == (match first_field_named(event.fields@, field_name@) {
            Some(i) => Some((field_offset_at(event.fields@, i), field_size_align(event.fields@[i]).0)),
            None => None,
        }),
{
    let ghost fields = event.fields@;
    proof { lemma_first_field_named(fields, field_name@); }
    let mut offset: u32 = 0;
    let mut i: usize = 0;
    while i < event.fields.len()
        invariant
            fields == event.fields@,
            fields_valid(fields),
            i <= fields.len(),
            offset == layout_end(fields.subrange(0, i as int)).0,
            forall|j: int| 0 <= j < i ==> (#[trigger] fields[j]).name@ != field_name@,
            first_field_named(fields, field_name@) is Some <==> exists|j: int| 0 <= j < fields.len() && (#[trigger] fields[j]).name@ == field_name@,
            first_field_named(fields, field_name@) matches Some(k) ==> 0 <= k < fields.len() && fields[k].name@ == field_name@
                && forall|j: int| 0 <= j < k ==> (#[trigger] fields[j]).name@ != field_name@,
        decreases fields.len() - i,
    {
        let field = &event.fields[i];
        let ghost next = fields.subrange(0, i + 1);
        assert(next.drop_last() == fields.subrange(0, i as int));
        assert(next.last() == fields[i as int]);
        assert(type_layout(fields[i as int].ty) is Some);
        let (size, align) = match validate_event_type(&field.ty, field.loc) {
            Ok(l) => l,
            Err(_) => {
                return None;
            },
        };
        let here = align_up(offset, align);
        if str_eq(field.name.as_str(), field_name) {
            assert(first_field_named(fields, field_name@) == Some(i as int));
            return Some((here, size));
        }
        offset = here.wrapping_add(size);
        i = i + 1;
    }
    None
}

/// A bad field at `i` with no bad field before it is the first bad field.
proof fn lemma_first_bad_field_prefix(fields: Seq<EventField>, i: int)
    requires
        0 <= i < fields.len(),
        first_bad_field(fields.subrange(0, i + 1)) == Some(i),
    ensures
        first_bad_field(fields) == Some(i),
    decreases fields.len(),
{
    if fields.len() > i + 1 {
        let init = fields.drop_last();
        assert(init.subrange(0, i + 1) == fields.subrange(0, i + 1));
        lemma_first_bad_field_prefix(init, i);
    } else {
        assert(fields.subrange(0, i + 1) == fields);
    }
}

/// `x` rounded up to a multiple of `a`.
pub open spec fn round_up_int(x: int, a: int) -> int {
    if a <= 1 { x } else { ((x + a - 1) / a) * a }
}

/// A field's size in bytes, computed without wrapping: an array's is its
/// element size times its length.
pub open spec fn field_size_exact(f: EventField) -> int {
    match f.ty {
        EventType::Array { elem, len } => prim_layout(elem).0 * len,
        _ => field_size_align(f).0 as int,
    }
}

/// A field's exact size is its 32-bit size when it fits in 32 bits.
proof fn lemma_size_exact(f: EventField)
    ensures
        field_size_exact(f) >= 0,
        field_size_exact(f) <= u32::MAX ==> field_size_align(f).0 as int == field_size_exact(f),
{
    if let EventType::Array { elem, len } = f.ty {
        let e = prim_layout(elem).0;
        assert(e * len >= 0) by (nonlinear_arith)
            requires
                e >= 0,
                len >= 0,
        ;
    }
}

/// The size of an event record computed without wrapping: the end of the
/// last field rounded up to the largest field alignment.
pub open spec fn event_size_exact(fields: Seq<EventField>) -> int {
    round_up_int(layout_end_int(fields).0, layout_end_int(fields).1)
}

/// The size an oversized record is reported with: its size, or the
/// largest 32-bit number when it does not fit.
pub open spec fn reported_size(x: int) -> u32 {
    if x <= u32::MAX { x as u32 } else { u32::MAX }
}

/// The layout computed without 32-bit wrapping: running end offset and
/// largest alignment.
pub open spec fn layout_end_int(fields: Seq<EventField>) -> (int, int)
    decreases fields.len(),
{
    if fields.len() == 0 {
        (0, 1)
    } else {
        let prev = layout_end_int(fields.drop_last());
        let align = field_size_align(fields.last()).1;
        (round_up_int(prev.0, align as int) + field_size_exact(fields.last()),
            if prev.1 >= align { prev.1 } else { align as int })
    }
}

/// The layout fits in 32 bits, final rounding included.
pub open spec fn layout_fits(fields: Seq<EventField>) -> bool {
    layout_end_int(fields).0 + 8 <= u32::MAX
}

proof fn lemma_align_up_exact(x: u32, a: u32)
    requires
        a == 1 || a == 4 || a == 8,
        x + 8 <= u32::MAX,
    ensures
        align_up_spec(x, a) as int == round_up_int(x as int, a as int),
        round_up_int(x as int, a as int) >= x,
        round_up_int(x as int, a as int) < x + a,
        round_up_int(x as int, a as int) % (a as int) == 0,
{
    assert(x.wrapping_add((a - 1) as u32) == x + (a - 1));
    if a == 1 {
        assert((x & !0u32) == x) by (bit_vector);
    } else if a == 4 {
        let y: u32 = (x + 3) as u32;
        assert((y & !3u32) == (y / 4u32) * 4u32) by (bit_vector);
    } else {
        let y: u32 = (x + 7) as u32;
        assert((y & !7u32) == (y / 8u32) * 8u32) by (bit_vector);
    }
    if a > 1 {
        let q = (x + a - 1) / (a as int);
        assert(q * a <= x + a - 1 && x + a - 1 < q * a + a) by (nonlinear_arith)
            requires
                a > 1,
                q == (x + a - 1) / (a as int),
        ;
        assert((q * a) % (a as int) == 0) by (nonlinear_arith)
            requires
                a > 1,
        ;
    }
}

proof fn lemma_field_align(f: EventField)
    requires
        type_layout(f.ty) is Some,
    ensures
        field_size_align(f).1 == 1 || field_size_align(f).1 == 4 || field_size_align(f).1 == 8,
{
}

/// The 32-bit layout equals the unwrapped one when the latter fits, and the
/// running end never decreases.
proof fn lemma_layout_exact(fields: Seq<EventField>)
    requires
        fields_valid(fields),
        layout_fits(fields),
    ensures
        layout_end(fields).0 as int == layout_end_int(fields).0,
        layout_end(fields).1 as int == layout_end_int(fields).1,
        layout_end_int(fields).1 == 1 || layout_end_int(fields).1 == 4 || layout_end_int(fields).1 == 8,
        layout_end_int(fields).0 >= 0,
    decreases fields.len(),
{
    if fields.len() > 0 {
        let pre = fields.drop_last();
        assert forall|i: int| 0 <= i < pre.len() implies (#[trigger] type_layout(pre[i].ty)) is Some by {
            assert(pre[i] == fields[i]);
        }
        let (size, align) = field_size_align(fields.last());
        assert(type_layout(fields[fields.len() - 1].ty) is Some);
        lemma_field_align(fields.last());
        let prev = layout_end_int(pre);
        assert(round_up_int(prev.0, align as int) >= prev.0) by {
            if align > 1 {
                let q = (prev.0 + align - 1) / (align as int);
                assert(q * align >= prev.0) by (nonlinear_arith)
                    requires
                        align > 1,
                        q == (prev.0 + align - 1) / (align as int),
                ;
            }
        }
        assert(layout_fits(pre));
        lemma_layout_exact(pre);
        lemma_align_up_exact(layout_end(pre).0, align);
    }
}

/// The unwrapped end of a prefix is at most that of the whole.
proof fn lemma_layout_prefix_mono(fields: Seq<EventField>, k: int)
    requires
        0 <= k <= fields.len(),
        fields_valid(fields),
    ensures
        layout_end_int(fields.subrange(0, k)).0 <= layout_end_int(fields).0,
        layout_end_int(fields.subrange(0, k)).0 >= 0,
    decreases fields.len(),
{
    if k < fields.len() {
        let pre = fields.drop_last();
        assert(pre.subrange(0, k) == fields.subrange(0, k));
        assert forall|i: int| 0 <= i < pre.len() implies (#[trigger] type_layout(pre[i].ty)) is Some by {
            assert(pre[i] == fields[i]);
        }
        lemma_layout_prefix_mono(pre, k);
        let (size, align) = field_size_align(fields.last());
        let prev = layout_end_int(pre);
        assert(round_up_int(prev.0, align as int) >= prev.0) by {
            if align > 1 {
                let q = (prev.0 + align - 1) / (align as int);
                assert(q * align >= prev.0) by (nonlinear_arith)
                    requires
                        align > 1,
                        q == (prev.0 + align - 1) / (align as int),
                ;
            }
        }
    } else {
        assert(fields.subrange(0, k) == fields);
        if fields.len() > 0 {
            lemma_layout_prefix_mono(fields.drop_last(), fields.len() - 1);
            let (size, align) = field_size_align(fields.last());
            let prev = layout_end_int(fields.drop_last());
            assert(round_up_int(prev.0, align as int) >= prev.0) by {
                if align > 1 {
                    let q = (prev.0 + align - 1) / (align as int);
                    assert(q * align >= prev.0) by (nonlinear_arith)
                        requires
                            align > 1,
                            q == (prev.0 + align - 1) / (align as int),
                    ;
                }
            }
            assert forall|i: int| 0 <= i < fields.drop_last().len() implies (#[trigger] type_layout(fields.drop_last()[i].ty)) is Some by {
                assert(fields.drop_last()[i] == fields[i]);
            }
        }
    }
}

/// An event's record layout is sound when it fits in 32 bits: every field
/// starts at a multiple of its alignment, fields follow one another without
/// overlapping, and every field ends within the record size.
pub proof fn lemma_event_layout(fields: Seq<EventField>)
    requires
        fields_valid(fields),
        layout_fits(fields),
    ensures
        forall|i: int| 0 <= i < fields.len() ==> (#[trigger] field_offset_at(fields, i)) % field_size_align(fields[i]).1 == 0,
        forall|i: int, j: int| 0 <= i < j < fields.len() ==> #[trigger] field_offset_at(fields, i) + field_size_align(fields[i]).0
            <= #[trigger] field_offset_at(fields, j),
        forall|i: int| 0 <= i < fields.len() ==> #[trigger] field_offset_at(fields, i) + field_size_align(fields[i]).0
            <= event_size(fields),
{
    assert forall|i: int| 0 <= i < fields.len() implies {
        &&& field_offset_at(fields, i) as int == round_up_int(layout_end_int(fields.subrange(0, i)).0, field_size_align(fields[i]).1 as int)
        &&& layout_end_int(fields.subrange(0, i + 1)).0 == field_offset_at(fields, i) + field_size_align(fields[i]).0
        &&& (#[trigger] field_offset_at(fields, i)) % field_size_align(fields[i]).1 == 0
    } by {
        let pre = fields.subrange(0, i);
        let next = fields.subrange(0, i + 1);
        lemma_layout_prefix_mono(fields, i + 1);
        assert(next.drop_last() == pre);
        assert(next.last() == fields[i]);
        assert forall|k: int| 0 <= k < next.len() implies (#[trigger] type_layout(next[k].ty)) is Some by {
            assert(next[k] == fields[k]);
        }
        assert forall|k: int| 0 <= k < pre.len() implies (#[trigger] type_layout(pre[k].ty)) is Some by {
            assert(pre[k] == fields[k]);
        }
        lemma_layout_prefix_mono(next, i);
        assert(layout_fits(pre));
        lemma_layout_exact(pre);
        lemma_field_align(fields[i]);
        lemma_align_up_exact(layout_end(pre).0, field_size_align(fields[i]).1);
    }
    assert forall|i: int, j: int| 0 <= i < j < fields.len() implies #[trigger] field_offset_at(fields, i) + field_size_align(fields[i]).0
        <= #[trigger] field_offset_at(fields, j) by {
        let pj = fields.subrange(0, j);
        assert(pj.subrange(0, i + 1) == fields.subrange(0, i + 1));
        assert forall|k: int| 0 <= k < pj.len() implies (#[trigger] type_layout(pj[k].ty)) is Some by {
            assert(pj[k] == fields[k]);
        }
        lemma_layout_prefix_mono(pj, i + 1);
        let e = layout_end_int(pj).0;
        let a = field_size_align(fields[j]).1 as int;
        lemma_field_align(fields[j]);
        assert(round_up_int(e, a) >= e) by {
            if a > 1 {
                let q = (e + a - 1) / a;
                assert(q * a >= e) by (nonlinear_arith)
                    requires
                        a > 1,
                        q == (e + a - 1) / a,
                ;
            }
        }
    }
    assert forall|i: int| 0 <= i < fields.len() implies #[trigger] field_offset_at(fields, i) + field_size_align(fields[i]).0
        <= event_size(fields) by {
        lemma_layout_prefix_mono(fields, i + 1);
        lemma_layout_exact(fields);
        let e = layout_end(fields).0;
        lemma_align_up_exact(e, layout_end(fields).1);
    }
}

/// The offset `compute_field_offset` gives is sound for an event that
/// passes the size check: it belongs to the first field of that name, is
/// a multiple of that field's alignment, lies at or after the end of every
/// earlier field, and the field ends within the record size; an event with
/// no field of that name gives no offset.
pub proof fn lemma_field_offset_sound(fields: Seq<EventField>, name: Seq<char>)
    requires
        fields_valid(fields),
        event_size_exact(fields) <= MAX_EVENT_SIZE,
    ensures
        match first_field_named(fields, name) {
            Some(i) => {
                let o = field_offset_at(fields, i);
                &&& 0 <= i < fields.len()
                &&& fields[i].name@ == name
                &&& forall|j: int| 0 <= j < i ==> (#[trigger] fields[j]).name@ != name
                &&& o % field_size_align(fields[i]).1 == 0
                &&& forall|j: int| 0 <= j < i ==> #[trigger] field_offset_at(fields, j) + field_size_align(fields[j]).0 <= o
                &&& o + field_size_align(fields[i]).0 <= event_size(fields)
            },
            None => forall|j: int| 0 <= j < fields.len() ==> (#[trigger] fields[j]).name@ != name,
        },
{
    lemma_accepted_event_fits(fields);
    lemma_first_field_named(fields, name);
    lemma_event_layout(fields);
    if let Some(i) = first_field_named(fields, name) {
        assert(field_offset_at(fields, i) % field_size_align(fields[i]).1 == 0);
        assert(field_offset_at(fields, i) + field_size_align(fields[i]).0 <= event_size(fields));
    }
}

} // verus!
