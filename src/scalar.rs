//! Coercion of single native values into the field values of a target field.
use vstd::prelude::*;
use crate::error::{CodecError, Expected};
use crate::native::AtomKind;
use crate::proto::{DynamicMessage, ProtoValue, ProtoView, result_view};
use crate::schema::{Cardinality, DescriptorPool, EnumDescriptor, FieldDescriptor, FieldKind, Wrapper, wrapper_of};

verus! {

/// The wrapper that a field kind names, if any.
pub open spec fn kind_wrapper(pool: DescriptorPool, k: FieldKind) -> Option<Wrapper> {
    match k {
        FieldKind::Message(m) => pool.wrapper(m as int),
        _ => None,
    }
}

/// The wrapper message of type `m` whose single field holds `inner`.
pub open spec fn wrapped(m: usize, inner: ProtoView) -> ProtoView {
    ProtoView::Message(m, seq![Some(inner)])
}

/// `v` lies between the first and the last declared value of the enum, in
/// declaration order.
pub open spec fn enum_in_range(e: EnumDescriptor, v: int) -> bool {
    e.values@[0].number <= v <= e.values@.last().number
}

/// A field that holds one value.
pub open spec fn singular(field: FieldDescriptor) -> bool {
    field.cardinality == Cardinality::Singular
}

pub open spec fn spec_bool_to_value(value: bool, field: FieldDescriptor) -> Result<ProtoView, CodecError> {
    if field.kind == FieldKind::Bool {
        Ok(ProtoView::Bool(value))
    } else {
        Err(CodecError::TypeMismatch(Expected::Atom(AtomKind::Bool)))
    }
}

pub open spec fn spec_int_to_value(pool: DescriptorPool, value: i32, field: FieldDescriptor) -> Result<ProtoView, CodecError> {
    let err = Err(CodecError::TypeMismatch(Expected::Atom(AtomKind::Int)));
    match field.kind {
        FieldKind::Int32 | FieldKind::Sint32 => Ok(ProtoView::I32(value)),
        FieldKind::Message(m) => match pool.wrapper(m as int) {
            Some(Wrapper::Month) | Some(Wrapper::Date) | Some(Wrapper::Minute) | Some(Wrapper::Second) | Some(
                Wrapper::Time,
            ) => Ok(wrapped(m, ProtoView::I32(value))),
            _ => err,
        },
        _ => err,
    }
}

pub open spec fn spec_long_to_value(pool: DescriptorPool, value: i64, field: FieldDescriptor) -> Result<ProtoView, CodecError> {
    let err = Err(CodecError::TypeMismatch(Expected::Atom(AtomKind::Long)));
    match field.kind {
        FieldKind::Int64 | FieldKind::Sint64 => Ok(ProtoView::I64(value)),
        FieldKind::Message(m) => match pool.wrapper(m as int) {
            Some(Wrapper::Timestamp) | Some(Wrapper::Timespan) => Ok(wrapped(m, ProtoView::I64(value))),
            _ => err,
        },
        FieldKind::Enum(e) => if enum_in_range(pool.enums@[e as int], value as int) {
            Ok(ProtoView::EnumNumber(value as i32))
        } else {
            Err(CodecError::NotAReservedEnumValue)
        },
        _ => err,
    }
}

pub open spec fn spec_real_to_value(value: u32, field: FieldDescriptor) -> Result<ProtoView, CodecError> {
    if field.kind == FieldKind::Float {
        Ok(ProtoView::F32(value))
    } else {
        Err(CodecError::TypeMismatch(Expected::Atom(AtomKind::Real)))
    }
}

pub open spec fn spec_float_to_value(pool: DescriptorPool, value: u64, field: FieldDescriptor) -> Result<ProtoView, CodecError> {
    let err = Err(CodecError::TypeMismatch(Expected::Atom(AtomKind::Float)));
    match field.kind {
        FieldKind::Double => Ok(ProtoView::F64(value)),
        FieldKind::Message(m) => match pool.wrapper(m as int) {
            Some(Wrapper::Datetime) => Ok(wrapped(m, ProtoView::F64(value))),
            _ => err,
        },
        _ => err,
    }
}

pub open spec fn spec_symbol_to_value(pool: DescriptorPool, value: Seq<char>, field: FieldDescriptor) -> Result<ProtoView, CodecError> {
    let err = Err(CodecError::TypeMismatch(Expected::Atom(AtomKind::Symbol)));
    match field.kind {
        FieldKind::Message(m) => match pool.wrapper(m as int) {
            Some(Wrapper::Symbol) => Ok(wrapped(m, ProtoView::Str(value))),
            _ => err,
        },
        _ => err,
    }
}

/// The wrapper that field kind `k` names, if any.
pub fn kind_wrapper_of(pool: &DescriptorPool, k: FieldKind) -> (r: Option<Wrapper>)
    requires
        pool.kind_wf(k),
    ensures
        r == kind_wrapper(*pool, k),
{
    match k {
        FieldKind::Message(m) => wrapper_of(&pool.messages[m].full_name),
        _ => None,
    }
}

/// Builds the wrapper message of type `m` around `inner`.
pub fn make_wrapped(m: usize, inner: ProtoValue) -> (r: ProtoValue)
    ensures
        r@ == wrapped(m, inner@),
{
    let mut fields: Vec<Option<ProtoValue>> = Vec::new();
    fields.push(Some(inner));
    let r = ProtoValue::Message(DynamicMessage { descriptor: m, fields });
    proof {
        let ghost v = r@;
        assert(v->Message_1 =~= seq![Some(inner@)]);
    }
    r
}

/// Whether `value` lies within the declared range of enum type `e`.
pub fn enum_value_in_range(pool: &DescriptorPool, e: usize, value: i64) -> (r: bool)
    requires
        e < pool.enums@.len(),
        pool.enums@[e as int].values@.len() > 0,
    ensures
        r == enum_in_range(pool.enums@[e as int], value as int),
{
    let values = &pool.enums[e].values;
    let first = values[0].number as i64;
    let last = values[values.len() - 1].number as i64;
    first <= value && value <= last
}

/// Converts a boolean into the value of a bool field.
pub fn bool_to_value(value: bool, field: &FieldDescriptor) -> (r: Result<ProtoValue, CodecError>)
    ensures
        result_view(r) == spec_bool_to_value(value, *field),
{
    if field.kind == FieldKind::Bool {
        Ok(ProtoValue::Bool(value))
    } else {
        Err(CodecError::TypeMismatch(Expected::Atom(AtomKind::Bool)))
    }
}

/// Converts an int (or month, date, minute, second, time) into the value of
/// an int32 field or of a month, date, minute, second or time wrapper field.
pub fn int_to_value(pool: &DescriptorPool, value: i32, field: &FieldDescriptor) -> (r: Result<ProtoValue, CodecError>)
    requires
        pool.kind_wf(field.kind),
    ensures
        result_view(r) == spec_int_to_value(*pool, value, *field),
{
    let err = Err(CodecError::TypeMismatch(Expected::Atom(AtomKind::Int)));
    match field.kind {
        FieldKind::Int32 | FieldKind::Sint32 => Ok(ProtoValue::I32(value)),
        FieldKind::Message(m) => match kind_wrapper_of(pool, field.kind) {
            Some(Wrapper::Month) | Some(Wrapper::Date) | Some(Wrapper::Minute) | Some(Wrapper::Second) | Some(
                Wrapper::Time,
            ) => Ok(make_wrapped(m, ProtoValue::I32(value))),
            _ => err,
        },
        _ => err,
    }
}

/// Converts a long (or timestamp, timespan) into the value of an int64 field,
/// of a timestamp or timespan wrapper field, or of an enum field; an enum
/// value must lie within the enum's declared range.
pub fn long_to_value(pool: &DescriptorPool, value: i64, field: &FieldDescriptor) -> (r: Result<ProtoValue, CodecError>)
    requires
        pool.kind_wf(field.kind),
    ensures
        result_view(r) == spec_long_to_value(*pool, value, *field),
{
    let err = Err(CodecError::TypeMismatch(Expected::Atom(AtomKind::Long)));
    match field.kind {
        FieldKind::Int64 | FieldKind::Sint64 => Ok(ProtoValue::I64(value)),
        FieldKind::Message(m) => match kind_wrapper_of(pool, field.kind) {
            Some(Wrapper::Timestamp) | Some(Wrapper::Timespan) => Ok(make_wrapped(m, ProtoValue::I64(value))),
            _ => err,
        },
        FieldKind::Enum(e) => {
            if enum_value_in_range(pool, e, value) {
                Ok(ProtoValue::EnumNumber(value as i32))
            } else {
                Err(CodecError::NotAReservedEnumValue)
            }
        },
        _ => err,
    }
}

/// Converts a real into the value of a float field.
pub fn real_to_value(value: u32, field: &FieldDescriptor) -> (r: Result<ProtoValue, CodecError>)
    ensures
        result_view(r) == spec_real_to_value(value, *field),
{
    if field.kind == FieldKind::Float {
        Ok(ProtoValue::F32(value))
    } else {
        Err(CodecError::TypeMismatch(Expected::Atom(AtomKind::Real)))
    }
}

/// Converts a float (or datetime) into the value of a double field or of a
/// datetime wrapper field.
pub fn float_to_value(pool: &DescriptorPool, value: u64, field: &FieldDescriptor) -> (r: Result<ProtoValue, CodecError>)
    requires
        pool.kind_wf(field.kind),
    ensures
        result_view(r) == spec_float_to_value(*pool, value, *field),
{
    let err = Err(CodecError::TypeMismatch(Expected::Atom(AtomKind::Float)));
    match field.kind {
        FieldKind::Double => Ok(ProtoValue::F64(value)),
        FieldKind::Message(m) => match kind_wrapper_of(pool, field.kind) {
            Some(Wrapper::Datetime) => Ok(make_wrapped(m, ProtoValue::F64(value))),
            _ => err,
        },
        _ => err,
    }
}

/// Converts a symbol into the value of a symbol wrapper field.
pub fn symbol_to_value(pool: &DescriptorPool, value: &String, field: &FieldDescriptor) -> (r: Result<ProtoValue, CodecError>)
    requires
        pool.kind_wf(field.kind),
    ensures
        result_view(r) == spec_symbol_to_value(*pool, value@, *field),
{
    let err = Err(CodecError::TypeMismatch(Expected::Atom(AtomKind::Symbol)));
    match field.kind {
        FieldKind::Message(m) => match kind_wrapper_of(pool, field.kind) {
            Some(Wrapper::Symbol) => Ok(make_wrapped(m, ProtoValue::Str(value.clone()))),
            _ => err,
        },
        _ => err,
    }
}

} // verus!
