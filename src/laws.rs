//! Laws of the codec, stated over the specifications of encoding and
//! decoding and proved.
use vstd::prelude::*;
use crate::decode::{spec_decode_message, spec_decode_value, spec_field_values, field_names};
use crate::encode::{float_like, int_like, long_like, spec_k_to_value, symbol_name};
use crate::error::CodecError;
use crate::native::{AtomV, QView};
use crate::proto::ProtoView;
use crate::registry::EnumRegistry;
use crate::scalar::enum_in_range;
use crate::schema::{Cardinality, DescriptorPool, FieldDescriptor, FieldKind, Wrapper};
use crate::widen::{atom_of, uniform, widened};

verus! {

/// The atom of a wrapper's own type carrying the payload of atom `a`.
pub open spec fn as_wrapper_atom(w: Wrapper, a: AtomV) -> AtomV {
    match w {
        Wrapper::Symbol => AtomV::Symbol(symbol_name(a)),
        Wrapper::Timestamp => AtomV::Timestamp(long_like(a)->0),
        Wrapper::Timespan => AtomV::Timespan(long_like(a)->0),
        Wrapper::Datetime => AtomV::Datetime(float_like(a)->0),
        Wrapper::Month => AtomV::Month(int_like(a)->0),
        Wrapper::Date => AtomV::Date(int_like(a)->0),
        Wrapper::Minute => AtomV::Minute(int_like(a)->0),
        Wrapper::Second => AtomV::Second(int_like(a)->0),
        Wrapper::Time => AtomV::Time(int_like(a)->0),
    }
}

/// Wrapper transparency: an atom encoded for a singular wrapper field (a
/// symbol for `q.symbol`, an int-like atom for `q.month`, `q.date`,
/// `q.minute`, `q.second` and `q.time`, a long-like atom for `q.timestamp` and
/// `q.timespan`, a float-like atom for `q.datetime`) decodes back to an atom
/// of the wrapper's own type with the same payload, never to a dictionary.
pub proof fn wrapper_transparency(pool: DescriptorPool, field: FieldDescriptor, m: usize, w: Wrapper, a: AtomV)
    requires
        pool.wf(),
        pool.field_wf(field),
        field.cardinality == Cardinality::Singular,
        field.kind == FieldKind::Message(m),
        pool.wrapper(m as int) == Some(w),
        match w {
            Wrapper::Symbol => a is Symbol,
            Wrapper::Timestamp | Wrapper::Timespan => long_like(a) is Some,
            Wrapper::Datetime => float_like(a) is Some,
            _ => int_like(a) is Some,
        },
    ensures
        spec_k_to_value(pool, QView::Atom(a), field) is Ok,
        spec_decode_value(pool, spec_k_to_value(pool, QView::Atom(a), field)->Ok_0, field) == QView::Atom(as_wrapper_atom(w, a)),
{
    let pv = spec_k_to_value(pool, QView::Atom(a), field)->Ok_0;
    assert(pv->Message_1[0] is Some);
}

/// Enum range validation: a long-like atom encoded for a singular enum field
/// succeeds exactly when it lies between the first and the last declared
/// value, and otherwise fails with `NotAReservedEnumValue`.
pub proof fn enum_range_validation(pool: DescriptorPool, field: FieldDescriptor, e: usize, a: AtomV)
    requires
        pool.wf(),
        pool.field_wf(field),
        field.cardinality == Cardinality::Singular,
        field.kind == FieldKind::Enum(e),
        long_like(a) is Some,
    ensures
        spec_k_to_value(pool, QView::Atom(a), field) == if enum_in_range(pool.enums@[e as int], long_like(a)->0 as int) {
            Ok::<ProtoView, CodecError>(ProtoView::EnumNumber(long_like(a)->0 as i32))
        } else {
            Err(CodecError::NotAReservedEnumValue)
        },
{
}

/// For an enum whose values are declared `0, 1, ..., n` in order, the
/// accepted range is exactly `[0, n]`: `-1` and `n + 1` fail.
pub proof fn enum_range_from_zero(pool: DescriptorPool, field: FieldDescriptor, e: usize, x: i64)
    requires
        pool.wf(),
        pool.field_wf(field),
        field.cardinality == Cardinality::Singular,
        field.kind == FieldKind::Enum(e),
        forall|i: int| 0 <= i < pool.enums@[e as int].values@.len() ==> #[trigger] pool.enums@[e as int].values@[i].number == i,
    ensures
        spec_k_to_value(pool, QView::Atom(AtomV::Long(x)), field) is Ok <==> 0 <= x < pool.enums@[e as int].values@.len(),
        spec_k_to_value(pool, QView::Atom(AtomV::Long(x)), field) is Err ==> spec_k_to_value(pool, QView::Atom(AtomV::Long(x)), field)
            == Err::<ProtoView, CodecError>(CodecError::NotAReservedEnumValue),
{
    let vals = pool.enums@[e as int].values@;
    assert(vals[0].number == 0);
    assert(vals.last().number == vals.len() - 1);
}

/// Widening keeps every value: the widened list of `s` is a simple list of
/// exactly the atoms of `s` when they are atoms of one class, and otherwise a
/// compound list of exactly `s`, whatever the order in which the kinds met.
pub proof fn widening_keeps_values(s: Seq<QView>)
    ensures
        uniform(s) ==> (widened(s) matches QView::List(k, atoms) && atoms.len() == s.len() && k == atom_of(s[0]).kind()
            && (forall|i: int| 0 <= i < s.len() ==> QView::Atom(#[trigger] atoms[i]) == s[i])),
        !uniform(s) ==> widened(s) == QView::Compound(s),
{
}

/// A value that is not an atom (null, a string, a list, a dictionary, a
/// table) forces the whole list to be compound.
pub proof fn non_atom_forces_compound(s: Seq<QView>, j: int)
    requires
        0 <= j < s.len(),
        !(s[j] is Atom),
    ensures
        widened(s) == QView::Compound(s),
{
}

/// An unset field of a decoded message reads as null and makes the value
/// list compound; the list keeps one value per declared field.
pub proof fn unset_field_is_null(pool: DescriptorPool, d: usize, fs: Seq<Option<ProtoView>>, j: int)
    requires
        pool.wf(),
        d < pool.messages@.len(),
        0 <= j < pool.messages@[d as int].fields@.len(),
        j >= fs.len() || fs[j] is None,
    ensures
        spec_decode_message(pool, d, fs) == QView::Dict(
            Box::new(field_names(pool, d)),
            Box::new(QView::Compound(spec_field_values(pool, pool.messages@[d as int].fields@, fs))),
        ),
        spec_field_values(pool, pool.messages@[d as int].fields@, fs).len() == pool.messages@[d as int].fields@.len(),
        spec_field_values(pool, pool.messages@[d as int].fields@, fs)[j] == QView::Null,
{
    let vs = spec_field_values(pool, pool.messages@[d as int].fields@, fs);
    assert(vs[j] == QView::Null);
    non_atom_forces_compound(vs, j);
}

/// Registering an enum source a second time, with any values, changes
/// nothing: the binding made first stays.
pub proof fn register_twice_is_once(
    r0: EnumRegistry,
    r1: EnumRegistry,
    r2: EnumRegistry,
    name: Seq<char>,
    first: Seq<Seq<char>>,
    second: Seq<Seq<char>>,
)
    requires
        EnumRegistry::registered(r0, name, first, r1),
        EnumRegistry::registered(r1, name, second, r2),
    ensures
        r2.sources@ == r1.sources@,
        r2.binding(name) == r1.binding(name),
        !r0.has(name) ==> r2.binding(name) == Some(first),
{
    assert(r1.binding(name) is Some);
}

/// Two different enum sources registered one after the other can both be
/// looked up, each with its own values.
pub proof fn two_sources_are_independent(
    r0: EnumRegistry,
    r1: EnumRegistry,
    r2: EnumRegistry,
    a: Seq<char>,
    va: Seq<Seq<char>>,
    b: Seq<char>,
    vb: Seq<Seq<char>>,
)
    requires
        a != b,
        !r0.has(a),
        !r0.has(b),
        EnumRegistry::registered(r0, a, va, r1),
        EnumRegistry::registered(r1, b, vb, r2),
    ensures
        r2.binding(a) == Some(va),
        r2.binding(b) == Some(vb),
{
    assert(r1.binding(a) is Some);
    assert(r1.has(a));
}

} // verus!
