//! Encoding of native values into dynamic messages.
use vstd::prelude::*;
use crate::error::{CodecError, Expected};
use crate::native::{Atom, AtomKind, AtomV, QValue, QView, atoms_view};
use crate::proto::{DynamicMessage, MapKey, MapKeyV, ProtoValue, ProtoView, result_view};
use crate::scalar::{
    bool_to_value, enum_in_range, enum_value_in_range, float_to_value, int_to_value, kind_wrapper_of, long_to_value,
    make_wrapped, real_to_value, spec_bool_to_value, spec_float_to_value, spec_int_to_value, spec_long_to_value,
    spec_real_to_value, spec_symbol_to_value, symbol_to_value, wrapped,
};
use crate::widen::values_view;
use crate::schema::{Cardinality, DescriptorPool, FieldDescriptor, FieldKind, Wrapper, wrapper_atom_kind};

verus! {

/// The int payload of an int, month, date, minute, second or time atom.
pub open spec fn int_like(a: AtomV) -> Option<i32> {
    match a {
        AtomV::Int(x) | AtomV::Month(x) | AtomV::Date(x) | AtomV::Minute(x) | AtomV::Second(x) | AtomV::Time(x) => Some(x),
        _ => None,
    }
}

/// The long payload of a long, timestamp, timespan or enum atom.
pub open spec fn long_like(a: AtomV) -> Option<i64> {
    match a {
        AtomV::Long(x) | AtomV::Timestamp(x) | AtomV::Timespan(x) => Some(x),
        AtomV::Enum(_, x) => Some(x),
        _ => None,
    }
}

/// The float payload of a float or datetime atom.
pub open spec fn float_like(a: AtomV) -> Option<u64> {
    match a {
        AtomV::Float(x) | AtomV::Datetime(x) => Some(x),
        _ => None,
    }
}

/// The field value of one atom of a simple list, by the atom's type.
pub open spec fn spec_atom_to_value(pool: DescriptorPool, a: AtomV, field: FieldDescriptor) -> Result<ProtoView, CodecError> {
    match a {
        AtomV::Bool(b) => spec_bool_to_value(b, field),
        AtomV::Real(x) => spec_real_to_value(x, field),
        AtomV::Symbol(s) => spec_symbol_to_value(pool, s, field),
        _ => if int_like(a) is Some {
            spec_int_to_value(pool, int_like(a)->0, field)
        } else if long_like(a) is Some {
            spec_long_to_value(pool, long_like(a)->0, field)
        } else {
            spec_float_to_value(pool, float_like(a)->0, field)
        },
    }
}

pub open spec fn atom_bool(a: AtomV) -> bool {
    match a {
        AtomV::Bool(b) => b,
        _ => false,
    }
}

pub open spec fn atom_int(a: AtomV) -> i32 {
    match a {
        AtomV::Int(x) => x,
        _ => 0,
    }
}

pub open spec fn atom_long(a: AtomV) -> i64 {
    match a {
        AtomV::Long(x) => x,
        _ => 0,
    }
}

pub open spec fn atom_real(a: AtomV) -> u32 {
    match a {
        AtomV::Real(x) => x,
        _ => 0,
    }
}

pub open spec fn atom_float(a: AtomV) -> u64 {
    match a {
        AtomV::Float(x) => x,
        _ => 0,
    }
}

pub open spec fn atom_enum(a: AtomV) -> i64 {
    match a {
        AtomV::Enum(_, x) => x,
        _ => 0,
    }
}

pub open spec fn chars_of(q: QView) -> Seq<char> {
    match q {
        QView::Chars(s) => s,
        _ => Seq::empty(),
    }
}

pub open spec fn bytes_of(q: QView) -> Seq<u8> {
    match q {
        QView::Bytes(b) => b,
        _ => Seq::empty(),
    }
}

/// The index of the first field named `name`, from index `i` on.
pub open spec fn find_field_from(fields: Seq<FieldDescriptor>, name: Seq<char>, i: int) -> Option<int>
    decreases fields.len() - i,
{
    if i < 0 || i >= fields.len() {
        None
    } else if fields[i].name@ == name {
        Some(i)
    } else {
        find_field_from(fields, name, i + 1)
    }
}

/// The payload of a symbol atom.
pub open spec fn symbol_name(a: AtomV) -> Seq<char> {
    match a {
        AtomV::Symbol(s) => s,
        _ => Seq::empty(),
    }
}

/// The map key of a key atom.
pub open spec fn atom_key(a: AtomV) -> MapKeyV {
    match a {
        AtomV::Bool(b) => MapKeyV::Bool(b),
        AtomV::Int(x) => MapKeyV::I32(x),
        AtomV::Long(x) => MapKeyV::I64(x),
        AtomV::Symbol(s) => MapKeyV::Str(s),
        _ => MapKeyV::Bool(false),
    }
}

/// The kind that the key list of a map with key field kind `k` must have.
pub open spec fn map_key_list_kind(k: FieldKind) -> Option<AtomKind> {
    match k {
        FieldKind::Bool => Some(AtomKind::Bool),
        FieldKind::Int32 | FieldKind::Sint32 => Some(AtomKind::Int),
        FieldKind::Int64 | FieldKind::Sint64 => Some(AtomKind::Long),
        FieldKind::String => Some(AtomKind::Symbol),
        _ => None,
    }
}

/// The index of the first entry with key `k`, from index `i` on; the length
/// of `es` if there is none.
pub open spec fn find_key_from(es: Seq<(MapKeyV, ProtoView)>, k: MapKeyV, i: int) -> int
    decreases es.len() - i,
{
    if i < 0 || i >= es.len() {
        es.len() as int
    } else if es[i].0 == k {
        i
    } else {
        find_key_from(es, k, i + 1)
    }
}

/// Map insertion: a new key is appended, an existing key gets the new value.
pub open spec fn map_insert(es: Seq<(MapKeyV, ProtoView)>, k: MapKeyV, v: ProtoView) -> Seq<(MapKeyV, ProtoView)> {
    let i = find_key_from(es, k, 0);
    if i < es.len() {
        es.update(i, (k, v))
    } else {
        es.push((k, v))
    }
}

/// The number of pairs in a dictionary of key list `keys` and value list
/// `vals`: the shorter of the two.
pub open spec fn pair_count(keys: Seq<AtomV>, vals: QView) -> int {
    let n = value_len(vals);
    if keys.len() < n {
        keys.len() as int
    } else {
        n
    }
}

/// The number of values in a value list.
pub open spec fn value_len(vals: QView) -> int {
    match vals {
        QView::List(_, atoms) => atoms.len() as int,
        QView::Compound(vs) => vs.len() as int,
        QView::Table(vs) => vs.len() as int,
        _ => 0,
    }
}

/// A value list that a dictionary can hold: a simple list, a compound list,
/// or (for maps) a table of rows.
pub open spec fn is_value_list(vals: QView, rows_allowed: bool) -> bool {
    match vals {
        QView::List(_, _) | QView::Compound(_) => true,
        QView::Table(_) => rows_allowed,
        _ => false,
    }
}

/// The field value of native value `v` for field `field`.
pub open spec fn spec_k_to_value(pool: DescriptorPool, v: QView, field: FieldDescriptor) -> Result<ProtoView, CodecError>
    decreases v, 3nat, 0int,
{
    match field.cardinality {
        Cardinality::List => spec_k_to_list(pool, v, field),
        Cardinality::Keyed => match field.kind {
            FieldKind::Message(m) => spec_k_to_map(pool, m, v),
            _ => Err(CodecError::UnsupportedFieldKind),
        },
        Cardinality::Singular => spec_k_to_single(pool, v, field),
    }
}

/// The value of a repeated field from a native list: a simple list of the
/// field's kind, a compound list of strings or byte lists, a table for
/// messages, or an enum list whose indices lie in the enum's range.
pub open spec fn spec_k_to_list(pool: DescriptorPool, v: QView, field: FieldDescriptor) -> Result<ProtoView, CodecError>
    decreases v, 2nat, 0int,
{
    match field.kind {
        FieldKind::Bool => match v {
            QView::List(AtomKind::Bool, atoms) => Ok(ProtoView::List(Seq::new(atoms.len(), |i: int| ProtoView::Bool(atom_bool(atoms[i]))))),
            _ => Err(CodecError::TypeMismatch(Expected::List(AtomKind::Bool))),
        },
        FieldKind::Int32 | FieldKind::Sint32 => match v {
            QView::List(AtomKind::Int, atoms) => Ok(ProtoView::List(Seq::new(atoms.len(), |i: int| ProtoView::I32(atom_int(atoms[i]))))),
            _ => Err(CodecError::TypeMismatch(Expected::List(AtomKind::Int))),
        },
        FieldKind::Int64 | FieldKind::Sint64 => match v {
            QView::List(AtomKind::Long, atoms) => Ok(ProtoView::List(Seq::new(atoms.len(), |i: int| ProtoView::I64(atom_long(atoms[i]))))),
            _ => Err(CodecError::TypeMismatch(Expected::List(AtomKind::Long))),
        },
        FieldKind::Float => match v {
            QView::List(AtomKind::Real, atoms) => Ok(ProtoView::List(Seq::new(atoms.len(), |i: int| ProtoView::F32(atom_real(atoms[i]))))),
            _ => Err(CodecError::TypeMismatch(Expected::List(AtomKind::Real))),
        },
        FieldKind::Double => match v {
            QView::List(AtomKind::Float, atoms) => Ok(ProtoView::List(Seq::new(atoms.len(), |i: int| ProtoView::F64(atom_float(atoms[i]))))),
            _ => Err(CodecError::TypeMismatch(Expected::List(AtomKind::Float))),
        },
        FieldKind::String => match v {
            QView::Compound(vs) => if forall|i: int| 0 <= i < vs.len() ==> #[trigger] vs[i] is Chars {
                Ok(ProtoView::List(Seq::new(vs.len(), |i: int| ProtoView::Str(chars_of(vs[i])))))
            } else {
                Err(CodecError::TypeMismatch(Expected::Chars))
            },
            _ => Err(CodecError::TypeMismatch(Expected::AnyList)),
        },
        FieldKind::Bytes => match v {
            QView::Compound(vs) => if forall|i: int| 0 <= i < vs.len() ==> #[trigger] vs[i] is Bytes {
                Ok(ProtoView::List(Seq::new(vs.len(), |i: int| ProtoView::Bytes(bytes_of(vs[i])))))
            } else {
                Err(CodecError::TypeMismatch(Expected::Bytes))
            },
            _ => Err(CodecError::TypeMismatch(Expected::AnyList)),
        },
        FieldKind::Message(m) => match pool.wrapper(m as int) {
            Some(w) => match v {
                QView::List(lk, atoms) if lk == wrapper_atom_kind(w) => Ok(
                    ProtoView::List(Seq::new(atoms.len(), |i: int| wrapped(m, wrapper_inner(w, atoms[i])))),
                ),
                _ => Err(CodecError::TypeMismatch(Expected::List(wrapper_atom_kind(w)))),
            },
            None => match v {
                QView::Table(rows) => match spec_encode_rows(pool, m, rows, rows.len() as int) {
                    Ok(ms) => Ok(ProtoView::List(ms)),
                    Err(e) => Err(e),
                },
                _ => Err(CodecError::TypeMismatch(Expected::Table)),
            },
        },
        FieldKind::Enum(e) => match v {
            QView::List(AtomKind::Enum, atoms) => if forall|i: int|
                0 <= i < atoms.len() ==> enum_in_range(pool.enums@[e as int], atom_enum(#[trigger] atoms[i]) as int) {
                Ok(ProtoView::List(Seq::new(atoms.len(), |i: int| ProtoView::EnumNumber(atom_enum(atoms[i]) as i32))))
            } else {
                Err(CodecError::NotAReservedEnumValue)
            },
            _ => Err(CodecError::TypeMismatch(Expected::List(AtomKind::Enum))),
        },
        _ => Err(CodecError::UnsupportedFieldKind),
    }
}

/// The value of a singular field from a native value: an atom that the
/// field's kind reads, a string, a byte list, or a dictionary for a message.
pub open spec fn spec_k_to_single(pool: DescriptorPool, v: QView, field: FieldDescriptor) -> Result<ProtoView, CodecError>
    decreases v, 2nat, 0int,
{
    match field.kind {
        FieldKind::String => match v {
            QView::Chars(s) => Ok(ProtoView::Str(s)),
            _ => Err(CodecError::TypeMismatch(Expected::Chars)),
        },
        FieldKind::Bytes => match v {
            QView::Bytes(b) => Ok(ProtoView::Bytes(b)),
            _ => Err(CodecError::TypeMismatch(Expected::Bytes)),
        },
        FieldKind::Message(m) => match pool.wrapper(m as int) {
            Some(w) => match v {
                QView::Atom(a) => if wrapper_accepts(w, a) {
                    Ok(wrapped(m, wrapper_inner(w, a)))
                } else {
                    Err(CodecError::TypeMismatch(Expected::Atom(wrapper_reads(w))))
                },
                _ => Err(CodecError::TypeMismatch(Expected::Atom(wrapper_reads(w)))),
            },
            None => match spec_encode_message(pool, m, v) {
                Ok(fs) => Ok(ProtoView::Message(m, fs)),
                Err(e) => Err(e),
            },
        },
        FieldKind::Bool => match v {
            QView::Atom(AtomV::Bool(b)) => Ok(ProtoView::Bool(b)),
            _ => Err(CodecError::TypeMismatch(Expected::Atom(AtomKind::Bool))),
        },
        FieldKind::Int32 | FieldKind::Sint32 => match v {
            QView::Atom(a) => match int_like(a) {
                Some(x) => Ok(ProtoView::I32(x)),
                None => Err(CodecError::TypeMismatch(Expected::Atom(AtomKind::Int))),
            },
            _ => Err(CodecError::TypeMismatch(Expected::Atom(AtomKind::Int))),
        },
        FieldKind::Int64 | FieldKind::Sint64 => match v {
            QView::Atom(a) => match long_like(a) {
                Some(x) => Ok(ProtoView::I64(x)),
                None => Err(CodecError::TypeMismatch(Expected::Atom(AtomKind::Long))),
            },
            _ => Err(CodecError::TypeMismatch(Expected::Atom(AtomKind::Long))),
        },
        FieldKind::Float => match v {
            QView::Atom(AtomV::Real(x)) => Ok(ProtoView::F32(x)),
            _ => Err(CodecError::TypeMismatch(Expected::Atom(AtomKind::Real))),
        },
        FieldKind::Double => match v {
            QView::Atom(a) => match float_like(a) {
                Some(x) => Ok(ProtoView::F64(x)),
                None => Err(CodecError::TypeMismatch(Expected::Atom(AtomKind::Float))),
            },
            _ => Err(CodecError::TypeMismatch(Expected::Atom(AtomKind::Float))),
        },
        FieldKind::Enum(e) => match v {
            QView::Atom(a) => match long_like(a) {
                Some(x) => if enum_in_range(pool.enums@[e as int], x as int) {
                    Ok(ProtoView::EnumNumber(x as i32))
                } else {
                    Err(CodecError::NotAReservedEnumValue)
                },
                None => Err(CodecError::TypeMismatch(Expected::Atom(AtomKind::Long))),
            },
            _ => Err(CodecError::TypeMismatch(Expected::Atom(AtomKind::Long))),
        },
        _ => Err(CodecError::UnsupportedFieldKind),
    }
}

/// The messages of type `m` encoded from the first `n` rows of a table,
/// stopping at the first failure.
pub open spec fn spec_encode_rows(pool: DescriptorPool, m: usize, rows: Seq<QView>, n: int) -> Result<Seq<ProtoView>, CodecError>
    decreases rows, 1nat, n,
{
    if n <= 0 || n > rows.len() {
        Ok(Seq::empty())
    } else {
        match spec_encode_rows(pool, m, rows, n - 1) {
            Err(e) => Err(e),
            Ok(ms) => match spec_encode_message(pool, m, rows[n - 1]) {
                Ok(fs) => Ok(ms.push(ProtoView::Message(m, fs))),
                Err(e) => Err(e),
            },
        }
    }
}

/// The field slots of a message of type `d` encoded from a dictionary: each
/// key that names a field sets that field from the value at its position;
/// other keys are skipped; the first failure stops the encoding.
pub open spec fn spec_encode_message(pool: DescriptorPool, d: usize, data: QView) -> Result<Seq<Option<ProtoView>>, CodecError>
    decreases data, 1nat, 0int,
{
    match data {
        QView::Dict(keys, vals) => match *keys {
            QView::List(AtomKind::Symbol, names) => if is_value_list(*vals, false) {
                spec_encode_fields(pool, d, names, *vals, pair_count(names, *vals))
            } else {
                Err(CodecError::TypeMismatch(Expected::AnyList))
            },
            _ => Err(CodecError::TypeMismatch(Expected::List(AtomKind::Symbol))),
        },
        _ => Err(CodecError::TypeMismatch(Expected::Dictionary)),
    }
}

/// The field value from position `i` of a value list. An atom of a simple
/// list sets only a singular field.
pub open spec fn spec_entry_value(pool: DescriptorPool, vals: QView, i: int, field: FieldDescriptor) -> Result<ProtoView, CodecError>
    decreases vals, 0nat, 0int,
{
    match vals {
        QView::List(_, atoms) => if field.cardinality == Cardinality::Singular {
            spec_atom_to_value(pool, atoms[i], field)
        } else {
            Err(CodecError::TypeMismatch(Expected::AnyList))
        },
        QView::Compound(vs) => if 0 <= i < vs.len() {
            spec_k_to_value(pool, vs[i], field)
        } else {
            Err(CodecError::TypeMismatch(Expected::AnyList))
        },
        QView::Table(vs) => if 0 <= i < vs.len() {
            spec_k_to_value(pool, vs[i], field)
        } else {
            Err(CodecError::TypeMismatch(Expected::AnyList))
        },
        _ => Err(CodecError::TypeMismatch(Expected::AnyList)),
    }
}

/// The field slots after the first `n` pairs of a dictionary.
pub open spec fn spec_encode_fields(pool: DescriptorPool, d: usize, names: Seq<AtomV>, vals: QView, n: int) -> Result<Seq<Option<ProtoView>>, CodecError>
    decreases vals, 1nat, n,
{
    let fields = pool.messages@[d as int].fields@;
    if n <= 0 {
        Ok(Seq::new(fields.len(), |i: int| None))
    } else {
        match spec_encode_fields(pool, d, names, vals, n - 1) {
            Err(e) => Err(e),
            Ok(slots) => match find_field_from(fields, symbol_name(names[n - 1]), 0) {
                None => Ok(slots),
                Some(j) => match spec_entry_value(pool, vals, n - 1, fields[j]) {
                    Ok(pv) => Ok(slots.update(j, Some(pv))),
                    Err(e) => Err(e),
                },
            },
        }
    }
}

/// The entries of a map after the first `n` pairs of a dictionary.
pub open spec fn spec_map_fold(pool: DescriptorPool, vf: FieldDescriptor, keys: Seq<AtomV>, vals: QView, n: int) -> Result<Seq<(MapKeyV, ProtoView)>, CodecError>
    decreases vals, 1nat, n,
{
    if n <= 0 {
        Ok(Seq::empty())
    } else {
        match spec_map_fold(pool, vf, keys, vals, n - 1) {
            Err(e) => Err(e),
            Ok(es) => match spec_entry_value(pool, vals, n - 1, vf) {
                Ok(pv) => Ok(map_insert(es, atom_key(keys[n - 1]), pv)),
                Err(e) => Err(e),
            },
        }
    }
}

/// The entries of map field of entry type `m` encoded from a dictionary whose
/// keys are a simple list of the key kind.
pub open spec fn spec_k_to_map(pool: DescriptorPool, m: usize, data: QView) -> Result<ProtoView, CodecError>
    decreases data, 1nat, 0int,
{
    let entry = pool.messages@[m as int].fields@;
    match data {
        QView::Dict(keys, vals) => match map_key_list_kind(entry[0].kind) {
            None => Err(CodecError::UnsupportedKeyType),
            Some(k) => match *keys {
                QView::List(lk, katoms) if lk == k => if is_value_list(*vals, true) {
                    match spec_map_fold(pool, entry[1], katoms, *vals, pair_count(katoms, *vals)) {
                        Ok(es) => Ok(ProtoView::MapEntries(es)),
                        Err(e) => Err(e),
                    }
                } else {
                    Err(CodecError::TypeMismatch(Expected::AnyList))
                },
                _ => Err(CodecError::TypeMismatch(Expected::List(k))),
            },
        },
        _ => Err(CodecError::TypeMismatch(Expected::Dictionary)),
    }
}

/// Whether a wrapper field accepts atom `a`: a symbol for the symbol wrapper,
/// an int-like atom for month, date, minute, second and time, a long-like atom
/// for timestamp and timespan, a float-like atom for datetime.
pub open spec fn wrapper_accepts(w: Wrapper, a: AtomV) -> bool {
    match w {
        Wrapper::Symbol => a is Symbol,
        Wrapper::Timestamp | Wrapper::Timespan => long_like(a) is Some,
        Wrapper::Datetime => float_like(a) is Some,
        _ => int_like(a) is Some,
    }
}

/// The atom kind that a wrapper field reads.
pub open spec fn wrapper_reads(w: Wrapper) -> AtomKind {
    match w {
        Wrapper::Symbol => AtomKind::Symbol,
        Wrapper::Timestamp | Wrapper::Timespan => AtomKind::Long,
        Wrapper::Datetime => AtomKind::Float,
        _ => AtomKind::Int,
    }
}

/// The value of the single field of a wrapper message built from atom `a`.
pub open spec fn wrapper_inner(w: Wrapper, a: AtomV) -> ProtoView {
    match w {
        Wrapper::Symbol => ProtoView::Str(symbol_name(a)),
        Wrapper::Timestamp | Wrapper::Timespan => ProtoView::I64(
            match long_like(a) {
                Some(x) => x,
                None => 0,
            },
        ),
        Wrapper::Datetime => ProtoView::F64(
            match float_like(a) {
                Some(x) => x,
                None => 0,
            },
        ),
        _ => ProtoView::I32(
            match int_like(a) {
                Some(x) => x,
                None => 0,
            },
        ),
    }
}

/// The models of a sequence of field values.
pub open spec fn pvalues_view(v: Seq<ProtoValue>) -> Seq<ProtoView> {
    Seq::new(v.len(), |i: int| v[i]@)
}

/// The models of a sequence of field slots.
pub open spec fn slots_view(v: Seq<Option<ProtoValue>>) -> Seq<Option<ProtoView>> {
    Seq::new(
        v.len(),
        |i: int|
            match v[i] {
                Some(x) => Some(x@),
                None => None,
            },
    )
}

/// The models of a sequence of map entries.
pub open spec fn entries_view(v: Seq<(MapKey, ProtoValue)>) -> Seq<(MapKeyV, ProtoView)> {
    Seq::new(v.len(), |i: int| (v[i].0@, v[i].1@))
}

proof fn lemma_list_view(v: Vec<ProtoValue>)
    ensures
        ProtoValue::List(v)@ == ProtoView::List(pvalues_view(v@)),
{
    assert(ProtoValue::List(v)@->List_0 =~= pvalues_view(v@));
}

proof fn lemma_message_view(m: DynamicMessage)
    ensures
        m@ == ProtoView::Message(m.descriptor, slots_view(m.fields@)),
{
    assert(m@->Message_1 =~= slots_view(m.fields@));
}

proof fn lemma_entries_view(v: Vec<(MapKey, ProtoValue)>)
    ensures
        ProtoValue::MapEntries(v)@ == ProtoView::MapEntries(entries_view(v@)),
{
    assert(ProtoValue::MapEntries(v)@->MapEntries_0 =~= entries_view(v@));
}

/// The model of a message encoding's result.
pub open spec fn message_result_view(r: Result<DynamicMessage, CodecError>) -> Result<Seq<Option<ProtoView>>, CodecError> {
    match r {
        Ok(m) => Ok(slots_view(m.fields@)),
        Err(e) => Err(e),
    }
}

/// The payload of an int-like atom.
fn int_like_of(a: &Atom) -> (r: Option<i32>)
    ensures
        r == int_like(a@),
{
    match a {
        Atom::Int(x) | Atom::Month(x) | Atom::Date(x) | Atom::Minute(x) | Atom::Second(x) | Atom::Time(x) => Some(*x),
        _ => None,
    }
}

/// The payload of a long-like atom.
fn long_like_of(a: &Atom) -> (r: Option<i64>)
    ensures
        r == long_like(a@),
{
    match a {
        Atom::Long(x) | Atom::Timestamp(x) | Atom::Timespan(x) => Some(*x),
        Atom::Enum(_, x) => Some(*x),
        _ => None,
    }
}

/// The payload of a float-like atom.
fn float_like_of(a: &Atom) -> (r: Option<u64>)
    ensures
        r == float_like(a@),
{
    match a {
        Atom::Float(x) | Atom::Datetime(x) => Some(*x),
        _ => None,
    }
}

/// Converts one atom of a simple list into the value of field `field`.
pub fn atom_to_value(pool: &DescriptorPool, a: &Atom, field: &FieldDescriptor) -> (r: Result<ProtoValue, CodecError>)
    requires
        pool.kind_wf(field.kind),
    ensures
        result_view(r) == spec_atom_to_value(*pool, a@, *field),
{
    match a {
        Atom::Bool(b) => bool_to_value(*b, field),
        Atom::Real(x) => real_to_value(*x, field),
        Atom::Symbol(s) => symbol_to_value(pool, s, field),
        _ => match int_like_of(a) {
            Some(x) => int_to_value(pool, x, field),
            None => match long_like_of(a) {
                Some(x) => long_to_value(pool, x, field),
                None => {
                    let x = match float_like_of(a) {
                        Some(x) => x,
                        None => 0,
                    };
                    float_to_value(pool, x, field)
                },
            },
        },
    }
}

/// The index of the first field named `name`.
pub fn find_field(fields: &Vec<FieldDescriptor>, name: &String) -> (r: Option<usize>)
    ensures
        match r {
            Some(j) => find_field_from(fields@, name@, 0) == Some(j as int),
            None => find_field_from(fields@, name@, 0) is None,
        },
{
    let mut i: usize = 0;
    while i < fields.len()
        invariant
            i <= fields@.len(),
            find_field_from(fields@, name@, 0) == find_field_from(fields@, name@, i as int),
        decreases fields@.len() - i,
    {
        if fields[i].name == *name {
            return Some(i);
        }
        i = i + 1;
    }
    None
}

/// The value of the single field of a wrapper message built from atom `a`.
fn wrapper_inner_of(w: Wrapper, a: &Atom) -> (r: ProtoValue)
    ensures
        r@ == wrapper_inner(w, a@),
{
    match w {
        Wrapper::Symbol => ProtoValue::Str(
            match a {
                Atom::Symbol(s) => s.clone(),
                _ => String::new(),
            },
        ),
        Wrapper::Timestamp | Wrapper::Timespan => ProtoValue::I64(
            match long_like_of(a) {
                Some(x) => x,
                None => 0,
            },
        ),
        Wrapper::Datetime => ProtoValue::F64(
            match float_like_of(a) {
                Some(x) => x,
                None => 0,
            },
        ),
        _ => ProtoValue::I32(
            match int_like_of(a) {
                Some(x) => x,
                None => 0,
            },
        ),
    }
}

fn wrapper_accepts_atom(w: Wrapper, a: &Atom) -> (r: bool)
    ensures
        r == wrapper_accepts(w, a@),
{
    match w {
        Wrapper::Symbol => match a {
            Atom::Symbol(_) => true,
            _ => false,
        },
        Wrapper::Timestamp | Wrapper::Timespan => long_like_of(a).is_some(),
        Wrapper::Datetime => float_like_of(a).is_some(),
        _ => int_like_of(a).is_some(),
    }
}

fn wrapper_reads_kind(w: Wrapper) -> (r: AtomKind)
    ensures
        r == wrapper_reads(w),
{
    match w {
        Wrapper::Symbol => AtomKind::Symbol,
        Wrapper::Timestamp | Wrapper::Timespan => AtomKind::Long,
        Wrapper::Datetime => AtomKind::Float,
        _ => AtomKind::Int,
    }
}

fn wrapper_atom_kind_of(w: Wrapper) -> (r: AtomKind)
    ensures
        r == wrapper_atom_kind(w),
{
    match w {
        Wrapper::Symbol => AtomKind::Symbol,
        Wrapper::Timestamp => AtomKind::Timestamp,
        Wrapper::Month => AtomKind::Month,
        Wrapper::Date => AtomKind::Date,
        Wrapper::Datetime => AtomKind::Datetime,
        Wrapper::Timespan => AtomKind::Timespan,
        Wrapper::Minute => AtomKind::Minute,
        Wrapper::Second => AtomKind::Second,
        Wrapper::Time => AtomKind::Time,
    }
}

/// Inserts an entry into a map: a new key is appended, an existing key gets
/// the new value.
fn insert_entry(es: &mut Vec<(MapKey, ProtoValue)>, k: MapKey, v: ProtoValue)
    ensures
        entries_view(final(es)@) == map_insert(entries_view(old(es)@), k@, v@),
{
    let ghost ev = entries_view(es@);
    let mut i: usize = 0;
    while i < es.len()
        invariant
            i <= es@.len(),
            ev == entries_view(es@),
            ev == entries_view(old(es)@),
            find_key_from(ev, k@, 0) == find_key_from(ev, k@, i as int),
        decreases es@.len() - i,
    {
        proof {
            assert(ev[i as int].0 == es@[i as int].0@);
        }
        if es[i].0.same(&k) {
            proof {
                assert(ev[i as int].0 == es@[i as int].0@);
                assert(find_key_from(ev, k@, i as int) == i as int);
            }
            let ghost kv = k@;
            let ghost vv = v@;
            es[i] = (k, v);
            assert(entries_view(es@) =~= ev.update(i as int, (kv, vv)));
            return;
        }
        i = i + 1;
    }
    let ghost kv = k@;
    let ghost vv = v@;
    es.push((k, v));
    assert(entries_view(es@) =~= ev.push((kv, vv)));
}

/// Converts a native value into the value of field `field`: a list for a
/// repeated field, map entries for a map field, a single value otherwise.
pub fn k_to_value(pool: &DescriptorPool, v: &QValue, field: &FieldDescriptor) -> (r: Result<ProtoValue, CodecError>)
    requires
        pool.wf(),
        pool.field_wf(*field),
    ensures
        result_view(r) == spec_k_to_value(*pool, v@, *field),
    decreases v, 3nat, 0int,
{
    match field.cardinality {
        Cardinality::List => k_to_list(pool, v, field),
        Cardinality::Keyed => match field.kind {
            FieldKind::Message(m) => k_to_map(pool, m, v),
            _ => Err(CodecError::UnsupportedFieldKind),
        },
        Cardinality::Singular => k_to_single(pool, v, field),
    }
}

/// Converts a native list into the value of a repeated field.
fn k_to_list(pool: &DescriptorPool, v: &QValue, field: &FieldDescriptor) -> (r: Result<ProtoValue, CodecError>)
    requires
        pool.wf(),
        pool.field_wf(*field),
        field.cardinality == Cardinality::List,
    ensures
        result_view(r) == spec_k_to_list(*pool, v@, *field),
    decreases v, 2nat, 0int,
{
    let ghost vv = v@;
    match field.kind {
        FieldKind::Bool | FieldKind::Int32 | FieldKind::Sint32 | FieldKind::Int64 | FieldKind::Sint64 | FieldKind::Float
        | FieldKind::Double => {
            let want = match field.kind {
                FieldKind::Bool => AtomKind::Bool,
                FieldKind::Int32 | FieldKind::Sint32 => AtomKind::Int,
                FieldKind::Int64 | FieldKind::Sint64 => AtomKind::Long,
                FieldKind::Float => AtomKind::Real,
                _ => AtomKind::Float,
            };
            match v {
                QValue::List(k, atoms) if *k == want => {
                    let mut out: Vec<ProtoValue> = Vec::new();
                    let mut i: usize = 0;
                    while i < atoms.len()
                        invariant
                            i <= atoms@.len(),
                            out@.len() == i,
                            vv == v@,
                            *v == QValue::List(*k, *atoms),
                            *k == want,
                            want == match field.kind {
                                FieldKind::Bool => AtomKind::Bool,
                                FieldKind::Int32 | FieldKind::Sint32 => AtomKind::Int,
                                FieldKind::Int64 | FieldKind::Sint64 => AtomKind::Long,
                                FieldKind::Float => AtomKind::Real,
                                _ => AtomKind::Float,
                            },
                            forall|j: int| 0 <= j < i ==> (#[trigger] out@[j])@ == match want {
                                AtomKind::Bool => ProtoView::Bool(atom_bool(atoms@[j]@)),
                                AtomKind::Int => ProtoView::I32(atom_int(atoms@[j]@)),
                                AtomKind::Long => ProtoView::I64(atom_long(atoms@[j]@)),
                                AtomKind::Real => ProtoView::F32(atom_real(atoms@[j]@)),
                                _ => ProtoView::F64(atom_float(atoms@[j]@)),
                            },
                        decreases atoms@.len() - i,
                    {
                        let pv = match want {
                            AtomKind::Bool => ProtoValue::Bool(
                                match &atoms[i] {
                                    Atom::Bool(b) => *b,
                                    _ => false,
                                },
                            ),
                            AtomKind::Int => ProtoValue::I32(
                                match &atoms[i] {
                                    Atom::Int(x) => *x,
                                    _ => 0,
                                },
                            ),
                            AtomKind::Long => ProtoValue::I64(
                                match &atoms[i] {
                                    Atom::Long(x) => *x,
                                    _ => 0,
                                },
                            ),
                            AtomKind::Real => ProtoValue::F32(
                                match &atoms[i] {
                                    Atom::Real(x) => *x,
                                    _ => 0,
                                },
                            ),
                            _ => ProtoValue::F64(
                                match &atoms[i] {
                                    Atom::Float(x) => *x,
                                    _ => 0,
                                },
                            ),
                        };
                        out.push(pv);
                        i = i + 1;
                    }
                    proof {
                        lemma_list_view(out);
                        let sv = spec_k_to_list(*pool, vv, *field)->Ok_0->List_0;
                        assert(pvalues_view(out@) =~= sv);
                        assert(result_view(Ok::<ProtoValue, CodecError>(ProtoValue::List(out))) == spec_k_to_list(*pool, vv, *field));
                    }
                    Ok(ProtoValue::List(out))
                },
                _ => Err(CodecError::TypeMismatch(Expected::List(want))),
            }
        },
        FieldKind::String | FieldKind::Bytes => {
            let is_text = match field.kind {
                FieldKind::String => true,
                _ => false,
            };
            let elem_err = if is_text {
                CodecError::TypeMismatch(Expected::Chars)
            } else {
                CodecError::TypeMismatch(Expected::Bytes)
            };
            match v {
                QValue::Compound(vs) => {
                    let ghost qs = vv->Compound_0;
                    assert(qs.len() == vs@.len());
                    let mut out: Vec<ProtoValue> = Vec::new();
                    let mut i: usize = 0;
                    while i < vs.len()
                        invariant
                            i <= vs@.len(),
                            out@.len() == i,
                            vv == v@,
                            field.kind == FieldKind::String || field.kind == FieldKind::Bytes,
                            *v == QValue::Compound(*vs),
                            qs == vv->Compound_0,
                            is_text == (field.kind == FieldKind::String),
                            elem_err == if is_text {
                                CodecError::TypeMismatch(Expected::Chars)
                            } else {
                                CodecError::TypeMismatch(Expected::Bytes)
                            },
                            qs.len() == vs@.len(),
                            forall|j: int| 0 <= j < vs@.len() ==> qs[j] == (#[trigger] vs@[j])@,
                            forall|j: int| 0 <= j < i ==> if is_text {
                                qs[j] is Chars
                            } else {
                                qs[j] is Bytes
                            },
                            forall|j: int| 0 <= j < i ==> (#[trigger] out@[j])@ == if is_text {
                                ProtoView::Str(chars_of(qs[j]))
                            } else {
                                ProtoView::Bytes(bytes_of(qs[j]))
                            },
                        decreases vs@.len() - i,
                    {
                        let pv = match &vs[i] {
                            QValue::Chars(t) if is_text => ProtoValue::Str(t.clone()),
                            QValue::Bytes(b) if !is_text => ProtoValue::Bytes(b.clone()),
                            _ => {
                                proof {
                                    assert(qs[i as int] == vs@[i as int]@);
                                    if is_text {
                                        assert(!(qs[i as int] is Chars));
                                    } else {
                                        assert(!(qs[i as int] is Bytes));
                                    }
                                    assert(vv is Compound);
                                    assert(spec_k_to_list(*pool, vv, *field) == Err::<ProtoView, CodecError>(elem_err));
                                }
                                return Err(elem_err);
                            },
                        };
                        out.push(pv);
                        i = i + 1;
                    }
                    proof {
                        lemma_list_view(out);
                        let sv = spec_k_to_list(*pool, vv, *field)->Ok_0->List_0;
                        assert(pvalues_view(out@) =~= sv);
                        assert(result_view(Ok::<ProtoValue, CodecError>(ProtoValue::List(out))) == spec_k_to_list(*pool, vv, *field));
                    }
                    Ok(ProtoValue::List(out))
                },
                _ => Err(CodecError::TypeMismatch(Expected::AnyList)),
            }
        },
        FieldKind::Message(m) => match kind_wrapper_of(pool, field.kind) {
            Some(w) => {
                let want = wrapper_atom_kind_of(w);
                match v {
                    QValue::List(k, atoms) if *k == want => {
                        let mut out: Vec<ProtoValue> = Vec::new();
                        let mut i: usize = 0;
                        while i < atoms.len()
                            invariant
                                i <= atoms@.len(),
                                out@.len() == i,
                                vv == v@,
                                *v == QValue::List(*k, *atoms),
                                *k == want,
                                forall|j: int| 0 <= j < i ==> (#[trigger] out@[j])@ == wrapped(m, wrapper_inner(w, atoms@[j]@)),
                            decreases atoms@.len() - i,
                        {
                            out.push(make_wrapped(m, wrapper_inner_of(w, &atoms[i])));
                            i = i + 1;
                        }
                        proof {
                            lemma_list_view(out);
                            let sv = spec_k_to_list(*pool, vv, *field)->Ok_0->List_0;
                            assert(pvalues_view(out@) =~= sv);
                            assert(result_view(Ok::<ProtoValue, CodecError>(ProtoValue::List(out))) == spec_k_to_list(*pool, vv, *field));
                        }
                        Ok(ProtoValue::List(out))
                    },
                    _ => Err(CodecError::TypeMismatch(Expected::List(want))),
                }
            },
            None => match v {
                QValue::Table(rows) => {
                    proof {
                        assert(decreases_to!(*v => *rows));
                        assert(vv->Table_0 =~= values_view(rows@));
                    }
                    match encode_rows(pool, m, rows) {
                        Ok(out) => {
                            proof {
                                lemma_list_view(out);
                            }
                            Ok(ProtoValue::List(out))
                        },
                        Err(e) => Err(e),
                    }
                },
                _ => Err(CodecError::TypeMismatch(Expected::Table)),
            },
        },
        FieldKind::Enum(e) => match v {
            QValue::List(AtomKind::Enum, atoms) => {
                let mut out: Vec<ProtoValue> = Vec::new();
                let mut i: usize = 0;
                while i < atoms.len()
                    invariant
                        i <= atoms@.len(),
                        out@.len() == i,
                        vv == v@,
                        *v == QValue::List(AtomKind::Enum, *atoms),
                        field.kind == FieldKind::Enum(e),
                        vv->List_1 == atoms_view(atoms@),
                        e < pool.enums@.len(),
                        pool.enums@[e as int].values@.len() > 0,
                        forall|j: int| 0 <= j < i ==> enum_in_range(pool.enums@[e as int], atom_enum(#[trigger] atoms@[j]@) as int),
                        forall|j: int| 0 <= j < i ==> (#[trigger] out@[j])@ == ProtoView::EnumNumber(atom_enum(atoms@[j]@) as i32),
                    decreases atoms@.len() - i,
                {
                    let n: i64 = match &atoms[i] {
                        Atom::Enum(_, n) => *n,
                        _ => 0,
                    };
                    proof {
                        assert(vv->List_1[i as int] == atoms@[i as int]@);
                    }
                    if !enum_value_in_range(pool, e, n) {
                        return Err(CodecError::NotAReservedEnumValue);
                    }
                    out.push(ProtoValue::EnumNumber(n as i32));
                    i = i + 1;
                }
                proof {
                    lemma_list_view(out);
                    let sv = spec_k_to_list(*pool, vv, *field)->Ok_0->List_0;
                    assert(pvalues_view(out@) =~= sv);
                    assert(result_view(Ok::<ProtoValue, CodecError>(ProtoValue::List(out))) == spec_k_to_list(*pool, vv, *field));
                }
                Ok(ProtoValue::List(out))
            },
            _ => Err(CodecError::TypeMismatch(Expected::List(AtomKind::Enum))),
        },
        _ => Err(CodecError::UnsupportedFieldKind),
    }
}

/// Encodes the rows of a table as messages of type `m`.
fn encode_rows(pool: &DescriptorPool, m: usize, rows: &Vec<QValue>) -> (r: Result<Vec<ProtoValue>, CodecError>)
    requires
        pool.wf(),
        m < pool.messages@.len(),
    ensures
        match r {
            Ok(out) => spec_encode_rows(*pool, m, values_view(rows@), rows@.len() as int) == Ok::<Seq<ProtoView>, CodecError>(pvalues_view(out@)),
            Err(e) => spec_encode_rows(*pool, m, values_view(rows@), rows@.len() as int) == Err::<Seq<ProtoView>, CodecError>(e),
        },
    decreases rows, 1nat, 0int,
{
    let ghost qs = values_view(rows@);
    let mut out: Vec<ProtoValue> = Vec::new();
    assert(pvalues_view(out@) =~= Seq::<ProtoView>::empty());
    let mut i: usize = 0;
    while i < rows.len()
        invariant
            i <= rows@.len(),
            pool.wf(),
            m < pool.messages@.len(),
            qs == values_view(rows@),
            spec_encode_rows(*pool, m, qs, i as int) == Ok::<Seq<ProtoView>, CodecError>(pvalues_view(out@)),
        decreases rows@.len() - i,
    {
        proof {
            assert(decreases_to!(rows => rows@[i as int]));
        }
        match encode_to_message(pool, m, &rows[i]) {
            Ok(msg) => {
                let ghost before = pvalues_view(out@);
                proof {
                    lemma_message_view(msg);
                }
                out.push(ProtoValue::Message(msg));
                assert(pvalues_view(out@) =~= before.push(ProtoView::Message(m, slots_view(msg.fields@))));
            },
            Err(e) => {
                proof {
                    lemma_rows_error(*pool, m, qs, i as int + 1, rows@.len() as int);
                }
                return Err(e);
            },
        }
        i = i + 1;
    }
    Ok(out)
}

/// Once a row fails, encoding more rows fails the same way.
proof fn lemma_rows_error(pool: DescriptorPool, m: usize, rows: Seq<QView>, n: int, k: int)
    requires
        0 < n <= k <= rows.len(),
        spec_encode_rows(pool, m, rows, n) is Err,
    ensures
        spec_encode_rows(pool, m, rows, k) == spec_encode_rows(pool, m, rows, n),
    decreases k - n,
{
    if k > n {
        lemma_rows_error(pool, m, rows, n, k - 1);
    }
}

/// Converts a native value into the value of a singular field.
fn k_to_single(pool: &DescriptorPool, v: &QValue, field: &FieldDescriptor) -> (r: Result<ProtoValue, CodecError>)
    requires
        pool.wf(),
        pool.field_wf(*field),
        field.cardinality == Cardinality::Singular,
    ensures
        result_view(r) == spec_k_to_single(*pool, v@, *field),
    decreases v, 2nat, 0int,
{
    match field.kind {
        FieldKind::String => match v {
            QValue::Chars(s) => Ok(ProtoValue::Str(s.clone())),
            _ => Err(CodecError::TypeMismatch(Expected::Chars)),
        },
        FieldKind::Bytes => match v {
            QValue::Bytes(b) => Ok(ProtoValue::Bytes(b.clone())),
            _ => Err(CodecError::TypeMismatch(Expected::Bytes)),
        },
        FieldKind::Message(m) => match kind_wrapper_of(pool, field.kind) {
            Some(w) => match v {
                QValue::Atom(a) => if wrapper_accepts_atom(w, a) {
                    Ok(make_wrapped(m, wrapper_inner_of(w, a)))
                } else {
                    Err(CodecError::TypeMismatch(Expected::Atom(wrapper_reads_kind(w))))
                },
                _ => Err(CodecError::TypeMismatch(Expected::Atom(wrapper_reads_kind(w)))),
            },
            None => match encode_to_message(pool, m, v) {
                Ok(msg) => {
                    proof {
                        lemma_message_view(msg);
                    }
                    Ok(ProtoValue::Message(msg))
                },
                Err(e) => Err(e),
            },
        },
        FieldKind::Bool => match v {
            QValue::Atom(Atom::Bool(b)) => Ok(ProtoValue::Bool(*b)),
            _ => Err(CodecError::TypeMismatch(Expected::Atom(AtomKind::Bool))),
        },
        FieldKind::Int32 | FieldKind::Sint32 => match v {
            QValue::Atom(a) => match int_like_of(a) {
                Some(x) => Ok(ProtoValue::I32(x)),
                None => Err(CodecError::TypeMismatch(Expected::Atom(AtomKind::Int))),
            },
            _ => Err(CodecError::TypeMismatch(Expected::Atom(AtomKind::Int))),
        },
        FieldKind::Int64 | FieldKind::Sint64 => match v {
            QValue::Atom(a) => match long_like_of(a) {
                Some(x) => Ok(ProtoValue::I64(x)),
                None => Err(CodecError::TypeMismatch(Expected::Atom(AtomKind::Long))),
            },
            _ => Err(CodecError::TypeMismatch(Expected::Atom(AtomKind::Long))),
        },
        FieldKind::Float => match v {
            QValue::Atom(Atom::Real(x)) => Ok(ProtoValue::F32(*x)),
            _ => Err(CodecError::TypeMismatch(Expected::Atom(AtomKind::Real))),
        },
        FieldKind::Double => match v {
            QValue::Atom(a) => match float_like_of(a) {
                Some(x) => Ok(ProtoValue::F64(x)),
                None => Err(CodecError::TypeMismatch(Expected::Atom(AtomKind::Float))),
            },
            _ => Err(CodecError::TypeMismatch(Expected::Atom(AtomKind::Float))),
        },
        FieldKind::Enum(e) => match v {
            QValue::Atom(a) => match long_like_of(a) {
                Some(x) => if enum_value_in_range(pool, e, x) {
                    Ok(ProtoValue::EnumNumber(x as i32))
                } else {
                    Err(CodecError::NotAReservedEnumValue)
                },
                None => Err(CodecError::TypeMismatch(Expected::Atom(AtomKind::Long))),
            },
            _ => Err(CodecError::TypeMismatch(Expected::Atom(AtomKind::Long))),
        },
        _ => Err(CodecError::UnsupportedFieldKind),
    }
}

/// The field value from position `i` of a value list.
fn entry_value(pool: &DescriptorPool, vals: &QValue, i: usize, field: &FieldDescriptor) -> (r: Result<ProtoValue, CodecError>)
    requires
        pool.wf(),
        pool.field_wf(*field),
        i < value_len(vals@),
    ensures
        result_view(r) == spec_entry_value(*pool, vals@, i as int, *field),
    decreases vals, 0nat, 0int,
{
    let ghost vv = vals@;
    match vals {
        QValue::List(_, atoms) => {
            if field.cardinality != Cardinality::Singular {
                return Err(CodecError::TypeMismatch(Expected::AnyList));
            }
            proof {
                assert(vv->List_1[i as int] == atoms@[i as int]@);
            }
            atom_to_value(pool, &atoms[i], field)
        },
        QValue::Compound(vs) => {
            proof {
                assert(decreases_to!(*vals => *vs));
                assert(decreases_to!(*vs => vs@[i as int]));
                assert(vv->Compound_0[i as int] == vs@[i as int]@);
            }
            k_to_value(pool, &vs[i], field)
        },
        QValue::Table(vs) => {
            proof {
                assert(decreases_to!(*vals => *vs));
                assert(decreases_to!(*vs => vs@[i as int]));
                assert(vv->Table_0[i as int] == vs@[i as int]@);
            }
            k_to_value(pool, &vs[i], field)
        },
        _ => Err(CodecError::TypeMismatch(Expected::AnyList)),
    }
}

/// The number of values in a value list.
fn value_count(vals: &QValue) -> (r: usize)
    ensures
        r == value_len(vals@),
{
    match vals {
        QValue::List(_, atoms) => atoms.len(),
        QValue::Compound(vs) => vs.len(),
        QValue::Table(vs) => vs.len(),
        _ => 0,
    }
}

/// Encodes a dictionary as a message of type `d`: each key that names a field
/// of `d` sets that field from the value at the same position, converted by
/// the value list's type; keys that name no field are skipped; the first
/// failing conversion fails the whole encoding.
pub fn encode_to_message(pool: &DescriptorPool, d: usize, data: &QValue) -> (r: Result<DynamicMessage, CodecError>)
    requires
        pool.wf(),
        d < pool.messages@.len(),
    ensures
        message_result_view(r) == spec_encode_message(*pool, d, data@),
        r matches Ok(m) ==> m.descriptor == d,
    decreases data, 1nat, 1int,
{
    match data {
        QValue::Dict(keys, vals) => encode_pairs(pool, d, data, keys, vals),
        _ => Err(CodecError::TypeMismatch(Expected::Dictionary)),
    }
}

/// Encodes the pairs of dictionary `data`, whose key list is `keys` and whose
/// value list is `vals`, as a message of type `d`.
fn encode_pairs(pool: &DescriptorPool, d: usize, data: &QValue, keys: &QValue, vals: &QValue) -> (r: Result<DynamicMessage, CodecError>)
    requires
        pool.wf(),
        d < pool.messages@.len(),
        *data == QValue::Dict(Box::new(*keys), Box::new(*vals)),
    ensures
        message_result_view(r) == spec_encode_message(*pool, d, data@),
        r matches Ok(m) ==> m.descriptor == d,
    decreases data, 1nat, 0int,
{
    let ghost dv = data@;
    assert(dv->Dict_0 == keys@);
    assert(dv->Dict_1 == vals@);
    let names = match keys {
        QValue::List(AtomKind::Symbol, names) => names,
        _ => {
            return Err(CodecError::TypeMismatch(Expected::List(AtomKind::Symbol)));
        },
    };
    let is_list = match vals {
        QValue::List(_, _) | QValue::Compound(_) => true,
        _ => false,
    };
    if !is_list {
        return Err(CodecError::TypeMismatch(Expected::AnyList));
    }
    let ghost nv = dv->Dict_0->List_1;
    let ghost vv = vals@;
    let fields = &pool.messages[d].fields;
    let count = value_count(vals);
    let n = if names.len() < count {
        names.len()
    } else {
        count
    };
    let mut slots: Vec<Option<ProtoValue>> = Vec::new();
    let mut k: usize = 0;
    while k < fields.len()
        invariant
            k <= fields@.len(),
            slots@.len() == k,
            forall|j: int| 0 <= j < k ==> (#[trigger] slots@[j]) is None,
        decreases fields@.len() - k,
    {
        slots.push(None);
        k = k + 1;
    }
    assert(slots_view(slots@) =~= spec_encode_fields(*pool, d, nv, vv, 0)->Ok_0);
    let mut i: usize = 0;
    while i < n
        invariant
            i <= n,
            *data == QValue::Dict(Box::new(*keys), Box::new(*vals)),
            spec_encode_message(*pool, d, data@) == spec_encode_fields(*pool, d, nv, vv, n as int),
            n == pair_count(nv, vv),
            pool.wf(),
            d < pool.messages@.len(),
            *fields == pool.messages@[d as int].fields,
            nv == atoms_view(names@),
            vv == vals@,
            is_value_list(vv, false),
            slots@.len() == fields@.len(),
            spec_encode_fields(*pool, d, nv, vv, i as int) == Ok::<Seq<Option<ProtoView>>, CodecError>(slots_view(slots@)),
        decreases n - i,
    {
        let name = match &names[i] {
            Atom::Symbol(s) => s.clone(),
            _ => String::new(),
        };
        proof {
            assert(nv[i as int] == names@[i as int]@);
        }
        match find_field(fields, &name) {
            Some(j) => {
                proof {
                    lemma_find_field_in_range(fields@, name@, 0);
                    assert(pool.field_wf(fields@[j as int]));
                    assert(decreases_to!(*data => data->Dict_1));
                    assert(data->Dict_1 == *vals);
                }
                match entry_value(pool, vals, i, &fields[j]) {
                    Ok(pv) => {
                        let ghost before = slots_view(slots@);
                        let ghost pvv = pv@;
                        slots[j] = Some(pv);
                        assert(slots_view(slots@) =~= before.update(j as int, Some(pvv)));
                    },
                    Err(e) => {
                        proof {
                            assert(spec_encode_fields(*pool, d, nv, vv, i as int) == Ok::<Seq<Option<ProtoView>>, CodecError>(slots_view(slots@)));
                            assert(find_field_from(fields@, symbol_name(nv[i as int]), 0) == Some(j as int));
                            assert(spec_entry_value(*pool, vv, i as int, fields@[j as int]) == Err::<ProtoView, CodecError>(e));
                            assert(spec_encode_fields(*pool, d, nv, vv, i as int + 1) == Err::<Seq<Option<ProtoView>>, CodecError>(e));
                            lemma_fields_error(*pool, d, nv, vv, i as int + 1, n as int);
                            assert(spec_encode_fields(*pool, d, nv, vv, n as int) == Err::<Seq<Option<ProtoView>>, CodecError>(e));
                        }
                        return Err(e);
                    },
                }
            },
            None => {},
        }
        i = i + 1;
    }
    Ok(DynamicMessage { descriptor: d, fields: slots })
}

proof fn lemma_find_field_in_range(fields: Seq<FieldDescriptor>, name: Seq<char>, i: int)
    requires
        0 <= i,
    ensures
        find_field_from(fields, name, i) matches Some(j) ==> i <= j < fields.len() && fields[j].name@ == name,
    decreases fields.len() - i,
{
    if i < fields.len() && fields[i].name@ != name {
        lemma_find_field_in_range(fields, name, i + 1);
    }
}

/// Once a pair fails, encoding more pairs fails the same way.
proof fn lemma_fields_error(pool: DescriptorPool, d: usize, names: Seq<AtomV>, vals: QView, n: int, k: int)
    requires
        0 < n <= k,
        spec_encode_fields(pool, d, names, vals, n) is Err,
    ensures
        spec_encode_fields(pool, d, names, vals, k) == spec_encode_fields(pool, d, names, vals, n),
    decreases k - n,
{
    if k > n {
        lemma_fields_error(pool, d, names, vals, n, k - 1);
    }
}

/// Once a pair fails, encoding more pairs of a map fails the same way.
proof fn lemma_map_error(pool: DescriptorPool, vf: FieldDescriptor, keys: Seq<AtomV>, vals: QView, n: int, k: int)
    requires
        0 < n <= k,
        spec_map_fold(pool, vf, keys, vals, n) is Err,
    ensures
        spec_map_fold(pool, vf, keys, vals, k) == spec_map_fold(pool, vf, keys, vals, n),
    decreases k - n,
{
    if k > n {
        lemma_map_error(pool, vf, keys, vals, n, k - 1);
    }
}

/// The map key of a key atom.
fn atom_key_of(a: &Atom) -> (r: MapKey)
    ensures
        r@ == atom_key(a@),
{
    match a {
        Atom::Bool(b) => MapKey::Bool(*b),
        Atom::Int(x) => MapKey::I32(*x),
        Atom::Long(x) => MapKey::I64(*x),
        Atom::Symbol(s) => MapKey::Str(s.clone()),
        _ => MapKey::Bool(false),
    }
}

/// Encodes a dictionary as the entries of a map field whose entry type is
/// `m`: the keys must be a simple list of the key kind (bool, int, long, or
/// symbol for string keys), each value is converted for the value field, and
/// a repeated key keeps its last value.
pub fn k_to_map(pool: &DescriptorPool, m: usize, data: &QValue) -> (r: Result<ProtoValue, CodecError>)
    requires
        pool.wf(),
        m < pool.messages@.len(),
        pool.messages@[m as int].fields@.len() == 2,
    ensures
        result_view(r) == spec_k_to_map(*pool, m, data@),
    decreases data, 1nat, 1int,
{
    match data {
        QValue::Dict(keys, vals) => map_pairs(pool, m, data, keys, vals),
        _ => Err(CodecError::TypeMismatch(Expected::Dictionary)),
    }
}

/// Encodes the pairs of dictionary `data`, whose key list is `keys` and whose
/// value list is `vals`, as the entries of a map whose entry type is `m`.
fn map_pairs(pool: &DescriptorPool, m: usize, data: &QValue, keys: &QValue, vals: &QValue) -> (r: Result<ProtoValue, CodecError>)
    requires
        pool.wf(),
        m < pool.messages@.len(),
        pool.messages@[m as int].fields@.len() == 2,
        *data == QValue::Dict(Box::new(*keys), Box::new(*vals)),
    ensures
        result_view(r) == spec_k_to_map(*pool, m, data@),
    decreases data, 1nat, 0int,
{
    let ghost dv = data@;
    assert(dv->Dict_0 == keys@);
    assert(dv->Dict_1 == vals@);
    let kf = &pool.messages[m].fields[0];
    let vf = &pool.messages[m].fields[1];
    proof {
        assert(pool.field_wf(*vf));
    }
    let want = match kf.kind {
        FieldKind::Bool => AtomKind::Bool,
        FieldKind::Int32 | FieldKind::Sint32 => AtomKind::Int,
        FieldKind::Int64 | FieldKind::Sint64 => AtomKind::Long,
        FieldKind::String => AtomKind::Symbol,
        _ => {
            return Err(CodecError::UnsupportedKeyType);
        },
    };
    let katoms = match keys {
        QValue::List(k, katoms) if *k == want => katoms,
        _ => {
            return Err(CodecError::TypeMismatch(Expected::List(want)));
        },
    };
    let is_list = match vals {
        QValue::List(_, _) | QValue::Compound(_) | QValue::Table(_) => true,
        _ => false,
    };
    if !is_list {
        return Err(CodecError::TypeMismatch(Expected::AnyList));
    }
    let ghost kv = dv->Dict_0->List_1;
    let ghost vv = vals@;
    let count = value_count(vals);
    let n = if katoms.len() < count {
        katoms.len()
    } else {
        count
    };
    let mut es: Vec<(MapKey, ProtoValue)> = Vec::new();
    assert(entries_view(es@) =~= Seq::<(MapKeyV, ProtoView)>::empty());
    let mut i: usize = 0;
    while i < n
        invariant
            i <= n,
            *data == QValue::Dict(Box::new(*keys), Box::new(*vals)),
            spec_k_to_map(*pool, m, data@) == match spec_map_fold(*pool, *vf, kv, vv, n as int) {
                Ok(es) => Ok(ProtoView::MapEntries(es)),
                Err(e) => Err::<ProtoView, CodecError>(e),
            },
            n == pair_count(kv, vv),
            pool.wf(),
            pool.field_wf(*vf),
            *vf == pool.messages@[m as int].fields@[1],
            kv == atoms_view(katoms@),
            vv == vals@,
            spec_map_fold(*pool, *vf, kv, vv, i as int) == Ok::<Seq<(MapKeyV, ProtoView)>, CodecError>(entries_view(es@)),
        decreases n - i,
    {
        proof {
            assert(decreases_to!(*data => data->Dict_1));
                    assert(data->Dict_1 == *vals);
            assert(kv[i as int] == katoms@[i as int]@);
        }
        match entry_value(pool, vals, i, vf) {
            Ok(pv) => {
                let key = atom_key_of(&katoms[i]);
                insert_entry(&mut es, key, pv);
            },
            Err(e) => {
                proof {
                    lemma_map_error(*pool, *vf, kv, vv, i as int + 1, n as int);
                }
                return Err(e);
            },
        }
        i = i + 1;
    }
    proof {
        lemma_entries_view(es);
    }
    Ok(ProtoValue::MapEntries(es))
}


} // verus!
