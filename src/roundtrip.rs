//! Round trip: a dictionary that a message type can represent decodes back
//! from its encoding unchanged.
use vstd::prelude::*;
use crate::decode::{enum_list_source, enum_source, field_names, spec_decode_message, spec_decode_value, spec_field_values, spec_shape_list};
use crate::decode::{coerce, key_atom, map_keys, primitive_kind, spec_decode_elems, spec_decode_entries};
use crate::encode::{
    atom_key, find_field_from, find_key_from, map_insert, map_key_list_kind, pair_count, spec_atom_to_value,
    spec_k_to_map, spec_map_fold, spec_encode_fields, spec_encode_message, spec_encode_rows,
    spec_entry_value, spec_k_to_value, symbol_name,
};
use crate::error::CodecError;
use crate::native::{AtomKind, AtomV, QView};
use crate::proto::ProtoView;
use crate::scalar::enum_in_range;
use crate::schema::{Cardinality, DescriptorPool, FieldDescriptor, FieldKind, wrapper_atom_kind};
use crate::widen::widened;

verus! {

/// An atom that a singular field reads back as itself: a bool, int, long,
/// real or float for the field of that kind, an atom of the wrapper's type
/// for a wrapper field, and for an enum field an index within the enum's
/// range tagged with the field's enum source.
pub open spec fn canonical_atom(pool: DescriptorPool, field: FieldDescriptor, a: AtomV) -> bool {
    &&& field.cardinality == Cardinality::Singular
    &&& match field.kind {
        FieldKind::Bool => a is Bool,
        FieldKind::Int32 | FieldKind::Sint32 => a is Int,
        FieldKind::Int64 | FieldKind::Sint64 => a is Long,
        FieldKind::Float => a is Real,
        FieldKind::Double => a is Float,
        FieldKind::Message(m) => pool.wrapper(m as int) matches Some(w) && a.kind() == wrapper_atom_kind(w),
        FieldKind::Enum(e) => a matches AtomV::Enum(s, n) && s == enum_source(pool, field) && enum_in_range(
            pool.enums@[e as int],
            n as int,
        ),
        _ => false,
    }
}

/// A value that a singular field reads back as itself: a canonical atom, a
/// string for a string field, a byte list for a bytes field.
pub open spec fn canonical_value(pool: DescriptorPool, field: FieldDescriptor, q: QView) -> bool {
    ||| (q matches QView::Atom(a) && canonical_atom(pool, field, a))
    ||| (field.cardinality == Cardinality::Singular && field.kind == FieldKind::String && q is Chars)
    ||| (field.cardinality == Cardinality::Singular && field.kind == FieldKind::Bytes && q is Bytes)
}

/// A dictionary that message type `d` represents: its keys are the names of
/// all fields of `d` in declaration order, its values stand in the list that
/// decoding builds (simple when they are atoms of one class, compound
/// otherwise), and each value is one its field reads back.
pub open spec fn representable(pool: DescriptorPool, d: usize, data: QView) -> bool
    decreases data, 0nat,
{
    let fields = pool.messages@[d as int].fields@;
    &&& d < pool.messages@.len()
    &&& pool.wrapper(d as int) is None
    &&& forall|i: int, j: int| 0 <= i < j < fields.len() ==> fields[i].name@ != fields[j].name@
    &&& data == QView::Dict(Box::new(field_names(pool, d)), Box::new(widened(dict_values(pool, d, data))))
    &&& dict_values(pool, d, data).len() == fields.len()
    &&& match data {
        QView::Dict(_, vals) => match *vals {
            QView::List(_, atoms) => forall|i: int| 0 <= i < atoms.len() ==> canonical_atom(pool, fields[i], #[trigger] atoms[i]),
            QView::Compound(vs) => forall|i: int| 0 <= i < vs.len() ==> value_ok(pool, fields[i], #[trigger] vs[i]),
            _ => false,
        },
        _ => false,
    }
}

/// A native list that a repeated field of a primitive, wrapper, enum,
/// string or bytes kind reads back as itself.
pub open spec fn list_value_ok(pool: DescriptorPool, field: FieldDescriptor, q: QView) -> bool {
    match field.kind {
        FieldKind::String => q matches QView::Compound(vs) && forall|i: int| 0 <= i < vs.len() ==> #[trigger] vs[i] is Chars,
        FieldKind::Bytes => q matches QView::Compound(vs) && forall|i: int| 0 <= i < vs.len() ==> #[trigger] vs[i] is Bytes,
        FieldKind::Enum(e) => q matches QView::List(k, atoms) && k == AtomKind::Enum && forall|i: int|
            0 <= i < atoms.len() ==> (#[trigger] atoms[i] matches AtomV::Enum(s, n) && s == enum_list_source(pool, field)
                && enum_in_range(pool.enums@[e as int], n as int)),
        _ => primitive_kind(pool, field.kind) matches Some(k) && (q matches QView::List(lk, atoms) && lk == k && forall|i: int|
            0 <= i < atoms.len() ==> (#[trigger] atoms[i]).kind() == k),
    }
}

/// A value that field `field` reads back as itself: for a singular field a
/// canonical value or a dictionary its message type represents; for a
/// repeated field a list of its kind or a table of such dictionaries; for a
/// map field a dictionary the map represents.
pub open spec fn value_ok(pool: DescriptorPool, field: FieldDescriptor, q: QView) -> bool
    decreases q, 1nat,
{
    match field.cardinality {
        Cardinality::Singular => canonical_value(pool, field, q) || (field.kind matches FieldKind::Message(mv) && pool.wrapper(
            mv as int,
        ) is None && representable(pool, mv, q)),
        Cardinality::List => list_value_ok(pool, field, q) || (field.kind matches FieldKind::Message(m) && pool.wrapper(
            m as int,
        ) is None && (q matches QView::Table(rows) && forall|i: int|
            0 <= i < rows.len() ==> representable(pool, m, #[trigger] rows[i]))),
        Cardinality::Keyed => field.kind matches FieldKind::Message(m) && map_representable(pool, m, q),
    }
}

/// The values of a dictionary, one per position of its value list.
pub open spec fn dict_values(pool: DescriptorPool, d: usize, data: QView) -> Seq<QView> {
    match data {
        QView::Dict(_, vals) => match *vals {
            QView::List(_, atoms) => Seq::new(atoms.len(), |i: int| QView::Atom(atoms[i])),
            QView::Compound(vs) => vs,
            _ => Seq::empty(),
        },
        _ => Seq::empty(),
    }
}

/// The encoding of a canonical value, converted from a simple list's atom or
/// from a compound list's value alike, decodes back to that value.
proof fn lemma_canonical_round_trip(pool: DescriptorPool, field: FieldDescriptor, q: QView)
    requires
        pool.wf(),
        pool.field_wf(field),
        canonical_value(pool, field, q),
    ensures
        spec_k_to_value(pool, q, field) is Ok,
        q matches QView::Atom(a) ==> spec_atom_to_value(pool, a, field) == spec_k_to_value(pool, q, field),
        spec_decode_value(pool, spec_k_to_value(pool, q, field)->Ok_0, field) == q,
{
    let r = spec_k_to_value(pool, q, field);
    match field.kind {
        FieldKind::Message(m) => {
            if q is Atom {
                assert(r->Ok_0->Message_1[0] is Some);
            }
        },
        FieldKind::Enum(e) => {
            let n = q->Atom_0->Enum_1;
            let vals = pool.enums@[e as int].values@;
            assert(i32::MIN <= vals[0].number && vals.last().number <= i32::MAX);
            assert((n as i32) as i64 == n);
        },
        _ => {},
    }
}

/// In a message whose field names are unique, the first field named like
/// field `i` is field `i`.
proof fn lemma_first_field(fields: Seq<FieldDescriptor>, i: int)
    requires
        0 <= i < fields.len(),
        forall|a: int, b: int| 0 <= a < b < fields.len() ==> fields[a].name@ != fields[b].name@,
    ensures
        find_field_from(fields, fields[i].name@, 0) == Some(i),
{
    lemma_find_from(fields, fields[i].name@, 0, i);
}

proof fn lemma_find_from(fields: Seq<FieldDescriptor>, name: Seq<char>, k: int, i: int)
    requires
        0 <= k <= i < fields.len(),
        fields[i].name@ == name,
        forall|a: int, b: int| 0 <= a < b < fields.len() ==> fields[a].name@ != fields[b].name@,
    ensures
        find_field_from(fields, name, k) == Some(i),
    decreases i - k,
{
    if k < i {
        assert(fields[k].name@ != fields[i].name@);
        lemma_find_from(fields, name, k + 1, i);
    }
}

/// A dictionary that a map field with entry type `m` represents: its keys
/// are a simple list of the key kind without repeats, and its values a
/// simple list of the value kind (for primitive and wrapper values) or a
/// compound list of values the value field reads back, one per key.
pub open spec fn map_representable(pool: DescriptorPool, m: usize, data: QView) -> bool
    decreases data, 0nat,
{
    let kf = pool.messages@[m as int].fields@[0];
    let vf = pool.messages@[m as int].fields@[1];
    &&& m < pool.messages@.len()
    &&& pool.messages@[m as int].fields@.len() == 2
    &&& vf.cardinality == Cardinality::Singular
    &&& data matches QView::Dict(keys, vals)
    &&& map_key_list_kind(kf.kind) matches Some(kk)
    &&& *keys matches QView::List(lk, katoms)
    &&& lk == kk
    &&& forall|i: int| 0 <= i < katoms.len() ==> (#[trigger] katoms[i]).kind() == kk
    &&& forall|i: int, j: int| 0 <= i < j < katoms.len() ==> atom_key(katoms[i]) != atom_key(katoms[j])
    &&& match primitive_kind(pool, vf.kind) {
        Some(k) => (*vals matches QView::List(vk, atoms) && vk == k && atoms.len() == katoms.len() && forall|i: int|
            0 <= i < atoms.len() ==> canonical_atom(pool, vf, #[trigger] atoms[i])),
        None => (*vals matches QView::Compound(vs) && vs.len() == katoms.len() && forall|i: int|
            0 <= i < vs.len() ==> value_ok(pool, vf, #[trigger] vs[i])),
    }
}

/// The values of a map dictionary, one per key.
pub open spec fn map_values(data: QView) -> Seq<QView> {
    match data {
        QView::Dict(_, vals) => match *vals {
            QView::List(_, atoms) => Seq::new(atoms.len(), |i: int| QView::Atom(atoms[i])),
            QView::Compound(vs) => vs,
            _ => Seq::empty(),
        },
        _ => Seq::empty(),
    }
}


/// A list of a repeated primitive, wrapper, enum, string or bytes field
/// decodes back from its encoding unchanged.
proof fn lemma_list_round_trip(pool: DescriptorPool, field: FieldDescriptor, q: QView)
    requires
        pool.wf(),
        pool.field_wf(field),
        field.cardinality == Cardinality::List,
        list_value_ok(pool, field, q),
    ensures
        spec_k_to_value(pool, q, field) is Ok,
        spec_decode_value(pool, spec_k_to_value(pool, q, field)->Ok_0, field) == q,
{
    let pv = spec_k_to_value(pool, q, field)->Ok_0;
    let vs = pv->List_0;
    let elems = spec_decode_elems(pool, vs, field);
    match field.kind {
        FieldKind::String | FieldKind::Bytes => {
            assert(elems =~= q->Compound_0);
        },
        FieldKind::Enum(e) => {
            let atoms = q->List_1;
            let vals = pool.enums@[e as int].values@;
            assert forall|i: int| 0 <= i < atoms.len() implies (#[trigger] atoms[i]->Enum_1 as i32) as i64 == atoms[i]->Enum_1 by {
                assert(i32::MIN <= vals[0].number && vals.last().number <= i32::MAX);
            }
            assert(spec_shape_list(pool, field, elems)->List_1 =~= atoms);
        },
        FieldKind::Message(m) => {
            let atoms = q->List_1;
            assert forall|i: int| 0 <= i < atoms.len() implies #[trigger] elems[i] == QView::Atom(atoms[i]) by {
                assert(vs[i]->Message_1[0] is Some);
            }
            assert(spec_shape_list(pool, field, elems)->List_1 =~= atoms);
        },
        _ => {
            let atoms = q->List_1;
            assert(spec_shape_list(pool, field, elems)->List_1 =~= atoms);
        },
    }
}

/// Encoding the first `k` pairs of a representable dictionary sets exactly
/// the first `k` fields.
proof fn lemma_encode_prefix(pool: DescriptorPool, d: usize, data: QView, k: int)
    requires
        pool.wf(),
        representable(pool, d, data),
        0 <= k <= pool.messages@[d as int].fields@.len(),
    ensures
        spec_encode_fields(pool, d, field_names(pool, d)->List_1, *data->Dict_1, k) == Ok::<Seq<Option<ProtoView>>, CodecError>(
            Seq::new(
                pool.messages@[d as int].fields@.len(),
                |i: int|
                    if i < k {
                        Some(spec_k_to_value(pool, dict_values(pool, d, data)[i], pool.messages@[d as int].fields@[i])->Ok_0)
                    } else {
                        None
                    },
            ),
        ),
    decreases data, 1nat, k,
{
    let fields = pool.messages@[d as int].fields@;
    let names = field_names(pool, d)->List_1;
    let es = dict_values(pool, d, data);
    if k > 0 {
        lemma_encode_prefix(pool, d, data, k - 1);
        let i = k - 1;
        lemma_first_field(fields, i);
        assert(symbol_name(names[i]) == fields[i].name@);
        lemma_entry_value(pool, d, data, i);
        let prev = Seq::new(
            fields.len(),
            |j: int| if j < k - 1 { Some(spec_k_to_value(pool, es[j], fields[j])->Ok_0) } else { None },
        );
        let next = Seq::new(
            fields.len(),
            |j: int| if j < k { Some(spec_k_to_value(pool, es[j], fields[j])->Ok_0) } else { None },
        );
        assert(prev.update(i, Some(spec_k_to_value(pool, es[i], fields[i])->Ok_0)) =~= next);
    } else {
        let empty = Seq::new(fields.len(), |j: int| None::<ProtoView>);
        assert(Seq::new(
            fields.len(),
            |j: int| if j < k { Some(spec_k_to_value(pool, es[j], fields[j])->Ok_0) } else { None },
        ) =~= empty);
    }
}

/// The value converted for position `i` of a representable dictionary is
/// the encoding of its `i`-th value, and decodes back to it.
proof fn lemma_entry_value(pool: DescriptorPool, d: usize, data: QView, i: int)
    requires
        pool.wf(),
        representable(pool, d, data),
        0 <= i < pool.messages@[d as int].fields@.len(),
    ensures
        spec_entry_value(pool, *data->Dict_1, i, pool.messages@[d as int].fields@[i]) == spec_k_to_value(
            pool,
            dict_values(pool, d, data)[i],
            pool.messages@[d as int].fields@[i],
        ),
        spec_k_to_value(pool, dict_values(pool, d, data)[i], pool.messages@[d as int].fields@[i]) is Ok,
        spec_decode_value(
            pool,
            spec_k_to_value(pool, dict_values(pool, d, data)[i], pool.messages@[d as int].fields@[i])->Ok_0,
            pool.messages@[d as int].fields@[i],
        ) == dict_values(pool, d, data)[i],
    decreases data, 0nat, 0int,
{
    let fields = pool.messages@[d as int].fields@;
    let es = dict_values(pool, d, data);
    assert(pool.field_wf(fields[i]));
    let vals = *data->Dict_1;
    match vals {
        QView::List(_, atoms) => {
            assert(canonical_atom(pool, fields[i], atoms[i]));
            lemma_canonical_round_trip(pool, fields[i], es[i]);
        },
        QView::Compound(vs) => {
            assert(value_ok(pool, fields[i], vs[i]));
            assert(decreases_to!(data => vs[i]));
            lemma_value_round_trip(pool, fields[i], vs[i]);
        },
        _ => {},
    }
}

/// Round trip: a dictionary that message type `d` represents encodes without
/// failure, and decoding the encoding gives the dictionary back. The
/// dictionary's values may be atoms, strings, byte lists, nested
/// dictionaries, simple lists, tables and maps, as [`value_ok`] allows.
pub proof fn round_trip(pool: DescriptorPool, d: usize, data: QView)
    requires
        pool.wf(),
        representable(pool, d, data),
    ensures
        spec_encode_message(pool, d, data) is Ok,
        spec_decode_message(pool, d, spec_encode_message(pool, d, data)->Ok_0) == data,
    decreases data, 2nat, 0int,
{
    let fields = pool.messages@[d as int].fields@;
    let n = fields.len() as int;
    let es = dict_values(pool, d, data);
    let vals = *data->Dict_1;
    assert(pair_count(field_names(pool, d)->List_1, vals) == n);
    lemma_encode_prefix(pool, d, data, n);
    let slots = spec_encode_message(pool, d, data)->Ok_0;
    assert forall|i: int| 0 <= i < n implies #[trigger] spec_field_values(pool, fields, slots)[i] == es[i] by {
        lemma_entry_value(pool, d, data, i);
    }
    assert(spec_field_values(pool, fields, slots) =~= es);
}

/// A value that its field reads back decodes back from its encoding.
proof fn lemma_value_round_trip(pool: DescriptorPool, field: FieldDescriptor, q: QView)
    requires
        pool.wf(),
        pool.field_wf(field),
        value_ok(pool, field, q),
    ensures
        spec_k_to_value(pool, q, field) is Ok,
        spec_decode_value(pool, spec_k_to_value(pool, q, field)->Ok_0, field) == q,
    decreases q, 4nat, 0int,
{
    match field.cardinality {
        Cardinality::Singular => {
            if canonical_value(pool, field, q) {
                lemma_canonical_round_trip(pool, field, q);
            } else {
                let mv = field.kind->Message_0;
                round_trip(pool, mv, q);
            }
        },
        Cardinality::List => {
            if list_value_ok(pool, field, q) {
                lemma_list_round_trip(pool, field, q);
            } else {
                let m = field.kind->Message_0;
                table_round_trip(pool, field, m, q);
            }
        },
        Cardinality::Keyed => {
            let m = field.kind->Message_0;
            map_round_trip(pool, field, m, q);
        },
    }
}

/// Encoding the first `k` rows of a table whose rows message type `m`
/// represents gives one message per row.
proof fn lemma_rows_prefix(pool: DescriptorPool, m: usize, table: QView, k: int)
    requires
        pool.wf(),
        table is Table,
        0 <= k <= table->Table_0.len(),
        forall|i: int| 0 <= i < table->Table_0.len() ==> representable(pool, m, #[trigger] table->Table_0[i]),
    ensures
        spec_encode_rows(pool, m, table->Table_0, k) == Ok::<Seq<ProtoView>, CodecError>(
            Seq::new(k as nat, |i: int| ProtoView::Message(m, spec_encode_message(pool, m, table->Table_0[i])->Ok_0)),
        ),
        forall|i: int| 0 <= i < k ==> spec_decode_message(pool, m, spec_encode_message(pool, m, #[trigger] table->Table_0[i])->Ok_0) == table->Table_0[i],
    decreases table, 2nat, k,
{
    let rows = table->Table_0;
    if k > 0 {
        lemma_rows_prefix(pool, m, table, k - 1);
        assert(decreases_to!(table => rows[k - 1]));
        round_trip(pool, m, rows[k - 1]);
        let prev = Seq::new((k - 1) as nat, |i: int| ProtoView::Message(m, spec_encode_message(pool, m, rows[i])->Ok_0));
        let next = Seq::new(k as nat, |i: int| ProtoView::Message(m, spec_encode_message(pool, m, rows[i])->Ok_0));
        assert(prev.push(ProtoView::Message(m, spec_encode_message(pool, m, rows[k - 1])->Ok_0)) =~= next);
    } else {
        assert(Seq::new(0nat, |i: int| ProtoView::Message(m, spec_encode_message(pool, m, rows[i])->Ok_0)) =~= Seq::<
            ProtoView,
        >::empty());
    }
}

/// Repeated message as table: a table whose rows the row message type
/// represents, encoded for a repeated field of that message type, decodes
/// back to the same table, row for row.
pub proof fn table_round_trip(pool: DescriptorPool, field: FieldDescriptor, m: usize, table: QView)
    requires
        pool.wf(),
        pool.field_wf(field),
        field.cardinality == Cardinality::List,
        field.kind == FieldKind::Message(m),
        pool.wrapper(m as int) is None,
        table is Table,
        forall|i: int| 0 <= i < table->Table_0.len() ==> representable(pool, m, #[trigger] table->Table_0[i]),
    ensures
        spec_k_to_value(pool, table, field) is Ok,
        spec_decode_value(pool, spec_k_to_value(pool, table, field)->Ok_0, field) == table,
    decreases table, 3nat, 1int,
{
    let rows = table->Table_0;
    lemma_rows_prefix(pool, m, table, rows.len() as int);
    let ms = Seq::new(rows.len(), |i: int| ProtoView::Message(m, spec_encode_message(pool, m, rows[i])->Ok_0));
    assert(spec_k_to_value(pool, table, field) == Ok::<ProtoView, CodecError>(ProtoView::List(ms)));
    assert forall|i: int| 0 <= i < rows.len() implies #[trigger] spec_decode_elems(pool, ms, field)[i] == rows[i] by {
        assert(spec_decode_message(pool, m, spec_encode_message(pool, m, rows[i])->Ok_0) == rows[i]);
    }
    assert(spec_decode_elems(pool, ms, field) =~= rows);
}

/// A key absent from the entries from `j` on is not found from `j` on.
proof fn lemma_key_absent(es: Seq<(crate::proto::MapKeyV, ProtoView)>, k: crate::proto::MapKeyV, j: int)
    requires
        0 <= j <= es.len(),
        forall|i: int| j <= i < es.len() ==> es[i].0 != k,
    ensures
        find_key_from(es, k, j) == es.len(),
    decreases es.len() - j,
{
    if j < es.len() {
        lemma_key_absent(es, k, j + 1);
    }
}

/// The `i`-th value of a map dictionary is one the value field reads back.
proof fn lemma_map_value(pool: DescriptorPool, m: usize, data: QView, i: int)
    requires
        pool.wf(),
        map_representable(pool, m, data),
        0 <= i < map_values(data).len(),
    ensures
        spec_entry_value(pool, *data->Dict_1, i, pool.messages@[m as int].fields@[1]) == spec_k_to_value(
            pool,
            map_values(data)[i],
            pool.messages@[m as int].fields@[1],
        ),
        spec_k_to_value(pool, map_values(data)[i], pool.messages@[m as int].fields@[1]) is Ok,
        spec_decode_value(
            pool,
            spec_k_to_value(pool, map_values(data)[i], pool.messages@[m as int].fields@[1])->Ok_0,
            pool.messages@[m as int].fields@[1],
        ) == map_values(data)[i],
    decreases data, 0nat, 0int,
{
    let vf = pool.messages@[m as int].fields@[1];
    assert(pool.field_wf(vf));
    let vals = *data->Dict_1;
    let vs = map_values(data);
    match vals {
        QView::List(_, atoms) => {
            assert(canonical_atom(pool, vf, atoms[i]));
            lemma_canonical_round_trip(pool, vf, vs[i]);
        },
        QView::Compound(cs) => {
            assert(value_ok(pool, vf, cs[i]));
            assert(decreases_to!(data => cs[i]));
            lemma_value_round_trip(pool, vf, cs[i]);
        },
        _ => {},
    }
}

/// Encoding the first `n` pairs of a map dictionary with distinct keys gives
/// one entry per pair, in order.
proof fn lemma_map_prefix(pool: DescriptorPool, m: usize, data: QView, n: int)
    requires
        pool.wf(),
        map_representable(pool, m, data),
        0 <= n <= map_values(data).len(),
    ensures
        spec_map_fold(pool, pool.messages@[m as int].fields@[1], (*data->Dict_0)->List_1, *data->Dict_1, n)
            == Ok::<Seq<(crate::proto::MapKeyV, ProtoView)>, CodecError>(
            Seq::new(
                n as nat,
                |i: int|
                    (
                        atom_key((*data->Dict_0)->List_1[i]),
                        spec_k_to_value(pool, map_values(data)[i], pool.messages@[m as int].fields@[1])->Ok_0,
                    ),
            ),
        ),
    decreases data, 1nat, n,
{
    let vf = pool.messages@[m as int].fields@[1];
    let katoms = (*data->Dict_0)->List_1;
    let vs = map_values(data);
    let f = |i: int| (atom_key(katoms[i]), spec_k_to_value(pool, vs[i], vf)->Ok_0);
    if n > 0 {
        lemma_map_prefix(pool, m, data, n - 1);
        let i = n - 1;
        let prev = Seq::new((n - 1) as nat, f);
        lemma_map_value(pool, m, data, i);
        assert forall|j: int| 0 <= j < prev.len() implies prev[j].0 != atom_key(katoms[i]) by {
            assert(atom_key(katoms[j]) != atom_key(katoms[i]));
        }
        lemma_key_absent(prev, atom_key(katoms[i]), 0);
        assert(map_insert(prev, atom_key(katoms[i]), spec_k_to_value(pool, vs[i], vf)->Ok_0) =~= Seq::new(n as nat, f));
    } else {
        assert(Seq::new(0nat, f) =~= Seq::<(crate::proto::MapKeyV, ProtoView)>::empty());
    }
}

/// Map round trip: for a key kind among bool, int32, int64 and string, and
/// any value kind the value field reads back (bool, int, long, real, float,
/// each wrapper, enum, string, bytes, or a nested message), a dictionary of
/// distinct keys encoded for a map field decodes back to the same keys paired
/// with the same values.
pub proof fn map_round_trip(pool: DescriptorPool, field: FieldDescriptor, m: usize, data: QView)
    requires
        pool.wf(),
        pool.field_wf(field),
        field.cardinality == Cardinality::Keyed,
        field.kind == FieldKind::Message(m),
        map_representable(pool, m, data),
    ensures
        spec_k_to_value(pool, data, field) is Ok,
        spec_decode_value(pool, spec_k_to_value(pool, data, field)->Ok_0, field) == data,
    decreases data, 3nat, 1int,
{
    let kf = pool.messages@[m as int].fields@[0];
    let vf = pool.messages@[m as int].fields@[1];
    assert(pool.field_wf(vf));
    let katoms = (*data->Dict_0)->List_1;
    let vals = *data->Dict_1;
    let vs = map_values(data);
    let n = vs.len() as int;
    assert(pair_count(katoms, vals) == n);
    lemma_map_prefix(pool, m, data, n);
    let es = Seq::new(n as nat, |i: int| (atom_key(katoms[i]), spec_k_to_value(pool, vs[i], vf)->Ok_0));
    assert(spec_k_to_map(pool, m, data) == Ok::<ProtoView, CodecError>(ProtoView::MapEntries(es)));
    assert forall|i: int| 0 <= i < n implies #[trigger] spec_decode_entries(pool, es, vf)[i] == vs[i] by {
        lemma_map_value(pool, m, data, i);
    }
    assert(spec_decode_entries(pool, es, vf) =~= vs);
    assert(map_keys(kf.kind, es) =~= katoms) by {
        assert forall|i: int| 0 <= i < n implies #[trigger] key_atom(kf.kind, es[i].0) == katoms[i] by {
            assert(katoms[i].kind() == map_key_list_kind(kf.kind)->0);
        }
    }
    if primitive_kind(pool, vf.kind) is Some {
        let k = primitive_kind(pool, vf.kind)->0;
        assert(Seq::new(vs.len(), |i: int| coerce(k, vs[i])) =~= vals->List_1) by {
            assert forall|i: int| 0 <= i < n implies coerce(k, #[trigger] vs[i]) == vals->List_1[i] by {
                assert(canonical_atom(pool, vf, vals->List_1[i]));
            }
        }
    }
}

} // verus!
