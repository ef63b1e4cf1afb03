//! Decoding of dynamic messages into native dictionaries.
use vstd::prelude::*;
use crate::native::{Atom, AtomKind, AtomV, QValue, QView, atoms_view};
use crate::proto::{DynamicMessage, MapKey, MapKeyV, ProtoValue, ProtoView};
use crate::registry::{EnumRegistry, lemma_kept_refl, lemma_kept_trans, names_view};
use crate::schema::{DescriptorPool, FieldDescriptor, FieldKind, Wrapper, wrapper_atom_kind, wrapper_of};
use crate::widen::{WideningList, lemma_compound_view, values_view, widened};

verus! {

/// The value of the single field of a wrapper message, if set.
pub open spec fn inner_of(fs: Seq<Option<ProtoView>>) -> Option<ProtoView> {
    if fs.len() > 0 {
        fs[0]
    } else {
        None
    }
}

pub open spec fn inner_i32(o: Option<ProtoView>) -> i32 {
    match o {
        Some(ProtoView::I32(x)) => x,
        _ => 0,
    }
}

pub open spec fn inner_i64(o: Option<ProtoView>) -> i64 {
    match o {
        Some(ProtoView::I64(x)) => x,
        _ => 0,
    }
}

pub open spec fn inner_f64(o: Option<ProtoView>) -> u64 {
    match o {
        Some(ProtoView::F64(x)) => x,
        _ => 0,
    }
}

pub open spec fn inner_str(o: Option<ProtoView>) -> Seq<char> {
    match o {
        Some(ProtoView::Str(s)) => s,
        _ => Seq::empty(),
    }
}

/// The atom that a wrapper message stands for; an unset field reads as its
/// default (zero, or the empty symbol).
pub open spec fn spec_unwrap(w: Wrapper, fs: Seq<Option<ProtoView>>) -> AtomV {
    let inner = inner_of(fs);
    match w {
        Wrapper::Symbol => AtomV::Symbol(inner_str(inner)),
        Wrapper::Timestamp => AtomV::Timestamp(inner_i64(inner)),
        Wrapper::Month => AtomV::Month(inner_i32(inner)),
        Wrapper::Date => AtomV::Date(inner_i32(inner)),
        Wrapper::Datetime => AtomV::Datetime(inner_f64(inner)),
        Wrapper::Timespan => AtomV::Timespan(inner_i64(inner)),
        Wrapper::Minute => AtomV::Minute(inner_i32(inner)),
        Wrapper::Second => AtomV::Second(inner_i32(inner)),
        Wrapper::Time => AtomV::Time(inner_i32(inner)),
    }
}

/// The enum source of a single enum value: `.grpc.` and the enum's full name.
pub open spec fn enum_source(pool: DescriptorPool, field: FieldDescriptor) -> Seq<char> {
    match field.kind {
        FieldKind::Enum(e) => ".grpc."@ + pool.enums@[e as int].full_name@,
        _ => Seq::empty(),
    }
}

/// The enum source of a list of enum values: the enum's short name.
pub open spec fn enum_list_source(pool: DescriptorPool, field: FieldDescriptor) -> Seq<char> {
    match field.kind {
        FieldKind::Enum(e) => pool.enums@[e as int].name@,
        _ => Seq::empty(),
    }
}

/// The default atom of each kind.
pub open spec fn default_atom(k: AtomKind) -> AtomV {
    match k {
        AtomKind::Bool => AtomV::Bool(false),
        AtomKind::Int => AtomV::Int(0),
        AtomKind::Long => AtomV::Long(0),
        AtomKind::Real => AtomV::Real(0),
        AtomKind::Float => AtomV::Float(0),
        AtomKind::Symbol => AtomV::Symbol(Seq::empty()),
        AtomKind::Timestamp => AtomV::Timestamp(0),
        AtomKind::Month => AtomV::Month(0),
        AtomKind::Date => AtomV::Date(0),
        AtomKind::Datetime => AtomV::Datetime(0),
        AtomKind::Timespan => AtomV::Timespan(0),
        AtomKind::Minute => AtomV::Minute(0),
        AtomKind::Second => AtomV::Second(0),
        AtomKind::Time => AtomV::Time(0),
        AtomKind::Enum => AtomV::Enum(Seq::empty(), 0),
    }
}

/// `q` as an atom of kind `k`: itself when it is one, the default otherwise.
pub open spec fn coerce(k: AtomKind, q: QView) -> AtomV {
    match q {
        QView::Atom(a) => if a.kind() == k {
            a
        } else {
            default_atom(k)
        },
        _ => default_atom(k),
    }
}

/// The index of an enumerated atom.
pub open spec fn enum_index(q: QView) -> i64 {
    match q {
        QView::Atom(AtomV::Enum(_, n)) => n,
        _ => 0,
    }
}

/// The atom kind of a simple list holding values of field kind `k`, if any.
pub open spec fn primitive_kind(pool: DescriptorPool, k: FieldKind) -> Option<AtomKind> {
    match k {
        FieldKind::Bool => Some(AtomKind::Bool),
        FieldKind::Int32 | FieldKind::Sint32 => Some(AtomKind::Int),
        FieldKind::Int64 | FieldKind::Sint64 => Some(AtomKind::Long),
        FieldKind::Float => Some(AtomKind::Real),
        FieldKind::Double => Some(AtomKind::Float),
        FieldKind::Message(m) => match pool.wrapper(m as int) {
            Some(w) => Some(wrapper_atom_kind(w)),
            None => None,
        },
        _ => None,
    }
}

/// The simple list of kind `k` holding `elems`.
pub open spec fn simple_list(k: AtomKind, elems: Seq<QView>) -> QView {
    QView::List(k, Seq::new(elems.len(), |i: int| coerce(k, elems[i])))
}

/// The native list of a repeated field from its decoded elements: a simple
/// list for primitive and wrapper kinds, a table for messages, an enum list
/// tagged with the enum's short name, a compound list otherwise.
pub open spec fn spec_shape_list(pool: DescriptorPool, field: FieldDescriptor, elems: Seq<QView>) -> QView {
    match primitive_kind(pool, field.kind) {
        Some(k) => simple_list(k, elems),
        None => match field.kind {
            FieldKind::Message(_) => QView::Table(elems),
            FieldKind::Enum(_) => QView::List(
                AtomKind::Enum,
                Seq::new(elems.len(), |i: int| AtomV::Enum(enum_list_source(pool, field), enum_index(elems[i]))),
            ),
            _ => QView::Compound(elems),
        },
    }
}

/// The value list of a decoded map: a simple list for primitive and wrapper
/// kinds, a compound list otherwise.
pub open spec fn spec_shape_values(pool: DescriptorPool, field: FieldDescriptor, elems: Seq<QView>) -> QView {
    match primitive_kind(pool, field.kind) {
        Some(k) => simple_list(k, elems),
        None => QView::Compound(elems),
    }
}

/// The atom of a map key, by the declared key kind.
pub open spec fn key_atom(k: FieldKind, key: MapKeyV) -> AtomV {
    match k {
        FieldKind::Bool => AtomV::Bool(
            match key {
                MapKeyV::Bool(b) => b,
                _ => false,
            },
        ),
        FieldKind::Int32 | FieldKind::Sint32 => AtomV::Int(
            match key {
                MapKeyV::I32(x) => x,
                _ => 0,
            },
        ),
        FieldKind::Int64 | FieldKind::Sint64 => AtomV::Long(
            match key {
                MapKeyV::I64(x) => x,
                _ => 0,
            },
        ),
        _ => AtomV::Symbol(
            match key {
                MapKeyV::Str(s) => s,
                _ => Seq::empty(),
            },
        ),
    }
}

/// The atom kind of the key list of a map with key kind `k`.
pub open spec fn key_kind(k: FieldKind) -> AtomKind {
    match k {
        FieldKind::Bool => AtomKind::Bool,
        FieldKind::Int32 | FieldKind::Sint32 => AtomKind::Int,
        FieldKind::Int64 | FieldKind::Sint64 => AtomKind::Long,
        _ => AtomKind::Symbol,
    }
}

/// The field names of message type `d`, as a symbol list.
pub open spec fn field_names(pool: DescriptorPool, d: usize) -> QView {
    let fields = pool.messages@[d as int].fields@;
    QView::List(AtomKind::Symbol, Seq::new(fields.len(), |i: int| AtomV::Symbol(fields[i].name@)))
}

/// The key atoms of map entries `es`.
pub open spec fn map_keys(k: FieldKind, es: Seq<(MapKeyV, ProtoView)>) -> Seq<AtomV> {
    Seq::new(es.len(), |i: int| key_atom(k, es[i].0))
}

/// The decoded elements of a repeated field.
pub open spec fn spec_decode_elems(pool: DescriptorPool, vs: Seq<ProtoView>, field: FieldDescriptor) -> Seq<QView>
    decreases vs, 0nat,
{
    Seq::new(vs.len(), |i: int| if 0 <= i < vs.len() { spec_decode_value(pool, vs[i], field) } else { QView::Null })
}

/// The decoded values of map entries.
pub open spec fn spec_decode_entries(pool: DescriptorPool, es: Seq<(MapKeyV, ProtoView)>, vf: FieldDescriptor) -> Seq<QView>
    decreases es, 0nat,
{
    Seq::new(es.len(), |i: int| if 0 <= i < es.len() { spec_decode_value(pool, es[i].1, vf) } else { QView::Null })
}

/// The decoded values of the fields of a message, null where unset.
pub open spec fn spec_field_values(pool: DescriptorPool, fields: Seq<FieldDescriptor>, fs: Seq<Option<ProtoView>>) -> Seq<QView>
    decreases fs, 0nat,
{
    Seq::new(
        fields.len(),
        |i: int|
            if 0 <= i < fs.len() {
                match fs[i] {
                    Some(x) => spec_decode_value(pool, x, fields[i]),
                    None => QView::Null,
                }
            } else {
                QView::Null
            },
    )
}

/// The native dictionary of a message of type `d` with field slots `fs`: its
/// field names in declaration order, paired with the widened list of their
/// values (null where unset).
pub open spec fn spec_decode_message(pool: DescriptorPool, d: usize, fs: Seq<Option<ProtoView>>) -> QView
    decreases fs, 1nat,
{
    QView::Dict(
        Box::new(field_names(pool, d)),
        Box::new(widened(spec_field_values(pool, pool.messages@[d as int].fields@, fs))),
    )
}

/// The native value of a field value `v` of field `field`.
pub open spec fn spec_decode_value(pool: DescriptorPool, v: ProtoView, field: FieldDescriptor) -> QView
    decreases v, 0nat,
{
    match v {
        ProtoView::Bool(b) => QView::Atom(AtomV::Bool(b)),
        ProtoView::I32(x) => QView::Atom(AtomV::Int(x)),
        ProtoView::I64(x) => QView::Atom(AtomV::Long(x)),
        ProtoView::F32(x) => QView::Atom(AtomV::Real(x)),
        ProtoView::F64(x) => QView::Atom(AtomV::Float(x)),
        ProtoView::Str(s) => QView::Chars(s),
        ProtoView::Bytes(b) => QView::Bytes(b),
        ProtoView::EnumNumber(n) => QView::Atom(AtomV::Enum(enum_source(pool, field), n as i64)),
        ProtoView::Message(d, fs) => if d >= pool.messages@.len() {
            QView::Null
        } else {
            match pool.wrapper(d as int) {
                Some(w) => QView::Atom(spec_unwrap(w, fs)),
                None => spec_decode_message(pool, d, fs),
            }
        },
        ProtoView::List(vs) => spec_shape_list(pool, field, spec_decode_elems(pool, vs, field)),
        ProtoView::MapEntries(es) => match field.kind {
            FieldKind::Message(m) => if m < pool.messages@.len() && pool.messages@[m as int].fields@.len() == 2 {
                let kf = pool.messages@[m as int].fields@[0];
                let vf = pool.messages@[m as int].fields@[1];
                QView::Dict(
                    Box::new(QView::List(key_kind(kf.kind), map_keys(kf.kind, es))),
                    Box::new(spec_shape_values(pool, vf, spec_decode_entries(pool, es, vf))),
                )
            } else {
                QView::Null
            },
            _ => QView::Null,
        },
    }
}

/// The model of a table built from `v`.
proof fn lemma_table_view(v: Vec<QValue>)
    ensures
        QValue::Table(v)@ == QView::Table(values_view(v@)),
{
    assert(QValue::Table(v)@->Table_0 =~= values_view(v@));
}

/// The atom kind of a simple list of field kind `k`, if any.
fn primitive_kind_of(pool: &DescriptorPool, k: FieldKind) -> (r: Option<AtomKind>)
    requires
        pool.kind_wf(k),
    ensures
        r == primitive_kind(*pool, k),
{
    match k {
        FieldKind::Bool => Some(AtomKind::Bool),
        FieldKind::Int32 | FieldKind::Sint32 => Some(AtomKind::Int),
        FieldKind::Int64 | FieldKind::Sint64 => Some(AtomKind::Long),
        FieldKind::Float => Some(AtomKind::Real),
        FieldKind::Double => Some(AtomKind::Float),
        FieldKind::Message(m) => match wrapper_of(&pool.messages[m].full_name) {
            Some(w) => Some(atom_kind_of_wrapper(w)),
            None => None,
        },
        _ => None,
    }
}

fn atom_kind_of_wrapper(w: Wrapper) -> (r: AtomKind)
    ensures
        r == wrapper_atom_kind(w),
{
    match w {
        Wrapper::Symbol => AtomKind::Symbol,
        Wrapper::Timestamp => AtomKind::Timestamp,
        Wrapper::Month => AtomKind::Month,
        Wrapper::Date => AtomKind::Date,
        Wrapper::Datetime => AtomKind::Datetime,
        Wrapper::Timespan => AtomKind::Timespan,
        Wrapper::Minute => AtomKind::Minute,
        Wrapper::Second => AtomKind::Second,
        Wrapper::Time => AtomKind::Time,
    }
}

/// The default atom of kind `k`.
fn default_of(k: AtomKind) -> (r: Atom)
    ensures
        r@ == default_atom(k),
{
    match k {
        AtomKind::Bool => Atom::Bool(false),
        AtomKind::Int => Atom::Int(0),
        AtomKind::Long => Atom::Long(0),
        AtomKind::Real => Atom::Real(0),
        AtomKind::Float => Atom::Float(0),
        AtomKind::Symbol => Atom::Symbol(String::new()),
        AtomKind::Timestamp => Atom::Timestamp(0),
        AtomKind::Month => Atom::Month(0),
        AtomKind::Date => Atom::Date(0),
        AtomKind::Datetime => Atom::Datetime(0),
        AtomKind::Timespan => Atom::Timespan(0),
        AtomKind::Minute => Atom::Minute(0),
        AtomKind::Second => Atom::Second(0),
        AtomKind::Time => Atom::Time(0),
        AtomKind::Enum => Atom::Enum(String::new(), 0),
    }
}

/// `q` as an atom of kind `k`.
fn coerce_atom(k: AtomKind, q: &QValue) -> (r: Atom)
    ensures
        r@ == coerce(k, q@),
{
    match q {
        QValue::Atom(a) => if a.kind() == k {
            a.copy()
        } else {
            default_of(k)
        },
        _ => default_of(k),
    }
}

/// The simple list of kind `k` holding `elems`.
fn simple_list_of(k: AtomKind, elems: &Vec<QValue>) -> (r: QValue)
    ensures
        r@ == simple_list(k, values_view(elems@)),
{
    let mut atoms: Vec<Atom> = Vec::new();
    let mut i: usize = 0;
    while i < elems.len()
        invariant
            i <= elems@.len(),
            atoms@.len() == i,
            forall|j: int| 0 <= j < i ==> (#[trigger] atoms@[j])@ == coerce(k, elems@[j]@),
        decreases elems@.len() - i,
    {
        atoms.push(coerce_atom(k, &elems[i]));
        i = i + 1;
    }
    let r = QValue::List(k, atoms);
    assert(atoms_view(atoms@) =~= simple_list(k, values_view(elems@))->List_1);
    r
}

/// The atom of a map key, by the declared key kind.
fn key_atom_of(k: FieldKind, key: &MapKey) -> (r: Atom)
    ensures
        r@ == key_atom(k, key@),
{
    match k {
        FieldKind::Bool => Atom::Bool(
            match key {
                MapKey::Bool(b) => *b,
                _ => false,
            },
        ),
        FieldKind::Int32 | FieldKind::Sint32 => Atom::Int(
            match key {
                MapKey::I32(x) => *x,
                _ => 0,
            },
        ),
        FieldKind::Int64 | FieldKind::Sint64 => Atom::Long(
            match key {
                MapKey::I64(x) => *x,
                _ => 0,
            },
        ),
        _ => Atom::Symbol(
            match key {
                MapKey::Str(s) => s.clone(),
                _ => String::new(),
            },
        ),
    }
}

fn key_kind_of(k: FieldKind) -> (r: AtomKind)
    ensures
        r == key_kind(k),
{
    match k {
        FieldKind::Bool => AtomKind::Bool,
        FieldKind::Int32 | FieldKind::Sint32 => AtomKind::Int,
        FieldKind::Int64 | FieldKind::Sint64 => AtomKind::Long,
        _ => AtomKind::Symbol,
    }
}

/// The atom that a wrapper message stands for.
fn unwrap_message(w: Wrapper, m: &DynamicMessage) -> (r: Atom)
    ensures
        r@ == spec_unwrap(w, m@->Message_1),
{
    let ghost fs = m@->Message_1;
    let inner: Option<&ProtoValue> = if m.fields.len() > 0 {
        match &m.fields[0] {
            Some(x) => Some(x),
            None => None,
        }
    } else {
        None
    };
    proof {
        if m.fields@.len() > 0 {
            assert(fs[0] == match m.fields@[0] { Some(x) => Some(x@), None => None::<ProtoView> });
        }
    }
    let i32_value: i32 = match inner {
        Some(ProtoValue::I32(x)) => *x,
        _ => 0,
    };
    let i64_value: i64 = match inner {
        Some(ProtoValue::I64(x)) => *x,
        _ => 0,
    };
    match w {
        Wrapper::Symbol => Atom::Symbol(
            match inner {
                Some(ProtoValue::Str(s)) => s.clone(),
                _ => String::new(),
            },
        ),
        Wrapper::Timestamp => Atom::Timestamp(i64_value),
        Wrapper::Month => Atom::Month(i32_value),
        Wrapper::Date => Atom::Date(i32_value),
        Wrapper::Datetime => Atom::Datetime(
            match inner {
                Some(ProtoValue::F64(x)) => *x,
                _ => 0,
            },
        ),
        Wrapper::Timespan => Atom::Timespan(i64_value),
        Wrapper::Minute => Atom::Minute(i32_value),
        Wrapper::Second => Atom::Second(i32_value),
        Wrapper::Time => Atom::Time(i32_value),
    }
}

/// The enum source of a single enum value of field `field`.
fn enum_source_of(pool: &DescriptorPool, field: &FieldDescriptor) -> (r: String)
    requires
        pool.kind_wf(field.kind),
    ensures
        r@ == enum_source(*pool, *field),
{
    match field.kind {
        FieldKind::Enum(e) => String::from_str(".grpc.").concat(pool.enums[e].full_name.as_str()),
        _ => String::new(),
    }
}

/// The names of the values of enum type `e`, in declaration order.
pub open spec fn enum_value_names(pool: DescriptorPool, e: usize) -> Seq<Seq<char>> {
    Seq::new(pool.enums@[e as int].values@.len(), |i: int| pool.enums@[e as int].values@[i].name@)
}

/// `after` is `before` with, at most, enum sources of the pool added: each
/// new source is the short name of an enum type of the pool, bound to its
/// value names; every earlier binding stays.
pub open spec fn grows_by_pool_enums(pool: DescriptorPool, before: EnumRegistry, after: EnumRegistry) -> bool {
    &&& before.kept_in(&after)
    &&& forall|n: Seq<char>|
        #[trigger] after.has(n) && !before.has(n) ==> exists|e: int|
            0 <= e < pool.enums@.len() && pool.enums@[e].name@ == n && after.binding(n) == Some(
                enum_value_names(pool, e as usize),
            )
}

/// Every registry grows from itself.
pub proof fn lemma_grows_refl(pool: DescriptorPool, a: EnumRegistry)
    ensures
        grows_by_pool_enums(pool, a, a),
{
    lemma_kept_refl(a);
}

proof fn lemma_grows_trans(pool: DescriptorPool, a: EnumRegistry, b: EnumRegistry, c: EnumRegistry)
    requires
        grows_by_pool_enums(pool, a, b),
        grows_by_pool_enums(pool, b, c),
    ensures
        grows_by_pool_enums(pool, a, c),
{
    lemma_kept_trans(a, b, c);
    assert forall|n: Seq<char>| #[trigger] c.has(n) && !a.has(n) implies exists|e: int|
        0 <= e < pool.enums@.len() && pool.enums@[e].name@ == n && c.binding(n) == Some(
            enum_value_names(pool, e as usize),
        ) by {
        if b.has(n) {
            let e = choose|e: int|
                0 <= e < pool.enums@.len() && pool.enums@[e].name@ == n && b.binding(n) == Some(
                    enum_value_names(pool, e as usize),
                );
            assert(c.binding(n) == b.binding(n));
        }
    }
}

/// Registers the value names of the enum of field `field`, in declaration
/// order, under the enum's short name, unless a source is registered there
/// already; nothing else changes.
fn register_enum(pool: &DescriptorPool, field: &FieldDescriptor, reg: &mut EnumRegistry)
    requires
        pool.kind_wf(field.kind),
        old(reg).wf(),
    ensures
        final(reg).wf(),
        grows_by_pool_enums(*pool, *old(reg), *final(reg)),
        match field.kind {
            FieldKind::Enum(e) => EnumRegistry::registered(
                *old(reg),
                pool.enums@[e as int].name@,
                enum_value_names(*pool, e),
                *final(reg),
            ),
            _ => *final(reg) == *old(reg),
        },
{
    match field.kind {
        FieldKind::Enum(e) => {
            let en = &pool.enums[e];
            let mut names: Vec<String> = Vec::new();
            let mut i: usize = 0;
            while i < en.values.len()
                invariant
                    i <= en.values@.len(),
                    names@.len() == i,
                    forall|j: int| 0 <= j < i ==> (#[trigger] names@[j])@ == en.values@[j].name@,
                decreases en.values@.len() - i,
            {
                names.push(en.values[i].name.clone());
                i = i + 1;
            }
            assert(names_view(names@) =~= enum_value_names(*pool, e));
            reg.register(&en.name, names);
            proof {
                let name = pool.enums@[e as int].name@;
                assert forall|n: Seq<char>| #[trigger] reg.has(n) && !old(reg).has(n) implies exists|x: int|
                    0 <= x < pool.enums@.len() && pool.enums@[x].name@ == n && reg.binding(n) == Some(
                        enum_value_names(*pool, x as usize),
                    ) by {
                    assert(n == name);
                    assert(pool.enums@[e as int].name@ == n);
                }
            }
        },
        _ => {
            proof {
                lemma_grows_refl(*pool, *reg);
            }
        },
    }
}

/// The index that decoding value `v` of an enum list yields: its number
/// when it is an enum number, zero otherwise.
proof fn lemma_enum_index(pool: DescriptorPool, v: ProtoView, field: FieldDescriptor)
    ensures
        enum_index(spec_decode_value(pool, v, field)) == match v {
            ProtoView::EnumNumber(n) => n as i64,
            _ => 0,
        },
{
    if let ProtoView::Message(d, fs) = v {
        if d < pool.messages@.len() {
            if let Some(w) = pool.wrapper(d as int) {
                assert(!(spec_unwrap(w, fs) is Enum));
            }
        }
    }
}

/// Decodes the elements of a repeated field into its native list (see
/// [`spec_shape_list`]); the values of an enum field are registered as an
/// enum source under the enum's short name.
pub fn decode_list(pool: &DescriptorPool, list: &Vec<ProtoValue>, field: &FieldDescriptor, reg: &mut EnumRegistry) -> (r: QValue)
    requires
        pool.wf(),
        pool.field_wf(*field),
        old(reg).wf(),
    ensures
        r@ == spec_decode_value(*pool, ProtoValue::List(*list)@, *field),
        final(reg).wf(),
        grows_by_pool_enums(*pool, *old(reg), *final(reg)),
        match field.kind {
            FieldKind::Enum(e) => EnumRegistry::registered(
                *old(reg),
                pool.enums@[e as int].name@,
                enum_value_names(*pool, e),
                *final(reg),
            ),
            _ => true,
        },
    decreases list, 0nat,
{
    let ghost lv = ProtoValue::List(*list)@;
    let ghost vs = lv->List_0;
    if let FieldKind::Enum(e) = field.kind {
        register_enum(pool, field, reg);
        let source = &pool.enums[e].name;
        let mut atoms: Vec<Atom> = Vec::new();
        let mut j: usize = 0;
        while j < list.len()
            invariant
                j <= list@.len(),
                atoms@.len() == j,
                vs == lv->List_0,
                vs.len() == list@.len(),
                forall|k: int| 0 <= k < list@.len() ==> vs[k] == (#[trigger] list@[k])@,
                forall|k: int|
                    0 <= k < j ==> (#[trigger] atoms@[k])@ == AtomV::Enum(
                        source@,
                        enum_index(spec_decode_value(*pool, vs[k], *field)),
                    ),
            decreases list@.len() - j,
        {
            let n: i64 = match &list[j] {
                ProtoValue::EnumNumber(n) => *n as i64,
                _ => 0,
            };
            proof {
                lemma_enum_index(*pool, vs[j as int], *field);
            }
            atoms.push(Atom::Enum(source.clone(), n));
            j = j + 1;
        }
        let r = QValue::List(AtomKind::Enum, atoms);
        assert(atoms_view(atoms@) =~= spec_shape_list(*pool, *field, spec_decode_elems(*pool, vs, *field))->List_1);
        return r;
    }
    let mut elems: Vec<QValue> = Vec::new();
    let mut i: usize = 0;
    proof {
        lemma_grows_refl(*pool, *reg);
    }
    while i < list.len()
        invariant
            i <= list@.len(),
            pool.wf(),
            pool.field_wf(*field),
            reg.wf(),
            grows_by_pool_enums(*pool, *old(reg), *reg),
            elems@.len() == i,
            vs.len() == list@.len(),
            forall|j: int| 0 <= j < list@.len() ==> vs[j] == (#[trigger] list@[j])@,
            forall|j: int| 0 <= j < i ==> (#[trigger] elems@[j])@ == spec_decode_value(*pool, vs[j], *field),
        decreases list@.len() - i,
    {
        proof {
            assert(decreases_to!(list => list@[i as int]));
        }
        let ghost r0 = *reg;
        let e = decode_value(pool, &list[i], field, reg);
        proof {
            lemma_grows_trans(*pool, *old(reg), r0, *reg);
        }
        elems.push(e);
        i = i + 1;
    }
    let ghost ev = values_view(elems@);
    assert(ev =~= spec_decode_elems(*pool, vs, *field));
    match primitive_kind_of(pool, field.kind) {
        Some(k) => simple_list_of(k, &elems),
        None => match field.kind {
            FieldKind::Message(_) => {
                proof {
                    lemma_table_view(elems);
                }
                QValue::Table(elems)
            },
            _ => {
                proof {
                    lemma_compound_view(elems);
                }
                QValue::Compound(elems)
            },
        },
    }
}

/// Decodes the entries of a map field into a dictionary: the keys as a simple
/// list of the key kind, the values as [`spec_shape_values`] gives them.
pub fn decode_map(pool: &DescriptorPool, entries: &Vec<(MapKey, ProtoValue)>, field: &FieldDescriptor, reg: &mut EnumRegistry) -> (r: QValue)
    requires
        pool.wf(),
        pool.field_wf(*field),
        old(reg).wf(),
    ensures
        r@ == spec_decode_value(*pool, ProtoValue::MapEntries(*entries)@, *field),
        final(reg).wf(),
        grows_by_pool_enums(*pool, *old(reg), *final(reg)),
    decreases entries, 0nat,
{
    let ghost mv = ProtoValue::MapEntries(*entries)@;
    let ghost es = mv->MapEntries_0;
    proof {
        lemma_grows_refl(*pool, *reg);
    }
    let m = match field.kind {
        FieldKind::Message(m) => m,
        _ => {
            return QValue::Null;
        },
    };
    if pool.messages[m].fields.len() != 2 {
        return QValue::Null;
    }
    let kf = &pool.messages[m].fields[0];
    let vf = &pool.messages[m].fields[1];
    proof {
        assert(pool.field_wf(*vf));
        assert(pool.field_wf(*kf));
    }
    let mut keys: Vec<Atom> = Vec::new();
    let mut vals: Vec<QValue> = Vec::new();
    let mut i: usize = 0;
    while i < entries.len()
        invariant
            i <= entries@.len(),
            pool.wf(),
            pool.field_wf(*vf),
            reg.wf(),
            grows_by_pool_enums(*pool, *old(reg), *reg),
            keys@.len() == i,
            vals@.len() == i,
            es.len() == entries@.len(),
            forall|j: int| 0 <= j < entries@.len() ==> es[j] == ((#[trigger] entries@[j]).0@, entries@[j].1@),
            forall|j: int| 0 <= j < i ==> (#[trigger] keys@[j])@ == key_atom(kf.kind, es[j].0),
            forall|j: int| 0 <= j < i ==> (#[trigger] vals@[j])@ == spec_decode_value(*pool, es[j].1, *vf),
        decreases entries@.len() - i,
    {
        proof {
            assert(decreases_to!(entries => entries@[i as int]));
            assert(decreases_to!(entries@[i as int] => entries@[i as int].1));
        }
        keys.push(key_atom_of(kf.kind, &entries[i].0));
        let ghost r0 = *reg;
        let v = decode_value(pool, &entries[i].1, vf, reg);
        proof {
            lemma_grows_trans(*pool, *old(reg), r0, *reg);
        }
        vals.push(v);
        i = i + 1;
    }
    let ghost ev = values_view(vals@);
    assert(ev =~= spec_decode_entries(*pool, es, *vf));
    let key_list = QValue::List(key_kind_of(kf.kind), keys);
    assert(atoms_view(keys@) =~= map_keys(kf.kind, es));
    let value_list = match primitive_kind_of(pool, vf.kind) {
        Some(k) => simple_list_of(k, &vals),
        None => {
            proof {
                lemma_compound_view(vals);
            }
            QValue::Compound(vals)
        },
    };
    assert(key_list@ == QView::List(key_kind(kf.kind), map_keys(kf.kind, es)));
    assert(value_list@ == spec_shape_values(*pool, *vf, spec_decode_entries(*pool, es, *vf)));
    QValue::Dict(Box::new(key_list), Box::new(value_list))
}

/// Decodes a message into a native dictionary: its field names in
/// declaration order, paired with the widened list of their values.
pub fn decode_message(pool: &DescriptorPool, msg: &DynamicMessage, reg: &mut EnumRegistry) -> (r: QValue)
    requires
        pool.wf(),
        msg.descriptor < pool.messages@.len(),
        old(reg).wf(),
    ensures
        r@ == spec_decode_message(*pool, msg.descriptor, msg@->Message_1),
        final(reg).wf(),
        grows_by_pool_enums(*pool, *old(reg), *final(reg)),
    decreases msg, 0nat,
{
    let ghost fs = msg@->Message_1;
    let d = msg.descriptor;
    let fields = &pool.messages[d].fields;
    let mut names: Vec<Atom> = Vec::new();
    let mut acc = WideningList::new();
    let mut i: usize = 0;
    proof {
        lemma_grows_refl(*pool, *reg);
    }
    while i < fields.len()
        invariant
            i <= fields@.len(),
            pool.wf(),
            d < pool.messages@.len(),
            *fields == pool.messages@[d as int].fields,
            reg.wf(),
            grows_by_pool_enums(*pool, *old(reg), *reg),
            acc.wf(),
            names@.len() == i,
            acc.elements@.len() == i,
            fs.len() == msg.fields@.len(),
            forall|j: int| 0 <= j < msg.fields@.len() ==> fs[j] == match #[trigger] msg.fields@[j] {
                Some(x) => Some(x@),
                None => None::<ProtoView>,
            },
            forall|j: int| 0 <= j < i ==> (#[trigger] names@[j])@ == AtomV::Symbol(fields@[j].name@),
            forall|j: int| 0 <= j < i ==> (#[trigger] acc.elements@[j]) == spec_field_values(*pool, fields@, fs)[j],
        decreases fields@.len() - i,
    {
        names.push(Atom::Symbol(fields[i].name.clone()));
        let elem = if i < msg.fields.len() {
            match &msg.fields[i] {
                Some(x) => {
                    proof {
                        assert(decreases_to!(msg => msg.fields));
                        assert(decreases_to!(msg.fields => msg.fields@[i as int]));
                        assert(pool.field_wf(fields@[i as int]));
                    }
                    let ghost r0 = *reg;
                    let e = decode_value(pool, x, &fields[i], reg);
                    proof {
                        lemma_grows_trans(*pool, *old(reg), r0, *reg);
                    }
                    e
                },
                None => QValue::Null,
            }
        } else {
            QValue::Null
        };
        let ghost before = acc.elements@;
        acc = acc.push(elem);
        proof {
            assert forall|j: int| 0 <= j < i + 1 implies (#[trigger] acc.elements@[j]) == spec_field_values(*pool, fields@, fs)[j] by {
                if j < i {
                    assert(acc.elements@[j] == before[j]);
                }
            }
        }
        i = i + 1;
    }
    assert(acc.elements@ =~= spec_field_values(*pool, fields@, fs));
    let key_list = QValue::List(AtomKind::Symbol, names);
    assert(atoms_view(names@) =~= field_names(*pool, d)->List_1);
    let values = acc.finish();
    assert(key_list@ == field_names(*pool, d));
    assert(values@ == widened(spec_field_values(*pool, fields@, fs)));
    QValue::Dict(Box::new(key_list), Box::new(values))
}

/// Decodes one field value of field `field` (see [`spec_decode_value`]).
pub fn decode_value(pool: &DescriptorPool, v: &ProtoValue, field: &FieldDescriptor, reg: &mut EnumRegistry) -> (r: QValue)
    requires
        pool.wf(),
        pool.field_wf(*field),
        old(reg).wf(),
    ensures
        r@ == spec_decode_value(*pool, v@, *field),
        final(reg).wf(),
        grows_by_pool_enums(*pool, *old(reg), *final(reg)),
    decreases v, 1nat,
{
    proof {
        lemma_grows_refl(*pool, *reg);
    }
    match v {
        ProtoValue::Bool(b) => QValue::Atom(Atom::Bool(*b)),
        ProtoValue::I32(x) => QValue::Atom(Atom::Int(*x)),
        ProtoValue::I64(x) => QValue::Atom(Atom::Long(*x)),
        ProtoValue::F32(x) => QValue::Atom(Atom::Real(*x)),
        ProtoValue::F64(x) => QValue::Atom(Atom::Float(*x)),
        ProtoValue::Str(s) => QValue::Chars(s.clone()),
        ProtoValue::Bytes(b) => QValue::Bytes(b.clone()),
        ProtoValue::EnumNumber(n) => QValue::Atom(Atom::Enum(enum_source_of(pool, field), *n as i64)),
        ProtoValue::Message(m) => {
            if m.descriptor >= pool.messages.len() {
                return QValue::Null;
            }
            match wrapper_of(&pool.messages[m.descriptor].full_name) {
                Some(w) => QValue::Atom(unwrap_message(w, m)),
                None => decode_message(pool, m, reg),
            }
        },
        ProtoValue::List(list) => decode_list(pool, list, field, reg),
        ProtoValue::MapEntries(entries) => decode_map(pool, entries, field, reg),
    }
}

} // verus!
