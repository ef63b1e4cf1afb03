use qrpc::codec::{decode, encode};
use qrpc::error::{CodecError, Expected};
use qrpc::native::{Atom, AtomKind, QValue};
use qrpc::proto::{DynamicMessage, MapKey, ProtoValue};
use qrpc::registry::EnumRegistry;
use qrpc::schema::{
    Cardinality, DescriptorPool, EnumDescriptor, EnumValue, FieldDescriptor, FieldKind, MessageDescriptor,
};

fn field(name: &str, number: u32, kind: FieldKind, cardinality: Cardinality) -> FieldDescriptor {
    FieldDescriptor { name: name.to_string(), number, kind, cardinality }
}

fn single(name: &str, number: u32, kind: FieldKind) -> FieldDescriptor {
    field(name, number, kind, Cardinality::Singular)
}

fn message(full_name: &str, fields: Vec<FieldDescriptor>) -> MessageDescriptor {
    MessageDescriptor { full_name: full_name.to_string(), fields }
}

fn enumeration(full_name: &str, name: &str, values: &[&str]) -> EnumDescriptor {
    EnumDescriptor {
        full_name: full_name.to_string(),
        name: name.to_string(),
        values: values
            .iter()
            .enumerate()
            .map(|(i, v)| EnumValue { name: v.to_string(), number: i as i32 })
            .collect(),
    }
}

const SYMBOL: usize = 0;
const TIMESPAN: usize = 5;
const MONTH: usize = 2;
const INNER: usize = 9;
const OUTER: usize = 10;
const ROW: usize = 11;
const TABLE: usize = 12;
const MAPPY: usize = 16;
const ONLY_INT: usize = 17;
const BASKET: usize = 18;
const MIXED: usize = 19;
const MONTHS: usize = 20;
const TRIPLE: usize = 21;
const GARDEN: usize = 22;

fn pool() -> DescriptorPool {
    let messages = vec![
        message("q.symbol", vec![single("symbol", 1, FieldKind::String)]),
        message("q.timestamp", vec![single("nanos", 1, FieldKind::Int64)]),
        message("q.month", vec![single("months", 1, FieldKind::Int32)]),
        message("q.date", vec![single("days", 1, FieldKind::Int32)]),
        message("q.datetime", vec![single("days", 1, FieldKind::Double)]),
        message("q.timespan", vec![single("nanos", 1, FieldKind::Int64)]),
        message("q.minute", vec![single("minutes", 1, FieldKind::Int32)]),
        message("q.second", vec![single("seconds", 1, FieldKind::Int32)]),
        message("q.time", vec![single("millis", 1, FieldKind::Int32)]),
        message("example.Inner", vec![single("inner_muscle", 1, FieldKind::Int64), single("inner_mind", 2, FieldKind::Message(SYMBOL))]),
        message("example.Outer", vec![single("out_law", 1, FieldKind::Bool), single("inner", 2, FieldKind::Message(INNER))]),
        message(
            "example.Row",
            vec![
                single("host", 1, FieldKind::Message(SYMBOL)),
                single("port", 2, FieldKind::Int32),
                single("running", 3, FieldKind::Message(TIMESPAN)),
                single("user", 4, FieldKind::String),
            ],
        ),
        message("example.Table", vec![field("rows", 1, FieldKind::Message(ROW), Cardinality::List)]),
        message("example.Mappy.IdEntry", vec![single("key", 1, FieldKind::String), single("value", 2, FieldKind::Int32)]),
        message("example.Mappy.XdayEntry", vec![single("key", 1, FieldKind::Int64), single("value", 2, FieldKind::Message(MONTH))]),
        message("example.Mappy.PhysicalEntry", vec![single("key", 1, FieldKind::Bool), single("value", 2, FieldKind::Message(INNER))]),
        message(
            "example.Mappy",
            vec![
                field("id", 1, FieldKind::Message(13), Cardinality::Keyed),
                field("xday", 2, FieldKind::Message(14), Cardinality::Keyed),
                field("physical", 3, FieldKind::Message(15), Cardinality::Keyed),
            ],
        ),
        message("example.OnlyInt", vec![single("int1", 1, FieldKind::Int32), single("int2", 2, FieldKind::Int32)]),
        message(
            "example.Basket",
            vec![field("desserts", 1, FieldKind::Enum(0), Cardinality::List), single("price", 2, FieldKind::Double), single("snack", 3, FieldKind::Enum(1))],
        ),
        message(
            "example.Mixed",
            vec![single("a", 1, FieldKind::Int32), single("b", 2, FieldKind::Int32), single("c", 3, FieldKind::String), single("d", 4, FieldKind::Int32)],
        ),
        message("example.Months", vec![single("month1", 1, FieldKind::Message(MONTH)), single("month2", 2, FieldKind::Message(MONTH))]),
        message(
            "example.Triple",
            vec![single("first", 1, FieldKind::Int32), single("second", 2, FieldKind::Int32), single("third", 3, FieldKind::Int32)],
        ),
        message("example.Garden", vec![field("plants", 1, FieldKind::Enum(1), Cardinality::List)]),
        message("example.BadMap.Entry", vec![single("key", 1, FieldKind::Double), single("value", 2, FieldKind::Int32)]),
        message("example.BadMap", vec![field("entries", 1, FieldKind::Message(23), Cardinality::Keyed)]),
        message("example.Unsigned", vec![single("u", 1, FieldKind::Uint32)]),
    ];
    let enums = vec![
        enumeration("example.Fruit", "Fruit", &["RottenFruit", "Apple", "Banana", "Citrus", "DragonFruit"]),
        enumeration("example.Vegetable", "Vegetable", &["RottenVegetable", "Tomato", "Cabage", "Mashroom"]),
    ];
    DescriptorPool { messages, enums }
}

fn sym(s: &str) -> Atom {
    Atom::Symbol(s.to_string())
}

fn keys(names: &[&str]) -> Box<QValue> {
    Box::new(QValue::List(AtomKind::Symbol, names.iter().map(|n| sym(n)).collect()))
}

fn dict(names: &[&str], values: QValue) -> QValue {
    QValue::Dict(keys(names), Box::new(values))
}

fn name(s: &str) -> String {
    s.to_string()
}

#[test]
fn unknown_type_is_rejected() {
    let p = pool();
    let empty = QValue::Dict(keys(&[]), Box::new(QValue::Compound(vec![])));
    assert!(matches!(encode(&p, &name("nonexistent.Type"), &empty), Err(CodecError::UnknownMessageType)));
    let m = DynamicMessage { descriptor: 0, fields: vec![None] };
    let mut reg = EnumRegistry::new();
    assert!(matches!(decode(&p, &name("nonexistent.Type"), &m, &mut reg), Err(CodecError::UnknownMessageType)));
}

#[test]
fn int_dictionary_encodes_and_decodes() {
    let p = pool();
    let data = dict(&["int1", "int2"], QValue::List(AtomKind::Int, vec![Atom::Int(3), Atom::Int(-7)]));
    let m = encode(&p, &name("example.OnlyInt"), &data).unwrap();
    assert_eq!(m.descriptor, ONLY_INT);
    assert!(matches!(m.fields[0], Some(ProtoValue::I32(3))));
    assert!(matches!(m.fields[1], Some(ProtoValue::I32(-7))));
    let mut reg = EnumRegistry::new();
    let back = decode(&p, &name("example.OnlyInt"), &m, &mut reg).unwrap();
    match back {
        QValue::Dict(k, v) => {
            assert!(matches!(*k, QValue::List(AtomKind::Symbol, ref n) if n.len() == 2));
            match *v {
                QValue::List(AtomKind::Int, ref xs) => {
                    assert!(matches!(xs[0], Atom::Int(3)));
                    assert!(matches!(xs[1], Atom::Int(-7)));
                },
                ref other => panic!("unexpected {:?}", other),
            }
        },
        other => panic!("unexpected {:?}", other),
    }
}

#[test]
fn unknown_keys_are_skipped() {
    let p = pool();
    let data = dict(&["int1", "nothing"], QValue::List(AtomKind::Int, vec![Atom::Int(1), Atom::Int(2)]));
    let m = encode(&p, &name("example.OnlyInt"), &data).unwrap();
    assert!(matches!(m.fields[0], Some(ProtoValue::I32(1))));
    assert!(m.fields[1].is_none());
}

#[test]
fn wrong_value_type_is_a_mismatch() {
    let p = pool();
    let data = dict(&["int1"], QValue::List(AtomKind::Long, vec![Atom::Long(1)]));
    assert_eq!(
        encode(&p, &name("example.OnlyInt"), &data).unwrap_err(),
        CodecError::TypeMismatch(Expected::Atom(AtomKind::Long))
    );
}

#[test]
fn map_key_kind_is_checked() {
    let p = pool();
    let ids = QValue::Dict(
        Box::new(QValue::List(AtomKind::Int, vec![Atom::Int(1)])),
        Box::new(QValue::List(AtomKind::Int, vec![Atom::Int(2)])),
    );
    let data = dict(&["id"], QValue::Compound(vec![ids]));
    assert_eq!(
        encode(&p, &name("example.Mappy"), &data).unwrap_err(),
        CodecError::TypeMismatch(Expected::List(AtomKind::Symbol))
    );
}

fn values_of(v: &QValue) -> &QValue {
    match v {
        QValue::Dict(_, vals) => vals,
        other => panic!("not a dictionary: {:?}", other),
    }
}

fn compound(v: &QValue) -> &Vec<QValue> {
    match v {
        QValue::Compound(xs) => xs,
        other => panic!("not a compound list: {:?}", other),
    }
}

fn round_trip(message_type: &str, data: &QValue) -> QValue {
    let p = pool();
    let m = encode(&p, &name(message_type), data).unwrap();
    let mut reg = EnumRegistry::new();
    decode(&p, &name(message_type), &m, &mut reg).unwrap()
}

#[test]
fn month_wrapper_is_transparent() {
    let data = dict(&["month1"], QValue::Compound(vec![QValue::Atom(Atom::Int(5))]));
    let p = pool();
    let m = encode(&p, &name("example.Months"), &data).unwrap();
    match &m.fields[0] {
        Some(ProtoValue::Message(inner)) => {
            assert_eq!(inner.descriptor, MONTH);
            assert!(matches!(inner.fields[0], Some(ProtoValue::I32(5))));
        },
        other => panic!("unexpected {:?}", other),
    }
    let mut reg = EnumRegistry::new();
    let back = decode(&p, &name("example.Months"), &m, &mut reg).unwrap();
    let vals = compound(values_of(&back));
    assert_eq!(vals.len(), 2);
    assert!(matches!(vals[0], QValue::Atom(Atom::Month(5))));
    assert!(matches!(vals[1], QValue::Null));
}

#[test]
fn enum_values_outside_the_declared_range_are_rejected() {
    let p = pool();
    for bad in [-1i64, 4] {
        let data = dict(&["snack"], QValue::Compound(vec![QValue::Atom(Atom::Long(bad))]));
        assert_eq!(encode(&p, &name("example.Basket"), &data).unwrap_err(), CodecError::NotAReservedEnumValue);
    }
    for good in 0i64..4 {
        let data = dict(&["snack"], QValue::Compound(vec![QValue::Atom(Atom::Long(good))]));
        let m = encode(&p, &name("example.Basket"), &data).unwrap();
        assert!(matches!(m.fields[2], Some(ProtoValue::EnumNumber(n)) if n as i64 == good));
    }
    let list = dict(
        &["desserts"],
        QValue::Compound(vec![QValue::List(AtomKind::Enum, vec![Atom::Enum(name("Fruit"), 1), Atom::Enum(name("Fruit"), 5)])]),
    );
    assert_eq!(encode(&p, &name("example.Basket"), &list).unwrap_err(), CodecError::NotAReservedEnumValue);
}

#[test]
fn widening_keeps_every_value_in_order() {
    let p = pool();
    let m = DynamicMessage {
        descriptor: MIXED,
        fields: vec![
            Some(ProtoValue::I32(1)),
            Some(ProtoValue::I32(2)),
            Some(ProtoValue::Str(name("s"))),
            Some(ProtoValue::I32(3)),
        ],
    };
    let mut reg = EnumRegistry::new();
    let back = decode(&p, &name("example.Mixed"), &m, &mut reg).unwrap();
    let vals = compound(values_of(&back));
    assert_eq!(vals.len(), 4);
    assert!(matches!(vals[0], QValue::Atom(Atom::Int(1))));
    assert!(matches!(vals[1], QValue::Atom(Atom::Int(2))));
    assert!(matches!(vals[2], QValue::Chars(ref t) if t == "s"));
    assert!(matches!(vals[3], QValue::Atom(Atom::Int(3))));
}

#[test]
fn unset_field_is_null_and_forces_compound() {
    let p = pool();
    let m = DynamicMessage { descriptor: TRIPLE, fields: vec![Some(ProtoValue::I32(7)), None, Some(ProtoValue::I32(9))] };
    let mut reg = EnumRegistry::new();
    let back = decode(&p, &name("example.Triple"), &m, &mut reg).unwrap();
    let vals = compound(values_of(&back));
    assert_eq!(vals.len(), 3);
    assert!(matches!(vals[0], QValue::Atom(Atom::Int(7))));
    assert!(matches!(vals[1], QValue::Null));
    assert!(matches!(vals[2], QValue::Atom(Atom::Int(9))));
}

#[test]
fn maps_round_trip() {
    let ids = QValue::Dict(
        Box::new(QValue::List(AtomKind::Symbol, vec![sym("a"), sym("b")])),
        Box::new(QValue::List(AtomKind::Int, vec![Atom::Int(1), Atom::Int(2)])),
    );
    let xday = QValue::Dict(
        Box::new(QValue::List(AtomKind::Long, vec![Atom::Long(10), Atom::Long(-3)])),
        Box::new(QValue::List(AtomKind::Month, vec![Atom::Month(4), Atom::Month(8)])),
    );
    let inner = dict(&["inner_muscle", "inner_mind"], QValue::Compound(vec![QValue::Atom(Atom::Long(42)), QValue::Atom(sym("calm"))]));
    let physical = QValue::Dict(
        Box::new(QValue::List(AtomKind::Bool, vec![Atom::Bool(true)])),
        Box::new(QValue::Compound(vec![inner])),
    );
    let data = dict(&["id", "xday", "physical"], QValue::Compound(vec![ids, xday, physical]));
    let back = round_trip("example.Mappy", &data);
    let vals = compound(values_of(&back));
    assert_eq!(vals.len(), 3);
    match &vals[0] {
        QValue::Dict(k, v) => {
            assert!(matches!(**k, QValue::List(AtomKind::Symbol, ref ks) if matches!(&ks[..], [Atom::Symbol(a), Atom::Symbol(b)] if a == "a" && b == "b")));
            assert!(matches!(**v, QValue::List(AtomKind::Int, ref vs) if matches!(&vs[..], [Atom::Int(1), Atom::Int(2)])));
        },
        other => panic!("unexpected {:?}", other),
    }
    match &vals[1] {
        QValue::Dict(k, v) => {
            assert!(matches!(**k, QValue::List(AtomKind::Long, ref ks) if matches!(&ks[..], [Atom::Long(10), Atom::Long(-3)])));
            assert!(matches!(**v, QValue::List(AtomKind::Month, ref vs) if matches!(&vs[..], [Atom::Month(4), Atom::Month(8)])));
        },
        other => panic!("unexpected {:?}", other),
    }
    match &vals[2] {
        QValue::Dict(k, v) => {
            assert!(matches!(**k, QValue::List(AtomKind::Bool, ref ks) if matches!(&ks[..], [Atom::Bool(true)])));
            let rows = compound(v);
            assert_eq!(rows.len(), 1);
            let fields = compound(values_of(&rows[0]));
            assert!(matches!(fields[0], QValue::Atom(Atom::Long(42))));
            assert!(matches!(fields[1], QValue::Atom(Atom::Symbol(ref t)) if t == "calm"));
        },
        other => panic!("unexpected {:?}", other),
    }
}

#[test]
fn repeated_key_keeps_last_value() {
    let ids = QValue::Dict(
        Box::new(QValue::List(AtomKind::Symbol, vec![sym("a"), sym("a")])),
        Box::new(QValue::List(AtomKind::Int, vec![Atom::Int(1), Atom::Int(2)])),
    );
    let data = dict(&["id"], QValue::Compound(vec![ids]));
    let p = pool();
    let m = encode(&p, &name("example.Mappy"), &data).unwrap();
    match &m.fields[0] {
        Some(ProtoValue::MapEntries(es)) => {
            assert_eq!(es.len(), 1);
            assert!(matches!(es[0], (MapKey::Str(ref k), ProtoValue::I32(2)) if k == "a"));
        },
        other => panic!("unexpected {:?}", other),
    }
}

fn row(host: &str, port: i32, running: i64, user: &str) -> QValue {
    dict(
        &["host", "port", "running", "user"],
        QValue::Compound(vec![
            QValue::Atom(sym(host)),
            QValue::Atom(Atom::Int(port)),
            QValue::Atom(Atom::Timespan(running)),
            QValue::Chars(name(user)),
        ]),
    )
}

#[test]
fn table_round_trips_row_for_row() {
    let rows = vec![row("alpha", 5000, 10, "ann"), row("beta", 5001, 20, "bob"), row("gamma", 5002, 30, "cy")];
    let data = dict(&["rows"], QValue::Compound(vec![QValue::Table(rows)]));
    let back = round_trip("example.Table", &data);
    let vals = compound(values_of(&back));
    match &vals[0] {
        QValue::Table(rows) => {
            assert_eq!(rows.len(), 3);
            let expected = [("alpha", 5000, 10, "ann"), ("beta", 5001, 20, "bob"), ("gamma", 5002, 30, "cy")];
            for (r, (h, p, t, u)) in rows.iter().zip(expected.iter()) {
                let f = compound(values_of(r));
                assert!(matches!(f[0], QValue::Atom(Atom::Symbol(ref x)) if x == h));
                assert!(matches!(f[1], QValue::Atom(Atom::Int(x)) if x == *p));
                assert!(matches!(f[2], QValue::Atom(Atom::Timespan(x)) if x == *t));
                assert!(matches!(f[3], QValue::Chars(ref x) if x == u));
            }
        },
        other => panic!("unexpected {:?}", other),
    }
}

#[test]
fn nested_message_round_trips() {
    let inner = dict(&["inner_muscle", "inner_mind"], QValue::Compound(vec![QValue::Atom(Atom::Long(7)), QValue::Atom(sym("zen"))]));
    let data = dict(&["out_law", "inner"], QValue::Compound(vec![QValue::Atom(Atom::Bool(true)), inner]));
    let back = round_trip("example.Outer", &data);
    let vals = compound(values_of(&back));
    assert!(matches!(vals[0], QValue::Atom(Atom::Bool(true))));
    let inner = compound(values_of(&vals[1]));
    assert!(matches!(inner[0], QValue::Atom(Atom::Long(7))));
    assert!(matches!(inner[1], QValue::Atom(Atom::Symbol(ref s)) if s == "zen"));
}

#[test]
fn enum_lists_register_their_source_once() {
    let p = pool();
    let mut reg = EnumRegistry::new();
    let basket = DynamicMessage {
        descriptor: BASKET,
        fields: vec![Some(ProtoValue::List(vec![ProtoValue::EnumNumber(1), ProtoValue::EnumNumber(3)])), None, None],
    };
    let first = decode(&p, &name("example.Basket"), &basket, &mut reg).unwrap();
    let again = decode(&p, &name("example.Basket"), &basket, &mut reg).unwrap();
    assert_eq!(reg.sources.len(), 1);
    assert_eq!(reg.lookup(&name("Fruit")).unwrap().len(), 5);
    for back in [first, again] {
        let vals = compound(values_of(&back));
        assert!(matches!(vals[0], QValue::List(AtomKind::Enum, ref xs)
            if matches!(&xs[..], [Atom::Enum(a, 1), Atom::Enum(b, 3)] if a == "Fruit" && b == "Fruit")));
    }
    let garden = DynamicMessage { descriptor: GARDEN, fields: vec![Some(ProtoValue::List(vec![ProtoValue::EnumNumber(2)]))] };
    decode(&p, &name("example.Garden"), &garden, &mut reg).unwrap();
    assert_eq!(reg.sources.len(), 2);
    assert_eq!(reg.lookup(&name("Fruit")).unwrap()[1], "Apple");
    assert_eq!(reg.lookup(&name("Vegetable")).unwrap()[2], "Cabage");
}

#[test]
fn single_enum_value_is_tagged_with_its_full_name() {
    let p = pool();
    let m = DynamicMessage { descriptor: BASKET, fields: vec![None, None, Some(ProtoValue::EnumNumber(2))] };
    let mut reg = EnumRegistry::new();
    let back = decode(&p, &name("example.Basket"), &m, &mut reg).unwrap();
    let vals = compound(values_of(&back));
    assert!(matches!(vals[2], QValue::Atom(Atom::Enum(ref s, 2)) if s == ".grpc.example.Vegetable"));
    assert!(reg.sources.is_empty());
}

#[test]
fn message_of_another_type_is_a_decode_failure() {
    let p = pool();
    let m = DynamicMessage { descriptor: TRIPLE, fields: vec![None, None, None] };
    let mut reg = EnumRegistry::new();
    assert!(matches!(decode(&p, &name("example.OnlyInt"), &m, &mut reg), Err(CodecError::DecodeFailure)));
}

#[test]
fn unsupported_map_key_kind_is_reported() {
    let p = pool();
    let entries = QValue::Dict(
        Box::new(QValue::List(AtomKind::Float, vec![Atom::Float(0)])),
        Box::new(QValue::List(AtomKind::Int, vec![Atom::Int(1)])),
    );
    let data = dict(&["entries"], QValue::Compound(vec![entries]));
    assert_eq!(encode(&p, &name("example.BadMap"), &data).unwrap_err(), CodecError::UnsupportedKeyType);
}

#[test]
fn field_kind_without_conversion_is_reported() {
    let p = pool();
    let data = dict(&["u"], QValue::Compound(vec![QValue::Atom(Atom::Int(1))]));
    assert_eq!(encode(&p, &name("example.Unsigned"), &data).unwrap_err(), CodecError::UnsupportedFieldKind);
}

#[test]
fn empty_dictionary_sets_no_field() {
    let p = pool();
    let data = dict(&[], QValue::Compound(vec![]));
    let m = encode(&p, &name("example.Triple"), &data).unwrap();
    assert_eq!(m.fields.len(), 3);
    assert!(m.fields.iter().all(|f| f.is_none()));
}

#[test]
fn uniform_values_decode_to_a_simple_list() {
    let p = pool();
    let m = DynamicMessage {
        descriptor: OUTER,
        fields: vec![Some(ProtoValue::Bool(true)), None],
    };
    let mut reg = EnumRegistry::new();
    let back = decode(&p, &name("example.Outer"), &m, &mut reg).unwrap();
    assert!(matches!(compound(values_of(&back))[1], QValue::Null));
    let only = DynamicMessage { descriptor: MONTHS, fields: vec![
        Some(ProtoValue::Message(DynamicMessage { descriptor: MONTH, fields: vec![Some(ProtoValue::I32(1))] })),
        Some(ProtoValue::Message(DynamicMessage { descriptor: MONTH, fields: vec![None] })),
    ] };
    let back = decode(&p, &name("example.Months"), &only, &mut reg).unwrap();
    assert!(matches!(values_of(&back), QValue::List(AtomKind::Month, xs) if matches!(&xs[..], [Atom::Month(1), Atom::Month(0)])));
}

#[test]
fn list_field_wants_a_list_of_its_kind() {
    let p = pool();
    let data = dict(&["desserts"], QValue::Compound(vec![QValue::List(AtomKind::Long, vec![Atom::Long(1)])]));
    assert_eq!(
        encode(&p, &name("example.Basket"), &data).unwrap_err(),
        CodecError::TypeMismatch(Expected::List(AtomKind::Enum))
    );
    let table = dict(&["rows"], QValue::Compound(vec![QValue::Null]));
    assert_eq!(encode(&p, &name("example.Table"), &table).unwrap_err(), CodecError::TypeMismatch(Expected::Table));
    let not_dict = QValue::Null;
    assert_eq!(encode(&p, &name("example.Table"), &not_dict).unwrap_err(), CodecError::TypeMismatch(Expected::Dictionary));
}


#[test]
fn example_pool_is_well_formed() {
    assert!(pool().is_well_formed());
}

#[test]
fn malformed_pools_are_detected() {
    let mut p = pool();
    p.messages[MONTH].fields[0].name = name("days");
    assert!(!p.is_well_formed());
    let mut p = pool();
    p.messages[ONLY_INT].fields[0].kind = FieldKind::Message(99);
    assert!(!p.is_well_formed());
    let mut p = pool();
    p.messages[TRIPLE].full_name = name("example.OnlyInt");
    assert!(!p.is_well_formed());
    let mut p = pool();
    p.messages[MAPPY].fields[0].kind = FieldKind::Message(ONLY_INT + 1000);
    assert!(!p.is_well_formed());
}

#[test]
fn repeated_scalars_round_trip() {
    let mut q = pool();
    q.messages.push(message(
        "example.Lists",
        vec![
            field("bools", 1, FieldKind::Bool, Cardinality::List),
            field("longs", 2, FieldKind::Int64, Cardinality::List),
            field("words", 3, FieldKind::String, Cardinality::List),
            field("stamps", 4, FieldKind::Message(1), Cardinality::List),
        ],
    ));
    assert!(q.is_well_formed());
    let data = dict(
        &["bools", "longs", "words", "stamps"],
        QValue::Compound(vec![
            QValue::List(AtomKind::Bool, vec![Atom::Bool(true), Atom::Bool(false)]),
            QValue::List(AtomKind::Long, vec![Atom::Long(-1), Atom::Long(i64::MAX)]),
            QValue::Compound(vec![QValue::Chars(name("a")), QValue::Chars(name("bc"))]),
            QValue::List(AtomKind::Timestamp, vec![Atom::Timestamp(123)]),
        ]),
    );
    let m = encode(&q, &name("example.Lists"), &data).unwrap();
    let mut reg = EnumRegistry::new();
    let back = decode(&q, &name("example.Lists"), &m, &mut reg).unwrap();
    let vals = compound(values_of(&back));
    assert!(matches!(vals[0], QValue::List(AtomKind::Bool, ref xs) if matches!(&xs[..], [Atom::Bool(true), Atom::Bool(false)])));
    assert!(matches!(vals[1], QValue::List(AtomKind::Long, ref xs) if matches!(&xs[..], [Atom::Long(-1), Atom::Long(i64::MAX)])));
    assert!(matches!(vals[2], QValue::Compound(ref xs) if matches!(&xs[..], [QValue::Chars(a), QValue::Chars(b)] if a == "a" && b == "bc")));
    assert!(matches!(vals[3], QValue::List(AtomKind::Timestamp, ref xs) if matches!(&xs[..], [Atom::Timestamp(123)])));
}

#[test]
fn float_bits_pass_through_unchanged() {
    let mut q = pool();
    q.messages.push(message("example.Floats", vec![single("r", 1, FieldKind::Float), single("f", 2, FieldKind::Double)]));
    let r = 1.5f32.to_bits();
    let f = (-2.25f64).to_bits();
    let data = dict(&["r", "f"], QValue::Compound(vec![QValue::Atom(Atom::Real(r)), QValue::Atom(Atom::Float(f))]));
    let m = encode(&q, &name("example.Floats"), &data).unwrap();
    assert!(matches!(m.fields[0], Some(ProtoValue::F32(x)) if f32::from_bits(x) == 1.5));
    assert!(matches!(m.fields[1], Some(ProtoValue::F64(x)) if f64::from_bits(x) == -2.25));
}
