use qrpc::example::{Fruit, Vegetable};
use qrpc::native::Atom;
use qrpc::registry::EnumRegistry;
use qrpc::wrappers::{Month, Symbol, Timestamp};

#[test]
fn wrapper_messages_stand_for_atoms() {
    assert!(matches!(Month { months: 5 }.to_atom(), Atom::Month(5)));
    assert!(matches!(Timestamp { nanos: -9 }.to_atom(), Atom::Timestamp(-9)));
    assert!(matches!(Symbol { symbol: "ibm".to_string() }.to_atom(), Atom::Symbol(ref s) if s == "ibm"));
}

#[test]
fn enum_numbers_round_trip() {
    for f in [Fruit::RottenFruit, Fruit::Apple, Fruit::Banana, Fruit::Citrus, Fruit::DragonFruit] {
        assert_eq!(Fruit::try_from_number(f.number()), Some(f));
    }
    assert_eq!(Fruit::try_from_number(5), None);
    assert_eq!(Vegetable::Mashroom.number(), 3);
    assert_eq!(Vegetable::try_from_number(-1), None);
}

#[test]
fn registering_twice_keeps_the_first_values() {
    let mut reg = EnumRegistry::new();
    reg.register(&"Fruit".to_string(), vec!["Apple".to_string()]);
    reg.register(&"Fruit".to_string(), vec!["Pear".to_string(), "Fig".to_string()]);
    assert_eq!(reg.sources.len(), 1);
    assert_eq!(reg.lookup(&"Fruit".to_string()).unwrap(), &vec!["Apple".to_string()]);
    reg.register(&"Vegetable".to_string(), vec!["Tomato".to_string()]);
    assert_eq!(reg.lookup(&"Vegetable".to_string()).unwrap(), &vec!["Tomato".to_string()]);
    assert!(reg.lookup(&"Grain".to_string()).is_none());
}
