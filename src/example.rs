//! The message and enum types of the `example` package, used to exercise the
//! codec: atoms of each kind, nested messages, tables, maps and enums.
use vstd::prelude::*;
use crate::wrappers::{Date, Datetime, Minute, Month, Second, Symbol, Time, Timespan, Timestamp};

verus! {

/// Inner message contained in [`Outer`].
#[derive(Clone, Debug)]
pub struct Inner {
    pub inner_muscle: i64,
    pub inner_mind: Option<Symbol>,
}

/// A nested message.
#[derive(Clone, Debug)]
pub struct Outer {
    pub out_law: bool,
    pub inner: Option<Inner>,
}

/// A table row.
#[derive(Clone, Debug)]
pub struct Row {
    pub host: Option<Symbol>,
    pub port: i32,
    pub running: Option<Timespan>,
    pub user: String,
}

/// A message holding a table: a repeated row message.
#[derive(Clone, Debug)]
pub struct Table {
    pub rows: Vec<Row>,
}

/// A message of maps, each given as its entries.
#[derive(Clone, Debug)]
pub struct Mappy {
    pub id: Vec<(String, i32)>,
    pub xday: Vec<(i64, Month)>,
    pub physical: Vec<(bool, Inner)>,
}

/// The one-of field of [`OneOf`].
#[derive(Clone, Debug)]
pub enum Random {
    IntF(i32),
    StringF(String),
    MonthF(Month),
    SymbolF(Symbol),
}

/// A message holding a one-of field; `fixed` is the field declared `static`.
#[derive(Clone, Debug)]
pub struct OneOf {
    pub fixed: bool,
    pub random: Option<Random>,
}

#[derive(Clone, Copy, Debug, PartialEq, Eq)]
pub struct OnlyBool {
    pub bool1: bool,
    pub bool2: bool,
}

#[derive(Clone, Copy, Debug, PartialEq, Eq)]
pub struct OnlyInt {
    pub int1: i32,
    pub int2: i32,
}

#[derive(Clone, Copy, Debug, PartialEq, Eq)]
pub struct OnlyLong {
    pub long1: i64,
    pub long2: i64,
}

#[derive(Clone, Debug)]
pub struct OnlySymbol {
    pub symbol1: Option<Symbol>,
    pub symbol2: Option<Symbol>,
}

#[derive(Clone, Copy, Debug)]
pub struct OnlyTimestamp {
    pub timestamp1: Option<Timestamp>,
    pub timestamp2: Option<Timestamp>,
}

#[derive(Clone, Copy, Debug)]
pub struct OnlyMonth {
    pub month1: Option<Month>,
    pub month2: Option<Month>,
}

#[derive(Clone, Copy, Debug)]
pub struct OnlyDate {
    pub date1: Option<Date>,
    pub date2: Option<Date>,
}

#[derive(Clone, Copy, Debug)]
pub struct OnlyDatetime {
    pub datetime1: Option<Datetime>,
    pub datetime2: Option<Datetime>,
}

#[derive(Clone, Copy, Debug)]
pub struct OnlyTimespan {
    pub timespan1: Option<Timespan>,
    pub timespan2: Option<Timespan>,
}

#[derive(Clone, Copy, Debug)]
pub struct OnlyMinute {
    pub minute1: Option<Minute>,
    pub minute2: Option<Minute>,
}

#[derive(Clone, Copy, Debug)]
pub struct OnlySecond {
    pub second1: Option<Second>,
    pub second2: Option<Second>,
}

#[derive(Clone, Copy, Debug)]
pub struct OnlyTime {
    pub time1: Option<Time>,
    pub time2: Option<Time>,
}

/// Available fruit.
#[derive(Clone, Copy, Debug, PartialEq, Eq, Structural)]
pub enum Fruit {
    RottenFruit,
    Apple,
    Banana,
    Citrus,
    DragonFruit,
}

/// Available vegetables.
#[derive(Clone, Copy, Debug, PartialEq, Eq, Structural)]
pub enum Vegetable {
    RottenVegetable,
    Tomato,
    Cabage,
    Mashroom,
}

impl Fruit {
    /// The declared number of this value.
    pub fn number(self) -> (r: i32)
        ensures
            0 <= r <= 4,
            Fruit::from_number(r) == Some(self),
    {
        match self {
            Fruit::RottenFruit => 0,
            Fruit::Apple => 1,
            Fruit::Banana => 2,
            Fruit::Citrus => 3,
            Fruit::DragonFruit => 4,
        }
    }

    /// The value declared with number `n`, if any.
    pub open spec fn from_number(n: i32) -> Option<Fruit> {
        if n == 0 {
            Some(Fruit::RottenFruit)
        } else if n == 1 {
            Some(Fruit::Apple)
        } else if n == 2 {
            Some(Fruit::Banana)
        } else if n == 3 {
            Some(Fruit::Citrus)
        } else if n == 4 {
            Some(Fruit::DragonFruit)
        } else {
            None
        }
    }

    /// The value declared with number `n`, if any.
    pub fn try_from_number(n: i32) -> (r: Option<Fruit>)
        ensures
            r == Fruit::from_number(n),
    {
        if n == 0 {
            Some(Fruit::RottenFruit)
        } else if n == 1 {
            Some(Fruit::Apple)
        } else if n == 2 {
            Some(Fruit::Banana)
        } else if n == 3 {
            Some(Fruit::Citrus)
        } else if n == 4 {
            Some(Fruit::DragonFruit)
        } else {
            None
        }
    }
}

impl Vegetable {
    /// The declared number of this value.
    pub fn number(self) -> (r: i32)
        ensures
            0 <= r <= 3,
            Vegetable::from_number(r) == Some(self),
    {
        match self {
            Vegetable::RottenVegetable => 0,
            Vegetable::Tomato => 1,
            Vegetable::Cabage => 2,
            Vegetable::Mashroom => 3,
        }
    }

    /// The value declared with number `n`, if any.
    pub open spec fn from_number(n: i32) -> Option<Vegetable> {
        if n == 0 {
            Some(Vegetable::RottenVegetable)
        } else if n == 1 {
            Some(Vegetable::Tomato)
        } else if n == 2 {
            Some(Vegetable::Cabage)
        } else if n == 3 {
            Some(Vegetable::Mashroom)
        } else {
            None
        }
    }

    /// The value declared with number `n`, if any.
    pub fn try_from_number(n: i32) -> (r: Option<Vegetable>)
        ensures
            r == Vegetable::from_number(n),
    {
        if n == 0 {
            Some(Vegetable::RottenVegetable)
        } else if n == 1 {
            Some(Vegetable::Tomato)
        } else if n == 2 {
            Some(Vegetable::Cabage)
        } else if n == 3 {
            Some(Vegetable::Mashroom)
        } else {
            None
        }
    }
}

} // verus!
