//! The messages of the `q` package: one single-field message per temporal
//! type of the database, and one for symbols.
use vstd::prelude::*;
use crate::native::{Atom, AtomV};

verus! {

/// `q.symbol`.
#[derive(Clone, Debug)]
pub struct Symbol {
    pub symbol: String,
}

/// `q.timestamp`: nanoseconds since 2000.01.01.
#[derive(Clone, Copy, Debug, PartialEq, Eq)]
pub struct Timestamp {
    pub nanos: i64,
}

/// `q.month`: months since 2000.01.
#[derive(Clone, Copy, Debug, PartialEq, Eq)]
pub struct Month {
    pub months: i32,
}

/// `q.date`: days since 2000.01.01.
#[derive(Clone, Copy, Debug, PartialEq, Eq)]
pub struct Date {
    pub days: i32,
}

/// `q.datetime`: days since 2000.01.01 as a float (its IEEE-754 bits).
#[derive(Clone, Copy, Debug, PartialEq, Eq)]
pub struct Datetime {
    pub days: u64,
}

/// `q.timespan`: nanoseconds.
#[derive(Clone, Copy, Debug, PartialEq, Eq)]
pub struct Timespan {
    pub nanos: i64,
}

/// `q.minute`: minutes.
#[derive(Clone, Copy, Debug, PartialEq, Eq)]
pub struct Minute {
    pub minutes: i32,
}

/// `q.second`: seconds.
#[derive(Clone, Copy, Debug, PartialEq, Eq)]
pub struct Second {
    pub seconds: i32,
}

/// `q.time`: milliseconds.
#[derive(Clone, Copy, Debug, PartialEq, Eq)]
pub struct Time {
    pub millis: i32,
}

impl Symbol {
    /// The symbol atom this message stands for.
    pub fn to_atom(&self) -> (r: Atom)
        ensures
            r@ == AtomV::Symbol(self.symbol@),
    {
        Atom::Symbol(self.symbol.clone())
    }
}

impl Timestamp {
    /// The timestamp atom this message stands for.
    pub fn to_atom(&self) -> (r: Atom)
        ensures
            r@ == AtomV::Timestamp(self.nanos),
    {
        Atom::Timestamp(self.nanos)
    }
}

impl Month {
    /// The month atom this message stands for.
    pub fn to_atom(&self) -> (r: Atom)
        ensures
            r@ == AtomV::Month(self.months),
    {
        Atom::Month(self.months)
    }
}

impl Date {
    /// The date atom this message stands for.
    pub fn to_atom(&self) -> (r: Atom)
        ensures
            r@ == AtomV::Date(self.days),
    {
        Atom::Date(self.days)
    }
}

impl Datetime {
    /// The datetime atom this message stands for.
    pub fn to_atom(&self) -> (r: Atom)
        ensures
            r@ == AtomV::Datetime(self.days),
    {
        Atom::Datetime(self.days)
    }
}

impl Timespan {
    /// The timespan atom this message stands for.
    pub fn to_atom(&self) -> (r: Atom)
        ensures
            r@ == AtomV::Timespan(self.nanos),
    {
        Atom::Timespan(self.nanos)
    }
}

impl Minute {
    /// The minute atom this message stands for.
    pub fn to_atom(&self) -> (r: Atom)
        ensures
            r@ == AtomV::Minute(self.minutes),
    {
        Atom::Minute(self.minutes)
    }
}

impl Second {
    /// The second atom this message stands for.
    pub fn to_atom(&self) -> (r: Atom)
        ensures
            r@ == AtomV::Second(self.seconds),
    {
        Atom::Second(self.seconds)
    }
}

impl Time {
    /// The time atom this message stands for.
    pub fn to_atom(&self) -> (r: Atom)
        ensures
            r@ == AtomV::Time(self.millis),
    {
        Atom::Time(self.millis)
    }
}

} // verus!
