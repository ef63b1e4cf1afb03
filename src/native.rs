//! The host database's value model: atoms, simple (uniform) lists, compound
//! lists, dictionaries and tables.
use vstd::prelude::*;

verus! {

/// The type of an atom, which is also the type of a simple list of such atoms.
#[derive(Clone, Copy, PartialEq, Eq, Structural, Debug)]
pub enum AtomKind {
    Bool,
    Int,
    Long,
    Real,
    Float,
    Symbol,
    Timestamp,
    Month,
    Date,
    Datetime,
    Timespan,
    Minute,
    Second,
    Time,
    Enum,
}

/// A single typed value. Floating-point atoms hold the IEEE-754 bit pattern of
/// their value (`Real`: 32 bits, `Float` and `Datetime`: 64 bits).
#[derive(Clone, Debug)]
pub enum Atom {
    Bool(bool),
    Int(i32),
    Long(i64),
    Real(u32),
    Float(u64),
    Symbol(String),
    Timestamp(i64),
    Month(i32),
    Date(i32),
    Datetime(u64),
    Timespan(i64),
    Minute(i32),
    Second(i32),
    Time(i32),
    /// An enumerated value: the name of its enum source and its index.
    Enum(String, i64),
}

/// Mathematical model of an [`Atom`].
pub enum AtomV {
    Bool(bool),
    Int(i32),
    Long(i64),
    Real(u32),
    Float(u64),
    Symbol(Seq<char>),
    Timestamp(i64),
    Month(i32),
    Date(i32),
    Datetime(u64),
    Timespan(i64),
    Minute(i32),
    Second(i32),
    Time(i32),
    Enum(Seq<char>, i64),
}

/// A native value.
#[derive(Debug)]
pub enum QValue {
    /// The generic null.
    Null,
    Atom(Atom),
    /// A string (a list of characters).
    Chars(String),
    /// A byte list.
    Bytes(Vec<u8>),
    /// A simple list: every element is an atom of the given kind (and, for
    /// enumerations, of one enum source).
    List(AtomKind, Vec<Atom>),
    /// A compound list: boxed values of any type.
    Compound(Vec<QValue>),
    /// A dictionary: a list of keys and a list of values at the same positions.
    Dict(Box<QValue>, Box<QValue>),
    /// A table, as the sequence of its rows; each row is a dictionary.
    Table(Vec<QValue>),
}

/// Mathematical model of a [`QValue`].
pub enum QView {
    Null,
    Atom(AtomV),
    Chars(Seq<char>),
    Bytes(Seq<u8>),
    List(AtomKind, Seq<AtomV>),
    Compound(Seq<QView>),
    Dict(Box<QView>, Box<QView>),
    Table(Seq<QView>),
}

impl AtomV {
    pub open spec fn kind(self) -> AtomKind {
        match self {
            AtomV::Bool(_) => AtomKind::Bool,
            AtomV::Int(_) => AtomKind::Int,
            AtomV::Long(_) => AtomKind::Long,
            AtomV::Real(_) => AtomKind::Real,
            AtomV::Float(_) => AtomKind::Float,
            AtomV::Symbol(_) => AtomKind::Symbol,
            AtomV::Timestamp(_) => AtomKind::Timestamp,
            AtomV::Month(_) => AtomKind::Month,
            AtomV::Date(_) => AtomKind::Date,
            AtomV::Datetime(_) => AtomKind::Datetime,
            AtomV::Timespan(_) => AtomKind::Timespan,
            AtomV::Minute(_) => AtomKind::Minute,
            AtomV::Second(_) => AtomKind::Second,
            AtomV::Time(_) => AtomKind::Time,
            AtomV::Enum(_, _) => AtomKind::Enum,
        }
    }

    /// The enum source of an enumerated atom; empty for every other atom.
    pub open spec fn source(self) -> Seq<char> {
        match self {
            AtomV::Enum(s, _) => s,
            _ => Seq::empty(),
        }
    }

    /// Two atoms can share a simple list: same kind and, for enumerations,
    /// the same enum source.
    pub open spec fn same_class(self, other: AtomV) -> bool {
        self.kind() == other.kind() && self.source() == other.source()
    }
}

impl Atom {
    pub open spec fn view(&self) -> AtomV {
        match self {
            Atom::Bool(b) => AtomV::Bool(*b),
            Atom::Int(x) => AtomV::Int(*x),
            Atom::Long(x) => AtomV::Long(*x),
            Atom::Real(x) => AtomV::Real(*x),
            Atom::Float(x) => AtomV::Float(*x),
            Atom::Symbol(s) => AtomV::Symbol(s@),
            Atom::Timestamp(x) => AtomV::Timestamp(*x),
            Atom::Month(x) => AtomV::Month(*x),
            Atom::Date(x) => AtomV::Date(*x),
            Atom::Datetime(x) => AtomV::Datetime(*x),
            Atom::Timespan(x) => AtomV::Timespan(*x),
            Atom::Minute(x) => AtomV::Minute(*x),
            Atom::Second(x) => AtomV::Second(*x),
            Atom::Time(x) => AtomV::Time(*x),
            Atom::Enum(s, i) => AtomV::Enum(s@, *i),
        }
    }

    /// The kind of this atom.
    pub fn kind(&self) -> (k: AtomKind)
        ensures
            k == self@.kind(),
    {
        match self {
            Atom::Bool(_) => AtomKind::Bool,
            Atom::Int(_) => AtomKind::Int,
            Atom::Long(_) => AtomKind::Long,
            Atom::Real(_) => AtomKind::Real,
            Atom::Float(_) => AtomKind::Float,
            Atom::Symbol(_) => AtomKind::Symbol,
            Atom::Timestamp(_) => AtomKind::Timestamp,
            Atom::Month(_) => AtomKind::Month,
            Atom::Date(_) => AtomKind::Date,
            Atom::Datetime(_) => AtomKind::Datetime,
            Atom::Timespan(_) => AtomKind::Timespan,
            Atom::Minute(_) => AtomKind::Minute,
            Atom::Second(_) => AtomKind::Second,
            Atom::Time(_) => AtomKind::Time,
            Atom::Enum(_, _) => AtomKind::Enum,
        }
    }

    /// A copy of this atom.
    pub fn copy(&self) -> (r: Atom)
        ensures
            r@ == self@,
    {
        match self {
            Atom::Bool(b) => Atom::Bool(*b),
            Atom::Int(x) => Atom::Int(*x),
            Atom::Long(x) => Atom::Long(*x),
            Atom::Real(x) => Atom::Real(*x),
            Atom::Float(x) => Atom::Float(*x),
            Atom::Symbol(s) => Atom::Symbol(s.clone()),
            Atom::Timestamp(x) => Atom::Timestamp(*x),
            Atom::Month(x) => Atom::Month(*x),
            Atom::Date(x) => Atom::Date(*x),
            Atom::Datetime(x) => Atom::Datetime(*x),
            Atom::Timespan(x) => Atom::Timespan(*x),
            Atom::Minute(x) => Atom::Minute(*x),
            Atom::Second(x) => Atom::Second(*x),
            Atom::Time(x) => Atom::Time(*x),
            Atom::Enum(s, i) => Atom::Enum(s.clone(), *i),
        }
    }

    /// Whether this atom can share a simple list with `other`.
    pub fn same_class(&self, other: &Atom) -> (r: bool)
        ensures
            r == self@.same_class(other@),
    {
        match (self, other) {
            (Atom::Enum(a, _), Atom::Enum(b, _)) => *a == *b,
            (Atom::Enum(_, _), _) => false,
            (_, Atom::Enum(_, _)) => false,
            _ => self.kind() == other.kind(),
        }
    }
}

/// The models of a sequence of atoms.
pub open spec fn atoms_view(v: Seq<Atom>) -> Seq<AtomV> {
    Seq::new(v.len(), |i: int| v[i]@)
}

impl QValue {
    pub open spec fn view(&self) -> QView
        decreases self,
    {
        match self {
            QValue::Null => QView::Null,
            QValue::Atom(a) => QView::Atom(a@),
            QValue::Chars(s) => QView::Chars(s@),
            QValue::Bytes(b) => QView::Bytes(b@),
            QValue::List(k, v) => QView::List(*k, atoms_view(v@)),
            QValue::Compound(v) => QView::Compound(
                Seq::new(v@.len(), |i: int| if 0 <= i < v@.len() { v@[i].view() } else { QView::Null }),
            ),
            QValue::Dict(k, v) => QView::Dict(Box::new((**k).view()), Box::new((**v).view())),
            QValue::Table(v) => QView::Table(
                Seq::new(v@.len(), |i: int| if 0 <= i < v@.len() { v@[i].view() } else { QView::Null }),
            ),
        }
    }
}

} // verus!
