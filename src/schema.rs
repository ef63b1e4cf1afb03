//! Message and enum descriptors, as read from a compiled descriptor set, and
//! the registry of the nine wrapper messages of the `q` package.
use vstd::prelude::*;
use crate::native::AtomKind;

verus! {

/// The declared type of a field.
#[derive(Clone, Copy, PartialEq, Eq, Structural, Debug)]
pub enum FieldKind {
    Double,
    Float,
    Int32,
    Int64,
    Uint32,
    Uint64,
    Sint32,
    Sint64,
    Fixed32,
    Fixed64,
    Sfixed32,
    Sfixed64,
    Bool,
    String,
    Bytes,
    /// A message type: its index in the pool's messages.
    Message(usize),
    /// An enum type: its index in the pool's enums.
    Enum(usize),
}

/// Whether a field holds one value, a repeated list, or a map.
#[derive(Clone, Copy, PartialEq, Eq, Structural, Debug)]
pub enum Cardinality {
    Singular,
    List,
    Keyed,
}

/// A field of a message type.
#[derive(Clone, Debug)]
pub struct FieldDescriptor {
    pub name: String,
    pub number: u32,
    pub kind: FieldKind,
    pub cardinality: Cardinality,
}

/// A message type: its fully qualified name and its fields in declaration order.
/// The entry type of a map field has two fields, the key and the value.
#[derive(Clone, Debug)]
pub struct MessageDescriptor {
    pub full_name: String,
    pub fields: Vec<FieldDescriptor>,
}

/// A declared value of an enum type.
#[derive(Clone, Debug)]
pub struct EnumValue {
    pub name: String,
    pub number: i32,
}

/// An enum type: its fully qualified name, its short name and its values in
/// declaration order.
#[derive(Clone, Debug)]
pub struct EnumDescriptor {
    pub full_name: String,
    pub name: String,
    pub values: Vec<EnumValue>,
}

/// Every message and enum type known to the process.
#[derive(Clone, Debug)]
pub struct DescriptorPool {
    pub messages: Vec<MessageDescriptor>,
    pub enums: Vec<EnumDescriptor>,
}

/// The nine wrapper messages that carry the database's temporal types and
/// symbols through protobuf.
#[derive(Clone, Copy, PartialEq, Eq, Structural, Debug)]
pub enum Wrapper {
    Symbol,
    Timestamp,
    Month,
    Date,
    Datetime,
    Timespan,
    Minute,
    Second,
    Time,
}

/// The full name reserved for each wrapper message.
pub open spec fn wrapper_name(w: Wrapper) -> Seq<char> {
    match w {
        Wrapper::Symbol => "q.symbol"@,
        Wrapper::Timestamp => "q.timestamp"@,
        Wrapper::Month => "q.month"@,
        Wrapper::Date => "q.date"@,
        Wrapper::Datetime => "q.datetime"@,
        Wrapper::Timespan => "q.timespan"@,
        Wrapper::Minute => "q.minute"@,
        Wrapper::Second => "q.second"@,
        Wrapper::Time => "q.time"@,
    }
}

/// The name of the single field of each wrapper message.
pub open spec fn wrapper_field_name(w: Wrapper) -> Seq<char> {
    match w {
        Wrapper::Symbol => "symbol"@,
        Wrapper::Timestamp => "nanos"@,
        Wrapper::Month => "months"@,
        Wrapper::Date => "days"@,
        Wrapper::Datetime => "days"@,
        Wrapper::Timespan => "nanos"@,
        Wrapper::Minute => "minutes"@,
        Wrapper::Second => "seconds"@,
        Wrapper::Time => "millis"@,
    }
}

/// The protobuf kind of the single field of each wrapper message.
pub open spec fn wrapper_field_kind(w: Wrapper) -> FieldKind {
    match w {
        Wrapper::Symbol => FieldKind::String,
        Wrapper::Timestamp | Wrapper::Timespan => FieldKind::Int64,
        Wrapper::Datetime => FieldKind::Double,
        _ => FieldKind::Int32,
    }
}

/// The native atom type that each wrapper message stands for.
pub open spec fn wrapper_atom_kind(w: Wrapper) -> AtomKind {
    match w {
        Wrapper::Symbol => AtomKind::Symbol,
        Wrapper::Timestamp => AtomKind::Timestamp,
        Wrapper::Month => AtomKind::Month,
        Wrapper::Date => AtomKind::Date,
        Wrapper::Datetime => AtomKind::Datetime,
        Wrapper::Timespan => AtomKind::Timespan,
        Wrapper::Minute => AtomKind::Minute,
        Wrapper::Second => AtomKind::Second,
        Wrapper::Time => AtomKind::Time,
    }
}

/// The wrapper whose reserved name is `name`, if any.
pub open spec fn spec_wrapper_of(name: Seq<char>) -> Option<Wrapper> {
    if name == "q.symbol"@ {
        Some(Wrapper::Symbol)
    } else if name == "q.timestamp"@ {
        Some(Wrapper::Timestamp)
    } else if name == "q.month"@ {
        Some(Wrapper::Month)
    } else if name == "q.date"@ {
        Some(Wrapper::Date)
    } else if name == "q.datetime"@ {
        Some(Wrapper::Datetime)
    } else if name == "q.timespan"@ {
        Some(Wrapper::Timespan)
    } else if name == "q.minute"@ {
        Some(Wrapper::Minute)
    } else if name == "q.second"@ {
        Some(Wrapper::Second)
    } else if name == "q.time"@ {
        Some(Wrapper::Time)
    } else {
        None
    }
}

/// Looks up the wrapper reserved under `name`.
pub fn wrapper_of(name: &String) -> (r: Option<Wrapper>)
    ensures
        r == spec_wrapper_of(name@),
{
    if *name == String::from_str("q.symbol") {
        Some(Wrapper::Symbol)
    } else if *name == String::from_str("q.timestamp") {
        Some(Wrapper::Timestamp)
    } else if *name == String::from_str("q.month") {
        Some(Wrapper::Month)
    } else if *name == String::from_str("q.date") {
        Some(Wrapper::Date)
    } else if *name == String::from_str("q.datetime") {
        Some(Wrapper::Datetime)
    } else if *name == String::from_str("q.timespan") {
        Some(Wrapper::Timespan)
    } else if *name == String::from_str("q.minute") {
        Some(Wrapper::Minute)
    } else if *name == String::from_str("q.second") {
        Some(Wrapper::Second)
    } else if *name == String::from_str("q.time") {
        Some(Wrapper::Time)
    } else {
        None
    }
}

impl FieldDescriptor {
    pub open spec fn is_list(&self) -> bool {
        self.cardinality == Cardinality::List
    }

    pub open spec fn is_map(&self) -> bool {
        self.cardinality == Cardinality::Keyed
    }
}

impl DescriptorPool {
    /// The wrapper that message type `m` stands for, if any.
    pub open spec fn wrapper(&self, m: int) -> Option<Wrapper> {
        spec_wrapper_of(self.messages@[m].full_name@)
    }

    /// A field kind refers only to types of this pool.
    pub open spec fn kind_wf(&self, k: FieldKind) -> bool {
        match k {
            FieldKind::Message(m) => m < self.messages@.len(),
            FieldKind::Enum(e) => e < self.enums@.len() && self.enums@[e as int].values@.len() > 0,
            _ => true,
        }
    }

    /// A field is well formed: its type is in the pool, and a map field's type
    /// is an entry type of two singular fields.
    pub open spec fn field_wf(&self, f: FieldDescriptor) -> bool {
        &&& self.kind_wf(f.kind)
        &&& f.is_map() ==> (f.kind matches FieldKind::Message(m) && {
            let entry = self.messages@[m as int];
            &&& entry.fields@.len() == 2
            &&& entry.fields@[0].cardinality == Cardinality::Singular
            &&& entry.fields@[1].cardinality == Cardinality::Singular
        })
    }

    /// Every type of the pool refers only to types of the pool, no two
    /// message types and no two enum types share a name, and each wrapper message has exactly its
    /// one reserved field.
    pub open spec fn wf(&self) -> bool {
        &&& forall|a: int, b: int|
            0 <= a < b < self.messages@.len() ==> self.messages@[a].full_name@ != self.messages@[b].full_name@
        &&& forall|a: int, b: int|
            0 <= a < b < self.enums@.len() ==> self.enums@[a].full_name@ != self.enums@[b].full_name@
        &&& forall|m: int, i: int|
            0 <= m < self.messages@.len() && 0 <= i < self.messages@[m].fields@.len()
                ==> #[trigger] self.field_wf(self.messages@[m].fields@[i])
        &&& forall|m: int|
            0 <= m < self.messages@.len() && (#[trigger] self.wrapper(m)) is Some ==> {
                let w = self.wrapper(m)->0;
                let fs = self.messages@[m].fields@;
                &&& fs.len() == 1
                &&& fs[0].name@ == wrapper_field_name(w)
                &&& fs[0].kind == wrapper_field_kind(w)
                &&& fs[0].cardinality == Cardinality::Singular
            }
    }

    /// Whether field kind `k` refers only to types of this pool.
    pub fn kind_is_valid(&self, k: FieldKind) -> (r: bool)
        ensures
            r == self.kind_wf(k),
    {
        match k {
            FieldKind::Message(m) => m < self.messages.len(),
            FieldKind::Enum(e) => e < self.enums.len() && self.enums[e].values.len() > 0,
            _ => true,
        }
    }

    /// Whether field `f` is well formed.
    pub fn field_is_valid(&self, f: &FieldDescriptor) -> (r: bool)
        ensures
            r == self.field_wf(*f),
    {
        if !self.kind_is_valid(f.kind) {
            return false;
        }
        if f.cardinality != Cardinality::Keyed {
            return true;
        }
        match f.kind {
            FieldKind::Message(m) => {
                let entry = &self.messages[m].fields;
                entry.len() == 2 && entry[0].cardinality == Cardinality::Singular && entry[1].cardinality
                    == Cardinality::Singular
            },
            _ => false,
        }
    }

    /// Whether message type `m` is well formed as a wrapper message, if its
    /// name reserves it for one.
    fn wrapper_is_valid(&self, m: usize) -> (r: bool)
        requires
            m < self.messages@.len(),
        ensures
            r == (self.wrapper(m as int) is Some ==> {
                let w = self.wrapper(m as int)->0;
                let fs = self.messages@[m as int].fields@;
                &&& fs.len() == 1
                &&& fs[0].name@ == wrapper_field_name(w)
                &&& fs[0].kind == wrapper_field_kind(w)
                &&& fs[0].cardinality == Cardinality::Singular
            }),
    {
        match wrapper_of(&self.messages[m].full_name) {
            None => true,
            Some(w) => {
                let fs = &self.messages[m].fields;
                if fs.len() != 1 {
                    return false;
                }
                let (field_name, kind) = match w {
                    Wrapper::Symbol => (String::from_str("symbol"), FieldKind::String),
                    Wrapper::Timestamp => (String::from_str("nanos"), FieldKind::Int64),
                    Wrapper::Month => (String::from_str("months"), FieldKind::Int32),
                    Wrapper::Date => (String::from_str("days"), FieldKind::Int32),
                    Wrapper::Datetime => (String::from_str("days"), FieldKind::Double),
                    Wrapper::Timespan => (String::from_str("nanos"), FieldKind::Int64),
                    Wrapper::Minute => (String::from_str("minutes"), FieldKind::Int32),
                    Wrapper::Second => (String::from_str("seconds"), FieldKind::Int32),
                    Wrapper::Time => (String::from_str("millis"), FieldKind::Int32),
                };
                fs[0].name == field_name && fs[0].kind == kind && fs[0].cardinality == Cardinality::Singular
            },
        }
    }

    /// Whether no two enum types share a full name.
    fn enum_names_distinct(&self) -> (r: bool)
        ensures
            r == forall|a: int, b: int|
                0 <= a < b < self.enums@.len() ==> self.enums@[a].full_name@ != self.enums@[b].full_name@,
    {
        let n = self.enums.len();
        let mut a: usize = 0;
        while a < n
            invariant
                n == self.enums@.len(),
                a <= n,
                forall|x: int, y: int| 0 <= x < y < n && x < a ==> self.enums@[x].full_name@ != self.enums@[y].full_name@,
            decreases n - a,
        {
            let mut b: usize = a + 1;
            while b < n
                invariant
                    n == self.enums@.len(),
                    a < n,
                    a + 1 <= b <= n,
                    forall|y: int| a < y < b ==> self.enums@[a as int].full_name@ != self.enums@[y].full_name@,
                decreases n - b,
            {
                if self.enums[a].full_name == self.enums[b].full_name {
                    return false;
                }
                b = b + 1;
            }
            a = a + 1;
        }
        true
    }

    /// Whether the pool is well formed (see [`DescriptorPool::wf`]); the
    /// codec's entry points need it.
    pub fn is_well_formed(&self) -> (r: bool)
        ensures
            r == self.wf(),
    {
        if !self.enum_names_distinct() {
            return false;
        }
        let n = self.messages.len();
        let mut a: usize = 0;
        while a < n
            invariant
                n == self.messages@.len(),
                a <= n,
                forall|x: int, y: int| 0 <= x < y < n && x < a ==> self.messages@[x].full_name@ != self.messages@[y].full_name@,
                forall|m: int, i: int|
                    0 <= m < a && 0 <= i < self.messages@[m].fields@.len() ==> #[trigger] self.field_wf(self.messages@[m].fields@[i]),
                forall|m: int|
                    0 <= m < a && (#[trigger] self.wrapper(m)) is Some ==> {
                        let w = self.wrapper(m)->0;
                        let fs = self.messages@[m].fields@;
                        &&& fs.len() == 1
                        &&& fs[0].name@ == wrapper_field_name(w)
                        &&& fs[0].kind == wrapper_field_kind(w)
                        &&& fs[0].cardinality == Cardinality::Singular
                    },
            decreases n - a,
        {
            let mut b: usize = a + 1;
            while b < n
                invariant
                    n == self.messages@.len(),
                    a < n,
                    a + 1 <= b <= n,
                    forall|y: int| a < y < b ==> self.messages@[a as int].full_name@ != self.messages@[y].full_name@,
                decreases n - b,
            {
                if self.messages[a].full_name == self.messages[b].full_name {
                    return false;
                }
                b = b + 1;
            }
            let fields = &self.messages[a].fields;
            let mut i: usize = 0;
            while i < fields.len()
                invariant
                    a < n,
                    n == self.messages@.len(),
                    *fields == self.messages@[a as int].fields,
                    i <= fields@.len(),
                    forall|k: int| 0 <= k < i ==> #[trigger] self.field_wf(fields@[k]),
                decreases fields@.len() - i,
            {
                if !self.field_is_valid(&fields[i]) {
                    return false;
                }
                i = i + 1;
            }
            if !self.wrapper_is_valid(a) {
                return false;
            }
            a = a + 1;
        }
        true
    }

    /// The index of the message type named `name`, if any.
    pub open spec fn spec_find_message(&self, name: Seq<char>) -> Option<usize> {
        if exists|m: int| 0 <= m < self.messages@.len() && self.messages@[m].full_name@ == name {
            Some(choose|m: usize| m < self.messages@.len() && self.messages@[m as int].full_name@ == name)
        } else {
            None
        }
    }

    /// Looks up a message type by its fully qualified name.
    pub fn get_message_by_name(&self, name: &String) -> (r: Option<usize>)
        ensures
            r is None <==> forall|m: int| 0 <= m < self.messages@.len() ==> self.messages@[m].full_name@ != name@,
            r matches Some(m) ==> m < self.messages@.len() && self.messages@[m as int].full_name@ == name@,
    {
        let mut i: usize = 0;
        while i < self.messages.len()
            invariant
                i <= self.messages@.len(),
                forall|m: int| 0 <= m < i ==> self.messages@[m].full_name@ != name@,
            decreases self.messages@.len() - i,
        {
            if self.messages[i].full_name == *name {
                return Some(i);
            }
            i = i + 1;
        }
        None
    }
}

} // verus!
