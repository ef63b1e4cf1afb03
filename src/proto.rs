//! Dynamic protobuf messages: a message is the index of its type in the
//! descriptor pool and one optional value per declared field.
use vstd::prelude::*;

verus! {

/// The key of a map entry.
#[derive(Clone, Debug)]
pub enum MapKey {
    Bool(bool),
    I32(i32),
    I64(i64),
    Str(String),
}

/// Model of a [`MapKey`].
pub enum MapKeyV {
    Bool(bool),
    I32(i32),
    I64(i64),
    Str(Seq<char>),
}

/// A field value. Floating-point values hold their IEEE-754 bit pattern.
#[derive(Debug)]
pub enum ProtoValue {
    Bool(bool),
    I32(i32),
    I64(i64),
    F32(u32),
    F64(u64),
    Str(String),
    Bytes(Vec<u8>),
    EnumNumber(i32),
    Message(DynamicMessage),
    List(Vec<ProtoValue>),
    /// The entries of a map field; no key occurs twice.
    MapEntries(Vec<(MapKey, ProtoValue)>),
}

/// A message built and read through its descriptor.
#[derive(Debug)]
pub struct DynamicMessage {
    /// Index of the message type in the descriptor pool.
    pub descriptor: usize,
    /// One slot per declared field, in declaration order; `None` where unset.
    pub fields: Vec<Option<ProtoValue>>,
}

/// Model of a [`ProtoValue`].
pub enum ProtoView {
    Bool(bool),
    I32(i32),
    I64(i64),
    F32(u32),
    F64(u64),
    Str(Seq<char>),
    Bytes(Seq<u8>),
    EnumNumber(i32),
    Message(usize, Seq<Option<ProtoView>>),
    List(Seq<ProtoView>),
    MapEntries(Seq<(MapKeyV, ProtoView)>),
}

impl MapKey {
    pub open spec fn view(&self) -> MapKeyV {
        match self {
            MapKey::Bool(b) => MapKeyV::Bool(*b),
            MapKey::I32(x) => MapKeyV::I32(*x),
            MapKey::I64(x) => MapKeyV::I64(*x),
            MapKey::Str(s) => MapKeyV::Str(s@),
        }
    }

    /// Whether two keys are the same key.
    pub fn same(&self, other: &MapKey) -> (r: bool)
        ensures
            r == (self@ == other@),
    {
        match (self, other) {
            (MapKey::Bool(a), MapKey::Bool(b)) => *a == *b,
            (MapKey::I32(a), MapKey::I32(b)) => *a == *b,
            (MapKey::I64(a), MapKey::I64(b)) => *a == *b,
            (MapKey::Str(a), MapKey::Str(b)) => *a == *b,
            _ => false,
        }
    }
}

impl ProtoValue {
    pub open spec fn view(&self) -> ProtoView
        decreases self,
    {
        match self {
            ProtoValue::Bool(b) => ProtoView::Bool(*b),
            ProtoValue::I32(x) => ProtoView::I32(*x),
            ProtoValue::I64(x) => ProtoView::I64(*x),
            ProtoValue::F32(x) => ProtoView::F32(*x),
            ProtoValue::F64(x) => ProtoView::F64(*x),
            ProtoValue::Str(s) => ProtoView::Str(s@),
            ProtoValue::Bytes(b) => ProtoView::Bytes(b@),
            ProtoValue::EnumNumber(n) => ProtoView::EnumNumber(*n),
            ProtoValue::Message(m) => ProtoView::Message(
                m.descriptor,
                Seq::new(
                    m.fields@.len(),
                    |i: int|
                        if 0 <= i < m.fields@.len() {
                            match m.fields@[i] {
                                Some(v) => Some(v.view()),
                                None => None,
                            }
                        } else {
                            None
                        },
                ),
            ),
            ProtoValue::List(v) => ProtoView::List(
                Seq::new(v@.len(), |i: int| if 0 <= i < v@.len() { v@[i].view() } else { ProtoView::Bool(false) }),
            ),
            ProtoValue::MapEntries(v) => ProtoView::MapEntries(
                Seq::new(
                    v@.len(),
                    |i: int|
                        if 0 <= i < v@.len() {
                            (v@[i].0@, v@[i].1.view())
                        } else {
                            (MapKeyV::Bool(false), ProtoView::Bool(false))
                        },
                ),
            ),
        }
    }
}

/// Model of a conversion's result.
pub open spec fn result_view<E>(r: Result<ProtoValue, E>) -> Result<ProtoView, E> {
    match r {
        Ok(v) => Ok(v@),
        Err(e) => Err(e),
    }
}

impl DynamicMessage {
    pub open spec fn view(&self) -> ProtoView {
        ProtoValue::Message(*self).view()
    }
}

} // verus!
