//! The list of a decoded message's values: kept as a simple list while every
//! value is an atom of one kind, widened to a compound list at the first value
//! that disagrees.
use vstd::prelude::*;
use crate::native::{Atom, AtomV, QValue, QView, atoms_view};

verus! {

/// The models of a sequence of values.
pub open spec fn values_view(v: Seq<QValue>) -> Seq<QView> {
    Seq::new(v.len(), |i: int| v[i]@)
}

/// The atom inside a value (meaningful only for atoms).
pub open spec fn atom_of(q: QView) -> AtomV {
    match q {
        QView::Atom(a) => a,
        _ => AtomV::Bool(false),
    }
}

/// A non-empty sequence of atoms that can all share one simple list.
pub open spec fn uniform(s: Seq<QView>) -> bool {
    &&& s.len() > 0
    &&& forall|i: int| 0 <= i < s.len() ==> (#[trigger] s[i] is Atom && atom_of(s[i]).same_class(atom_of(s[0])))
}

/// The list that holds the values `s` in order: a simple list of their kind
/// when they are uniform atoms, a compound list otherwise.
pub open spec fn widened(s: Seq<QView>) -> QView {
    if uniform(s) {
        QView::List(atom_of(s[0]).kind(), Seq::new(s.len(), |i: int| atom_of(s[i])))
    } else {
        QView::Compound(s)
    }
}

/// The state of the accumulator.
pub enum ListState {
    /// Nothing accumulated yet.
    Unset,
    /// Atoms of one class.
    Simple(Vec<Atom>),
    /// Values of any type.
    Compound(Vec<QValue>),
}

/// Accumulates the values of a decoded message in field order.
pub struct WideningList {
    pub state: ListState,
    /// The values pushed so far.
    pub elements: Ghost<Seq<QView>>,
}

/// The model of a compound list built from `v`.
pub proof fn lemma_compound_view(v: Vec<QValue>)
    ensures
        QValue::Compound(v)@ == QView::Compound(values_view(v@)),
{
    assert(QValue::Compound(v)@->Compound_0 =~= values_view(v@));
}

impl WideningList {
    pub open spec fn wf(&self) -> bool {
        let s = self.elements@;
        match self.state {
            ListState::Unset => s.len() == 0,
            ListState::Simple(atoms) => uniform(s) && atoms_view(atoms@) == Seq::new(s.len(), |i: int| atom_of(s[i])),
            ListState::Compound(vals) => s.len() > 0 && !uniform(s) && values_view(vals@) == s,
        }
    }

    /// An empty accumulator.
    pub fn new() -> (r: WideningList)
        ensures
            r.wf(),
            r.elements@ == Seq::<QView>::empty(),
    {
        WideningList { state: ListState::Unset, elements: Ghost(Seq::empty()) }
    }

    /// Appends a value: it joins the simple list if it is an atom of the same
    /// class, and otherwise turns the list compound for good.
    pub fn push(self, v: QValue) -> (r: WideningList)
        requires
            self.wf(),
        ensures
            r.wf(),
            r.elements@ == self.elements@.push(v@),
    {
        let ghost s = self.elements@;
        let ghost t = s.push(v@);
        match self.state {
            ListState::Unset => {
                match v {
                    QValue::Atom(a) => {
                        let mut atoms: Vec<Atom> = Vec::new();
                        atoms.push(a);
                        let r = WideningList { state: ListState::Simple(atoms), elements: Ghost(t) };
                        assert(atoms_view(atoms@) =~= Seq::new(t.len(), |i: int| atom_of(t[i])));
                        r
                    },
                    v => {
                        let mut vals: Vec<QValue> = Vec::new();
                        vals.push(v);
                        assert(values_view(vals@) =~= t);
                        WideningList { state: ListState::Compound(vals), elements: Ghost(t) }
                    },
                }
            },
            ListState::Simple(mut atoms) => {
                assert(atoms_view(atoms@).len() == s.len());
                assert(atoms@.len() > 0);
                let joins = match &v {
                    QValue::Atom(a) => a.same_class(&atoms[0]),
                    _ => false,
                };
                if joins {
                    match v {
                        QValue::Atom(a) => {
                            let ghost before = atoms@;
                            atoms.push(a);
                            assert forall|i: int| 0 <= i < t.len() implies atoms_view(atoms@)[i] == atom_of(t[i]) by {
                                if i < s.len() {
                                    assert(atoms@[i] == before[i]);
                                    assert(atoms_view(before)[i] == atom_of(s[i]));
                                }
                            }
                            assert(atoms_view(atoms@) =~= Seq::new(t.len(), |i: int| atom_of(t[i])));
                            assert forall|i: int| 0 <= i < t.len() implies (#[trigger] t[i] is Atom && atom_of(
                                t[i],
                            ).same_class(atom_of(t[0]))) by {
                                if i < s.len() {
                                    assert(t[i] == s[i]);
                                }
                            }
                            WideningList { state: ListState::Simple(atoms), elements: Ghost(t) }
                        },
                        _ => {
                            proof {
                                assert(false);
                            }
                            WideningList { state: ListState::Unset, elements: Ghost(t) }
                        },
                    }
                } else {
                    assert(!uniform(t)) by {
                        if uniform(t) {
                            assert(t[t.len() - 1] == v@);
                            assert(t[0] == s[0]);
                            assert(atoms_view(atoms@)[0] == atom_of(s[0]));
                        }
                    }
                    let mut vals: Vec<QValue> = Vec::new();
                    let mut i: usize = 0;
                    while i < atoms.len()
                        invariant
                            i <= atoms@.len(),
                            vals@.len() == i,
                            atoms_view(atoms@) == Seq::new(s.len(), |k: int| atom_of(s[k])),
                            uniform(s),
                            s.len() == atoms@.len(),
                            forall|k: int| 0 <= k < i ==> (#[trigger] vals@[k])@ == s[k],
                        decreases atoms@.len() - i,
                    {
                        proof {
                            assert(atoms_view(atoms@)[i as int] == atom_of(s[i as int]));
                            assert(s[i as int] is Atom);
                        }
                        vals.push(QValue::Atom(atoms[i].copy()));
                        i = i + 1;
                    }
                    vals.push(v);
                    assert(values_view(vals@) =~= t);
                    WideningList { state: ListState::Compound(vals), elements: Ghost(t) }
                }
            },
            ListState::Compound(mut vals) => {
                vals.push(v);
                assert(values_view(vals@) =~= t);
                assert(!uniform(t)) by {
                    if uniform(t) {
                        assert forall|i: int| 0 <= i < s.len() implies (#[trigger] s[i] is Atom && atom_of(
                            s[i],
                        ).same_class(atom_of(s[0]))) by {
                            assert(s[i] == t[i]);
                        }
                    }
                }
                WideningList { state: ListState::Compound(vals), elements: Ghost(t) }
            },
        }
    }

    /// The accumulated list. Nothing accumulated gives an empty compound list.
    pub fn finish(self) -> (r: QValue)
        requires
            self.wf(),
        ensures
            r@ == widened(self.elements@),
    {
        let ghost s = self.elements@;
        match self.state {
            ListState::Unset => {
                let vals: Vec<QValue> = Vec::new();
                proof {
                    lemma_compound_view(vals);
                    assert(values_view(vals@) =~= s);
                    assert(!uniform(s));
                }
                QValue::Compound(vals)
            },
            ListState::Simple(atoms) => {
                assert(atoms_view(atoms@).len() == s.len());
                let k = atoms[0].kind();
                proof {
                    assert(atoms_view(atoms@)[0] == atom_of(s[0]));
                }
                QValue::List(k, atoms)
            },
            ListState::Compound(vals) => {
                proof {
                    lemma_compound_view(vals);
                }
                QValue::Compound(vals)
            },
        }
    }
}

} // verus!
