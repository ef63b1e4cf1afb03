//! Enum sources: the value names of each enum type met while decoding,
//! registered once under the enum's short name.
use vstd::prelude::*;

verus! {

/// The value names of one enum type, registered under its short name.
#[derive(Clone, Debug)]
pub struct EnumSource {
    pub name: String,
    pub values: Vec<String>,
}

/// The registered enum sources; no name is registered twice.
#[derive(Clone, Debug)]
pub struct EnumRegistry {
    pub sources: Vec<EnumSource>,
}

/// The characters of each name.
pub open spec fn names_view(v: Seq<String>) -> Seq<Seq<char>> {
    Seq::new(v.len(), |i: int| v[i]@)
}

impl EnumRegistry {
    /// No name is registered twice.
    pub open spec fn wf(&self) -> bool {
        forall|i: int, j: int| 0 <= i < j < self.sources@.len() ==> self.sources@[i].name@ != self.sources@[j].name@
    }

    /// Whether a source is registered under `name`.
    pub open spec fn has(&self, name: Seq<char>) -> bool {
        exists|i: int| 0 <= i < self.sources@.len() && self.sources@[i].name@ == name
    }

    /// The value names registered under `name`, if any.
    pub open spec fn binding(&self, name: Seq<char>) -> Option<Seq<Seq<char>>> {
        if self.has(name) {
            let i = choose|i: int| 0 <= i < self.sources@.len() && self.sources@[i].name@ == name;
            Some(names_view(self.sources@[i].values@))
        } else {
            None
        }
    }

    /// What registering `values` under `name` makes of `before`: nothing
    /// changes when `name` is already registered; otherwise the source is
    /// added and every other binding stays.
    pub open spec fn registered(before: EnumRegistry, name: Seq<char>, values: Seq<Seq<char>>, after: EnumRegistry) -> bool {
        &&& before.has(name) ==> after.sources@ == before.sources@
        &&& after.binding(name) == if before.has(name) {
            before.binding(name)
        } else {
            Some(values)
        }
        &&& before.kept_in(&after)
        &&& after.wf()
        &&& forall|n: Seq<char>| n != name ==> (#[trigger] after.has(n) <==> before.has(n))
    }

    /// Every binding of `self` stands unchanged in `other`.
    pub open spec fn kept_in(&self, other: &EnumRegistry) -> bool {
        forall|name: Seq<char>| #[trigger] self.has(name) ==> other.binding(name) == self.binding(name)
    }

    /// An empty registry.
    pub fn new() -> (r: EnumRegistry)
        ensures
            r.wf(),
            r.sources@.len() == 0,
    {
        EnumRegistry { sources: Vec::new() }
    }

    /// Finds the index of the source registered under `name`.
    pub fn find(&self, name: &String) -> (r: Option<usize>)
        ensures
            r is None <==> !self.has(name@),
            r matches Some(i) ==> i < self.sources@.len() && self.sources@[i as int].name@ == name@,
    {
        let mut i: usize = 0;
        while i < self.sources.len()
            invariant
                i <= self.sources@.len(),
                forall|k: int| 0 <= k < i ==> self.sources@[k].name@ != name@,
            decreases self.sources@.len() - i,
        {
            if self.sources[i].name == *name {
                return Some(i);
            }
            i = i + 1;
        }
        None
    }

    /// The value names registered under `name`, if any.
    pub fn lookup(&self, name: &String) -> (r: Option<&Vec<String>>)
        requires
            self.wf(),
        ensures
            r is None <==> !self.has(name@),
            r matches Some(v) ==> self.binding(name@) == Some(names_view(v@)),
    {
        match self.find(name) {
            Some(i) => {
                proof {
                    let j = choose|j: int| 0 <= j < self.sources@.len() && self.sources@[j].name@ == name@;
                    assert(j == i as int);
                }
                Some(&self.sources[i].values)
            },
            None => None,
        }
    }

    /// Registers `values` under `name`, unless a source is already registered
    /// there, in which case nothing changes.
    pub fn register(&mut self, name: &String, values: Vec<String>)
        requires
            old(self).wf(),
        ensures
            final(self).wf(),
            old(self).has(name@) ==> final(self).sources@ == old(self).sources@,
            !old(self).has(name@) ==> final(self).sources@.len() == old(self).sources@.len() + 1
                && final(self).sources@.drop_last() == old(self).sources@
                && final(self).sources@.last().name@ == name@
                && final(self).sources@.last().values@ == values@,
            final(self).has(name@),
            final(self).binding(name@) == if old(self).has(name@) {
                old(self).binding(name@)
            } else {
                Some(names_view(values@))
            },
            old(self).kept_in(&*final(self)),
            EnumRegistry::registered(*old(self), name@, names_view(values@), *final(self)),
    {
        if self.find(name).is_none() {
            let ghost before = self.sources@;
            self.sources.push(EnumSource { name: name.clone(), values });
            proof {
                assert(self.sources@.drop_last() =~= before);
                let last = self.sources@.len() - 1;
                assert(self.sources@[last].name@ == name@);
                let j = choose|j: int| 0 <= j < self.sources@.len() && self.sources@[j].name@ == name@;
                if j < last {
                    assert(before[j] == self.sources@[j]);
                }
                assert forall|n: Seq<char>| n != name@ implies (#[trigger] self.has(n) <==> old(self).has(n)) by {
                    if self.has(n) {
                        let k = choose|k: int| 0 <= k < self.sources@.len() && self.sources@[k].name@ == n;
                        assert(k != last);
                        assert(before[k] == self.sources@[k]);
                    }
                    if old(self).has(n) {
                        let k = choose|k: int| 0 <= k < before.len() && before[k].name@ == n;
                        assert(self.sources@[k] == before[k]);
                    }
                }
                assert forall|n: Seq<char>| #[trigger] old(self).has(n) implies self.binding(n) == old(self).binding(n) by {
                    let k = choose|k: int| 0 <= k < before.len() && before[k].name@ == n;
                    assert(self.sources@[k] == before[k]);
                    let j2 = choose|j2: int| 0 <= j2 < self.sources@.len() && self.sources@[j2].name@ == n;
                    if j2 == last {
                        assert(n == name@);
                    } else {
                        assert(self.sources@[j2] == before[j2]);
                    }
                }
            }
        }
    }
}

/// A registry that keeps the bindings of `a` keeps those of any registry
/// whose bindings `a` kept.
pub proof fn lemma_kept_trans(a: EnumRegistry, b: EnumRegistry, c: EnumRegistry)
    requires
        a.kept_in(&b),
        b.kept_in(&c),
    ensures
        a.kept_in(&c),
{
    assert forall|name: Seq<char>| #[trigger] a.has(name) implies c.binding(name) == a.binding(name) by {
        assert(b.binding(name) == a.binding(name));
        assert(b.has(name));
    }
}

/// Every registry keeps its own bindings.
pub proof fn lemma_kept_refl(a: EnumRegistry)
    ensures
        a.kept_in(&a),
{
}

} // verus!
