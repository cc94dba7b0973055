//! The variable environment: a finite map from names to values.
use vstd::prelude::*;
use crate::token::Real;

verus! {

/// The value bound to `k` by the first entry that names it.
pub open spec fn find(entries: Seq<(Seq<char>, Real)>, k: Seq<char>) -> Option<Real>
    decreases entries.len(),
{
    if entries.len() == 0 {
        None
    } else if entries[0].0 == k {
        Some(entries[0].1)
    } else {
        find(entries.drop_first(), k)
    }
}

/// Read-only bindings of variable names to values, supplied per evaluation.
#[derive(Debug, Clone)]
pub struct Environment {
    entries: Vec<(String, Real)>,
}

impl Environment {
    pub closed spec fn entries_model(&self) -> Seq<(Seq<char>, Real)> {
        self.entries@.map_values(|e: (String, Real)| (e.0@, e.1))
    }
}

impl View for Environment {
    type V = Map<Seq<char>, Real>;

    closed spec fn view(&self) -> Map<Seq<char>, Real> {
        Map::new(
            |k: Seq<char>| find(self.entries_model(), k) is Some,
            |k: Seq<char>| find(self.entries_model(), k)->Some_0,
        )
    }
}

proof fn lemma_find_skip(entries: Seq<(Seq<char>, Real)>, k: Seq<char>, i: int)
    requires
        0 <= i <= entries.len(),
        forall|j: int| 0 <= j < i ==> entries[j].0 != k,
    ensures
        find(entries, k) == find(entries.subrange(i, entries.len() as int), k),
    decreases i,
{
    if i > 0 {
        let rest = entries.drop_first();
        assert forall|j: int| 0 <= j < i - 1 implies rest[j].0 != k by {
            assert(rest[j] == entries[j + 1]);
        }
        lemma_find_skip(rest, k, i - 1);
        assert(rest.subrange(i - 1, rest.len() as int) =~= entries.subrange(i, entries.len() as int));
    } else {
        assert(entries.subrange(0, entries.len() as int) =~= entries);
    }
}

proof fn lemma_find_found(entries: Seq<(Seq<char>, Real)>, k: Seq<char>, i: int)
    requires
        0 <= i < entries.len(),
        forall|j: int| 0 <= j < i ==> entries[j].0 != k,
        entries[i].0 == k,
    ensures
        find(entries, k) == Some(entries[i].1),
{
    lemma_find_skip(entries, k, i);
    let rest = entries.subrange(i, entries.len() as int);
    assert(rest[0] == entries[i]);
}

proof fn lemma_find_absent(entries: Seq<(Seq<char>, Real)>, k: Seq<char>)
    requires
        forall|j: int| 0 <= j < entries.len() ==> entries[j].0 != k,
    ensures
        find(entries, k) is None,
{
    lemma_find_skip(entries, k, entries.len() as int);
}

proof fn lemma_find_update(entries: Seq<(Seq<char>, Real)>, k: Seq<char>, q: Seq<char>, i: int, v: Real)
    requires
        0 <= i < entries.len(),
        forall|j: int| 0 <= j < i ==> entries[j].0 != k,
        entries[i].0 == k,
    ensures
        find(entries.update(i, (k, v)), q) == if q == k { Some(v) } else { find(entries, q) },
    decreases i,
{
    if i == 0 {
        assert(entries.update(i, (k, v)).drop_first() =~= entries.drop_first());
    } else {
        let rest = entries.drop_first();
        assert forall|j: int| 0 <= j < i - 1 implies rest[j].0 != k by {
            assert(rest[j] == entries[j + 1]);
        }
        lemma_find_update(rest, k, q, i - 1, v);
        assert(entries.update(i, (k, v)).drop_first() =~= rest.update(i - 1, (k, v)));
    }
}

proof fn lemma_find_push(entries: Seq<(Seq<char>, Real)>, k: Seq<char>, q: Seq<char>, v: Real)
    requires
        find(entries, k) is None,
    ensures
        find(entries.push((k, v)), q) == if q == k { Some(v) } else { find(entries, q) },
    decreases entries.len(),
{
    if entries.len() == 0 {
        assert(entries.push((k, v)).drop_first() =~= Seq::<(Seq<char>, Real)>::empty());
    } else {
        assert(entries.push((k, v)).drop_first() =~= entries.drop_first().push((k, v)));
        lemma_find_push(entries.drop_first(), k, q, v);
    }
}

impl Environment {
    pub fn new() -> (r: Environment)
        ensures
            r@ == Map::<Seq<char>, Real>::empty(),
    {
        let r = Environment { entries: Vec::new() };
        assert(r.entries_model() =~= Seq::<(Seq<char>, Real)>::empty());
        assert(r@ =~= Map::<Seq<char>, Real>::empty());
        r
    }

    /// Binds `name` to `value`, replacing an earlier binding of that name.
    pub fn set(&mut self, name: String, value: Real)
        ensures
            final(self)@ == old(self)@.insert(name@, value),
    {
        let ghost before = self.entries_model();
        let mut i: usize = 0;
        while i < self.entries.len()
            invariant
                i <= self.entries.len(),
                before == self.entries_model(),
                before == old(self).entries_model(),
                forall|j: int| 0 <= j < i ==> before[j].0 != name@,
            decreases self.entries.len() - i,
        {
            if self.entries[i].0 == name {
                proof {
                    assert(before[i as int].0 == name@);
                }
                self.entries.set(i, (name, value));
                proof {
                    assert(self.entries_model() =~= before.update(i as int, (name@, value)));
                    assert forall|q: Seq<char>| #[trigger] find(self.entries_model(), q)
                        == if q == name@ { Some(value) } else { find(before, q) } by {
                        lemma_find_update(before, name@, q, i as int, value);
                    }
                    assert forall|q: Seq<char>| #[trigger] self@.contains_key(q) == old(self)@.insert(name@, value).contains_key(q) by {
                        assert(find(self.entries_model(), q) == if q == name@ { Some(value) } else { find(before, q) });
                    }
                    assert(self@ =~= old(self)@.insert(name@, value));
                }
                return;
            }
            i += 1;
        }
        proof {
            lemma_find_absent(before, name@);
        }
        self.entries.push((name, value));
        proof {
            assert(self.entries_model() =~= before.push((name@, value)));
            assert forall|q: Seq<char>| #[trigger] find(self.entries_model(), q)
                == if q == name@ { Some(value) } else { find(before, q) } by {
                lemma_find_push(before, name@, q, value);
            }
            assert(self@ =~= old(self)@.insert(name@, value));
        }
    }

    /// The value bound to `name`, if any.
    pub fn get(&self, name: &String) -> (r: Option<Real>)
        ensures
            r == (if self@.contains_key(name@) { Some(self@[name@]) } else { None::<Real> }),
    {
        let ghost m = self.entries_model();
        let mut i: usize = 0;
        while i < self.entries.len()
            invariant
                i <= self.entries.len(),
                m == self.entries_model(),
                forall|j: int| 0 <= j < i ==> m[j].0 != name@,
            decreases self.entries.len() - i,
        {
            if self.entries[i].0 == *name {
                proof {
                    lemma_find_found(m, name@, i as int);
                }
                return Some(self.entries[i].1);
            }
            i += 1;
        }
        proof {
            lemma_find_absent(m, name@);
        }
        None
    }

    pub fn contains(&self, name: &String) -> (r: bool)
        ensures
            r == self@.contains_key(name@),
    {
        self.get(name).is_some()
    }
}

} // verus!
