//! The binding environment: named, typed, mutable values. Turtles are just bindings whose value
//! is a `Schildpad` handle. Names are case-insensitive: a binding is found by the lowercase
//! form of its name.

use vstd::prelude::*;

use crate::text::{to_lowercase, unicode_lowercase};
use crate::value::Value;
use crate::vocab::Type;

verus! {

#[derive(Debug, Clone)]
pub struct Binding {
    pub ty: Type,
    pub value: Value,
    /// the display name as the child wrote it
    pub name: String,
}

/// The key a name is stored and found under.
pub open spec fn key_of(name: Seq<char>) -> Seq<char> {
    unicode_lowercase(name)
}

/// The bindings of an entry list, keyed by their lowercase names.
pub open spec fn entries_map(es: Seq<(String, Binding)>) -> Map<Seq<char>, Binding>
    decreases es.len(),
{
    if es.len() == 0 {
        Map::empty()
    } else {
        entries_map(es.drop_last()).insert(es.last().0@, es.last().1)
    }
}

pub open spec fn distinct_keys(es: Seq<(String, Binding)>) -> bool {
    forall|i: int, j: int| 0 <= i < j < es.len() ==> #[trigger] es[i].0@ != #[trigger] es[j].0@
}

#[derive(Debug)]
pub struct Env {
    entries: Vec<(String, Binding)>,
}

impl View for Env {
    type V = Map<Seq<char>, Binding>;

    closed spec fn view(&self) -> Map<Seq<char>, Binding> {
        entries_map(self.entries@)
    }
}

proof fn lemma_entries_map_get(es: Seq<(String, Binding)>, k: Seq<char>)
    requires
        distinct_keys(es),
    ensures
        entries_map(es).contains_key(k) <==> exists|i: int| 0 <= i < es.len() && #[trigger] es[i].0@ == k,
        forall|i: int| 0 <= i < es.len() && #[trigger] es[i].0@ == k ==> entries_map(es)[k] == es[i].1,
    decreases es.len(),
{
    if es.len() > 0 {
        let init = es.drop_last();
        assert(distinct_keys(init));
        lemma_entries_map_get(init, k);
        if es.last().0@ != k {
            assert forall|i: int| 0 <= i < init.len() && #[trigger] init[i].0@ == k implies es[i].0@ == k by {}
            if exists|i: int| 0 <= i < es.len() && #[trigger] es[i].0@ == k {
                let i = choose|i: int| 0 <= i < es.len() && #[trigger] es[i].0@ == k;
                assert(init[i].0@ == k);
            }
        } else {
            assert forall|i: int| 0 <= i < es.len() && #[trigger] es[i].0@ == k implies i == es.len() - 1 by {
                if i < es.len() - 1 {
                    assert(es[i].0@ != es[es.len() - 1].0@);
                }
            }
        }
    }
}

proof fn lemma_entries_map_update(es: Seq<(String, Binding)>, i: int, e: (String, Binding))
    requires
        distinct_keys(es),
        0 <= i < es.len(),
        es[i].0@ == e.0@,
    ensures
        distinct_keys(es.update(i, e)),
        entries_map(es.update(i, e)) == entries_map(es).insert(e.0@, e.1),
    decreases es.len(),
{
    let es2 = es.update(i, e);
    assert(distinct_keys(es2)) by {
        assert forall|a: int, b: int| 0 <= a < b < es2.len() implies #[trigger] es2[a].0@ != #[trigger] es2[b].0@ by {
            assert(es2[a].0@ == es[a].0@);
            assert(es2[b].0@ == es[b].0@);
        }
    }
    if i == es.len() - 1 {
        assert(es2.drop_last() =~= es.drop_last());
        assert(entries_map(es2) =~= entries_map(es).insert(e.0@, e.1));
    } else {
        let init = es.drop_last();
        assert(distinct_keys(init));
        lemma_entries_map_update(init, i, e);
        assert(es2.drop_last() =~= init.update(i, e));
        assert(es.last().0@ != e.0@);
        assert(entries_map(es2) =~= entries_map(es).insert(e.0@, e.1));
    }
}

impl Env {
    #[verifier::type_invariant]
    closed spec fn inv(self) -> bool {
        &&& distinct_keys(self.entries@)
        &&& forall|i: int| 0 <= i < self.entries@.len() ==> #[trigger] self.entries@[i].0@ == key_of(self.entries@[i].1.name@)
    }

    pub fn new() -> (e: Env)
        ensures
            e@ == Map::<Seq<char>, Binding>::empty(),
    {
        Env { entries: Vec::new() }
    }

    fn find(&self, key: &String) -> (r: Option<usize>)
        ensures
            match r {
                Some(i) => i < self.entries@.len() && self.entries@[i as int].0@ == key@,
                None => forall|i: int| 0 <= i < self.entries@.len() ==> #[trigger] self.entries@[i].0@ != key@,
            },
    {
        let mut i: usize = 0;
        while i < self.entries.len()
            invariant
                i <= self.entries@.len(),
                forall|j: int| 0 <= j < i ==> #[trigger] self.entries@[j].0@ != key@,
            decreases self.entries@.len() - i,
        {
            if self.entries[i].0 == *key {
                return Some(i);
            }
            i += 1;
        }
        None
    }

    /// The binding named `name` (in any letter case).
    pub fn get(&self, name: &str) -> (r: Option<&Binding>)
        ensures
            match r {
                Some(b) => self@.contains_key(key_of(name@)) && *b == self@[key_of(name@)],
                None => !self@.contains_key(key_of(name@)),
            },
    {
        proof {
            use_type_invariant(self);
        }
        let key = to_lowercase(name);
        let r = self.find(&key);
        proof {
            lemma_entries_map_get(self.entries@, key@);
        }
        match r {
            Some(i) => Some(&self.entries[i].1),
            None => None,
        }
    }

    pub fn has(&self, name: &str) -> (r: bool)
        ensures
            r == self@.contains_key(key_of(name@)),
    {
        self.get(name).is_some()
    }

    /// Bind (or rebind) `binding` under its own name.
    pub fn set(&mut self, binding: Binding)
        ensures
            final(self)@ == old(self)@.insert(key_of(binding.name@), binding),
    {
        proof {
            use_type_invariant(&*self);
        }
        let key = to_lowercase(binding.name.as_str());
        let r = self.find(&key);
        let ghost es = self.entries@;
        match r {
            Some(i) => {
                proof {
                    lemma_entries_map_update(es, i as int, (key, binding));
                }
                let mut v: Vec<(String, Binding)> = Vec::new();
                std::mem::swap(&mut v, &mut self.entries);
                v.set(i, (key, binding));
                self.entries = v;
                proof {
                    assert(self.entries@ == es.update(i as int, (key, binding)));
                    assert forall|j: int| 0 <= j < self.entries@.len() implies #[trigger] self.entries@[j].0@ == key_of(self.entries@[j].1.name@) by {
                        if j != i {
                            assert(self.entries@[j] == es[j]);
                        }
                    }
                }
            },
            None => {
                let mut v: Vec<(String, Binding)> = Vec::new();
                std::mem::swap(&mut v, &mut self.entries);
                v.push((key, binding));
                self.entries = v;
                proof {
                    assert(self.entries@.drop_last() =~= es);
                    assert forall|a: int, b: int| 0 <= a < b < self.entries@.len() implies #[trigger] self.entries@[a].0@ != #[trigger] self.entries@[b].0@ by {
                        if b == es.len() {
                            assert(es[a].0@ != key@);
                        } else {
                            assert(self.entries@[a] == es[a]);
                            assert(self.entries@[b] == es[b]);
                        }
                    }
                    assert forall|j: int| 0 <= j < self.entries@.len() implies #[trigger] self.entries@[j].0@ == key_of(self.entries@[j].1.name@) by {
                        if j < es.len() {
                            assert(self.entries@[j] == es[j]);
                        }
                    }
                }
            },
        }
    }

    pub fn clear(&mut self)
        ensures
            final(self)@ == Map::<Seq<char>, Binding>::empty(),
    {
        self.entries = Vec::new();
    }
}

/// Every turtle a value refers to has an id below `n`.
pub open spec fn value_refs_below(v: Value, n: nat) -> bool {
    match v {
        Value::Schildpad(id) => id < n,
        Value::Frame(f) => match f.filled.schildpad {
            Some(id) => id < n,
            None => true,
        },
        _ => true,
    }
}

/// Every turtle the environment refers to has an id below `n`.
pub open spec fn env_refs_below(m: Map<Seq<char>, Binding>, n: nat) -> bool {
    forall|k: Seq<char>| #[trigger] m.contains_key(k) ==> value_refs_below(m[k].value, n)
}

/// `v` refers only to turtles the environment already refers to.
pub open spec fn refs_from(m: Map<Seq<char>, Binding>, v: Value) -> bool {
    forall|n: nat| #[trigger] env_refs_below(m, n) ==> value_refs_below(v, n)
}

/// Reading a name right after binding it gives that binding; every other name is unaffected.
pub proof fn law_get_after_set(before: Map<Seq<char>, Binding>, b: Binding, name: Seq<char>)
    ensures
        key_of(name) == key_of(b.name@) ==> before.insert(key_of(b.name@), b)[key_of(name)] == b,
        key_of(name) != key_of(b.name@) ==> before.insert(key_of(b.name@), b).contains_key(key_of(name))
            == before.contains_key(key_of(name)),
        key_of(name) != key_of(b.name@) && before.contains_key(key_of(name))
            ==> before.insert(key_of(b.name@), b)[key_of(name)] == before[key_of(name)],
{
}

} // verus!
