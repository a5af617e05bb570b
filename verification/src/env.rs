//! Environments: the named variables of one lexical scope.

use vstd::prelude::*;
use crate::value::Value;

verus! {

/// One variable of an environment.
#[derive(Debug)]
struct Binding {
    name: String,
    value: Value,
}

/// The map that a list of bindings stands for; where a name occurs more
/// than once, its first binding counts.
spec fn bound(entries: Seq<Binding>) -> Map<Seq<char>, Value>
    decreases entries.len(),
{
    if entries.len() == 0 {
        Map::empty()
    } else {
        bound(entries.drop_first()).insert(entries[0].name@, entries[0].value)
    }
}

/// No binding of `entries` before position `n` is named `key`.
spec fn unnamed_before(entries: Seq<Binding>, key: Seq<char>, n: int) -> bool {
    forall|j: int| 0 <= j < n ==> (#[trigger] entries[j]).name@ != key
}

proof fn lemma_bound_finite(entries: Seq<Binding>)
    ensures
        bound(entries).dom().finite(),
    decreases entries.len(),
{
    if entries.len() > 0 {
        lemma_bound_finite(entries.drop_first());
    }
}

proof fn lemma_bound_absent(entries: Seq<Binding>, key: Seq<char>)
    requires
        unnamed_before(entries, key, entries.len() as int),
    ensures
        !bound(entries).contains_key(key),
    decreases entries.len(),
{
    if entries.len() > 0 {
        let rest = entries.drop_first();
        assert(entries[0].name@ != key);
        assert forall|j: int| 0 <= j < rest.len() implies (#[trigger] rest[j]).name@ != key by {
            assert(rest[j] == entries[j + 1]);
        }
        lemma_bound_absent(rest, key);
    }
}

proof fn lemma_bound_first(entries: Seq<Binding>, key: Seq<char>, i: int)
    requires
        0 <= i < entries.len(),
        entries[i].name@ == key,
        unnamed_before(entries, key, i),
    ensures
        bound(entries).contains_key(key),
        bound(entries)[key] == entries[i].value,
    decreases entries.len(),
{
    if i > 0 {
        let rest = entries.drop_first();
        assert(entries[0].name@ != key);
        assert(rest[i - 1] == entries[i]);
        assert forall|j: int| 0 <= j < i - 1 implies (#[trigger] rest[j]).name@ != key by {
            assert(rest[j] == entries[j + 1]);
        }
        lemma_bound_first(rest, key, i - 1);
    }
}

proof fn lemma_bound_update(entries: Seq<Binding>, i: int, b: Binding)
    requires
        0 <= i < entries.len(),
        entries[i].name@ == b.name@,
        unnamed_before(entries, b.name@, i),
    ensures
        bound(entries.update(i, b)) == bound(entries).insert(b.name@, b.value),
    decreases entries.len(),
{
    let rest = entries.drop_first();
    if i == 0 {
        assert(entries.update(0, b).drop_first() =~= rest);
        assert(bound(rest).insert(entries[0].name@, entries[0].value).insert(b.name@, b.value)
            =~= bound(rest).insert(b.name@, b.value));
    } else {
        assert(entries[0].name@ != b.name@);
        assert forall|j: int| 0 <= j < i - 1 implies (#[trigger] rest[j]).name@ != b.name@ by {
            assert(rest[j] == entries[j + 1]);
        }
        assert(rest[i - 1] == entries[i]);
        lemma_bound_update(rest, i - 1, b);
        assert(entries.update(i, b).drop_first() =~= rest.update(i - 1, b));
        assert(bound(rest).insert(b.name@, b.value).insert(entries[0].name@, entries[0].value)
            =~= bound(rest).insert(entries[0].name@, entries[0].value).insert(b.name@, b.value));
    }
}

proof fn lemma_bound_push(entries: Seq<Binding>, b: Binding)
    requires
        unnamed_before(entries, b.name@, entries.len() as int),
    ensures
        bound(entries.push(b)) == bound(entries).insert(b.name@, b.value),
    decreases entries.len(),
{
    if entries.len() == 0 {
        assert(entries.push(b).drop_first() =~= Seq::<Binding>::empty());
        assert(bound(Seq::<Binding>::empty()) =~= Map::<Seq<char>, Value>::empty());
        assert(bound(entries) =~= Map::<Seq<char>, Value>::empty());
    } else {
        let rest = entries.drop_first();
        assert(entries[0].name@ != b.name@);
        assert forall|j: int| 0 <= j < rest.len() implies (#[trigger] rest[j]).name@ != b.name@ by {
            assert(rest[j] == entries[j + 1]);
        }
        lemma_bound_push(rest, b);
        assert(entries.push(b).drop_first() =~= rest.push(b));
        assert(bound(rest).insert(b.name@, b.value).insert(entries[0].name@, entries[0].value)
            =~= bound(rest).insert(entries[0].name@, entries[0].value).insert(b.name@, b.value));
    }
}

/// The variables of one scope, from name to value.
#[derive(Debug)]
pub struct Env {
    entries: Vec<Binding>,
}

impl View for Env {
    type V = Map<Seq<char>, Value>;

    closed spec fn view(&self) -> Map<Seq<char>, Value> {
        bound(self.entries@)
    }
}

impl Env {
    /// An environment that binds no name.
    pub fn new() -> (r: Env)
        ensures
            r@ == Map::<Seq<char>, Value>::empty(),
    {
        Env { entries: Vec::new() }
    }

    /// An environment binds finitely many names.
    pub proof fn lemma_finite(&self)
        ensures
            self@.dom().finite(),
    {
        lemma_bound_finite(self.entries@);
    }

    /// The position of the first binding named `key`.
    fn position(&self, key: &String) -> (r: Option<usize>)
        ensures
            match r {
                Some(i) => i < self.entries@.len() && self.entries@[i as int].name@ == key@
                    && unnamed_before(self.entries@, key@, i as int),
                None => unnamed_before(self.entries@, key@, self.entries@.len() as int),
            },
    {
        let mut i: usize = 0;
        while i < self.entries.len()
            invariant
                i <= self.entries.len(),
                unnamed_before(self.entries@, key@, i as int),
            decreases self.entries.len() - i,
        {
            if self.entries[i].name == *key {
                return Some(i);
            }
            i += 1;
        }
        None
    }

    /// The value that `key` is bound to, if it is bound.
    pub fn get(&self, key: &String) -> (r: Option<Value>)
        ensures
            r == (if self@.contains_key(key@) {
                Some(self@[key@])
            } else {
                None
            }),
    {
        match self.position(key) {
            Some(i) => {
                proof {
                    lemma_bound_first(self.entries@, key@, i as int);
                }
                Some(self.entries[i].value.clone())
            },
            None => {
                proof {
                    lemma_bound_absent(self.entries@, key@);
                }
                None
            },
        }
    }

    /// Binds `name` to `value`, in place of what it was bound to, and
    /// returns the value that it was bound to before, if it was bound.
    pub fn bind(&mut self, name: String, value: Value) -> (r: Option<Value>)
        ensures
            final(self)@ == old(self)@.insert(name@, value),
            r == (if old(self)@.contains_key(name@) {
                Some(old(self)@[name@])
            } else {
                None
            }),
    {
        match self.position(&name) {
            Some(i) => {
                let previous = self.entries[i].value.clone();
                let b = Binding { name, value };
                proof {
                    lemma_bound_first(self.entries@, name@, i as int);
                    lemma_bound_update(self.entries@, i as int, b);
                }
                self.entries.set(i, b);
                Some(previous)
            },
            None => {
                let b = Binding { name, value };
                proof {
                    lemma_bound_absent(self.entries@, name@);
                    lemma_bound_push(self.entries@, b);
                }
                self.entries.push(b);
                None
            },
        }
    }
}

impl Clone for Env {
    fn clone(&self) -> (r: Self)
        ensures
            r@ == self@,
    {
        let mut entries: Vec<Binding> = Vec::new();
        let mut i: usize = 0;
        while i < self.entries.len()
            invariant
                i <= self.entries.len(),
                entries@ == self.entries@.take(i as int),
            decreases self.entries.len() - i,
        {
            let b = Binding {
                name: self.entries[i].name.clone(),
                value: self.entries[i].value.clone(),
            };
            entries.push(b);
            assert(self.entries@.take(i + 1) =~= self.entries@.take(i as int).push(
                self.entries@[i as int],
            ));
            i += 1;
        }
        assert(self.entries@.take(self.entries.len() as int) =~= self.entries@);
        Env { entries }
    }
}

} // verus!
