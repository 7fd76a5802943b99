//! Environments: one lexical scope, from variable names to values.
use vstd::prelude::*;

use crate::object::{Object, ObjectView};

verus! {

broadcast use vstd::std_specs::vec::group_vec_axioms;

/// A scope: each name bound at most once.
#[derive(Debug)]
pub struct Environment {
    entries: Vec<(String, Object)>,
}

/// The map that a list of bindings with distinct names stands for.
pub open spec fn entries_map(s: Seq<(String, Object)>) -> Map<Seq<char>, ObjectView>
    decreases s,
{
    if s.len() == 0 {
        Map::empty()
    } else {
        entries_map(s.drop_last()).insert(s.last().0@, s.last().1@)
    }
}

pub open spec fn distinct_names(s: Seq<(String, Object)>) -> bool {
    forall|i: int, j: int| 0 <= i < j < s.len() ==> #[trigger] s[i].0@ != #[trigger] s[j].0@
}

proof fn lemma_absent(s: Seq<(String, Object)>, k: Seq<char>)
    ensures
        entries_map(s).contains_key(k) <==> exists|i: int| 0 <= i < s.len() && #[trigger] s[i].0@ == k,
    decreases s.len(),
{
    if s.len() > 0 {
        lemma_absent(s.drop_last(), k);
        if exists|i: int| 0 <= i < s.len() && #[trigger] s[i].0@ == k {
            let i = choose|i: int| 0 <= i < s.len() && #[trigger] s[i].0@ == k;
            if i < s.len() - 1 {
                assert(s.drop_last()[i].0@ == k);
            }
        }
        if entries_map(s.drop_last()).contains_key(k) {
            let i = choose|i: int| 0 <= i < s.drop_last().len() && #[trigger] s.drop_last()[i].0@ == k;
            assert(s[i].0@ == k);
        }
    }
}

proof fn lemma_lookup(s: Seq<(String, Object)>, i: int)
    requires
        distinct_names(s),
        0 <= i < s.len(),
    ensures
        entries_map(s).contains_key(s[i].0@),
        entries_map(s)[s[i].0@] == s[i].1@,
    decreases s.len(),
{
    if i < s.len() - 1 {
        assert(distinct_names(s.drop_last()));
        lemma_lookup(s.drop_last(), i);
        assert(s.drop_last()[i] == s[i]);
    }
}

proof fn lemma_update(s: Seq<(String, Object)>, i: int, key: String, v: Object)
    requires
        distinct_names(s),
        0 <= i < s.len(),
        key@ == s[i].0@,
    ensures
        entries_map(s.update(i, (key, v))) == entries_map(s).insert(key@, v@),
        distinct_names(s.update(i, (key, v))),
    decreases s.len(),
{
    let t = s.update(i, (key, v));
    if i == s.len() - 1 {
        assert(t.drop_last() =~= s.drop_last());
        assert(entries_map(t) =~= entries_map(s).insert(key@, v@));
    } else {
        assert(distinct_names(s.drop_last()));
        lemma_update(s.drop_last(), i, key, v);
        assert(t.drop_last() =~= s.drop_last().update(i, (key, v)));
        assert(s.last().0@ != s[i].0@);
        assert(entries_map(t) =~= entries_map(s).insert(key@, v@));
    }
}

impl Environment {
    /// The bindings of the scope.
    pub closed spec fn view(&self) -> Map<Seq<char>, ObjectView>
        decreases self,
    {
        entries_map(self.entries@)
    }

    /// Each name is bound at most once.
    pub closed spec fn wf(&self) -> bool {
        distinct_names(self.entries@)
    }

    pub fn new() -> (r: Self)
        ensures
            r.wf(),
            r.view() == Map::<Seq<char>, ObjectView>::empty(),
    {
        Environment { entries: Vec::new() }
    }

    fn find(&self, name: &String) -> (r: Option<usize>)
        requires
            self.wf(),
        ensures
            match r {
                Some(i) => i < self.entries@.len() && self.entries@[i as int].0@ == name@,
                None => !self.view().contains_key(name@),
            },
    {

        let mut i: usize = 0;
        while i < self.entries.len()
            invariant
                i <= self.entries@.len(),
                forall|k: int| 0 <= k < i ==> #[trigger] self.entries@[k].0@ != name@,
            decreases self.entries@.len() - i,
        {
            if self.entries[i].0 == *name {
                return Some(i);
            }
            i = i + 1;
        }
        proof {
            lemma_absent(self.entries@, name@);
        }
        None
    }

    /// A copy of every binding, each name bound once.
    pub fn copy(&self) -> (r: Self)
        ensures
            r.wf(),
            r.view() == self.view(),
        decreases self, 1nat,
    {
        let mut r = Environment::new();
        let mut i: usize = 0;
        while i < self.entries.len()
            invariant
                i <= self.entries@.len(),
                r.wf(),
                r.view() == entries_map(self.entries@.subrange(0, i as int)),
            decreases self.entries@.len() - i,
        {
            proof {
                assert(decreases_to!(*self => self.entries));
                assert(decreases_to!(self.entries => self.entries[i as int]));
                assert(decreases_to!(self.entries[i as int] => self.entries[i as int].1));
            }
            let v = self.entries[i].1.copy();
            r.insert(self.entries[i].0.clone(), v);
            proof {
                assert(self.entries@.subrange(0, i + 1).drop_last() =~= self.entries@.subrange(0, i as int));
            }
            i = i + 1;
        }
        assert(self.entries@.subrange(0, i as int) =~= self.entries@);
        r
    }

    /// Whether `name` is bound.
    pub fn contains(&self, name: &String) -> (r: bool)
        requires
            self.wf(),
        ensures
            r == self.view().contains_key(name@),
    {

        match self.find(name) {
            Some(i) => {
                proof {
                    lemma_lookup(self.entries@, i as int);
                }
                true
            },
            None => false,
        }
    }

    /// A copy of the value bound to `name`.
    pub fn get(&self, name: &String) -> (r: Option<Object>)
        requires
            self.wf(),
        ensures
            match r {
                Some(v) => self.view().contains_key(name@) && v@ == self.view()[name@],
                None => !self.view().contains_key(name@),
            },
    {

        match self.find(name) {
            Some(i) => {
                proof {
                    lemma_lookup(self.entries@, i as int);
                }
                Some(self.entries[i].1.copy())
            },
            None => None,
        }
    }

    /// Binds `name` to `value`, replacing any earlier binding.
    pub fn insert(&mut self, name: String, value: Object)
        requires
            old(self).wf(),
        ensures
            final(self).wf(),
            final(self).view() == old(self).view().insert(name@, value@),
    {

        match self.find(&name) {
            Some(i) => {
                proof {
                    lemma_update(self.entries@, i as int, name, value);
                }
                self.entries[i] = (name, value);
            },
            None => {
                proof {
                    lemma_absent(self.entries@, name@);
                }
                let ghost s = self.entries@;
                self.entries.push((name, value));
                assert(self.entries@.drop_last() =~= s);
                assert(forall|i: int| 0 <= i < s.len() ==> #[trigger] s[i].0@ != name@);
            },
        }
    }
}

impl Environment {
    /// The number of bindings.
    pub closed spec fn size(&self) -> nat {
        self.entries@.len()
    }

    /// The name of the `i`-th binding.
    pub closed spec fn key_at(&self, i: int) -> Seq<char> {
        self.entries@[i].0@
    }

    /// The value of the `i`-th binding.
    pub closed spec fn value_at(&self, i: int) -> ObjectView {
        self.entries@[i].1@
    }

    pub fn len(&self) -> (r: usize)
        ensures
            r == self.size(),
    {
        self.entries.len()
    }

    /// The `i`-th binding.
    pub fn entry(&self, i: usize) -> (r: (&String, &Object))
        requires
            self.wf(),
            i < self.size(),
        ensures
            r.0@ == self.key_at(i as int),
            r.1@ == self.value_at(i as int),
            self.view().contains_key(self.key_at(i as int)),
            self.view()[self.key_at(i as int)] == self.value_at(i as int),
    {
        proof {
            lemma_lookup(self.entries@, i as int);
        }
        (&self.entries[i].0, &self.entries[i].1)
    }

    pub proof fn lemma_key_has_entry(&self, k: Seq<char>)
        ensures
            self.view().contains_key(k) ==> exists|i: int| 0 <= i < self.size() && #[trigger] self.key_at(i) == k,
    {
        lemma_absent(self.entries@, k);
        if self.view().contains_key(k) {
            let i = choose|i: int| 0 <= i < self.entries@.len() && #[trigger] self.entries@[i].0@ == k;
            assert(self.key_at(i) == k);
        }
    }
}

} // verus!
