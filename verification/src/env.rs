//! A table from names to atoms that keeps its entries in the order their
//! names were first added.
use vstd::prelude::*;

use crate::atom::{AtomModel, AtomRef};
use crate::text::str_eq;

verus! {

/// The map that a list of entries with distinct keys stands for.
pub open spec fn entries_map(s: Seq<(Seq<char>, AtomModel)>) -> Map<Seq<char>, AtomModel>
    decreases s.len(),
{
    if s.len() == 0 {
        Map::empty()
    } else {
        entries_map(s.drop_last()).insert(s.last().0, s.last().1)
    }
}

pub open spec fn keys_distinct(s: Seq<(Seq<char>, AtomModel)>) -> bool {
    forall|i: int, j: int| 0 <= i < j < s.len() ==> s[i].0 != s[j].0
}

pub proof fn lemma_entries_map(s: Seq<(Seq<char>, AtomModel)>, k: Seq<char>)
    requires
        keys_distinct(s),
    ensures
        entries_map(s).contains_key(k) <==> exists|i: int| 0 <= i < s.len() && s[i].0 == k,
        forall|i: int| 0 <= i < s.len() && s[i].0 == k ==> entries_map(s)[k] == s[i].1,
    decreases s.len(),
{
    if s.len() > 0 {
        let t = s.drop_last();
        assert(keys_distinct(t));
        lemma_entries_map(t, k);
        if s.last().0 != k {
            assert forall|i: int| 0 <= i < s.len() && s[i].0 == k implies 0 <= i < t.len() && t[i].0 == k by {}
            if exists|i: int| 0 <= i < s.len() && s[i].0 == k {
                let i = choose|i: int| 0 <= i < s.len() && s[i].0 == k;
                assert(t[i].0 == k);
            }
        } else {
            assert(forall|i: int| 0 <= i < t.len() ==> t[i].0 != k);
            assert(s[s.len() - 1].0 == k);
        }
    }
}

proof fn lemma_entries_map_update(s: Seq<(Seq<char>, AtomModel)>, i: int, v: AtomModel)
    requires
        keys_distinct(s),
        0 <= i < s.len(),
    ensures
        keys_distinct(s.update(i, (s[i].0, v))),
        entries_map(s.update(i, (s[i].0, v))) == entries_map(s).insert(s[i].0, v),
{
    let u = s.update(i, (s[i].0, v));
    assert forall|k: Seq<char>| #![auto] entries_map(u).contains_key(k) <==> entries_map(s).insert(s[i].0, v).contains_key(k) by {
        lemma_entries_map(s, k);
        lemma_entries_map(u, k);
        if exists|j: int| 0 <= j < s.len() && s[j].0 == k {
            let j = choose|j: int| 0 <= j < s.len() && s[j].0 == k;
            assert(u[j].0 == k);
        }
        if exists|j: int| 0 <= j < u.len() && u[j].0 == k {
            let j = choose|j: int| 0 <= j < u.len() && u[j].0 == k;
            assert(s[j].0 == k);
        }
    }
    assert forall|k: Seq<char>| #[trigger] entries_map(u).contains_key(k) implies entries_map(u)[k] == entries_map(s).insert(s[i].0, v)[k] by {
        lemma_entries_map(s, k);
        lemma_entries_map(u, k);
        let j = choose|j: int| 0 <= j < u.len() && u[j].0 == k;
        if j != i {
            assert(s[j].0 == k);
        }
    }
    assert(entries_map(u) =~= entries_map(s).insert(s[i].0, v));
}

proof fn lemma_entries_map_push(s: Seq<(Seq<char>, AtomModel)>, k: Seq<char>, v: AtomModel)
    requires
        keys_distinct(s),
        forall|i: int| 0 <= i < s.len() ==> s[i].0 != k,
    ensures
        keys_distinct(s.push((k, v))),
        entries_map(s.push((k, v))) == entries_map(s).insert(k, v),
{
    assert(s.push((k, v)).drop_last() =~= s);
}

pub open spec fn entry_view(p: (String, AtomRef)) -> (Seq<char>, AtomModel) {
    (p.0@, p.1@)
}

/// Names bound to atoms; a name occurs at most once.
pub struct Env {
    entries: Vec<(String, AtomRef)>,
}

impl Env {
    /// The entries in the order their names were first added.
    pub closed spec fn entries(&self) -> Seq<(Seq<char>, AtomModel)> {
        self.entries@.map_values(|p: (String, AtomRef)| entry_view(p))
    }

    #[verifier::type_invariant]
    closed spec fn distinct(&self) -> bool {
        keys_distinct(self.entries())
    }

    pub open spec fn contents(&self) -> Map<Seq<char>, AtomModel> {
        entries_map(self.entries())
    }

    pub fn new() -> (e: Env)
        ensures
            e.entries() == Seq::<(Seq<char>, AtomModel)>::empty(),
    {
        let e = Env { entries: Vec::new() };
        assert(e.entries() =~= Seq::<(Seq<char>, AtomModel)>::empty());
        e
    }

    pub fn len(&self) -> (n: usize)
        ensures
            n == self.entries().len(),
    {
        self.entries.len()
    }

    /// Position of `key`, if it is bound.
    fn find(&self, key: &str) -> (r: Option<usize>)
        ensures
            r matches Some(i) ==> i < self.entries().len() && self.entries()[i as int].0 == key@,
            r is None ==> forall|i: int| 0 <= i < self.entries().len() ==> self.entries()[i].0 != key@,
    {
        let mut i: usize = 0;
        while i < self.entries.len()
            invariant
                i <= self.entries@.len(),
                forall|j: int| 0 <= j < i ==> self.entries()[j].0 != key@,
            decreases self.entries@.len() - i,
        {
            if str_eq(self.entries[i].0.as_str(), key) {
                return Some(i);
            }
            i = i + 1;
        }
        None
    }

    /// The atom bound to `key`.
    pub fn get(&self, key: &str) -> (r: Option<&AtomRef>)
        ensures
            r is Some <==> self.contents().contains_key(key@),
            r matches Some(v) ==> v@ == self.contents()[key@],
    {
        proof {
            use_type_invariant(self);
            lemma_entries_map(self.entries(), key@);
        }
        match self.find(key) {
            Some(i) => Some(&self.entries[i].1),
            None => None,
        }
    }

    pub fn contains_key(&self, key: &str) -> (r: bool)
        ensures
            r == self.contents().contains_key(key@),
    {
        proof {
            use_type_invariant(self);
            lemma_entries_map(self.entries(), key@);
        }
        self.find(key).is_some()
    }

    /// Binds `key` to `value`, replacing what it was bound to; a new name
    /// goes after the others.
    pub fn insert(&mut self, key: String, value: AtomRef)
        ensures
            final(self).contents() == old(self).contents().insert(key@, value@),
            forall|i: int|
                0 <= i < old(self).entries().len() && old(self).entries()[i].0 == key@
                    ==> final(self).entries() == old(self).entries().update(i, (key@, value@)),
            (forall|i: int| 0 <= i < old(self).entries().len() ==> old(self).entries()[i].0 != key@)
                ==> final(self).entries() == old(self).entries().push((key@, value@)),
    {
        proof {
            use_type_invariant(&*self);
        }
        let ghost s = self.entries();
        match self.find(key.as_str()) {
            Some(i) => {
                proof {
                    lemma_entries_map_update(s, i as int, value@);
                }
                let mut v: Vec<(String, AtomRef)> = Vec::new();
                std::mem::swap(&mut v, &mut self.entries);
                let ghost k = key@;
                v.set(i, (key, value));
                assert(v@.map_values(|p: (String, AtomRef)| entry_view(p)) =~= s.update(i as int, (s[i as int].0, value@)));
                self.entries = v;
                assert forall|j: int| 0 <= j < s.len() && s[j].0 == k implies self.entries() == s.update(
                    j,
                    (k, value@),
                ) by {
                    assert(keys_distinct(s));
                    if j != i {
                        assert(s[j].0 != s[i as int].0);
                    }
                }
            },
            None => {
                proof {
                    lemma_entries_map_push(s, key@, value@);
                }
                let mut v: Vec<(String, AtomRef)> = Vec::new();
                std::mem::swap(&mut v, &mut self.entries);
                v.push((key, value));
                assert(v@.map_values(|p: (String, AtomRef)| entry_view(p)) =~= s.push((key@, value@)));
                self.entries = v;
            },
        }
    }

    /// Binds `key` to `value` unless it is bound already.
    pub fn insert_if_absent(&mut self, key: String, value: AtomRef)
        ensures
            final(self).contents() == if old(self).contents().contains_key(key@) {
                old(self).contents()
            } else {
                old(self).contents().insert(key@, value@)
            },
            old(self).contents().contains_key(key@) ==> final(self).entries() == old(self).entries(),
            !old(self).contents().contains_key(key@) ==> final(self).entries() == old(
                self,
            ).entries().push((key@, value@)),
    {
        proof {
            use_type_invariant(&*self);
            lemma_entries_map(self.entries(), key@);
        }
        if !self.contains_key(key.as_str()) {
            self.insert(key, value);
        }
    }

    /// The name of the `i`-th entry.
    pub fn key_at(&self, i: usize) -> (k: &String)
        requires
            i < self.entries().len(),
        ensures
            k@ == self.entries()[i as int].0,
    {
        &self.entries[i].0
    }

    /// The atom of the `i`-th entry.
    pub fn value_at(&self, i: usize) -> (v: &AtomRef)
        requires
            i < self.entries().len(),
        ensures
            v@ == self.entries()[i as int].1,
    {
        &self.entries[i].1
    }
}

} // verus!
