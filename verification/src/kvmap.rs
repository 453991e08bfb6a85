//! An association list keyed by fully qualified reference keys, with a
//! mathematical `Map` view. It stands in for the ordered string-keyed
//! maps of the persisted status: internally the key is the structured
//! `(namespace, name)` pair, and the canonical string form appears only
//! at the persistence boundary.
use vstd::prelude::*;
use crate::refs::RefKey;

verus! {

/// A key-value map over reference keys, stored as entries with
/// pairwise distinct keys.
#[derive(Clone, Debug)]
pub struct KvMap<V> {
    pub entries: Vec<(RefKey, V)>,
}

/// The mathematical map an entry sequence denotes (later entries win;
/// under `wf` there are no duplicates, so each key's unique entry is
/// the one that counts).
pub open spec fn map_of<V: View>(entries: Seq<(RefKey, V)>) -> Map<(Seq<char>, Seq<char>), V::V>
    decreases entries.len(),
{
    if entries.len() == 0 {
        Map::empty()
    } else {
        map_of(entries.drop_last()).insert(entries.last().0@, entries.last().1@)
    }
}

impl<V: View> View for KvMap<V> {
    type V = Map<(Seq<char>, Seq<char>), V::V>;

    open spec fn view(&self) -> Map<(Seq<char>, Seq<char>), V::V> {
        map_of(self.entries@)
    }
}

/// A key is in the denoted map exactly when some entry carries it.
pub proof fn lemma_map_of_contains<V: View>(entries: Seq<(RefKey, V)>, k: (Seq<char>, Seq<char>))
    ensures
        map_of(entries).contains_key(k) <==> exists|i: int|
            0 <= i < entries.len() && (#[trigger] entries[i]).0@ == k,
    decreases entries.len(),
{
    if entries.len() > 0 {
        lemma_map_of_contains(entries.drop_last(), k);
        if entries.last().0@ == k {
            assert(entries[entries.len() - 1].0@ == k);
        } else if map_of(entries).contains_key(k) {
            let i = choose|i: int|
                0 <= i < entries.drop_last().len() && (#[trigger] entries.drop_last()[i]).0@ == k;
            assert(entries[i].0@ == k);
        } else {
            assert forall|i: int| 0 <= i < entries.len() implies (#[trigger] entries[i]).0@
                != k by {
                if i < entries.len() - 1 {
                    assert(entries.drop_last()[i] == entries[i]);
                }
            }
        }
    }
}

/// The denoted map takes the value of an entry with no later entry of
/// the same key.
pub proof fn lemma_map_of_index<V: View>(entries: Seq<(RefKey, V)>, i: int)
    requires
        0 <= i < entries.len(),
        forall|j: int| i < j < entries.len() ==> (#[trigger] entries[j]).0@ != entries[i].0@,
    ensures
        map_of(entries).contains_key(entries[i].0@),
        map_of(entries)[entries[i].0@] == entries[i].1@,
    decreases entries.len(),
{
    if i == entries.len() - 1 {
    } else {
        assert(entries.drop_last()[i] == entries[i]);
        lemma_map_of_index(entries.drop_last(), i);
        assert(entries.last().0@ != entries[i].0@);
    }
}

impl<V: View> KvMap<V> {
    /// Well-formed: entry keys are pairwise distinct.
    pub open spec fn wf(&self) -> bool {
        forall|i: int, j: int|
            0 <= i < j < self.entries@.len() ==> (#[trigger] self.entries@[i]).0@ != (
            #[trigger] self.entries@[j]).0@
    }

    /// An empty map.
    pub fn new() -> (r: Self)
        ensures
            r.wf(),
            r@ == Map::<(Seq<char>, Seq<char>), V::V>::empty(),
            r.entries@.len() == 0,
    {
        KvMap { entries: Vec::new() }
    }

    /// Look a key up.
    pub fn get(&self, key: &RefKey) -> (r: Option<&V>)
        requires
            self.wf(),
        ensures
            match r {
                Some(v) => self@.contains_key(key@) && self@[key@] == v@,
                None => !self@.contains_key(key@),
            },
    {
        let mut i: usize = 0;
        while i < self.entries.len()
            invariant
                0 <= i <= self.entries@.len(),
                self.wf(),
                forall|j: int| 0 <= j < i ==> (#[trigger] self.entries@[j]).0@ != key@,
            decreases self.entries@.len() - i,
        {
            if crate::refs::key_eq(&self.entries[i].0, key) {
                proof {
                    lemma_map_of_index(self.entries@, i as int);
                }
                return Some(&self.entries[i].1);
            }
            i += 1;
        }
        proof {
            lemma_map_of_contains(self.entries@, key@);
        }
        None
    }

    /// Whether a key is present.
    pub fn contains_key(&self, key: &RefKey) -> (r: bool)
        requires
            self.wf(),
        ensures
            r == self@.contains_key(key@),
    {
        self.get(key).is_some()
    }

    /// Decide well-formedness at run time, for values that arrive from
    /// outside the library (a status parsed off the cluster).
    pub fn wf_check(&self) -> (r: bool)
        ensures
            r == self.wf(),
    {
        let mut i: usize = 0;
        while i < self.entries.len()
            invariant
                0 <= i <= self.entries@.len(),
                forall|i1: int, j1: int|
                    0 <= i1 < j1 < self.entries@.len() && i1 < i ==> (
                    #[trigger] self.entries@[i1]).0@ != (#[trigger] self.entries@[j1]).0@,
            decreases self.entries@.len() - i,
        {
            let mut j: usize = i + 1;
            while j < self.entries.len()
                invariant
                    0 <= i < j <= self.entries@.len(),
                    forall|j1: int|
                        i < j1 < j ==> (#[trigger] self.entries@[j1]).0@ != self.entries@[
                            i as int].0@,
                decreases self.entries@.len() - j,
            {
                if crate::refs::key_eq(&self.entries[i].0, &self.entries[j].0) {
                    return false;
                }
                j += 1;
            }
            i += 1;
        }
        true
    }

    /// Add an entry whose key is not yet present.
    pub fn insert_new(&mut self, key: RefKey, value: V)
        requires
            old(self).wf(),
            !old(self)@.contains_key(key@),
        ensures
            final(self).wf(),
            final(self)@ == old(self)@.insert(key@, value@),
            final(self).entries@ == old(self).entries@.push((key, value)),
    {
        proof {
            lemma_map_of_contains(old(self).entries@, key@);
        }
        self.entries.push((key, value));
        proof {
            assert(self.entries@.drop_last() =~= old(self).entries@);
            assert(self.entries@.last() == (key, value));
        }
    }
}

} // verus!
