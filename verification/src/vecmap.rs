//! Small association maps with mathematical `Map` views, used for the policy
//! graph's keyed collections.

use vstd::prelude::*;

verus! {

/// A map from set names to values, keyed by the name's characters.
#[derive(Debug)]
pub struct NameMap<V> {
    pub entries: Vec<(String, V)>,
}

/// The map denoted by an entry list: later entries win, though well-formed
/// lists have distinct keys.
pub open spec fn name_entries_map<V>(s: Seq<(String, V)>) -> Map<Seq<char>, V>
    decreases s.len(),
{
    if s.len() == 0 {
        Map::empty()
    } else {
        name_entries_map(s.drop_last()).insert(s.last().0@, s.last().1)
    }
}

impl<V> NameMap<V> {
    /// Keys are pairwise distinct.
    pub open spec fn wf(self) -> bool {
        forall|i: int, j: int|
            0 <= i < j < self.entries@.len() ==> (#[trigger] self.entries@[i]).0@ != (
            #[trigger] self.entries@[j]).0@
    }

    pub open spec fn view(self) -> Map<Seq<char>, V> {
        name_entries_map(self.entries@)
    }

    pub fn new() -> (r: Self)
        ensures
            r.wf(),
            r@ == Map::<Seq<char>, V>::empty(),
            r.entries@.len() == 0,
    {
        NameMap { entries: Vec::new() }
    }

    /// Look the name up.
    pub fn get(&self, name: &String) -> (r: Option<&V>)
        requires
            self.wf(),
        ensures
            match r {
                Some(v) => self@.contains_key(name@) && *v == self@[name@],
                None => !self@.contains_key(name@),
            },
    {
        let n = self.entries.len();
        for i in 0..n
            invariant
                n == self.entries@.len(),
                self.wf(),
                forall|k: int| 0 <= k < i ==> (#[trigger] self.entries@[k]).0@ != name@,
        {
            if self.entries[i].0 == *name {
                proof {
                    lemma_name_entries_map_index(self.entries@, i as int);
                }
                return Some(&self.entries[i].1);
            }
        }
        proof {
            lemma_name_entries_map_absent(self.entries@, name@);
        }
        None
    }

    /// Bind the name; an existing binding is replaced.
    pub fn insert(&mut self, name: String, value: V) -> (nothing: ())
        requires
            old(self).wf(),
        ensures
            final(self).wf(),
            final(self)@ == old(self)@.insert(name@, value),
    {
        let n = self.entries.len();
        for i in 0..n
            invariant
                n == self.entries@.len(),
                self == old(self),
                self.wf(),
                forall|k: int| 0 <= k < i ==> (#[trigger] self.entries@[k]).0@ != name@,
        {
            if self.entries[i].0 == *(&name) {
                let ghost prev = self.entries@;
                self.entries.set(i, (name, value));
                proof {
                    lemma_name_entries_map_update(prev, i as int, self.entries@[i as int]);
                }
                return ;
            }
        }
        let ghost prev = self.entries@;
        self.entries.push((name, value));
        proof {
            assert(self.entries@.drop_last() =~= prev);
        }
    }


    /// Bind a name known to be absent; the entry list grows at the end.
    pub fn insert_new(&mut self, name: String, value: V) -> (nothing: ())
        requires
            old(self).wf(),
            !old(self)@.contains_key(name@),
        ensures
            final(self).wf(),
            final(self).entries@ == old(self).entries@.push((name, value)),
            final(self)@ == old(self)@.insert(name@, value),
    {
        proof {
            assert forall|k: int| 0 <= k < self.entries@.len() implies (
            #[trigger] self.entries@[k]).0@ != name@ by {
                if self.entries@[k].0@ == name@ {
                    lemma_name_entries_map_index(self.entries@, k);
                }
            }
        }
        let ghost prev = self.entries@;
        self.entries.push((name, value));
        proof {
            assert(self.entries@.drop_last() =~= prev);
        }
    }

    /// Number of entries.
    pub fn len(&self) -> (r: usize)
        ensures
            r == self.entries@.len(),
    {
        self.entries.len()
    }

    /// The entry at one position, for walking the map.
    pub fn index(&self, i: usize) -> (r: &(String, V))
        requires
            i < self.entries@.len(),
        ensures
            *r == self.entries@[i as int],
    {
        &self.entries[i]
    }
}

/// An entry's key is in the map, bound to that entry's value.
pub proof fn lemma_name_entries_map_index<V>(s: Seq<(String, V)>, i: int)
    requires
        0 <= i < s.len(),
        forall|a: int, b: int| 0 <= a < b < s.len() ==> (#[trigger] s[a]).0@ != (#[trigger] s[b]).0@,
    ensures
        name_entries_map(s).contains_key(s[i].0@),
        name_entries_map(s)[s[i].0@] == s[i].1,
    decreases s.len(),
{
    if i == s.len() - 1 {
    } else {
        assert(s.drop_last()[i] == s[i]);
        lemma_name_entries_map_index(s.drop_last(), i);
        assert(s.last().0@ != s[i].0@);
    }
}

/// A name no entry carries is not in the map.
pub proof fn lemma_name_entries_map_absent<V>(s: Seq<(String, V)>, k: Seq<char>)
    requires
        forall|i: int| 0 <= i < s.len() ==> (#[trigger] s[i]).0@ != k,
    ensures
        !name_entries_map(s).contains_key(k),
    decreases s.len(),
{
    if s.len() > 0 {
        assert forall|i: int| 0 <= i < s.len() - 1 implies (#[trigger] s.drop_last()[i]).0@
            != k by {
            assert(s.drop_last()[i] == s[i]);
        }
        lemma_name_entries_map_absent(s.drop_last(), k);
    }
}

/// Replacing the entry that holds a key updates its binding alone.
pub proof fn lemma_name_entries_map_update<V>(s: Seq<(String, V)>, i: int, e: (String, V))
    requires
        0 <= i < s.len(),
        forall|a: int, b: int| 0 <= a < b < s.len() ==> (#[trigger] s[a]).0@ != (#[trigger] s[b]).0@,
        e.0@ == s[i].0@,
    ensures
        name_entries_map(s.update(i, e)) == name_entries_map(s).insert(e.0@, e.1),
    decreases s.len(),
{
    let t = s.update(i, e);
    if i == s.len() - 1 {
        assert(t.drop_last() =~= s.drop_last());
        assert(t.last() == e);
    } else {
        assert(t.drop_last() =~= s.drop_last().update(i, e));
        assert(s.drop_last()[i] == s[i]);
        lemma_name_entries_map_update(s.drop_last(), i, e);
        assert(t.last() == s.last());
        assert(s.last().0@ != e.0@);
        assert(name_entries_map(s.update(i, e)) =~= name_entries_map(s).insert(e.0@, e.1));
    }
}

/// A map from AS numbers to values.
#[derive(Debug)]
pub struct NumMap<V> {
    pub entries: Vec<(u32, V)>,
}

/// The map denoted by an entry list: later entries win, though well-formed
/// lists have distinct keys.
pub open spec fn num_entries_map<V>(s: Seq<(u32, V)>) -> Map<u32, V>
    decreases s.len(),
{
    if s.len() == 0 {
        Map::empty()
    } else {
        num_entries_map(s.drop_last()).insert(s.last().0, s.last().1)
    }
}

impl<V> NumMap<V> {
    /// Keys are pairwise distinct.
    pub open spec fn wf(self) -> bool {
        forall|i: int, j: int|
            0 <= i < j < self.entries@.len() ==> (#[trigger] self.entries@[i]).0 != (
            #[trigger] self.entries@[j]).0
    }

    pub open spec fn view(self) -> Map<u32, V> {
        num_entries_map(self.entries@)
    }

    pub fn new() -> (r: Self)
        ensures
            r.wf(),
            r@ == Map::<u32, V>::empty(),
            r.entries@.len() == 0,
    {
        NumMap { entries: Vec::new() }
    }

    /// Look the name up.
    pub fn get(&self, name: u32) -> (r: Option<&V>)
        requires
            self.wf(),
        ensures
            match r {
                Some(v) => self@.contains_key(name) && *v == self@[name],
                None => !self@.contains_key(name),
            },
    {
        let n = self.entries.len();
        for i in 0..n
            invariant
                n == self.entries@.len(),
                self.wf(),
                forall|k: int| 0 <= k < i ==> (#[trigger] self.entries@[k]).0 != name,
        {
            if self.entries[i].0 == name {
                proof {
                    lemma_num_entries_map_index(self.entries@, i as int);
                }
                return Some(&self.entries[i].1);
            }
        }
        proof {
            lemma_num_entries_map_absent(self.entries@, name);
        }
        None
    }

    /// Bind the name; an existing binding is replaced.
    pub fn insert(&mut self, name: u32, value: V) -> (nothing: ())
        requires
            old(self).wf(),
        ensures
            final(self).wf(),
            final(self)@ == old(self)@.insert(name, value),
    {
        let n = self.entries.len();
        for i in 0..n
            invariant
                n == self.entries@.len(),
                self == old(self),
                self.wf(),
                forall|k: int| 0 <= k < i ==> (#[trigger] self.entries@[k]).0 != name,
        {
            if self.entries[i].0 == name {
                let ghost prev = self.entries@;
                self.entries.set(i, (name, value));
                proof {
                    lemma_num_entries_map_update(prev, i as int, self.entries@[i as int]);
                }
                return ;
            }
        }
        let ghost prev = self.entries@;
        self.entries.push((name, value));
        proof {
            assert(self.entries@.drop_last() =~= prev);
        }
    }


    /// Bind a key known to be absent; the entry list grows at the end.
    pub fn insert_new(&mut self, name: u32, value: V) -> (nothing: ())
        requires
            old(self).wf(),
            !old(self)@.contains_key(name),
        ensures
            final(self).wf(),
            final(self).entries@ == old(self).entries@.push((name, value)),
            final(self)@ == old(self)@.insert(name, value),
    {
        proof {
            assert forall|k: int| 0 <= k < self.entries@.len() implies (
            #[trigger] self.entries@[k]).0@ != name by {
                if self.entries@[k].0@ == name {
                    lemma_num_entries_map_index(self.entries@, k);
                }
            }
        }
        let ghost prev = self.entries@;
        self.entries.push((name, value));
        proof {
            assert(self.entries@.drop_last() =~= prev);
        }
    }

    /// Number of entries.
    pub fn len(&self) -> (r: usize)
        ensures
            r == self.entries@.len(),
    {
        self.entries.len()
    }

    /// The entry at one position, for walking the map.
    pub fn index(&self, i: usize) -> (r: &(u32, V))
        requires
            i < self.entries@.len(),
        ensures
            *r == self.entries@[i as int],
    {
        &self.entries[i]
    }
}

/// An entry's key is in the map, bound to that entry's value.
pub proof fn lemma_num_entries_map_index<V>(s: Seq<(u32, V)>, i: int)
    requires
        0 <= i < s.len(),
        forall|a: int, b: int| 0 <= a < b < s.len() ==> (#[trigger] s[a]).0 != (#[trigger] s[b]).0,
    ensures
        num_entries_map(s).contains_key(s[i].0),
        num_entries_map(s)[s[i].0] == s[i].1,
    decreases s.len(),
{
    if i == s.len() - 1 {
    } else {
        assert(s.drop_last()[i] == s[i]);
        lemma_num_entries_map_index(s.drop_last(), i);
        assert(s.last().0 != s[i].0);
    }
}

/// A name no entry carries is not in the map.
pub proof fn lemma_num_entries_map_absent<V>(s: Seq<(u32, V)>, k: u32)
    requires
        forall|i: int| 0 <= i < s.len() ==> (#[trigger] s[i]).0 != k,
    ensures
        !num_entries_map(s).contains_key(k),
    decreases s.len(),
{
    if s.len() > 0 {
        assert forall|i: int| 0 <= i < s.len() - 1 implies (#[trigger] s.drop_last()[i]).0
            != k by {
            assert(s.drop_last()[i] == s[i]);
        }
        lemma_num_entries_map_absent(s.drop_last(), k);
    }
}

/// Replacing the entry that holds a key updates its binding alone.
pub proof fn lemma_num_entries_map_update<V>(s: Seq<(u32, V)>, i: int, e: (u32, V))
    requires
        0 <= i < s.len(),
        forall|a: int, b: int| 0 <= a < b < s.len() ==> (#[trigger] s[a]).0 != (#[trigger] s[b]).0,
        e.0 == s[i].0,
    ensures
        num_entries_map(s.update(i, e)) == num_entries_map(s).insert(e.0, e.1),
    decreases s.len(),
{
    let t = s.update(i, e);
    if i == s.len() - 1 {
        assert(t.drop_last() =~= s.drop_last());
        assert(t.last() == e);
    } else {
        assert(t.drop_last() =~= s.drop_last().update(i, e));
        assert(s.drop_last()[i] == s[i]);
        lemma_num_entries_map_update(s.drop_last(), i, e);
        assert(t.last() == s.last());
        assert(s.last().0 != e.0);
        assert(num_entries_map(s.update(i, e)) =~= num_entries_map(s).insert(e.0, e.1));
    }
}


/// A key the map holds is some entry's key.
pub proof fn lemma_name_entries_map_key_index<V>(s: Seq<(String, V)>, k: Seq<char>) -> (i: int)
    requires
        name_entries_map(s).contains_key(k),
    ensures
        0 <= i < s.len(),
        s[i].0@ == k,
    decreases s.len(),
{
    if s.len() == 0 {
        0
    } else if s.last().0@ == k {
        s.len() - 1
    } else {
        lemma_name_entries_map_key_index(s.drop_last(), k)
    }
}

/// Entry lists with the same keys in the same order denote maps with one
/// key domain.
pub proof fn lemma_name_maps_same_keys<V, W>(s1: Seq<(String, V)>, s2: Seq<(String, W)>)
    requires
        s1.len() == s2.len(),
        forall|i: int| 0 <= i < s1.len() ==> (#[trigger] s1[i]).0@ == (#[trigger] s2[i]).0@,
    ensures
        forall|k: Seq<char>|
            name_entries_map(s1).contains_key(k) <==> #[trigger] name_entries_map(s2).contains_key(
                k,
            ),
    decreases s1.len(),
{
    if s1.len() > 0 {
        assert forall|i: int| 0 <= i < s1.drop_last().len() implies (
        #[trigger] s1.drop_last()[i]).0@ == (#[trigger] s2.drop_last()[i]).0@ by {
            assert(s1.drop_last()[i] == s1[i]);
            assert(s2.drop_last()[i] == s2[i]);
        }
        lemma_name_maps_same_keys(s1.drop_last(), s2.drop_last());
        assert(s1.last().0@ == s2.last().0@);
        assert forall|k: Seq<char>|
            name_entries_map(s1).contains_key(k) <==> #[trigger] name_entries_map(s2).contains_key(
                k,
            ) by {
            assert(name_entries_map(s1.drop_last()).contains_key(k) <==> name_entries_map(
                s2.drop_last(),
            ).contains_key(k));
        }
    }
}


/// A key the map holds is some entry's key.
pub proof fn lemma_num_entries_map_key_index<V>(s: Seq<(u32, V)>, k: u32) -> (i: int)
    requires
        num_entries_map(s).contains_key(k),
    ensures
        0 <= i < s.len(),
        s[i].0 == k,
    decreases s.len(),
{
    if s.len() == 0 {
        0
    } else if s.last().0 == k {
        s.len() - 1
    } else {
        lemma_num_entries_map_key_index(s.drop_last(), k)
    }
}

} // verus!
