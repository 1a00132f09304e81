use vstd::prelude::*;

use crate::strutil::str_eq;

verus! {

/// An insertion-ordered map from string names to values, with pairwise
/// distinct keys. This is the catalog shape used throughout the library.
pub struct StrMap<V> {
    pub entries: Vec<(String, V)>,
}

/// The map denoted by an entry list, later entries winning.
pub open spec fn map_of<V>(entries: Seq<(String, V)>) -> Map<Seq<char>, V>
    decreases entries.len(),
{
    if entries.len() == 0 {
        Map::empty()
    } else {
        map_of(entries.drop_last()).insert(entries.last().0@, entries.last().1)
    }
}

/// The key of every entry, in insertion order.
pub open spec fn keys_of<V>(entries: Seq<(String, V)>) -> Seq<Seq<char>> {
    entries.map_values(|e: (String, V)| e.0@)
}

/// A key is in the map exactly when some entry carries it.
pub proof fn lemma_map_of_contains<V>(entries: Seq<(String, V)>, k: Seq<char>)
    ensures
        map_of(entries).contains_key(k) <==> keys_of(entries).contains(k),
    decreases entries.len(),
{
    if entries.len() > 0 {
        lemma_map_of_contains(entries.drop_last(), k);
        assert(keys_of(entries.drop_last()) =~= keys_of(entries).drop_last());
        assert(keys_of(entries)[entries.len() - 1] == entries.last().0@);
        if keys_of(entries).contains(k) {
            let i = choose|i: int| 0 <= i < keys_of(entries).len() && keys_of(entries)[i] == k;
            if i < entries.len() - 1 {
                assert(keys_of(entries).drop_last()[i] == k);
                assert(keys_of(entries.drop_last()).contains(k));
            }
        }
        if keys_of(entries.drop_last()).contains(k) {
            let i = choose|i: int|
                0 <= i < keys_of(entries.drop_last()).len() && keys_of(entries.drop_last())[i]
                    == k;
            assert(keys_of(entries)[i] == k);
        }
    }
}

/// When no later entry repeats the key of entry `i`, the map sends that key
/// to entry `i`'s value.
pub proof fn lemma_map_of_index<V>(entries: Seq<(String, V)>, i: int)
    requires
        0 <= i < entries.len(),
        forall|j: int| i < j < entries.len() ==> (#[trigger] entries[j]).0@ != entries[i].0@,
    ensures
        map_of(entries).contains_key(entries[i].0@),
        map_of(entries)[entries[i].0@] == entries[i].1,
    decreases entries.len(),
{
    if i == entries.len() - 1 {
    } else {
        assert(entries.drop_last()[i] == entries[i]);
        lemma_map_of_index(entries.drop_last(), i);
        assert(entries.last() == entries[entries.len() - 1]);
        assert(entries.last().0@ != entries[i].0@);
    }
}

impl<V> StrMap<V> {
    /// Keys are pairwise distinct.
    pub open spec fn wf(&self) -> bool {
        forall|i: int, j: int|
            0 <= i < j < self.entries@.len() ==> (#[trigger] self.entries@[i]).0@ != (
            #[trigger] self.entries@[j]).0@
    }

    /// The keys, in insertion order.
    pub open spec fn key_seq(&self) -> Seq<Seq<char>> {
        keys_of(self.entries@)
    }

    /// The map this collection denotes.
    pub open spec fn view_map(&self) -> Map<Seq<char>, V> {
        map_of(self.entries@)
    }

    /// The entries, in insertion order.
    pub open spec fn entry_seq(&self) -> Seq<(String, V)> {
        self.entries@
    }

    pub fn new() -> (r: Self)
        ensures
            r.wf(),
            r.view_map() == Map::<Seq<char>, V>::empty(),
            r.key_seq() == Seq::<Seq<char>>::empty(),
            r.entry_seq() == Seq::<(String, V)>::empty(),
    {
        let r = StrMap { entries: Vec::new() };
        proof {
            assert(r.key_seq() =~= Seq::<Seq<char>>::empty());
        }
        r
    }

    pub fn len(&self) -> (r: usize)
        ensures
            r == self.key_seq().len(),
    {
        self.entries.len()
    }

    /// The position of `name` among the entries, if present.
    fn position_of(&self, name: &str) -> (r: Option<usize>)
        ensures
            match r {
                Some(i) => i < self.entry_seq().len() && self.entry_seq()[i as int].0@ == name@,
                None => !self.key_seq().contains(name@),
            },
    {
        let n = self.entries.len();
        let mut i: usize = 0;
        while i < n
            invariant
                n == self.entries@.len(),
                i <= n,
                forall|k: int| 0 <= k < i ==> (#[trigger] self.entries@[k]).0@ != name@,
            decreases n - i,
    {
            if str_eq(self.entries[i].0.as_str(), name) {
                return Some(i);
            }
            i = i + 1;
        }
        proof {
            if self.key_seq().contains(name@) {
                let w = choose|w: int|
                    0 <= w < self.key_seq().len() && self.key_seq()[w] == name@;
                assert(self.entries@[w].0@ == name@);
            }
        }
        None
    }

    pub fn contains_key(&self, name: &str) -> (r: bool)
        requires
            self.wf(),
        ensures
            r == self.view_map().contains_key(name@),
    {
        proof {
            lemma_map_of_contains(self.entries@, name@);
        }
        match self.position_of(name) {
            Some(i) => {
                proof {
                    assert(self.key_seq()[i as int] == name@);
                }
                true
            },
            None => false,
        }
    }

    pub fn get(&self, name: &str) -> (r: Option<&V>)
        requires
            self.wf(),
        ensures
            match r {
                Some(v) => self.view_map().contains_key(name@) && *v == self.view_map()[name@],
                None => !self.view_map().contains_key(name@),
            },
    {
        proof {
            lemma_map_of_contains(self.entries@, name@);
        }
        match self.position_of(name) {
            Some(i) => {
                proof {
                    assert(self.key_seq()[i as int] == name@);
                    lemma_map_of_index(self.entries@, i as int);
                }
                Some(&self.entries[i].1)
            },
            None => None,
        }
    }

    /// Inserts or replaces. Insertion order is kept; a new key goes to the
    /// back.
    pub fn insert(&mut self, name: String, value: V)
        requires
            old(self).wf(),
        ensures
            final(self).wf(),
            final(self).view_map() == old(self).view_map().insert(name@, value),
            final(self).key_seq() == if old(self).key_seq().contains(name@) {
                old(self).key_seq()
            } else {
                old(self).key_seq().push(name@)
            },
    {
        let ghost pre = self.entries@;
        match self.position_of(name.as_str()) {
            Some(i) => {
                self.entries.remove(i);
                self.entries.insert(i, (name, value));
                proof {
                    let post = self.entries@;
                    assert(post =~= pre.update(i as int, (name, value)));
                    assert(post[i as int].0@ == pre[i as int].0@);
                    assert(final(self).wf()) by {
                        assert(forall|a: int|
                            0 <= a < post.len() && a != i ==> #[trigger] post[a] == pre[a]);
                    }
                    assert(final(self).key_seq() =~= old(self).key_seq());
                    assert(old(self).key_seq()[i as int] == name@);
                    assert(old(self).key_seq().contains(name@));
                    lemma_map_of_update(pre, i as int, (name, value));
                }
            },
            None => {
                self.entries.push((name, value));
                proof {
                    let post = self.entries@;
                    assert(post.drop_last() =~= pre);
                    assert(post.last() == (name, value));
                    assert(final(self).view_map() == old(self).view_map().insert(name@, value));
                    assert(final(self).key_seq() =~= old(self).key_seq().push(name@));
                    assert(final(self).wf()) by {
                        assert(forall|a: int|
                            0 <= a < pre.len() ==> #[trigger] post[a] == pre[a]);
                        assert(forall|a: int|
                            0 <= a < pre.len() ==> (#[trigger] post[a]).0@ != name@) by {
                            assert(forall|a: int|
                                0 <= a < pre.len() ==> old(self).key_seq()[a] == (
                                #[trigger] pre[a]).0@);
                        }
                    }
                }
            },
        }
    }

    /// Removes a key if present.
    pub fn remove_key(&mut self, name: &str)
        requires
            old(self).wf(),
        ensures
            final(self).wf(),
            final(self).view_map() == old(self).view_map().remove(name@),
            final(self).key_seq() == old(self).key_seq().remove_value(name@),
    {
        let ghost pre = self.entries@;
        match self.position_of(name) {
            Some(i) => {
                self.entries.remove(i);
                proof {
                    let post = self.entries@;
                    assert(post =~= pre.remove(i as int));
                    assert(final(self).wf()) by {
                        assert(forall|a: int|
                            0 <= a < i ==> #[trigger] post[a] == pre[a]);
                        assert(forall|a: int|
                            i <= a < post.len() ==> #[trigger] post[a] == pre[a + 1]);
                    }
                    lemma_map_of_remove(pre, i as int);
                    assert(keys_of(pre)[i as int] == name@);
                    assert(keys_of(post) =~= keys_of(pre).remove(i as int));
                    lemma_first_index_remove(keys_of(pre), name@, i as int);
                }
            },
            None => {
                proof {
                    lemma_map_of_contains(pre, name@);
                    assert(final(self).view_map() =~= old(self).view_map().remove(name@));
                    old(self).key_seq().index_of_first_ensures(name@);
                    assert(final(self).key_seq() == old(self).key_seq().remove_value(name@));
                }
            },
        }
    }

    /// Removes and returns the first entry, in insertion order.
    pub fn pop_first(&mut self) -> (r: Option<(String, V)>)
        requires
            old(self).wf(),
        ensures
            final(self).wf(),
            match r {
                Some(e) => old(self).entry_seq().len() > 0 && e == old(self).entry_seq()[0]
                    && final(self).entry_seq() == old(self).entry_seq().remove(0),
                None => old(self).entry_seq().len() == 0 && final(self).entry_seq() == old(
                    self,
                ).entry_seq(),
            },
    {
        if self.entries.len() == 0 {
            return None;
        }
        let ghost pre = self.entries@;
        let e = self.entries.remove(0);
        proof {
            assert(final(self).wf()) by {
                assert(forall|a: int|
                    0 <= a < self.entries@.len() ==> #[trigger] self.entries@[a] == pre[a + 1]);
            }
        }
        Some(e)
    }

    /// A reference to the entry at a position, for iteration.
    pub fn index(&self, i: usize) -> (r: &(String, V))
        requires
            i < self.entry_seq().len(),
        ensures
            *r == self.entry_seq()[i as int],
    {
        &self.entries[i]
    }

    /// The keys, cloned, in insertion order.
    pub fn keys(&self) -> (r: Vec<String>)
        ensures
            r@.map_values(|x: String| x@) == self.key_seq(),
    {
        let n = self.entries.len();
        let mut r: Vec<String> = Vec::new();
        let mut i: usize = 0;
        while i < n
            invariant
                n == self.entries@.len(),
                i <= n,
                r@.len() == i,
                forall|j: int| 0 <= j < i ==> (#[trigger] r@[j])@ == self.key_seq()[j],
            decreases n - i,
        {
            r.push(self.entries[i].0.clone());
            i = i + 1;
        }
        proof {
            assert(r@.map_values(|x: String| x@) =~= self.key_seq());
        }
        r
    }
}

impl<V> StrMap<Vec<V>> {
    /// Appends a value to the group under `name`, creating the group when
    /// the key is new.
    pub fn push_value(&mut self, name: String, value: V)
        requires
            old(self).wf(),
        ensures
            final(self).wf(),
            final(self).view_map().contains_key(name@),
            old(self).view_map().contains_key(name@) ==> {
                &&& final(self).view_map()[name@]@ == old(self).view_map()[name@]@.push(value)
                &&& final(self).key_seq() == old(self).key_seq()
            },
            !old(self).view_map().contains_key(name@) ==> {
                &&& final(self).view_map()[name@]@ =~= seq![value]
                &&& final(self).key_seq() == old(self).key_seq().push(name@)
            },
            forall|k: Seq<char>|
                k != name@ ==> #[trigger] final(self).view_map().contains_key(k) == old(
                    self,
                ).view_map().contains_key(k) && (old(self).view_map().contains_key(k)
                    ==> final(self).view_map()[k] == old(self).view_map()[k]),
    {
        let ghost pre = self.entries@;
        proof {
            lemma_map_of_contains(pre, name@);
        }
        match self.position_of(name.as_str()) {
            Some(i) => {
                proof {
                    assert(keys_of(pre)[i as int] == name@);
                    assert(keys_of(pre).contains(name@));
                    lemma_map_of_index(pre, i as int);
                }
                let (k, mut vs) = self.entries.remove(i);
                let ghost pre_vs = vs@;
                vs.push(value);
                self.entries.insert(i, (k, vs));
                proof {
                    let e = (k, vs);
                    assert(self.entries@ =~= pre.update(i as int, e));
                    assert(e.0@ == pre[i as int].0@);
                    lemma_map_of_update(pre, i as int, e);
                    assert(final(self).wf()) by {
                        assert(forall|a: int|
                            0 <= a < pre.len() && a != i ==> #[trigger] self.entries@[a]
                                == pre[a]);
                    }
                    assert(final(self).key_seq() =~= old(self).key_seq());
                    assert(final(self).view_map() == old(self).view_map().insert(name@, e.1));
                    assert(e.1@ == old(self).view_map()[name@]@.push(value));
                }
            },
            None => {
                let mut vs: Vec<V> = Vec::new();
                vs.push(value);
                self.entries.push((name, vs));
                proof {
                    let post = self.entries@;
                    assert(post.drop_last() =~= pre);
                    assert(final(self).view_map() == old(self).view_map().insert(
                        post.last().0@,
                        post.last().1,
                    ));
                    assert(final(self).key_seq() =~= old(self).key_seq().push(name@));
                    assert(final(self).wf()) by {
                        assert(forall|a: int|
                            0 <= a < pre.len() ==> #[trigger] post[a] == pre[a]);
                        assert(forall|a: int|
                            0 <= a < pre.len() ==> old(self).key_seq()[a] == (
                            #[trigger] pre[a]).0@);
                    }
                }
            },
        }
    }
}

/// Updating an entry in place, keeping its key, is a map insert, provided no
/// later entry shadows that key.
proof fn lemma_map_of_update<V>(entries: Seq<(String, V)>, i: int, e: (String, V))
    requires
        0 <= i < entries.len(),
        e.0@ == entries[i].0@,
        forall|j: int| i < j < entries.len() ==> (#[trigger] entries[j]).0@ != entries[i].0@,
    ensures
        map_of(entries.update(i, e)) == map_of(entries).insert(e.0@, e.1),
    decreases entries.len(),
{
    let upd = entries.update(i, e);
    if i == entries.len() - 1 {
        assert(upd.drop_last() =~= entries.drop_last());
        assert(upd.last() == e);
        assert(map_of(upd) == map_of(entries.drop_last()).insert(e.0@, e.1));
        assert(map_of(entries).insert(e.0@, e.1) =~= map_of(entries.drop_last()).insert(
            entries.last().0@,
            entries.last().1,
        ).insert(e.0@, e.1));
        assert(map_of(entries.drop_last()).insert(entries.last().0@, entries.last().1).insert(
            e.0@,
            e.1,
        ) =~= map_of(entries.drop_last()).insert(e.0@, e.1));
    } else {
        assert(upd.drop_last() =~= entries.drop_last().update(i, e));
        assert(upd.last() == entries.last());
        assert(entries.drop_last()[i] == entries[i]);
        assert(forall|j: int|
            i < j < entries.drop_last().len() ==> (#[trigger] entries.drop_last()[j]).0@
                != entries.drop_last()[i].0@);
        lemma_map_of_update(entries.drop_last(), i, e);
        assert(entries.last().0@ != e.0@);
        assert(map_of(upd) == map_of(entries.drop_last()).insert(e.0@, e.1).insert(
            entries.last().0@,
            entries.last().1,
        ));
        assert(map_of(entries.drop_last()).insert(e.0@, e.1).insert(
            entries.last().0@,
            entries.last().1,
        ) =~= map_of(entries.drop_last()).insert(entries.last().0@, entries.last().1).insert(
            e.0@,
            e.1,
        ));
    }
}

/// Removing the only entry with a key removes that key from the map.
proof fn lemma_map_of_remove<V>(entries: Seq<(String, V)>, i: int)
    requires
        0 <= i < entries.len(),
        forall|a: int, b: int|
            0 <= a < b < entries.len() ==> (#[trigger] entries[a]).0@ != (
            #[trigger] entries[b]).0@,
    ensures
        map_of(entries.remove(i)) == map_of(entries).remove(entries[i].0@),
    decreases entries.len(),
{
    let rem = entries.remove(i);
    if i == entries.len() - 1 {
        assert(rem =~= entries.drop_last());
        lemma_map_of_contains(entries.drop_last(), entries[i].0@);
        assert(!keys_of(entries.drop_last()).contains(entries[i].0@)) by {
            if keys_of(entries.drop_last()).contains(entries[i].0@) {
                let w = choose|w: int|
                    0 <= w < keys_of(entries.drop_last()).len() && keys_of(entries.drop_last())[w]
                        == entries[i].0@;
                assert(entries[w].0@ == entries[i].0@);
            }
        }
        assert(map_of(entries.remove(i)) =~= map_of(entries).remove(entries[i].0@));
    } else {
        assert(rem.drop_last() =~= entries.drop_last().remove(i));
        assert(rem.last() == entries.last());
        assert(forall|a: int, b: int|
            0 <= a < b < entries.drop_last().len() ==> (#[trigger] entries.drop_last()[a]).0@ != (
            #[trigger] entries.drop_last()[b]).0@);
        assert(entries.drop_last()[i] == entries[i]);
        lemma_map_of_remove(entries.drop_last(), i);
        assert(map_of(rem) == map_of(entries.drop_last()).remove(entries[i].0@).insert(
            entries.last().0@,
            entries.last().1,
        ));
        assert(entries.last().0@ != entries[i].0@);
        assert(map_of(entries.drop_last()).remove(entries[i].0@).insert(
            entries.last().0@,
            entries.last().1,
        ) =~= map_of(entries.drop_last()).insert(entries.last().0@, entries.last().1).remove(
            entries[i].0@,
        ));
    }
}

/// When keys are pairwise distinct, removing position `i` is the same as
/// removing the first occurrence of its value.
proof fn lemma_first_index_remove(keys: Seq<Seq<char>>, k: Seq<char>, i: int)
    requires
        0 <= i < keys.len(),
        keys[i] == k,
        forall|a: int, b: int|
            0 <= a < b < keys.len() ==> #[trigger] keys[a] != #[trigger] keys[b],
    ensures
        keys.remove(i) == keys.remove_value(k),
{
    keys.index_of_first_ensures(k);
    assert(keys.contains(k));
    let w = keys.index_of_first(k).unwrap();
    assert(keys[w] == k);
    assert(w == i);
}

} // verus!
