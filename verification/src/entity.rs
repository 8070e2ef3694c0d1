//! Entities of the code graph and a map from entity ids to them.
use vstd::prelude::*;

verus! {

/// What the graph knows of one entity (a function, class, method, ...).
#[derive(Clone, Debug)]
pub struct EntityInfo {
    pub id: String,
    pub name: String,
    pub entity_type: String,
    pub file_path: String,
    pub parent_id: Option<String>,
    pub start_line: usize,
    pub end_line: usize,
}

/// A map from entity ids to entities.  Its model is a `Map` from the
/// characters of an id to the entity stored under it.
pub struct EntityMap {
    entries: Vec<(String, EntityInfo)>,
}

/// The ids of `entries` are pairwise different.
pub open spec fn keys_distinct(entries: Seq<(String, EntityInfo)>) -> bool {
    forall|i: int, j: int|
        0 <= i < entries.len() && 0 <= j < entries.len() && i != j ==> #[trigger] entries[i].0@
            != #[trigger] entries[j].0@
}

/// The map that a run of entries stands for.
pub open spec fn entries_map(entries: Seq<(String, EntityInfo)>) -> Map<Seq<char>, EntityInfo> {
    Map::new(
        |k: Seq<char>| exists|i: int| 0 <= i < entries.len() && #[trigger] entries[i].0@ == k,
        |k: Seq<char>|
            entries[choose|i: int| 0 <= i < entries.len() && #[trigger] entries[i].0@ == k].1,
    )
}

/// The map that inserting the pairs one after the other leaves, starting
/// from an empty map: a later pair replaces an earlier one with the same id.
pub open spec fn pairs_map(pairs: Seq<(String, EntityInfo)>) -> Map<Seq<char>, EntityInfo>
    decreases pairs.len(),
{
    if pairs.len() == 0 {
        Map::empty()
    } else {
        pairs_map(pairs.drop_last()).insert(pairs.last().0@, pairs.last().1)
    }
}

proof fn lemma_entries_map_at(entries: Seq<(String, EntityInfo)>, i: int)
    requires
        keys_distinct(entries),
        0 <= i < entries.len(),
    ensures
        entries_map(entries).contains_key(entries[i].0@),
        entries_map(entries)[entries[i].0@] == entries[i].1,
{
    let k = entries[i].0@;
    assert(entries_map(entries).dom().contains(k));
    let j = choose|j: int| 0 <= j < entries.len() && #[trigger] entries[j].0@ == k;
    assert(j == i);
}

impl View for EntityMap {
    type V = Map<Seq<char>, EntityInfo>;

    open spec fn view(&self) -> Map<Seq<char>, EntityInfo> {
        self.as_map()
    }
}

impl EntityMap {
    #[verifier::type_invariant]
    spec fn well_formed(self) -> bool {
        keys_distinct(self.entries@)
    }

    /// The map from ids to entities.
    pub closed spec fn as_map(self) -> Map<Seq<char>, EntityInfo> {
        entries_map(self.entries@)
    }

    /// An empty map.
    pub fn new() -> (r: EntityMap)
        ensures
            r@ == Map::<Seq<char>, EntityInfo>::empty(),
    {
        let r = EntityMap { entries: Vec::new() };
        assert(r@ =~= Map::<Seq<char>, EntityInfo>::empty());
        r
    }

    /// The position of the entry with id `key`, if any.
    fn position(entries: &Vec<(String, EntityInfo)>, key: &String) -> (r: Option<usize>)
        ensures
            match r {
                None => forall|i: int| 0 <= i < entries@.len() ==> #[trigger] entries@[i].0@ != key@,
                Some(i) => i < entries@.len() && entries@[i as int].0@ == key@,
            },
    {
        let n = entries.len();
        for i in 0..n
            invariant
                n == entries@.len(),
                forall|j: int| 0 <= j < i ==> #[trigger] entries@[j].0@ != key@,
        {
            if entries[i].0 == *key {
                return Some(i);
            }
        }
        None
    }

    /// Stores `value` under `key`, replacing what was stored there.
    pub fn insert(&mut self, key: String, value: EntityInfo)
        ensures
            final(self)@ == old(self)@.insert(key@, value),
    {
        proof {
            use_type_invariant(&*self);
        }
        let ghost old_entries = self.entries@;
        let mut entries: Vec<(String, EntityInfo)> = Vec::new();
        std::mem::swap(&mut entries, &mut self.entries);
        assert(entries@ == old_entries);
        let ghost k = key@;
        match Self::position(&entries, &key) {
            Some(i) => {
                entries.set(i, (key, value));
                assert(keys_distinct(entries@)) by {
                    assert forall|a: int, b: int|
                        0 <= a < entries@.len() && 0 <= b < entries@.len() && a != b implies #[trigger] entries@[a].0@
                        != #[trigger] entries@[b].0@ by {
                        if a != i && b != i {
                            assert(entries@[a] == old_entries[a]);
                            assert(entries@[b] == old_entries[b]);
                        } else if a == i {
                            assert(entries@[b] == old_entries[b]);
                            assert(old_entries[i as int].0@ == k);
                        } else {
                            assert(entries@[a] == old_entries[a]);
                            assert(old_entries[i as int].0@ == k);
                        }
                    }
                }
                assert(entries_map(entries@) =~= entries_map(old_entries).insert(k, value)) by {
                    assert forall|q: Seq<char>|
                        entries_map(entries@).contains_key(q) == entries_map(old_entries).insert(
                            k,
                            value,
                        ).contains_key(q) by {
                        if entries_map(entries@).contains_key(q) {
                            let j = choose|j: int| 0 <= j < entries@.len() && #[trigger] entries@[j].0@ == q;
                            if j != i {
                                assert(old_entries[j].0@ == q);
                            }
                        }
                        if entries_map(old_entries).contains_key(q) {
                            let j = choose|j: int| 0 <= j < old_entries.len() && #[trigger] old_entries[j].0@ == q;
                            if j != i {
                                assert(entries@[j].0@ == q);
                            } else {
                                assert(entries@[i as int].0@ == q);
                            }
                        }
                        if q == k {
                            assert(entries@[i as int].0@ == q);
                        }
                    }
                    assert forall|q: Seq<char>| #[trigger]
                        entries_map(entries@).contains_key(q) implies entries_map(entries@)[q]
                        == entries_map(old_entries).insert(k, value)[q] by {
                        let j = choose|j: int| 0 <= j < entries@.len() && #[trigger] entries@[j].0@ == q;
                        lemma_entries_map_at(entries@, j);
                        if j != i {
                            lemma_entries_map_at(old_entries, j);
                        }
                    }
                }
            },
            None => {
                entries.push((key, value));
                let ghost last: int = entries@.len() - 1;
                assert(keys_distinct(entries@)) by {
                    assert forall|a: int, b: int|
                        0 <= a < entries@.len() && 0 <= b < entries@.len() && a != b implies #[trigger] entries@[a].0@
                        != #[trigger] entries@[b].0@ by {
                        if a < last && b < last {
                            assert(entries@[a] == old_entries[a]);
                            assert(entries@[b] == old_entries[b]);
                        } else if a == last {
                            assert(entries@[b] == old_entries[b]);
                        } else {
                            assert(entries@[a] == old_entries[a]);
                        }
                    }
                }
                assert(entries_map(entries@) =~= entries_map(old_entries).insert(k, value)) by {
                    assert forall|q: Seq<char>|
                        entries_map(entries@).contains_key(q) == entries_map(old_entries).insert(
                            k,
                            value,
                        ).contains_key(q) by {
                        if entries_map(entries@).contains_key(q) {
                            let j = choose|j: int| 0 <= j < entries@.len() && #[trigger] entries@[j].0@ == q;
                            if j != last {
                                assert(old_entries[j].0@ == q);
                            }
                        }
                        if entries_map(old_entries).contains_key(q) {
                            let j = choose|j: int| 0 <= j < old_entries.len() && #[trigger] old_entries[j].0@ == q;
                            assert(entries@[j].0@ == q);
                        }
                        if q == k {
                            assert(entries@[last].0@ == q);
                        }
                    }
                    assert forall|q: Seq<char>| #[trigger]
                        entries_map(entries@).contains_key(q) implies entries_map(entries@)[q]
                        == entries_map(old_entries).insert(k, value)[q] by {
                        let j = choose|j: int| 0 <= j < entries@.len() && #[trigger] entries@[j].0@ == q;
                        lemma_entries_map_at(entries@, j);
                        if j != last {
                            assert(entries@[j] == old_entries[j]);
                            lemma_entries_map_at(old_entries, j);
                        }
                    }
                }
            },
        }
        self.entries = entries;
    }

    /// The entity stored under `key`, if any.
    pub fn get(&self, key: &str) -> (r: Option<&EntityInfo>)
        ensures
            match r {
                None => !self@.contains_key(key@),
                Some(v) => self@.contains_key(key@) && *v == self@[key@],
            },
    {
        proof {
            use_type_invariant(self);
        }
        let k = key.to_owned();
        match Self::position(&self.entries, &k) {
            None => {
                assert(!entries_map(self.entries@).contains_key(key@));
                None
            },
            Some(i) => {
                proof {
                    lemma_entries_map_at(self.entries@, i as int);
                }
                Some(&self.entries[i].1)
            },
        }
    }

    /// A map holding the given pairs; where an id occurs twice, the later
    /// pair wins.
    pub fn from_pairs(pairs: Vec<(String, EntityInfo)>) -> (r: EntityMap)
        ensures
            r@ == pairs_map(pairs@),
    {
        let mut m = EntityMap::new();
        let ghost all = pairs@;
        let mut rest = pairs;
        assert(all.take(0) =~= Seq::<(String, EntityInfo)>::empty());
        let n = rest.len();
        let mut i: usize = 0;
        // Take the pairs out front to back by reversing once.
        let mut reversed: Vec<(String, EntityInfo)> = Vec::new();
        while rest.len() > 0
            invariant
                rest@.len() + reversed@.len() == n,
                n == all.len(),
                forall|j: int| 0 <= j < rest@.len() ==> rest@[j] == all[j],
                forall|j: int| 0 <= j < reversed@.len() ==> #[trigger] reversed@[j] == all[n - 1 - j],
            decreases rest@.len(),
        {
            let p = rest.pop().unwrap();
            reversed.push(p);
        }
        while i < n
            invariant
                i <= n,
                n == all.len(),
                reversed@.len() == n - i,
                forall|j: int| 0 <= j < reversed@.len() ==> #[trigger] reversed@[j] == all[n - 1 - j],
                m@ == pairs_map(all.take(i as int)),
            decreases n - i,
        {
            let p = reversed.pop().unwrap();
            assert(p == all[i as int]);
            assert(all.take(i + 1).drop_last() =~= all.take(i as int));
            m.insert(p.0, p.1);
            i = i + 1;
        }
        assert(all.take(n as int) =~= all);
        m
    }
}

} // verus!
