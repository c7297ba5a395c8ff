//! A map from paths to values.

use vstd::prelude::*;

use crate::path::{components, path_mark, FilePath};
use crate::path_index::PlaceIndex;

verus! {

/// What stands at the key of each path: the text under which it was entered, and the value.
pub open spec fn keyed<V>(entries: Seq<(FilePath, V)>) -> Map<Seq<Seq<u8>>, (Seq<u8>, V)> {
    Map::new(
        |key: Seq<Seq<u8>>|
            exists|i: int|
                0 <= i < entries.len() && components((#[trigger] entries[i]).0@) == key,
        |key: Seq<Seq<u8>>|
            {
                let i = choose|i: int|
                    0 <= i < entries.len() && components((#[trigger] entries[i]).0@) == key;
                (entries[i].0@, entries[i].1)
            },
    )
}

/// No path is entered twice.
pub open spec fn distinct<V>(entries: Seq<(FilePath, V)>) -> bool {
    forall|i: int, j: int|
        0 <= i < entries.len() && 0 <= j < entries.len() && components(
            (#[trigger] entries[i]).0@,
        ) == components((#[trigger] entries[j]).0@) ==> i == j
}

/// A map whose keys are paths. Two texts with the same components are the same key; the text
/// under which a path was first entered is kept.
#[derive(Debug)]
pub struct PathMap<V> {
    entries: Vec<(FilePath, V)>,
    index: PlaceIndex,
}

/// The marks of the paths that are entered.
spec fn marks_of<V>(entries: Seq<(FilePath, V)>) -> Seq<u64> {
    entries.map_values(|e: (FilePath, V)| path_mark(components(e.0@)))
}

impl<V> View for PathMap<V> {
    type V = Map<Seq<Seq<u8>>, (Seq<u8>, V)>;

    closed spec fn view(&self) -> Map<Seq<Seq<u8>>, (Seq<u8>, V)> {
        keyed(self.entries@)
    }
}

pub proof fn lemma_keyed_at<V>(entries: Seq<(FilePath, V)>, i: int)
    requires
        distinct(entries),
        0 <= i < entries.len(),
    ensures
        keyed(entries).contains_key(components(entries[i].0@)),
        keyed(entries)[components(entries[i].0@)] == (entries[i].0@, entries[i].1),
{
    let key = components(entries[i].0@);
    let j = choose|j: int|
        0 <= j < entries.len() && components((#[trigger] entries[j]).0@) == key;
    assert(components(entries[j].0@) == key);
    assert(j == i);
}

impl<V> PathMap<V> {
    /// No path is entered twice, and the index leads to every path.
    pub closed spec fn wf(self) -> bool {
        distinct(self.entries@) && self.index.indexes(marks_of(self.entries@))
    }

    /// The entries, in some order.
    pub closed spec fn entries(self) -> Seq<(FilePath, V)> {
        self.entries@
    }

    /// The entries make up the map.
    pub broadcast proof fn lemma_entries(self)
        requires
            self.wf(),
        ensures
            #![trigger self.entries()]
            self@ == keyed(self.entries()),
            distinct(self.entries()),
            self.entries().len() <= usize::MAX,
    {
    }

    /// An empty map.
    pub fn new() -> (res: Self)
        ensures
            res.wf(),
            res@ == Map::<Seq<Seq<u8>>, (Seq<u8>, V)>::empty(),
    {
        let res = PathMap { entries: Vec::new(), index: PlaceIndex::new() };
        assert(res@ =~= Map::empty());
        assert(marks_of(res.entries@) =~= seq![]);
        res
    }

    /// How many paths are entered.
    pub fn len(&self) -> (res: usize)
        ensures
            res == self.entries().len(),
    {
        self.entries.len()
    }

    /// The entry at a place, in the order of [`PathMap::entries`].
    pub fn entry(&self, i: usize) -> (res: &(FilePath, V))
        requires
            i < self.entries().len(),
        ensures
            *res == self.entries()[i as int],
    {
        &self.entries[i]
    }

    /// The place of a path.
    fn find(&self, path: &FilePath) -> (res: Option<usize>)
        requires
            self.wf(),
        ensures
            match res {
                Some(i) => i < self.entries@.len() && components(self.entries@[i as int].0@)
                    == components(path@),
                None => forall|i: int|
                    0 <= i < self.entries@.len() ==> components((#[trigger] self.entries@[i]).0@)
                        != components(path@),
            },
    {
        let ghost marks = marks_of(self.entries@);
        let mark: u64 = path.mark();
        let places = match self.index.bearing(mark) {
            Some(places) => places,
            None => {
                assert forall|i: int| 0 <= i < self.entries@.len() implies components(
                    (#[trigger] self.entries@[i]).0@,
                ) != components(path@) by {
                    assert(self.index.leads(marks[i], i as usize));
                }
                return None;
            },
        };
        let mut k: usize = 0;
        while k < places.len()
            invariant
                k <= places.len(),
                marks == marks_of(self.entries@),
                self.index.indexes(marks),
                forall|place: usize|
                    #![trigger self.index.leads(mark, place)]
                    self.index.leads(mark, place) <==> places@.contains(place),
                forall|j: int|
                    0 <= j < k ==> components(
                        self.entries@[(#[trigger] places@[j]) as int].0@,
                    ) != components(path@),
            decreases places.len() - k,
        {
            let i: usize = places[k];
            assert(places@.contains(i));
            assert(self.index.leads(mark, i));
            if self.entries[i].0.same_as(path) {
                return Some(i);
            }
            k += 1;
        }
        proof {
            assert forall|i: int| 0 <= i < self.entries@.len() implies components(
                (#[trigger] self.entries@[i]).0@,
            ) != components(path@) by {
                if components(self.entries@[i].0@) == components(path@) {
                    assert(marks[i] == mark);
                    assert(self.index.leads(mark, i as usize));
                    let j = places@.index_of(i as usize);
                    assert(places@[j] == i as usize);
                }
            }
        }
        None
    }

    /// The value at a path.
    pub fn get(&self, path: &FilePath) -> (res: Option<&V>)
        requires
            self.wf(),
        ensures
            match res {
                Some(value) => self@.contains_key(components(path@)) && *value == self@[components(
                    path@,
                )].1,
                None => !self@.contains_key(components(path@)),
            },
    {
        match self.find(path) {
            Some(i) => {
                proof {
                    lemma_keyed_at(self.entries@, i as int);
                }
                Some(&self.entries[i].1)
            },
            None => None,
        }
    }

    /// Enters a value at a path, in place of the one that stood there.
    pub fn insert(&mut self, path: FilePath, value: V) -> (res: Option<V>)
        requires
            old(self).wf(),
        ensures
            final(self).wf(),
            final(self)@ == entered(old(self)@, path@, value),
            match res {
                Some(was) => old(self)@.contains_key(components(path@)) && was
                    == old(self)@[components(path@)].1,
                None => !old(self)@.contains_key(components(path@)),
            },
    {
        let ghost before = self.entries@;
        let ghost key = components(path@);
        match self.find(&path) {
            Some(i) => {
                proof {
                    lemma_keyed_at(before, i as int);
                }
                let mut value = value;
                let ghost new = value;
                std::mem::swap(&mut self.entries[i].1, &mut value);
                proof {
                    assert(self.entries@ =~= before.update(i as int, (before[i as int].0, new)));
                    lemma_set_value(before, i as int, new);
                    assert(marks_of(self.entries@) =~= marks_of(before));
                }
                Some(value)
            },
            None => {
                let mark: u64 = path.mark();
                let place: usize = self.entries.len();
                let ghost new = value;
                self.entries.push((path, value));
                assert(self.entries.len() == place + 1);
                self.index.push(Ghost(marks_of(before)), mark, place);
                proof {
                    lemma_push(before, (path, new));
                    assert(marks_of(self.entries@) =~= marks_of(before).push(mark));
                }
                None
            },
        }
    }
}

impl<V> PathMap<V> {
    /// Takes a path out, with its value.
    pub fn remove(&mut self, path: &FilePath) -> (res: Option<V>)
        requires
            old(self).wf(),
        ensures
            final(self).wf(),
            final(self)@ == old(self)@.remove(components(path@)),
            match res {
                Some(value) => old(self)@.contains_key(components(path@)) && value
                    == old(self)@[components(path@)].1,
                None => !old(self)@.contains_key(components(path@)),
            },
    {
        match self.find(path) {
            Some(i) => {
                proof {
                    lemma_keyed_at(self.entries@, i as int);
                }
                let (_, value) = self.remove_at(i);
                Some(value)
            },
            None => {
                assert(self@.remove(components(path@)) =~= self@);
                None
            },
        }
    }

    /// The value at a place, in the order of [`PathMap::entries`], to be changed.
    pub fn value_mut(&mut self, i: usize) -> (res: &mut V)
        requires
            old(self).wf(),
            i < old(self).entries().len(),
        ensures
            final(self).wf(),
            *res == old(self).entries()[i as int].1,
            final(self).entries() == old(self).entries().update(
                i as int,
                (old(self).entries()[i as int].0, *final(res)),
            ),
            final(self)@ == entered(
                old(self)@,
                old(self).entries()[i as int].0@,
                *final(res),
            ),
    {
        let ghost before = self.entries@;
        let res = &mut self.entries[i].1;
        proof {
            lemma_keyed_at(before, i as int);
            lemma_set_value(before, i as int, *final(res));
            let after = before.update(i as int, (before[i as int].0, *final(res)));
            assert(marks_of(after) =~= marks_of(before));
        }
        res
    }

    /// Takes the entry at a place out, in the order of [`PathMap::entries`]. The last entry comes
    /// to stand in its place.
    pub fn remove_at(&mut self, i: usize) -> (res: (FilePath, V))
        requires
            old(self).wf(),
            i < old(self).entries().len(),
        ensures
            final(self).wf(),
            res == old(self).entries()[i as int],
            final(self).entries() == old(self).entries().update(
                i as int,
                old(self).entries().last(),
            ).drop_last(),
            final(self)@ == old(self)@.remove(components(res.0@)),
    {
        let ghost before = self.entries@;
        let last: usize = self.entries.len() - 1;
        let mark: u64 = self.entries[i].0.mark();
        let last_mark: u64 = self.entries[last].0.mark();
        self.index.swap_remove(Ghost(marks_of(before)), mark, i, last_mark, last);
        let res = self.entries.swap_remove(i);
        proof {
            lemma_remove(before, i as int);
            assert(marks_of(self.entries@) =~= marks_of(before).update(
                i as int,
                last_mark,
            ).drop_last());
        }
        res
    }
}

/// The map with this value at this path. The text under which the path was first entered is kept.
pub open spec fn entered<V>(
    map: Map<Seq<Seq<u8>>, (Seq<u8>, V)>,
    path: Seq<u8>,
    value: V,
) -> Map<Seq<Seq<u8>>, (Seq<u8>, V)> {
    let key = components(path);
    map.insert(
        key,
        (
            if map.contains_key(key) {
                map[key].0
            } else {
                path
            },
            value,
        ),
    )
}

/// Entering a value changes what stands at that path, and nothing else. The text under which the
/// path was first entered is kept.
pub proof fn law_entering_changes_one_path<V>(
    map: Map<Seq<Seq<u8>>, (Seq<u8>, V)>,
    path: Seq<u8>,
    value: V,
    key: Seq<Seq<u8>>,
)
    ensures
        entered(map, path, value).dom().contains(components(path)),
        entered(map, path, value)[components(path)].1 == value,
        map.dom().contains(components(path)) ==> entered(map, path, value)[components(path)].0
            == map[components(path)].0,
        !map.dom().contains(components(path)) ==> entered(map, path, value)[components(path)].0
            == path,
        key != components(path) ==> (entered(map, path, value).dom().contains(key)
            <==> map.dom().contains(key)),
        key != components(path) && map.dom().contains(key) ==> entered(map, path, value)[key]
            == map[key],
{
}

/// The map that has the entries, and nothing else, is the map that they make up.
proof fn lemma_keyed_is<V>(
    entries: Seq<(FilePath, V)>,
    map: Map<Seq<Seq<u8>>, (Seq<u8>, V)>,
)
    requires
        distinct(entries),
        forall|i: int|
            #![trigger entries[i]]
            0 <= i < entries.len() ==> map.dom().contains(components(entries[i].0@))
                && map[components(entries[i].0@)] == (entries[i].0@, entries[i].1),
        forall|key: Seq<Seq<u8>>| #[trigger]
            map.dom().contains(key) ==> exists|i: int|
                0 <= i < entries.len() && components((#[trigger] entries[i]).0@) == key,
    ensures
        keyed(entries) == map,
{
    let own = keyed(entries);
    assert forall|key: Seq<Seq<u8>>| #[trigger] own.dom().contains(key) == map.dom().contains(
        key,
    ) by {
        if own.dom().contains(key) {
            let i = choose|i: int|
                0 <= i < entries.len() && components((#[trigger] entries[i]).0@) == key;
            assert(map.dom().contains(components(entries[i].0@)));
        }
    }
    assert forall|key: Seq<Seq<u8>>| #[trigger] own.dom().contains(key) implies own[key]
        == map[key] by {
        let i = choose|i: int|
            0 <= i < entries.len() && components((#[trigger] entries[i]).0@) == key;
        lemma_keyed_at(entries, i);
        assert(map.dom().contains(components(entries[i].0@)));
    }
    assert(own =~= map);
}

/// Where a key of the map stands among the entries.
pub proof fn lemma_keyed_place<V>(entries: Seq<(FilePath, V)>, key: Seq<Seq<u8>>) -> (i: int)
    requires
        keyed(entries).dom().contains(key),
    ensures
        0 <= i < entries.len(),
        components(entries[i].0@) == key,
{
    choose|i: int| 0 <= i < entries.len() && components((#[trigger] entries[i]).0@) == key
}

proof fn lemma_push<V>(entries: Seq<(FilePath, V)>, entry: (FilePath, V))
    requires
        distinct(entries),
        forall|i: int|
            0 <= i < entries.len() ==> components((#[trigger] entries[i]).0@) != components(
                entry.0@,
            ),
    ensures
        distinct(entries.push(entry)),
        keyed(entries.push(entry)) == keyed(entries).insert(
            components(entry.0@),
            (entry.0@, entry.1),
        ),
        !keyed(entries).contains_key(components(entry.0@)),
{
    let after = entries.push(entry);
    let key = components(entry.0@);
    let map = keyed(entries).insert(key, (entry.0@, entry.1));
    if keyed(entries).dom().contains(key) {
        let i = lemma_keyed_place(entries, key);
    }
    assert forall|i: int|
        #![trigger after[i]]
        0 <= i < after.len() implies map.dom().contains(components(after[i].0@))
        && map[components(after[i].0@)] == (after[i].0@, after[i].1) by {
        if i < entries.len() {
            lemma_keyed_at(entries, i);
            assert(after[i] == entries[i]);
        }
    }
    assert forall|k: Seq<Seq<u8>>| #[trigger] map.dom().contains(k) implies exists|i: int|
        0 <= i < after.len() && components((#[trigger] after[i]).0@) == k by {
        if k == key {
            assert(components(after[entries.len() as int].0@) == k);
        } else {
            let i = lemma_keyed_place(entries, k);
            assert(components(after[i].0@) == k);
        }
    }
    lemma_keyed_is(after, map);
}

proof fn lemma_set_value<V>(entries: Seq<(FilePath, V)>, at: int, value: V)
    requires
        distinct(entries),
        0 <= at < entries.len(),
    ensures
        distinct(entries.update(at, (entries[at].0, value))),
        keyed(entries.update(at, (entries[at].0, value))) == keyed(entries).insert(
            components(entries[at].0@),
            (entries[at].0@, value),
        ),
{
    let after = entries.update(at, (entries[at].0, value));
    let key = components(entries[at].0@);
    let map = keyed(entries).insert(key, (entries[at].0@, value));
    assert forall|i: int| 0 <= i < entries.len() implies (#[trigger] after[i]).0
        == entries[i].0 by {}
    assert(distinct(after)) by {
        assert forall|i: int, j: int|
            0 <= i < after.len() && 0 <= j < after.len() && components((#[trigger] after[i]).0@)
                == components((#[trigger] after[j]).0@) implies i == j by {
            assert(components(entries[i].0@) == components(entries[j].0@));
        }
    }
    assert forall|i: int|
        #![trigger after[i]]
        0 <= i < after.len() implies map.dom().contains(components(after[i].0@))
        && map[components(after[i].0@)] == (after[i].0@, after[i].1) by {
        lemma_keyed_at(entries, i);
        if i != at {
            assert(components(entries[i].0@) != key);
        }
    }
    assert forall|k: Seq<Seq<u8>>| #[trigger] map.dom().contains(k) implies exists|i: int|
        0 <= i < after.len() && components((#[trigger] after[i]).0@) == k by {
        if k == key {
            assert(components(after[at].0@) == k);
        } else {
            let i = lemma_keyed_place(entries, k);
            assert(components(after[i].0@) == k);
        }
    }
    lemma_keyed_is(after, map);
}

proof fn lemma_remove<V>(entries: Seq<(FilePath, V)>, at: int)
    requires
        distinct(entries),
        0 <= at < entries.len(),
    ensures
        distinct(entries.update(at, entries.last()).drop_last()),
        keyed(entries.update(at, entries.last()).drop_last()) == keyed(entries).remove(
            components(entries[at].0@),
        ),
{
    let after = entries.update(at, entries.last()).drop_last();
    let key = components(entries[at].0@);
    let map = keyed(entries).remove(key);
    let last = entries.len() - 1;
    let was = |i: int|
        if i == at {
            last
        } else {
            i
        };
    assert forall|i: int| 0 <= i < after.len() implies #[trigger] after[i] == entries[was(
        i,
    )] by {}
    assert(distinct(after)) by {
        assert forall|i: int, j: int|
            0 <= i < after.len() && 0 <= j < after.len() && components((#[trigger] after[i]).0@)
                == components((#[trigger] after[j]).0@) implies i == j by {
            assert(components(entries[was(i)].0@) == components(entries[was(j)].0@));
        }
    }
    assert forall|i: int|
        #![trigger after[i]]
        0 <= i < after.len() implies map.dom().contains(components(after[i].0@))
        && map[components(after[i].0@)] == (after[i].0@, after[i].1) by {
        lemma_keyed_at(entries, was(i));
        assert(components(entries[was(i)].0@) != key);
    }
    assert forall|k: Seq<Seq<u8>>| #[trigger] map.dom().contains(k) implies exists|i: int|
        0 <= i < after.len() && components((#[trigger] after[i]).0@) == k by {
        let i = lemma_keyed_place(entries, k);
        assert(i != at);
        let j = if i == last {
            at
        } else {
            i
        };
        assert(components(after[j].0@) == k);
    }
    lemma_keyed_is(after, map);
}

} // verus!
