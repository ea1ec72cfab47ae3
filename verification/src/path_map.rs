//! Maps from device paths to values, walked in the order of the paths.

use vstd::prelude::*;

use crate::path::{lemma_path_order, path_less, Order, PathView, SysPath};

verus! {

/// Whether the keys of `entries` strictly increase.
pub open spec fn sorted<V>(entries: Seq<(PathView, V)>) -> bool {
    forall|i: int, j: int|
        0 <= i < j < entries.len() ==> path_less(
            (#[trigger] entries[i]).0,
            (#[trigger] entries[j]).0,
        )
}

/// Whether `entries` has the key `key` at position `i`.
pub open spec fn has_key_at<V>(entries: Seq<(PathView, V)>, key: PathView, i: int) -> bool {
    0 <= i < entries.len() && entries[i].0 == key
}

/// The map that `entries` lists.
pub open spec fn entries_map<V>(entries: Seq<(PathView, V)>) -> Map<PathView, V> {
    Map::new(
        |key: PathView| exists|i: int| has_key_at(entries, key, i),
        |key: PathView| entries[choose|i: int| has_key_at(entries, key, i)].1,
    )
}

/// No two entries of a sorted list have the same key.
proof fn lemma_distinct<V>(entries: Seq<(PathView, V)>, i: int, j: int)
    requires
        sorted(entries),
        0 <= i < entries.len(),
        0 <= j < entries.len(),
        entries[i].0 == entries[j].0,
    ensures
        i == j,
{
    lemma_path_order(entries[i].0, entries[i].0, entries[i].0);
}

/// A sorted list's map holds the list's entries.
pub proof fn lemma_entry<V>(entries: Seq<(PathView, V)>, i: int)
    requires
        sorted(entries),
        0 <= i < entries.len(),
    ensures
        entries_map(entries).contains_key(entries[i].0),
        entries_map(entries)[entries[i].0] == entries[i].1,
{
    let key = entries[i].0;
    assert(has_key_at(entries, key, i));
    let j = choose|j: int| has_key_at(entries, key, j);
    lemma_distinct(entries, i, j);
}

/// A map has one sorted list: the order in which the map is walked follows from its contents.
pub proof fn lemma_entries_unique<V>(a: Seq<(PathView, V)>, b: Seq<(PathView, V)>)
    requires
        sorted(a),
        sorted(b),
        entries_map(a) == entries_map(b),
    ensures
        a == b,
    decreases a.len() + b.len(),
{
    if a.len() == 0 {
        if b.len() > 0 {
            lemma_entry(b, 0);
            assert(entries_map(a).contains_key(b[0].0));
        }
        assert(a =~= b);
    } else if b.len() == 0 {
        lemma_entry(a, 0);
        assert(entries_map(b).contains_key(a[0].0));
    } else {
        let i = a.len() - 1;
        let j = b.len() - 1;
        lemma_entry(a, i);
        lemma_entry(b, j);
        assert(entries_map(b).contains_key(a[i].0));
        assert(entries_map(a).contains_key(b[j].0));
        let p = choose|p: int| has_key_at(b, a[i].0, p);
        let q = choose|q: int| has_key_at(a, b[j].0, q);
        if p < j {
            assert(path_less(a[i].0, b[j].0));
            if q < i {
                lemma_path_order(a[i].0, b[j].0, a[i].0);
            } else {
                lemma_path_order(a[i].0, a[i].0, a[i].0);
            }
        }
        assert(a[i] == b[j]);
        lemma_map_drop_last(a);
        lemma_map_drop_last(b);
        lemma_entries_unique(a.drop_last(), b.drop_last());
        assert(a =~= a.drop_last().push(a[i]));
        assert(b =~= b.drop_last().push(b[j]));
    }
}

proof fn lemma_map_drop_last<V>(entries: Seq<(PathView, V)>)
    requires
        sorted(entries),
        entries.len() > 0,
    ensures
        sorted(entries.drop_last()),
        entries_map(entries.drop_last()) == entries_map(entries).remove(entries.last().0),
{
    assert(entries.drop_last() =~= entries.remove(entries.len() - 1));
    lemma_map_remove(entries, entries.len() - 1);
}

proof fn lemma_map_remove<V>(entries: Seq<(PathView, V)>, at: int)
    requires
        sorted(entries),
        0 <= at < entries.len(),
    ensures
        sorted(entries.remove(at)),
        entries_map(entries.remove(at)) == entries_map(entries).remove(entries[at].0),
{
    let less = entries.remove(at);
    assert(sorted(less)) by {
        assert forall|i: int, j: int| 0 <= i < j < less.len() implies path_less(
            (#[trigger] less[i]).0,
            (#[trigger] less[j]).0,
        ) by {
            let p = if i < at { i } else { i + 1 };
            let q = if j < at { j } else { j + 1 };
            assert(less[i] == entries[p] && less[j] == entries[q]);
        }
    }
    let want = entries_map(entries).remove(entries[at].0);
    assert forall|key: PathView| #[trigger] entries_map(less).contains_key(key)
        == want.contains_key(key) by {
        if entries_map(less).contains_key(key) {
            let i = choose|i: int| has_key_at(less, key, i);
            let p = if i < at { i } else { i + 1 };
            assert(less[i] == entries[p]);
            lemma_entry(entries, p);
            if key == entries[at].0 {
                lemma_distinct(entries, p, at);
            }
        }
        if want.contains_key(key) {
            let p = choose|p: int| has_key_at(entries, key, p);
            assert(p != at);
            let i = if p < at { p } else { p - 1 };
            assert(less[i] == entries[p]);
            assert(has_key_at(less, key, i));
        }
    }
    assert forall|key: PathView| #[trigger] entries_map(less).contains_key(key) implies entries_map(
        less,
    )[key] == want[key] by {
        let i = choose|i: int| has_key_at(less, key, i);
        let p = if i < at { i } else { i + 1 };
        assert(less[i] == entries[p]);
        lemma_entry(entries, p);
        lemma_entry(less, i);
    }
    assert(entries_map(less) =~= want);
}

proof fn lemma_map_insert<V>(entries: Seq<(PathView, V)>, at: int, key: PathView, value: V)
    requires
        sorted(entries),
        0 <= at <= entries.len(),
        forall|i: int| 0 <= i < at ==> path_less((#[trigger] entries[i]).0, key),
        forall|i: int| at <= i < entries.len() ==> path_less(key, (#[trigger] entries[i]).0),
    ensures
        sorted(entries.insert(at, (key, value))),
        entries_map(entries.insert(at, (key, value))) == entries_map(entries).insert(key, value),
        !entries_map(entries).contains_key(key),
{
    let more = entries.insert(at, (key, value));
    assert(sorted(more)) by {
        assert forall|i: int, j: int| 0 <= i < j < more.len() implies path_less(
            (#[trigger] more[i]).0,
            (#[trigger] more[j]).0,
        ) by {
            if i < at {
                assert(more[i] == entries[i]);
            } else if i > at {
                assert(more[i] == entries[i - 1]);
            }
            if j < at {
                assert(more[j] == entries[j]);
            } else if j > at {
                assert(more[j] == entries[j - 1]);
            }
        }
    }
    if entries_map(entries).contains_key(key) {
        let i = choose|i: int| has_key_at(entries, key, i);
        lemma_path_order(key, key, key);
    }
    assert(more[at] == (key, value));
    lemma_entry(more, at);
    lemma_map_remove(more, at);
    assert(more.remove(at) =~= entries);
    assert(entries_map(more) =~= entries_map(entries).insert(key, value));
}

proof fn lemma_map_update<V>(entries: Seq<(PathView, V)>, at: int, value: V)
    requires
        sorted(entries),
        0 <= at < entries.len(),
    ensures
        sorted(entries.update(at, (entries[at].0, value))),
        entries_map(entries.update(at, (entries[at].0, value))) == entries_map(entries).insert(
            entries[at].0,
            value,
        ),
{
    let key = entries[at].0;
    let new = entries.update(at, (key, value));
    assert(sorted(new)) by {
        assert forall|i: int, j: int| 0 <= i < j < new.len() implies path_less(
            (#[trigger] new[i]).0,
            (#[trigger] new[j]).0,
        ) by {
            assert(new[i].0 == entries[i].0 && new[j].0 == entries[j].0);
        }
    }
    lemma_entry(new, at);
    lemma_entry(entries, at);
    lemma_map_remove(new, at);
    lemma_map_remove(entries, at);
    assert(new.remove(at) =~= entries.remove(at));
    assert(entries_map(new) =~= entries_map(new).remove(key).insert(key, value));
    assert(entries_map(entries).insert(key, value) =~= entries_map(entries).remove(key).insert(
        key,
        value,
    ));
}

/// A map from paths to values.
pub struct PathMap<V> {
    entries: Vec<(SysPath, V)>,
}

impl<V> View for PathMap<V> {
    type V = Map<PathView, V>;

    open spec fn view(&self) -> Map<PathView, V> {
        entries_map(self.entries())
    }
}

impl<V> PathMap<V> {
    /// The entries, in the order in which the map is walked.
    pub closed spec fn entries(self) -> Seq<(PathView, V)> {
        Seq::new(self.entries.len() as nat, |i: int| (self.entries[i].0@, self.entries[i].1))
    }

    /// The invariant: the paths increase.
    pub open spec fn wf(self) -> bool {
        sorted(self.entries())
    }

    /// An empty map.
    pub fn new() -> (map: PathMap<V>)
        ensures
            map.wf(),
            map@ == Map::<PathView, V>::empty(),
            map.entries() == Seq::<(PathView, V)>::empty(),
    {
        let map = PathMap { entries: Vec::new() };
        assert(map.entries() =~= Seq::empty());
        assert(map@ =~= Map::empty());
        map
    }

    /// The number of entries.
    pub fn len(&self) -> (len: usize)
        ensures
            len == self.entries().len(),
    {
        self.entries.len()
    }

    /// The value of the entry at position `i`.
    pub fn value_at(&self, i: usize) -> (value: &V)
        requires
            i < self.entries().len(),
        ensures
            *value == self.entries()[i as int].1,
    {
        &self.entries[i].1
    }

    /// Where `path` is, or where it would go.
    fn position(&self, path: &SysPath) -> (position: Result<usize, usize>)
        requires
            self.wf(),
        ensures
            position matches Ok(i) ==> i < self.entries().len() && self.entries()[i as int].0
                == path@,
            position matches Err(at) ==> {
                &&& at <= self.entries().len()
                &&& forall|i: int|
                    0 <= i < at ==> path_less((#[trigger] self.entries()[i]).0, path@)
                &&& forall|i: int|
                    at <= i < self.entries().len() ==> path_less(
                        path@,
                        (#[trigger] self.entries()[i]).0,
                    )
            },
    {
        let mut i: usize = 0;
        while i < self.entries.len()
            invariant
                self.wf(),
                i <= self.entries.len(),
                self.entries().len() == self.entries.len(),
                forall|j: int| 0 <= j < i ==> path_less((#[trigger] self.entries()[j]).0, path@),
            decreases self.entries.len() - i,
        {
            assert(self.entries()[i as int].0 == self.entries[i as int].0@);
            match self.entries[i].0.compare(path) {
                Order::Equal => {
                    return Ok(i);
                },
                Order::Greater => {
                    assert forall|j: int| i <= j < self.entries().len() implies path_less(
                        path@,
                        (#[trigger] self.entries()[j]).0,
                    ) by {
                        lemma_path_order(path@, self.entries()[i as int].0, self.entries()[j].0);
                    }
                    return Err(i);
                },
                Order::Less => {},
            }
            i += 1;
        }
        Err(i)
    }

    proof fn lemma_absent(self, path: PathView, at: int)
        requires
            self.wf(),
            0 <= at <= self.entries().len(),
            forall|i: int| 0 <= i < at ==> path_less((#[trigger] self.entries()[i]).0, path),
            forall|i: int|
                at <= i < self.entries().len() ==> path_less(
                    path,
                    (#[trigger] self.entries()[i]).0,
                ),
        ensures
            !self@.contains_key(path),
    {
        if self@.contains_key(path) {
            let i = choose|i: int| has_key_at(self.entries(), path, i);
            lemma_path_order(path, path, path);
        }
    }

    /// The value of `path`.
    pub fn get(&self, path: &SysPath) -> (value: Option<&V>)
        requires
            self.wf(),
        ensures
            value is Some <==> self@.contains_key(path@),
            value matches Some(v) ==> *v == self@[path@],
    {
        match self.position(path) {
            Ok(i) => {
                proof {
                    lemma_entry(self.entries(), i as int);
                }
                Some(&self.entries[i].1)
            },
            Err(at) => {
                proof {
                    self.lemma_absent(path@, at as int);
                }
                None
            },
        }
    }

    /// Whether `path` has a value.
    pub fn contains_key(&self, path: &SysPath) -> (contains: bool)
        requires
            self.wf(),
        ensures
            contains == self@.contains_key(path@),
    {
        self.get(path).is_some()
    }

    /// Gives `path` the value `value`, and returns the value that it had.
    pub fn insert(&mut self, path: SysPath, value: V) -> (replaced: Option<V>)
        requires
            old(self).wf(),
        ensures
            final(self).wf(),
            final(self)@ == old(self)@.insert(path@, value),
            replaced is Some <==> old(self)@.contains_key(path@),
            replaced matches Some(v) ==> v == old(self)@[path@],
    {
        let ghost before = *self;
        let ghost key = path@;
        match self.position(&path) {
            Ok(i) => {
                proof {
                    lemma_entry(before.entries(), i as int);
                    lemma_map_update(before.entries(), i as int, value);
                }
                let (kept, replaced) = self.entries.remove(i);
                self.entries.insert(i, (kept, value));
                assert(self.entries() =~= before.entries().update(i as int, (key, value)));
                Some(replaced)
            },
            Err(at) => {
                proof {
                    lemma_map_insert(before.entries(), at as int, key, value);
                }
                self.entries.insert(at, (path, value));
                assert(self.entries() =~= before.entries().insert(at as int, (key, value)));
                None
            },
        }
    }

    /// Takes `path` out of the map, and returns the value that it had.
    pub fn remove(&mut self, path: &SysPath) -> (removed: Option<V>)
        requires
            old(self).wf(),
        ensures
            final(self).wf(),
            final(self)@ == old(self)@.remove(path@),
            removed is Some <==> old(self)@.contains_key(path@),
            removed matches Some(v) ==> v == old(self)@[path@],
    {
        let ghost before = *self;
        match self.position(path) {
            Ok(i) => {
                proof {
                    lemma_entry(before.entries(), i as int);
                    lemma_map_remove(before.entries(), i as int);
                }
                let (_, removed) = self.entries.remove(i);
                assert(self.entries() =~= before.entries().remove(i as int));
                Some(removed)
            },
            Err(at) => {
                proof {
                    before.lemma_absent(path@, at as int);
                    assert(before@.remove(path@) =~= before@);
                }
                None
            },
        }
    }
}

} // verus!
