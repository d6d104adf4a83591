//! Tables from names to items, in the order of insertion.

use crate::eval::keys::{
    items_of, lemma_key_view, set_count, set_index_of, set_insert_full, set_item, set_new,
    set_shift_remove_full, str_key, KeyV, MapKey,
};
use indexmap::IndexSet;
use vstd::prelude::*;
use vstd::string::*;

verus! {

/// Where the first entry for `name` stands, from the `i`-th on.
pub open spec fn find_from<T>(s: Seq<(Seq<char>, T)>, name: Seq<char>, i: int) -> Option<int>
    decreases s.len() - i,
{
    if !(0 <= i < s.len()) {
        None
    } else if s[i].0 == name {
        Some(i)
    } else {
        find_from(s, name, i + 1)
    }
}

/// Where the first entry for `name` stands.
pub open spec fn find<T>(s: Seq<(Seq<char>, T)>, name: Seq<char>) -> Option<int> {
    find_from(s, name, 0)
}

/// What `name` stands for.
pub open spec fn lookup<T>(s: Seq<(Seq<char>, T)>, name: Seq<char>) -> Option<T> {
    match find(s, name) {
        Some(i) => Some(s[i].1),
        None => None,
    }
}

/// The table once `name` stands for `item`.
pub open spec fn put<T>(s: Seq<(Seq<char>, T)>, name: Seq<char>, item: T) -> Seq<(Seq<char>, T)> {
    match find(s, name) {
        Some(i) => s.update(i, (name, item)),
        None => s.push((name, item)),
    }
}

/// The table once `name` stands for `item`, unless it stands for something already.
pub open spec fn put_new<T>(s: Seq<(Seq<char>, T)>, name: Seq<char>, item: T) -> Seq<
    (Seq<char>, T),
> {
    match find(s, name) {
        Some(_) => s,
        None => s.push((name, item)),
    }
}

/// The table once `name` stands for nothing.
pub open spec fn without<T>(s: Seq<(Seq<char>, T)>, name: Seq<char>) -> Seq<(Seq<char>, T)> {
    match find(s, name) {
        Some(i) => s.remove(i),
        None => s,
    }
}

/// No two entries have the same name.
pub open spec fn distinct_names<T>(s: Seq<(Seq<char>, T)>) -> bool {
    forall|i: int, j: int|
        0 <= i < s.len() && 0 <= j < s.len() && (#[trigger] s[i]).0 == (#[trigger] s[j]).0 ==> i
            == j
}

/// The table of the first entries grows by the next one.
pub proof fn lemma_next<T>(s: Seq<(Seq<char>, T)>, i: int)
    requires
        0 <= i < s.len(),
        distinct_names(s),
    ensures
        put(s.take(i), s[i].0, s[i].1) == s.take(i + 1),
{
    lemma_find(s.take(i), s[i].0, 0);
    if let Some(j) = find(s.take(i), s[i].0) {
        assert(s.take(i)[j].0 == s[j].0);
    }
    assert(s.take(i).push(s[i]) =~= s.take(i + 1));
}

/// A table with its items mapped.
pub open spec fn mapped<T, V>(s: Seq<(Seq<char>, T)>, f: spec_fn(T) -> V) -> Seq<(Seq<char>, V)> {
    Seq::new(s.len(), |i: int| (s[i].0, f(s[i].1)))
}

pub proof fn lemma_find<T>(s: Seq<(Seq<char>, T)>, name: Seq<char>, i: int)
    requires
        0 <= i <= s.len(),
    ensures
        match find_from(s, name, i) {
            Some(j) => i <= j < s.len() && s[j].0 == name && forall|k: int|
                i <= k < j ==> (#[trigger] s[k]).0 != name,
            None => forall|k: int| i <= k < s.len() ==> (#[trigger] s[k]).0 != name,
        },
    decreases s.len() - i,
{
    if i < s.len() && s[i].0 != name {
        lemma_find(s, name, i + 1);
    }
}

pub proof fn lemma_find_mapped<T, V>(
    s: Seq<(Seq<char>, T)>,
    f: spec_fn(T) -> V,
    name: Seq<char>,
    i: int,
)
    requires
        0 <= i <= s.len(),
    ensures
        find_from(mapped(s, f), name, i) == find_from(s, name, i),
    decreases s.len() - i,
{
    if i < s.len() {
        lemma_find_mapped(s, f, name, i + 1);
    }
}

/// Looking a name up, and putting something under it, goes with mapping the items.
pub proof fn lemma_mapped<T, V>(
    s: Seq<(Seq<char>, T)>,
    f: spec_fn(T) -> V,
    name: Seq<char>,
    item: T,
)
    ensures
        find(mapped(s, f), name) == find(s, name),
        lookup(mapped(s, f), name) == match lookup(s, name) {
            Some(x) => Some(f(x)),
            None => None,
        },
        mapped(put(s, name, item), f) == put(mapped(s, f), name, f(item)),
        mapped(put_new(s, name, item), f) == put_new(mapped(s, f), name, f(item)),
        mapped(without(s, name), f) == without(mapped(s, f), name),
{
    lemma_find_mapped(s, f, name, 0);
    lemma_find(s, name, 0);
    assert(mapped(put(s, name, item), f) =~= put(mapped(s, f), name, f(item)));
    assert(mapped(put_new(s, name, item), f) =~= put_new(mapped(s, f), name, f(item)));
    assert(mapped(without(s, name), f) =~= without(mapped(s, f), name));
}

/// Looking a name up once something has been put under a name.
pub proof fn lemma_put_lookup<T>(
    s: Seq<(Seq<char>, T)>,
    name: Seq<char>,
    item: T,
    other: Seq<char>,
)
    ensures
        lookup(put(s, name, item), other) == if other == name {
            Some(item)
        } else {
            lookup(s, other)
        },
{
    let after = put(s, name, item);
    lemma_find(s, name, 0);
    lemma_find(s, other, 0);
    lemma_find(after, other, 0);
    match find(s, name) {
        Some(i) => {
            assert(after[i] == (name, item));
            if other == name {
                assert forall|j: int| 0 <= j < i implies (#[trigger] after[j]).0 != name by {
                    assert(after[j] == s[j]);
                }
            } else if let Some(k) = find(s, other) {
                assert(after[k] == s[k]);
            }
            if let Some(k) = find(after, other) {
                if k != i {
                    assert(after[k] == s[k]);
                    if let Some(m) = find(s, other) {
                        assert(after[m] == s[m]);
                    }
                }
            }
        },
        None => {
            assert(after[s.len() as int] == (name, item));
            if let Some(k) = find(s, other) {
                assert(after[k] == s[k]);
            }
            if let Some(k) = find(after, other) {
                if k < s.len() {
                    assert(after[k] == s[k]);
                    if let Some(m) = find(s, other) {
                        assert(after[m] == s[m]);
                    }
                }
            }
        },
    }
}

/// The name that a key is.
pub open spec fn name_of(k: KeyV) -> Seq<char> {
    match k {
        KeyV::Str(s) => s,
        _ => Seq::empty(),
    }
}

proof fn lemma_found<T>(s: Seq<(Seq<char>, T)>, name: Seq<char>, i: int, k: int)
    requires
        0 <= i <= k < s.len(),
        s[k].0 == name,
        forall|j: int| i <= j < k ==> (#[trigger] s[j]).0 != name,
    ensures
        find_from(s, name, i) == Some(k),
    decreases k - i,
{
    if i < k {
        lemma_found(s, name, i + 1, k);
    }
}

proof fn lemma_not_found<T>(s: Seq<(Seq<char>, T)>, name: Seq<char>, i: int)
    requires
        0 <= i <= s.len(),
        forall|j: int| i <= j < s.len() ==> (#[trigger] s[j]).0 != name,
    ensures
        find_from(s, name, i) is None,
    decreases s.len() - i,
{
    if i < s.len() {
        lemma_not_found(s, name, i + 1);
    }
}

/// A table from names to items that remembers the order of insertion: the names in an ordered
/// set, and the item of each name at the name's index.
#[derive(Debug)]
pub struct NameMap<T> {
    keys: IndexSet<MapKey>,
    items: Vec<T>,
}

impl<T> NameMap<T> {
    /// The entries, in the order of insertion.
    pub closed spec fn view(&self) -> Seq<(Seq<char>, T)> {
        Seq::new(self.items@.len(), |i: int| (name_of(items_of(self.keys)[i]), self.items@[i]))
    }

    /// The items, in the order of insertion.
    pub closed spec fn values(&self) -> Seq<T> {
        self.items@
    }

    #[verifier::type_invariant]
    closed spec fn wf(self) -> bool {
        &&& items_of(self.keys).len() == self.items@.len()
        &&& forall|i: int| 0 <= i < self.items@.len() ==> #[trigger] items_of(self.keys)[i] is Str
    }

    pub fn new() -> (r: NameMap<T>)
        ensures
            r@ == Seq::<(Seq<char>, T)>::empty(),
    {
        let r = NameMap { keys: set_new(), items: Vec::new() };
        assert(r@ =~= Seq::empty());
        r
    }

    /// The number of entries, whose names are all different.
    pub fn len(&self) -> (r: usize)
        ensures
            r == self@.len(),
            distinct_names(self@),
    {
        proof {
            use_type_invariant(self);
        }
        let n: usize = set_count(&self.keys);
        let ghost ks = items_of(self.keys);
        assert forall|i: int, j: int|
            0 <= i < self@.len() && 0 <= j < self@.len() && (#[trigger] self@[i]).0 == (
            #[trigger] self@[j]).0 implies i == j by {
            assert(ks[i] is Str && ks[j] is Str);
            assert(ks[i] == ks[j]);
        }
        n
    }

    /// The name of the entry at an index.
    pub fn name_at(&self, i: usize) -> (r: &str)
        requires
            i < self@.len(),
        ensures
            r@ == self@[i as int].0,
    {
        proof {
            use_type_invariant(self);
        }
        match set_item(&self.keys, i) {
            Some(k) => {
                proof {
                    lemma_key_view(*k);
                }
                match k {
                    MapKey::Str(s) => s.as_str(),
                    _ => {
                        assert(false);
                        ""
                    },
                }
            },
            None => {
                assert(false);
                ""
            },
        }
    }

    /// The item of the entry at an index.
    pub fn item_at(&self, i: usize) -> (r: &T)
        requires
            i < self@.len(),
        ensures
            *r == self@[i as int].1,
            decreases_to!(*self => *r),
    {
        proof {
            assert(decreases_to!(*self => self.items));
            assert(decreases_to!(self.items => self.items@));
            assert(decreases_to!(self.items@ => self.items@[i as int]));
        }
        &self.items[i]
    }

    fn index_of(&self, name: &str) -> (r: Option<usize>)
        ensures
            match r {
                Some(i) => find(self@, name@) == Some(i as int) && i < self@.len(),
                None => find(self@, name@) is None && !items_of(self.keys).contains(
                    KeyV::Str(name@),
                ),
            },
    {
        proof {
            use_type_invariant(self);
        }
        let _n: usize = set_count(&self.keys);
        let key = str_key(name.to_owned());
        let ghost ks = items_of(self.keys);
        match set_index_of(&self.keys, &key) {
            Some(i) => {
                proof {
                    assert forall|j: int| 0 <= j < i implies (#[trigger] self@[j]).0 != name@ by {
                        assert(ks[j] is Str);
                        assert(ks[j] != ks[i as int]);
                    }
                    lemma_found(self@, name@, 0, i as int);
                }
                Some(i)
            },
            None => {
                proof {
                    assert forall|j: int| 0 <= j < self@.len() implies (#[trigger] self@[j]).0
                        != name@ by {
                        assert(ks[j] is Str);
                        assert(ks.contains(ks[j]));
                    }
                    lemma_not_found(self@, name@, 0);
                }
                None
            },
        }
    }

    /// What a name stands for.
    pub fn get(&self, name: &str) -> (r: Option<&T>)
        ensures
            match r {
                Some(x) => lookup(self@, name@) == Some(*x) && decreases_to!(*self => *x),
                None => lookup(self@, name@) is None,
            },
    {
        match self.index_of(name) {
            Some(i) => Some(self.item_at(i)),
            None => None,
        }
    }

    pub fn contains_key(&self, name: &str) -> (r: bool)
        ensures
            r == (find(self@, name@) is Some),
    {
        match self.index_of(name) {
            Some(_) => true,
            None => false,
        }
    }

    /// Makes `name` stand for `item`.
    pub fn insert(&mut self, name: String, item: T)
        ensures
            final(self)@ == put(old(self)@, name@, item),
    {
        let ghost before = self@;
        match self.index_of(name.as_str()) {
            Some(i) => {
                let mut taken = NameMap::new();
                core::mem::swap(self, &mut taken);
                proof {
                    use_type_invariant(&taken);
                }
                let NameMap { keys, mut items } = taken;
                let ghost old_items = items@;
                items.push(item);
                let _gone = items.swap_remove(i);
                assert(items@ =~= old_items.update(i as int, item));
                *self = NameMap { keys, items };
                proof {
                    lemma_find(before, name@, 0);
                    assert(self@ =~= before.update(i as int, (name@, item)));
                }
            },
            None => {
                self.append(name, item);
            },
        }
    }

    fn append(&mut self, name: String, item: T)
        requires
            !items_of(old(self).keys).contains(KeyV::Str(name@)),
        ensures
            final(self)@ == old(self)@.push((name@, item)),
    {
        let ghost before = self@;
        let mut taken = NameMap::new();
        core::mem::swap(self, &mut taken);
        proof {
            use_type_invariant(&taken);
        }
        let NameMap { mut keys, mut items } = taken;
        let _full = set_insert_full(&mut keys, str_key(name));
        items.push(item);
        *self = NameMap { keys, items };
        assert(self@ =~= before.push((name@, item)));
    }

    /// Makes `name` stand for nothing; the later entries move down.
    pub fn remove(&mut self, name: &str)
        ensures
            final(self)@ == without(old(self)@, name@),
    {
        let ghost before = self@;
        match self.index_of(name) {
            Some(i) => {
                let _n: usize = set_count(&self.keys);
                let mut taken = NameMap::new();
                core::mem::swap(self, &mut taken);
                proof {
                    use_type_invariant(&taken);
                    lemma_find(before, name@, 0);
                }
                let NameMap { mut keys, mut items } = taken;
                let ghost ks = items_of(keys);
                let key = str_key(name.to_owned());
                assert(ks[i as int] is Str);
                assert(ks.contains(ks[i as int]));
                match set_shift_remove_full(&mut keys, &key) {
                    Some((k, _item)) => {
                        assert(k == i);
                        let _gone = items.remove(k);
                    },
                    None => {},
                }
                *self = NameMap { keys, items };
                assert(self@ =~= before.remove(i as int));
            },
            None => {},
        }
    }

    /// Makes `name` stand for `item`, unless it stands for something already.
    pub fn insert_new(&mut self, name: String, item: T)
        ensures
            final(self)@ == put_new(old(self)@, name@, item),
    {
        match self.index_of(name.as_str()) {
            Some(_) => {},
            None => {
                self.append(name, item);
            },
        }
    }
}

/// The items of a table are smaller than the table.
pub proof fn lemma_values_smaller<T>(m: NameMap<T>)
    ensures
        decreases_to!(m => m.values()),
        m.values().len() == m@.len(),
        forall|i: int| 0 <= i < m@.len() ==> (#[trigger] m@[i]).1 == m.values()[i],
{
    assert(decreases_to!(m => m.items));
    assert(decreases_to!(m.items => m.items@));
}

} // verus!
