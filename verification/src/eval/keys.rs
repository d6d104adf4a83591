//! Keys of dictionaries and elements of sets, and the ordered sets of them.

use indexmap::IndexSet;
use vstd::prelude::*;

verus! {

/// A key of a dictionary or an element of a set.
#[derive(Debug, PartialEq, Eq, Hash)]
pub enum MapKey {
    Str(String),
    Int(i64),
    Bool(bool),
    Tuple(Vec<MapKey>),
}

/// What a key stands for.
pub ghost enum KeyV {
    Str(Seq<char>),
    Int(i64),
    Bool(bool),
    Tuple(Seq<KeyV>),
}

impl MapKey {
    #[verifier::opaque]
    pub open spec fn view(&self) -> KeyV
        decreases self,
    {
        match *self {
            MapKey::Str(s) => KeyV::Str(s@),
            MapKey::Int(n) => KeyV::Int(n),
            MapKey::Bool(b) => KeyV::Bool(b),
            MapKey::Tuple(items) => KeyV::Tuple(
                Seq::new(
                    items@.len(),
                    |i: int|
                        if 0 <= i < items@.len() {
                            items@[i].view()
                        } else {
                            arbitrary()
                        },
                ),
            ),
        }
    }

    /// What this key stands for, in terms of what its parts stand for.
    pub open spec fn shape(&self) -> KeyV {
        match *self {
            MapKey::Str(s) => KeyV::Str(s@),
            MapKey::Int(n) => KeyV::Int(n),
            MapKey::Bool(b) => KeyV::Bool(b),
            MapKey::Tuple(items) => KeyV::Tuple(keys_view(items@)),
        }
    }

    /// A key equal to this one.
    pub fn copy(&self) -> (r: MapKey)
        ensures
            r@ == self@,
        decreases self,
    {
        proof {
            lemma_key_view(*self);
        }
        match self {
            MapKey::Str(s) => {
                let r = MapKey::Str(s.clone());
                proof {
                    lemma_key_view(r);
                }
                return r;
            },
            MapKey::Int(n) => {
                let r = MapKey::Int(*n);
                proof {
                    lemma_key_view(r);
                }
                return r;
            },
            MapKey::Bool(b) => {
                let r = MapKey::Bool(*b);
                proof {
                    lemma_key_view(r);
                }
                return r;
            },
            MapKey::Tuple(items) => {
                let mut copies: Vec<MapKey> = Vec::new();
                let mut i: usize = 0;
                while i < items.len()
                    invariant
                        i <= items@.len(),
                        self matches MapKey::Tuple(v) && v == items,
                        keys_view(copies@) == keys_view(items@).take(i as int),
                    decreases items@.len() - i,
                {
                    let ghost seen = keys_view(copies@);
                    let c = items[i].copy();
                    copies.push(c);
                    assert(keys_view(copies@) =~= seen.push(c@));
                    assert(keys_view(copies@) =~= keys_view(items@).take(i + 1));
                    i = i + 1;
                }
                assert(keys_view(items@).take(i as int) =~= keys_view(items@));
                let r = MapKey::Tuple(copies);
                proof {
                    lemma_key_view(r);
                }
                return r;
            },
        }
    }
}

pub open spec fn keys_view(v: Seq<MapKey>) -> Seq<KeyV> {
    Seq::new(v.len(), |i: int| v[i].view())
}

pub proof fn lemma_key_view(k: MapKey)
    ensures
        k@ == k.shape(),
{
    reveal(MapKey::view);
    match k {
        MapKey::Tuple(items) => {
            assert(k@->Tuple_0 =~= keys_view(items@));
        },
        _ => {},
    }
}

/// A key that is a text.
pub fn str_key(text: String) -> (r: MapKey)
    ensures
        r@ == KeyV::Str(text@),
{
    let r = MapKey::Str(text);
    proof {
        lemma_key_view(r);
    }
    r
}

// ---------------------------------------------------------------------------
// Ordered sets of keys
// ---------------------------------------------------------------------------

/// The set type of the indexmap crate: a hash set that remembers the order of insertion.
#[verifier::external_type_specification]
#[verifier::external_body]
#[verifier::reject_recursive_types(T)]
#[verifier::reject_recursive_types(S)]
pub struct ExIndexSet<T, S>(IndexSet<T, S>);

/// What a set holds, in the order of insertion.
pub uninterp spec fn items_of(s: IndexSet<MapKey>) -> Seq<KeyV>;

/// `IndexSet::new`: the empty set.
#[verifier::external_body]
pub(crate) fn set_new() -> (r: IndexSet<MapKey>)
    ensures
        items_of(r) == Seq::<KeyV>::empty(),
{
    IndexSet::new()
}

/// `IndexSet::len`: the number of items. No two items are equal, so it is also the number of
/// different ones.
#[verifier::external_body]
pub(crate) fn set_size(s: &IndexSet<MapKey>) -> (r: usize)
    ensures
        r == items_of(*s).len(),
        r == items_of(*s).to_set().len(),
{
    s.len()
}

/// `IndexSet::insert_full`: appends an item that the set lacks, and leaves a set that has it as
/// it is; returns the item's index and whether it is new. Items are equal when the derived
/// equality of `MapKey` says so.
#[verifier::external_body]
pub(crate) fn set_insert_full(s: &mut IndexSet<MapKey>, k: MapKey) -> (r: (usize, bool))
    ensures
        r.1 == !items_of(*old(s)).contains(k@),
        items_of(*final(s)) == if r.1 {
            items_of(*old(s)).push(k@)
        } else {
            items_of(*old(s))
        },
        r.0 < items_of(*final(s)).len(),
        items_of(*final(s))[r.0 as int] == k@,
{
    s.insert_full(k)
}

/// `IndexSet::get_index_of`: where an item stands, if the set has it.
#[verifier::external_body]
pub(crate) fn set_index_of(s: &IndexSet<MapKey>, k: &MapKey) -> (r: Option<usize>)
    ensures
        match r {
            Some(i) => i < items_of(*s).len() && items_of(*s)[i as int] == k@,
            None => !items_of(*s).contains(k@),
        },
{
    s.get_index_of(k)
}

/// `IndexSet::get_index`: the item at an index.
#[verifier::external_body]
pub(crate) fn set_item(s: &IndexSet<MapKey>, i: usize) -> (r: Option<&MapKey>)
    ensures
        match r {
            Some(k) => i < items_of(*s).len() && k@ == items_of(*s)[i as int],
            None => i >= items_of(*s).len(),
        },
{
    s.get_index(i)
}

/// `IndexSet::shift_remove_full`: removes an item, moving the later ones down; returns where it
/// stood and the item.
#[verifier::external_body]
pub(crate) fn set_shift_remove_full(s: &mut IndexSet<MapKey>, k: &MapKey) -> (r: Option<
    (usize, MapKey),
>)
    ensures
        match r {
            Some((i, item)) => {
                &&& i < items_of(*old(s)).len()
                &&& items_of(*old(s))[i as int] == k@
                &&& item@ == k@
                &&& items_of(*final(s)) == items_of(*old(s)).remove(i as int)
            },
            None => {
                &&& !items_of(*old(s)).contains(k@)
                &&& items_of(*final(s)) == items_of(*old(s))
            },
        },
{
    s.shift_remove_full(k)
}

/// `IndexSet::clear`: removes every item.
#[verifier::external_body]
pub(crate) fn set_clear_all(s: &mut IndexSet<MapKey>)
    ensures
        items_of(*final(s)) == Seq::<KeyV>::empty(),
{
    s.clear();
}

/// The number of items of a set, which are all different.
pub fn set_count(s: &IndexSet<MapKey>) -> (r: usize)
    ensures
        r == items_of(*s).len(),
        items_of(*s).no_duplicates(),
{
    let n: usize = set_size(s);
    proof {
        items_of(*s).lemma_no_dup_set_cardinality();
    }
    n
}

/// Whether a set has an item.
pub fn set_has(s: &IndexSet<MapKey>, k: &MapKey) -> (r: bool)
    ensures
        r == items_of(*s).contains(k@),
{
    match set_index_of(s, k) {
        Some(i) => {
            assert(items_of(*s)[i as int] == k@);
            true
        },
        None => false,
    }
}

/// A copy of the item at an index.
pub fn set_key_at(s: &IndexSet<MapKey>, i: usize) -> (r: MapKey)
    requires
        i < items_of(*s).len(),
    ensures
        r@ == items_of(*s)[i as int],
{
    match set_item(s, i) {
        Some(k) => k.copy(),
        None => MapKey::Int(0),
    }
}

/// A set with the same items in the same order.
pub fn set_copy(s: &IndexSet<MapKey>) -> (r: IndexSet<MapKey>)
    ensures
        items_of(r) == items_of(*s),
{
    let mut r = set_new();
    let n: usize = set_count(s);
    let mut i: usize = 0;
    assert(items_of(*s).take(0) =~= Seq::empty());
    while i < n
        invariant
            n == items_of(*s).len(),
            items_of(*s).no_duplicates(),
            i <= n,
            items_of(r) == items_of(*s).take(i as int),
        decreases n - i,
    {
        let k = set_key_at(s, i);
        assert(!items_of(r).contains(k@)) by {
            if items_of(r).contains(k@) {
                let j = choose|j: int| 0 <= j < items_of(r).len() && items_of(r)[j] == k@;
                assert(items_of(*s)[j] == items_of(*s)[i as int]);
            }
        }
        set_insert_full(&mut r, k);
        assert(items_of(*s).take(i as int).push(items_of(*s)[i as int]) =~= items_of(*s).take(
            i + 1,
        ));
        i = i + 1;
    }
    assert(items_of(*s).take(n as int) =~= items_of(*s));
    r
}

} // verus!
