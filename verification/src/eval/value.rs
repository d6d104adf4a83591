//! Runtime values.
//!
//! A float is held by its decimal spelling, the shortest one that reads back as the same
//! number: integral values have no fraction (`3`, `-0`), and `NaN`, `inf` and `-inf` stand for
//! what is not finite.

use super::keys::{
    items_of, keys_view, lemma_key_view, set_copy, set_count, set_has, set_index_of,
    set_insert_full, set_key_at, set_new, set_shift_remove_full, KeyV, MapKey,
};
use crate::text::same_text;
use indexmap::IndexSet;
use vstd::prelude::*;

verus! {

/// A runtime value.
#[derive(Debug)]
pub enum Value {
    Int(i64),
    Float(String),
    Bool(bool),
    Str(String),
    List(Vec<Value>),
    Dict(Dict),
    SetOf(IndexSet<MapKey>),
    Tuple(Vec<Value>),
    Struct(StructInstance),
    Enum(EnumInstance),
    Void,
}

/// An instance of a struct: its fields in declaration order.
#[derive(Debug)]
pub struct StructInstance {
    pub ty_name: String,
    pub fields: Vec<Value>,
}

/// An instance of an enum variant: its fields in declaration order.
#[derive(Debug)]
pub struct EnumInstance {
    pub ty_name: String,
    pub variant_index: u32,
    pub variant_name: String,
    pub fields: Vec<Value>,
}

/// A dictionary that remembers the order of insertion: the keys in an ordered set, and the
/// value of each key at the key's index.
#[derive(Debug)]
pub struct Dict {
    keys: IndexSet<MapKey>,
    values: Vec<Value>,
}

/// What a value stands for.
pub ghost enum ValueV {
    Int(i64),
    Float(Seq<char>),
    Bool(bool),
    Str(Seq<char>),
    List(Seq<ValueV>),
    Dict(Seq<(KeyV, ValueV)>),
    SetOf(Seq<KeyV>),
    Tuple(Seq<ValueV>),
    Struct { ty_name: Seq<char>, fields: Seq<ValueV> },
    Enum {
        ty_name: Seq<char>,
        variant_index: u32,
        variant_name: Seq<char>,
        fields: Seq<ValueV>,
    },
    Void,
}

impl Value {
    #[verifier::opaque]
    pub closed spec fn view(&self) -> ValueV
        decreases self,
    {
        match *self {
            Value::Int(n) => ValueV::Int(n),
            Value::Float(s) => ValueV::Float(s@),
            Value::Bool(b) => ValueV::Bool(b),
            Value::Str(s) => ValueV::Str(s@),
            Value::List(items) => ValueV::List(values_rec(items@)),
            Value::Dict(d) => ValueV::Dict(
                Seq::new(
                    d.values@.len(),
                    |i: int| (items_of(d.keys)[i], values_rec(d.values@)[i]),
                ),
            ),
            Value::SetOf(s) => ValueV::SetOf(items_of(s)),
            Value::Tuple(items) => ValueV::Tuple(values_rec(items@)),
            Value::Struct(s) => ValueV::Struct {
                ty_name: s.ty_name@,
                fields: values_rec(s.fields@),
            },
            Value::Enum(e) => ValueV::Enum {
                ty_name: e.ty_name@,
                variant_index: e.variant_index,
                variant_name: e.variant_name@,
                fields: values_rec(e.fields@),
            },
            Value::Void => ValueV::Void,
        }
    }

    /// What this value stands for, in terms of what its parts stand for.
    pub open spec fn shape(&self) -> ValueV {
        match *self {
            Value::Int(n) => ValueV::Int(n),
            Value::Float(s) => ValueV::Float(s@),
            Value::Bool(b) => ValueV::Bool(b),
            Value::Str(s) => ValueV::Str(s@),
            Value::List(items) => ValueV::List(values_view(items@)),
            Value::Dict(d) => ValueV::Dict(d@),
            Value::SetOf(s) => ValueV::SetOf(items_of(s)),
            Value::Tuple(items) => ValueV::Tuple(values_view(items@)),
            Value::Struct(s) => s@,
            Value::Enum(e) => e@,
            Value::Void => ValueV::Void,
        }
    }
}

#[verifier::opaque]
closed spec fn values_rec(v: Seq<Value>) -> Seq<ValueV>
    decreases v,
{
    Seq::new(v.len(), |i: int| if 0 <= i < v.len() { v[i].view() } else { arbitrary() })
}

pub open spec fn values_view(v: Seq<Value>) -> Seq<ValueV> {
    Seq::new(v.len(), |i: int| v[i].view())
}

impl StructInstance {
    pub open spec fn view(&self) -> ValueV {
        ValueV::Struct { ty_name: self.ty_name@, fields: values_view(self.fields@) }
    }
}

impl EnumInstance {
    pub open spec fn view(&self) -> ValueV {
        ValueV::Enum {
            ty_name: self.ty_name@,
            variant_index: self.variant_index,
            variant_name: self.variant_name@,
            fields: values_view(self.fields@),
        }
    }
}

proof fn lemma_values_rec(v: Seq<Value>)
    ensures
        values_rec(v) == values_view(v),
{
    reveal(values_rec);
    reveal(Value::view);
    assert(values_rec(v) =~= values_view(v));
}

pub proof fn lemma_value_view(x: Value)
    ensures
        x@ == x.shape(),
{
    reveal(values_rec);
    reveal(Value::view);
    match x {
        Value::List(items) => lemma_values_rec(items@),
        Value::Tuple(items) => lemma_values_rec(items@),
        Value::Struct(s) => lemma_values_rec(s.fields@),
        Value::Enum(e) => lemma_values_rec(e.fields@),
        Value::Dict(d) => {
            lemma_values_rec(d.values@);
            assert(x@->Dict_0 =~= d@);
        },
        _ => {},
    }
}

// ---------------------------------------------------------------------------
// Builders
// ---------------------------------------------------------------------------

pub fn int_value(n: i64) -> (r: Value)
    ensures
        r@ == ValueV::Int(n),
{
    let r = Value::Int(n);
    proof {
        lemma_value_view(r);
    }
    r
}

pub fn bool_value(b: bool) -> (r: Value)
    ensures
        r@ == ValueV::Bool(b),
{
    let r = Value::Bool(b);
    proof {
        lemma_value_view(r);
    }
    r
}

pub fn float_value(text: String) -> (r: Value)
    ensures
        r@ == ValueV::Float(text@),
{
    let r = Value::Float(text);
    proof {
        lemma_value_view(r);
    }
    r
}

pub fn str_value(text: String) -> (r: Value)
    ensures
        r@ == ValueV::Str(text@),
{
    let r = Value::Str(text);
    proof {
        lemma_value_view(r);
    }
    r
}

pub fn list_value(items: Vec<Value>) -> (r: Value)
    ensures
        r@ == ValueV::List(values_view(items@)),
{
    let r = Value::List(items);
    proof {
        lemma_value_view(r);
    }
    r
}

pub fn tuple_value(items: Vec<Value>) -> (r: Value)
    ensures
        r@ == ValueV::Tuple(values_view(items@)),
{
    let r = Value::Tuple(items);
    proof {
        lemma_value_view(r);
    }
    r
}

pub fn dict_value(d: Dict) -> (r: Value)
    ensures
        r@ == ValueV::Dict(d@),
{
    let r = Value::Dict(d);
    proof {
        lemma_value_view(r);
    }
    r
}

pub fn set_value(s: IndexSet<MapKey>) -> (r: Value)
    ensures
        r@ == ValueV::SetOf(items_of(s)),
{
    let r = Value::SetOf(s);
    proof {
        lemma_value_view(r);
    }
    r
}

pub fn void_value() -> (r: Value)
    ensures
        r@ == ValueV::Void,
{
    let r = Value::Void;
    proof {
        lemma_value_view(r);
    }
    r
}

pub fn struct_value(ty_name: &str, fields: Vec<Value>) -> (r: Value)
    ensures
        r@ == (ValueV::Struct { ty_name: ty_name@, fields: values_view(fields@) }),
{
    let r = Value::Struct(StructInstance { ty_name: ty_name.to_owned(), fields });
    proof {
        lemma_value_view(r);
    }
    r
}

pub fn enum_value(ty_name: &str, variant_index: u32, variant_name: &str, fields: Vec<Value>) -> (r:
    Value)
    ensures
        r@ == (ValueV::Enum {
            ty_name: ty_name@,
            variant_index,
            variant_name: variant_name@,
            fields: values_view(fields@),
        }),
{
    let r = Value::Enum(
        EnumInstance {
            ty_name: ty_name.to_owned(),
            variant_index,
            variant_name: variant_name.to_owned(),
            fields,
        },
    );
    proof {
        lemma_value_view(r);
    }
    r
}

// ---------------------------------------------------------------------------
// Dictionaries
// ---------------------------------------------------------------------------

/// Some entry has the key `k`.
pub open spec fn has_key(entries: Seq<(KeyV, ValueV)>, k: KeyV) -> bool {
    exists|i: int| 0 <= i < entries.len() && (#[trigger] entries[i]).0 == k
}

/// Where the entry with key `k` stands.
pub open spec fn key_index(entries: Seq<(KeyV, ValueV)>, k: KeyV) -> int {
    choose|i: int| 0 <= i < entries.len() && (#[trigger] entries[i]).0 == k
}

/// No two entries have the same key.
pub open spec fn distinct_keys(entries: Seq<(KeyV, ValueV)>) -> bool {
    forall|i: int, j: int|
        0 <= i < entries.len() && 0 <= j < entries.len() && (#[trigger] entries[i]).0 == (
        #[trigger] entries[j]).0 ==> i == j
}

/// The entries once `k` has the value `v`: in its place, or at the end where it is new.
pub open spec fn inserted(entries: Seq<(KeyV, ValueV)>, k: KeyV, v: ValueV) -> Seq<
    (KeyV, ValueV),
> {
    if has_key(entries, k) {
        entries.update(key_index(entries, k), (k, v))
    } else {
        entries.push((k, v))
    }
}

/// The entries without that of `k`; the later ones move down.
pub open spec fn removed(entries: Seq<(KeyV, ValueV)>, k: KeyV) -> Seq<(KeyV, ValueV)> {
    if has_key(entries, k) {
        entries.remove(key_index(entries, k))
    } else {
        entries
    }
}

/// The value of `k`, if it has one.
pub open spec fn looked_up(entries: Seq<(KeyV, ValueV)>, k: KeyV) -> Option<ValueV> {
    if has_key(entries, k) {
        Some(entries[key_index(entries, k)].1)
    } else {
        None
    }
}

pub open spec fn opt_value_view(o: Option<Value>) -> Option<ValueV> {
    match o {
        Some(v) => Some(v.view()),
        None => None,
    }
}

proof fn lemma_key_index(entries: Seq<(KeyV, ValueV)>, i: int)
    requires
        0 <= i < entries.len(),
        distinct_keys(entries),
    ensures
        has_key(entries, entries[i].0),
        key_index(entries, entries[i].0) == i,
{
}

impl Dict {
    /// The entries, in the order of insertion.
    pub closed spec fn view(&self) -> Seq<(KeyV, ValueV)> {
        Seq::new(self.values@.len(), |i: int| (items_of(self.keys)[i], self.values@[i].view()))
    }

    #[verifier::type_invariant]
    closed spec fn wf(self) -> bool {
        items_of(self.keys).len() == self.values@.len()
    }

    pub fn new() -> (r: Dict)
        ensures
            r@ == Seq::<(KeyV, ValueV)>::empty(),
    {
        let r = Dict { keys: set_new(), values: Vec::new() };
        assert(r@ =~= Seq::empty());
        r
    }

    /// The number of entries, whose keys are all different.
    pub fn len(&self) -> (r: usize)
        ensures
            r == self@.len(),
            distinct_keys(self@),
    {
        proof {
            use_type_invariant(self);
        }
        let n: usize = set_count(&self.keys);
        assert forall|i: int, j: int|
            0 <= i < self@.len() && 0 <= j < self@.len() && (#[trigger] self@[i]).0 == (
            #[trigger] self@[j]).0 implies i == j by {
            assert(items_of(self.keys)[i] == items_of(self.keys)[j]);
        }
        n
    }

    /// A copy of the key at an index.
    pub fn key_at(&self, i: usize) -> (r: MapKey)
        requires
            i < self@.len(),
        ensures
            r@ == self@[i as int].0,
    {
        proof {
            use_type_invariant(self);
        }
        set_key_at(&self.keys, i)
    }

    /// The value at an index.
    pub fn value_at(&self, i: usize) -> (r: &Value)
        requires
            i < self@.len(),
        ensures
            r@ == self@[i as int].1,
            decreases_to!(*self => *r),
    {
        proof {
            assert(decreases_to!(*self => self.values));
            assert(decreases_to!(self.values => self.values@));
            assert(decreases_to!(self.values@ => self.values@[i as int]));
        }
        &self.values[i]
    }

    /// Where a key stands, if the dictionary has it.
    pub fn index_of(&self, k: &MapKey) -> (r: Option<usize>)
        ensures
            match r {
                Some(i) => i < self@.len() && has_key(self@, k@) && key_index(self@, k@) == i
                    && self@[i as int].0 == k@,
                None => !has_key(self@, k@),
            },
    {
        proof {
            use_type_invariant(self);
        }
        let _n: usize = self.len();
        match set_index_of(&self.keys, k) {
            Some(i) => {
                proof {
                    assert(self@[i as int].0 == k@);
                    lemma_key_index(self@, i as int);
                }
                Some(i)
            },
            None => {
                assert forall|j: int| 0 <= j < self@.len() implies (#[trigger] self@[j]).0
                    != k@ by {
                    assert(items_of(self.keys).contains(items_of(self.keys)[j]));
                }
                None
            },
        }
    }

    /// The value of a key, if it has one.
    pub fn get(&self, k: &MapKey) -> (r: Option<&Value>)
        ensures
            match r {
                Some(v) => looked_up(self@, k@) == Some(v@),
                None => looked_up(self@, k@) is None,
            },
    {
        match self.index_of(k) {
            Some(i) => Some(self.value_at(i)),
            None => None,
        }
    }

    /// Gives `k` the value `v`; returns the value that it had.
    pub fn insert(&mut self, k: MapKey, v: Value) -> (r: Option<Value>)
        ensures
            final(self)@ == inserted(old(self)@, k@, v@),
            opt_value_view(r) == looked_up(old(self)@, k@),
    {
        let ghost before = self@;
        let at = self.index_of(&k);
        let mut taken = Dict::new();
        core::mem::swap(self, &mut taken);
        proof {
            use_type_invariant(&taken);
        }
        let Dict { mut keys, mut values } = taken;
        let ghost old_keys = items_of(keys);
        let ghost old_values = values@;
        match at {
            Some(i) => {
                let mut slot = v;
                values.push(slot);
                let previous = values.swap_remove(i);
                proof {
                    assert(values@ =~= old_values.update(i as int, v));
                }
                *self = Dict { keys, values };
                assert(self@ =~= before.update(i as int, (k@, v@)));
                Some(previous)
            },
            None => {
                proof {
                    if old_keys.contains(k@) {
                        let j = choose|j: int| 0 <= j < old_keys.len() && old_keys[j] == k@;
                        assert(before[j].0 == k@);
                    }
                }
                let (index, is_new) = set_insert_full(&mut keys, k);
                values.push(v);
                *self = Dict { keys, values };
                assert(self@ =~= before.push((k@, v@)));
                None
            },
        }
    }

    /// Puts a value in the place of the one at an index, and returns the latter.
    pub fn replace_at(&mut self, i: usize, v: Value) -> (r: Value)
        requires
            i < old(self)@.len(),
        ensures
            final(self)@ == old(self)@.update(i as int, (old(self)@[i as int].0, v@)),
            r@ == old(self)@[i as int].1,
    {
        let ghost before = self@;
        let mut taken = Dict::new();
        core::mem::swap(self, &mut taken);
        proof {
            use_type_invariant(&taken);
        }
        let Dict { keys, mut values } = taken;
        let ghost old_values = values@;
        values.push(v);
        let previous = values.swap_remove(i);
        proof {
            assert(values@ =~= old_values.update(i as int, v));
        }
        *self = Dict { keys, values };
        assert(self@ =~= before.update(i as int, (before[i as int].0, v@)));
        previous
    }

    /// Removes the entry of `k`, moving the later ones down; returns its value.
    pub fn remove(&mut self, k: &MapKey) -> (r: Option<Value>)
        ensures
            final(self)@ == removed(old(self)@, k@),
            opt_value_view(r) == looked_up(old(self)@, k@),
    {
        let ghost before = self@;
        let at = self.index_of(k);
        match at {
            Some(index) => {
                let _n: usize = self.len();
                let mut taken = Dict::new();
                core::mem::swap(self, &mut taken);
                proof {
                    use_type_invariant(&taken);
                }
                let Dict { mut keys, mut values } = taken;
                let ghost old_keys = items_of(keys);
                proof {
                    assert(before[index as int].0 == k@);
                    assert(old_keys.contains(old_keys[index as int]));
                }
                match set_shift_remove_full(&mut keys, k) {
                    Some((i, _item)) => {
                        proof {
                            assert(before[i as int].0 == k@);
                        }
                        let gone = values.remove(i);
                        *self = Dict { keys, values };
                        assert(self@ =~= before.remove(i as int));
                        Some(gone)
                    },
                    None => None,
                }
            },
            None => None,
        }
    }

    /// Removes every entry.
    pub fn clear(&mut self)
        ensures
            final(self)@ == Seq::<(KeyV, ValueV)>::empty(),
    {
        *self = Dict::new();
    }
}

// ---------------------------------------------------------------------------
// Equality and copies
// ---------------------------------------------------------------------------

/// Two floats are equal: the same spelling, or both a zero; `NaN` equals nothing.
pub open spec fn float_same(a: Seq<char>, b: Seq<char>) -> bool {
    a != "NaN"@ && (a == b || (is_zero(a) && is_zero(b)))
}

pub open spec fn is_zero(a: Seq<char>) -> bool {
    a == "0"@ || a == "-0"@
}

/// Two values are equal: structurally, with dictionaries and sets compared without regard to
/// the order of insertion.
pub open spec fn value_same(a: ValueV, b: ValueV) -> bool
    decreases a,
{
    match (a, b) {
        (ValueV::Int(x), ValueV::Int(y)) => x == y,
        (ValueV::Float(x), ValueV::Float(y)) => float_same(x, y),
        (ValueV::Bool(x), ValueV::Bool(y)) => x == y,
        (ValueV::Str(x), ValueV::Str(y)) => x == y,
        (ValueV::List(x), ValueV::List(y)) => x.len() == y.len() && values_same(x, y),
        (ValueV::Tuple(x), ValueV::Tuple(y)) => x.len() == y.len() && values_same(x, y),
        (ValueV::Dict(x), ValueV::Dict(y)) => x.len() == y.len() && entries_same(x, y),
        (ValueV::SetOf(x), ValueV::SetOf(y)) => x.len() == y.len() && all_in(x, y),
        (
            ValueV::Struct { ty_name: n, fields: x },
            ValueV::Struct { ty_name: m, fields: y },
        ) => n == m && x.len() == y.len() && values_same(x, y),
        (
            ValueV::Enum { ty_name: n, variant_index: i, variant_name: u, fields: x },
            ValueV::Enum { ty_name: m, variant_index: j, variant_name: v, fields: y },
        ) => n == m && i == j && u == v && x.len() == y.len() && values_same(x, y),
        (ValueV::Void, ValueV::Void) => true,
        _ => false,
    }
}

/// Each value of `x` equals the one of `y` at its index.
pub open spec fn values_same(x: Seq<ValueV>, y: Seq<ValueV>) -> bool
    decreases x,
{
    x.len() == 0 || (x.len() <= y.len() && values_same(x.drop_last(), y) && value_same(
        x.last(),
        y[x.len() - 1],
    ))
}

/// Each entry of `x` has an equal one in `y`.
pub open spec fn entries_same(x: Seq<(KeyV, ValueV)>, y: Seq<(KeyV, ValueV)>) -> bool
    decreases x,
{
    x.len() == 0 || (entries_same(x.drop_last(), y) && has_key(y, x.last().0) && value_same(
        x.last().1,
        y[key_index(y, x.last().0)].1,
    ))
}

/// Every item of `x` is one of `y`.
pub open spec fn all_in(x: Seq<KeyV>, y: Seq<KeyV>) -> bool {
    forall|i: int| 0 <= i < x.len() ==> y.contains(#[trigger] x[i])
}

fn same_float(a: &str, b: &str) -> (r: bool)
    ensures
        r == float_same(a@, b@),
{
    !same_text(a, "NaN") && (same_text(a, b) || ((same_text(a, "0") || same_text(a, "-0")) && (
    same_text(b, "0") || same_text(b, "-0"))))
}

fn same_values(x: &Vec<Value>, y: &Vec<Value>) -> (r: bool)
    ensures
        r == (x@.len() == y@.len() && values_same(values_view(x@), values_view(y@))),
    decreases x,
{
    if x.len() != y.len() {
        return false;
    }
    let ghost xs = values_view(x@);
    let ghost ys = values_view(y@);
    let mut i: usize = 0;
    assert(xs.take(0) =~= Seq::empty());
    while i < x.len()
        invariant
            i <= x@.len(),
            x@.len() == y@.len(),
            xs == values_view(x@),
            ys == values_view(y@),
            values_same(xs.take(i as int), ys),
        decreases x@.len() - i,
    {
        proof {
            assert(xs.take(i + 1).drop_last() =~= xs.take(i as int));
            assert(decreases_to!(*x => x@));
            assert(decreases_to!(x@ => x@[i as int]));
        }
        if !x[i].same(&y[i]) {
            proof {
                lemma_values_differ(xs, ys, i as int);
            }
            return false;
        }
        i = i + 1;
    }
    assert(xs.take(i as int) =~= xs);
    true
}

proof fn lemma_values_differ(x: Seq<ValueV>, y: Seq<ValueV>, i: int)
    requires
        0 <= i < x.len() <= y.len(),
        !value_same(x[i], y[i]),
    ensures
        !values_same(x, y),
    decreases x.len(),
{
    if i < x.len() - 1 {
        lemma_values_differ(x.drop_last(), y, i);
    }
}

proof fn lemma_entries_differ(x: Seq<(KeyV, ValueV)>, y: Seq<(KeyV, ValueV)>, i: int)
    requires
        0 <= i < x.len(),
        !has_key(y, x[i].0) || !value_same(x[i].1, y[key_index(y, x[i].0)].1),
    ensures
        !entries_same(x, y),
    decreases x.len(),
{
    if i < x.len() - 1 {
        lemma_entries_differ(x.drop_last(), y, i);
    }
}

fn same_entries(x: &Dict, y: &Dict) -> (r: bool)
    ensures
        r == (x@.len() == y@.len() && entries_same(x@, y@)),
    decreases x,
{
    let n: usize = x.len();
    if n != y.len() {
        return false;
    }
    let mut i: usize = 0;
    assert(x@.take(0) =~= Seq::empty());
    while i < n
        invariant
            n == x@.len(),
            n == y@.len(),
            i <= n,
            entries_same(x@.take(i as int), y@),
        decreases n - i,
    {
        proof {
            assert(x@.take(i + 1).drop_last() =~= x@.take(i as int));
        }
        let k = x.key_at(i);
        let v = x.value_at(i);
        match y.index_of(&k) {
            Some(j) => {
                if !v.same(y.value_at(j)) {
                    proof {
                        lemma_entries_differ(x@, y@, i as int);
                    }
                    return false;
                }
            },
            None => {
                proof {
                    lemma_entries_differ(x@, y@, i as int);
                }
                return false;
            },
        }
        i = i + 1;
    }
    assert(x@.take(i as int) =~= x@);
    true
}

fn same_items(x: &IndexSet<MapKey>, y: &IndexSet<MapKey>) -> (r: bool)
    ensures
        r == (items_of(*x).len() == items_of(*y).len() && all_in(items_of(*x), items_of(*y))),
{
    let n: usize = set_count(x);
    if n != set_count(y) {
        return false;
    }
    let mut i: usize = 0;
    while i < n
        invariant
            n == items_of(*x).len(),
            i <= n,
            forall|j: int| 0 <= j < i ==> items_of(*y).contains(#[trigger] items_of(*x)[j]),
        decreases n - i,
    {
        let k = set_key_at(x, i);
        if !set_has(y, &k) {
            return false;
        }
        i = i + 1;
    }
    true
}

impl Value {
    /// Whether two values are equal.
    pub fn same(&self, other: &Value) -> (r: bool)
        ensures
            r == value_same(self@, other@),
        decreases self,
    {
        proof {
            lemma_value_view(*self);
            lemma_value_view(*other);
        }
        match (self, other) {
            (Value::Int(x), Value::Int(y)) => {
                return *x == *y;
            },
            (Value::Float(x), Value::Float(y)) => {
                return same_float(x.as_str(), y.as_str());
            },
            (Value::Bool(x), Value::Bool(y)) => {
                return *x == *y;
            },
            (Value::Str(x), Value::Str(y)) => {
                return same_text(x.as_str(), y.as_str());
            },
            (Value::List(x), Value::List(y)) => {
                return same_values(x, y);
            },
            (Value::Tuple(x), Value::Tuple(y)) => {
                return same_values(x, y);
            },
            (Value::Dict(x), Value::Dict(y)) => {
                return same_entries(x, y);
            },
            (Value::SetOf(x), Value::SetOf(y)) => {
                return same_items(x, y);
            },
            (Value::Struct(x), Value::Struct(y)) => {
                return same_text(x.ty_name.as_str(), y.ty_name.as_str()) && same_values(
                    &x.fields,
                    &y.fields,
                );
            },
            (Value::Enum(x), Value::Enum(y)) => {
                return same_text(x.ty_name.as_str(), y.ty_name.as_str()) && x.variant_index
                    == y.variant_index && same_text(
                    x.variant_name.as_str(),
                    y.variant_name.as_str(),
                ) && same_values(&x.fields, &y.fields);
            },
            (Value::Void, Value::Void) => {
                return true;
            },
            _ => {
                return false;
            },
        }
    }

    /// A value that stands for the same.
    pub fn copy(&self) -> (r: Value)
        ensures
            r@ == self@,
        decreases self, 1int,
    {
        proof {
            lemma_value_view(*self);
        }
        match self {
            Value::Int(n) => {
                return int_value(*n);
            },
            Value::Float(s) => {
                return float_value(s.clone());
            },
            Value::Bool(b) => {
                return bool_value(*b);
            },
            Value::Str(s) => {
                return str_value(s.clone());
            },
            Value::List(items) => {
                return list_value(copy_values(items));
            },
            Value::Dict(d) => {
                return dict_value(d.copy());
            },
            Value::SetOf(s) => {
                return set_value(set_copy(s));
            },
            Value::Tuple(items) => {
                return tuple_value(copy_values(items));
            },
            Value::Struct(s) => {
                return struct_value(s.ty_name.as_str(), copy_values(&s.fields));
            },
            Value::Enum(e) => {
                return enum_value(
                    e.ty_name.as_str(),
                    e.variant_index,
                    e.variant_name.as_str(),
                    copy_values(&e.fields),
                );
            },
            Value::Void => {
                return void_value();
            },
        }
    }
}

/// Copies of some values, in the same order.
pub fn copy_values(items: &Vec<Value>) -> (r: Vec<Value>)
    ensures
        values_view(r@) == values_view(items@),
    decreases items, 0int,
{
    let mut r: Vec<Value> = Vec::new();
    let mut i: usize = 0;
    while i < items.len()
        invariant
            i <= items@.len(),
            values_view(r@) == values_view(items@).take(i as int),
        decreases items@.len() - i,
    {
        proof {
            assert(decreases_to!(*items => items@));
            assert(decreases_to!(items@ => items@[i as int]));
        }
        let ghost seen = values_view(r@);
        let c = items[i].copy();
        r.push(c);
        assert(values_view(r@) =~= seen.push(c@));
        assert(values_view(r@) =~= values_view(items@).take(i + 1));
        i = i + 1;
    }
    assert(values_view(items@).take(i as int) =~= values_view(items@));
    r
}

impl Dict {
    /// A dictionary with the same entries in the same order.
    pub fn copy(&self) -> (r: Dict)
        ensures
            r@ == self@,
        decreases self, 0int,
    {
        proof {
            use_type_invariant(self);
            assert(decreases_to!(*self => self.values));
        }
        let values = copy_values(&self.values);
        let keys = set_copy(&self.keys);
        proof {
            assert(values@.len() == values_view(values@).len());
        }
        let r = Dict { keys, values };
        assert forall|i: int| 0 <= i < r@.len() implies #[trigger] r@[i] == self@[i] by {
            assert(values_view(r.values@)[i] == values_view(self.values@)[i]);
        }
        assert(r@ =~= self@);
        r
    }
}

impl PartialEq for Value {
    fn eq(&self, other: &Value) -> (r: bool) {
        self.same(other)
    }
}

impl vstd::std_specs::cmp::PartialEqSpecImpl for Value {
    open spec fn obeys_eq_spec() -> bool {
        true
    }

    open spec fn eq_spec(&self, other: &Value) -> bool {
        value_same(self@, other@)
    }
}

// ---------------------------------------------------------------------------
// Keys and values
// ---------------------------------------------------------------------------

/// The value that a key is.
pub open spec fn key_v(k: KeyV) -> ValueV
    decreases k,
{
    match k {
        KeyV::Str(s) => ValueV::Str(s),
        KeyV::Int(n) => ValueV::Int(n),
        KeyV::Bool(b) => ValueV::Bool(b),
        KeyV::Tuple(items) => ValueV::Tuple(
            Seq::new(
                items.len(),
                |i: int|
                    if 0 <= i < items.len() {
                        key_v(items[i])
                    } else {
                        arbitrary()
                    },
            ),
        ),
    }
}

/// The key that a value is, if it can be one.
pub open spec fn try_key_v(v: ValueV) -> Option<KeyV>
    decreases v,
{
    match v {
        ValueV::Str(s) => Some(KeyV::Str(s)),
        ValueV::Int(n) => Some(KeyV::Int(n)),
        ValueV::Bool(b) => Some(KeyV::Bool(b)),
        ValueV::Tuple(items) => match try_keys_v(items) {
            Some(keys) => Some(KeyV::Tuple(keys)),
            None => None,
        },
        _ => None,
    }
}

pub open spec fn try_keys_v(items: Seq<ValueV>) -> Option<Seq<KeyV>>
    decreases items,
{
    if items.len() == 0 {
        Some(Seq::empty())
    } else {
        match (try_keys_v(items.drop_last()), try_key_v(items.last())) {
            (Some(keys), Some(k)) => Some(keys.push(k)),
            _ => None,
        }
    }
}

proof fn lemma_not_keys(items: Seq<ValueV>, i: int)
    requires
        0 <= i < items.len(),
        try_key_v(items[i]) is None,
    ensures
        try_keys_v(items) is None,
    decreases items.len(),
{
    if i < items.len() - 1 {
        lemma_not_keys(items.drop_last(), i);
    }
}

impl MapKey {
    /// The value that this key is.
    pub fn to_value(&self) -> (r: Value)
        ensures
            r@ == key_v(self@),
        decreases self,
    {
        proof {
            lemma_key_view(*self);
        }
        match self {
            MapKey::Str(s) => {
                return str_value(s.clone());
            },
            MapKey::Int(n) => {
                return int_value(*n);
            },
            MapKey::Bool(b) => {
                return bool_value(*b);
            },
            MapKey::Tuple(items) => {
                let ghost ks = keys_view(items@);
                let mut values: Vec<Value> = Vec::new();
                let mut i: usize = 0;
                while i < items.len()
                    invariant
                        i <= items@.len(),
                        self matches MapKey::Tuple(v) && v == items,
                        ks == keys_view(items@),
                        values@.len() == i,
                        forall|j: int| 0 <= j < i ==> (#[trigger] values@[j])@ == key_v(ks[j]),
                    decreases items@.len() - i,
                {
                    let v = items[i].to_value();
                    values.push(v);
                    i = i + 1;
                }
                assert(values_view(values@) =~= key_v(self@)->Tuple_0);
                return tuple_value(values);
            },
        }
    }

    /// The key that a value is, if it can be one.
    pub fn try_from_value(v: &Value) -> (r: Option<MapKey>)
        ensures
            match r {
                Some(k) => try_key_v(v@) == Some(k@),
                None => try_key_v(v@) is None,
            },
        decreases v,
    {
        proof {
            lemma_value_view(*v);
        }
        match v {
            Value::Str(s) => {
                let k = MapKey::Str(s.clone());
                proof {
                    lemma_key_view(k);
                }
                return Some(k);
            },
            Value::Int(n) => {
                let k = MapKey::Int(*n);
                proof {
                    lemma_key_view(k);
                }
                return Some(k);
            },
            Value::Bool(b) => {
                let k = MapKey::Bool(*b);
                proof {
                    lemma_key_view(k);
                }
                return Some(k);
            },
            Value::Tuple(items) => {
                let ghost vs = values_view(items@);
                let mut keys: Vec<MapKey> = Vec::new();
                let mut i: usize = 0;
                assert(vs.take(0) =~= Seq::empty());
                assert(keys_view(keys@) =~= Seq::empty());
                while i < items.len()
                    invariant
                        i <= items@.len(),
                        v matches Value::Tuple(w) && w == items,
                        vs == values_view(items@),
                        v@ == ValueV::Tuple(vs),
                        try_keys_v(vs.take(i as int)) == Some(keys_view(keys@)),
                    decreases items@.len() - i,
                {
                    let ghost seen = keys_view(keys@);
                    match MapKey::try_from_value(&items[i]) {
                        Some(k) => {
                            keys.push(k);
                            assert(keys_view(keys@) =~= seen.push(k@));
                            assert(vs.take(i + 1).drop_last() =~= vs.take(i as int));
                        },
                        None => {
                            proof {
                                lemma_not_keys(vs, i as int);
                            }
                            return None;
                        },
                    }
                    i = i + 1;
                }
                assert(vs.take(i as int) =~= vs);
                let k = MapKey::Tuple(keys);
                proof {
                    lemma_key_view(k);
                }
                return Some(k);
            },
            _ => {
                return None;
            },
        }
    }
}

} // verus!
