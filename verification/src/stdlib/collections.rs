//! Methods of lists, dictionaries, sets and tuples.
//!
//! A method that takes a function of the program takes it as a Rust function from arguments to
//! a result; an abort of the function is passed on as it is.

use crate::diagnostics::{DiagnosticView, Span};
use crate::eval::keys::{
    items_of, set_clear_all, set_copy, set_count, set_has, set_insert_full, set_key_at, set_new,
    set_shift_remove_full, KeyV, MapKey,
};
use crate::eval::value::{
    bool_value, dict_value, distinct_keys, float_value, has_key, inserted, int_value,
    key_v, lemma_value_view, list_value, looked_up, removed, set_value, str_value,
    tuple_value, try_key_v, value_same, values_view, void_value, Dict, Value, ValueV,
};
use crate::eval::{out_of_range, out_of_range_view, overflow, overflow_view, Abort};
use crate::stdlib::{none_v, none_value, option_v, option_value, some_v, some_value};
use crate::stdlib::order::{key_le, key_not_after};
use indexmap::IndexSet;
use vstd::prelude::*;
use vstd::string::*;

verus! {

// ---------------------------------------------------------------------------
// Calls of functions of the program
// ---------------------------------------------------------------------------

/// What a call came to.
pub open spec fn outcome(r: Result<Value, Abort>) -> Result<ValueV, DiagnosticView> {
    match r {
        Ok(v) => Ok(v@),
        Err(a) => Err(a@),
    }
}

/// `f` can be called with any arguments.
pub open spec fn callable<F: Fn(Vec<Value>) -> Result<Value, Abort>>(f: F) -> bool {
    forall|args: Vec<Value>| call_requires(f, (args,))
}

/// A call of `f` with `args` can come to `out`.
pub open spec fn came_to<F: Fn(Vec<Value>) -> Result<Value, Abort>>(
    f: F,
    args: Seq<ValueV>,
    out: Result<ValueV, DiagnosticView>,
) -> bool {
    exists|a: Vec<Value>, o: Result<Value, Abort>| #[trigger]
        call_ensures(f, (a,), o) && values_view(a@) == args && outcome(o) == out
}

/// Calls of `f` with each of `items` can come to `outs`, one after the other.
pub open spec fn all_came_to<F: Fn(Vec<Value>) -> Result<Value, Abort>>(
    f: F,
    items: Seq<ValueV>,
    outs: Seq<ValueV>,
) -> bool {
    &&& outs.len() <= items.len()
    &&& forall|i: int|
        0 <= i < outs.len() ==> came_to(f, seq![items[i]], Ok(#[trigger] outs[i]))
}

/// `f` never returns anything but a bool.
pub open spec fn returns_bool<F: Fn(Vec<Value>) -> Result<Value, Abort>>(f: F) -> bool {
    forall|a: Vec<Value>, v: Value| #[trigger] call_ensures(f, (a,), Ok(v)) ==> v@ is Bool
}

/// `f` never returns anything but a list.
pub open spec fn returns_list<F: Fn(Vec<Value>) -> Result<Value, Abort>>(f: F) -> bool {
    forall|a: Vec<Value>, v: Value| #[trigger] call_ensures(f, (a,), Ok(v)) ==> v@ is List
}

pub(crate) fn call1<F: Fn(Vec<Value>) -> Result<Value, Abort>>(f: &F, v: &Value) -> (r: Result<Value, Abort>)
    requires
        callable(*f),
    ensures
        came_to(*f, seq![v@], outcome(r)),
        exists|a: Vec<Value>| #[trigger] call_ensures(*f, (a,), r),
{
    let c = v.copy();
    let args = vec![c];
    assert(values_view(args@) =~= seq![v@]);
    let r = f(args);
    assert(call_ensures(*f, (args,), r));
    r
}

fn call2<F: Fn(Vec<Value>) -> Result<Value, Abort>>(f: &F, acc: Value, v: &Value) -> (r: Result<
    Value,
    Abort,
>)
    requires
        callable(*f),
    ensures
        came_to(*f, seq![acc@, v@], outcome(r)),
{
    let c = v.copy();
    let args = vec![acc, c];
    assert(values_view(args@) =~= seq![acc@, v@]);
    let r = f(args);
    assert(call_ensures(*f, (args,), r));
    r
}

fn call_bool<F: Fn(Vec<Value>) -> Result<Value, Abort>>(f: &F, v: &Value) -> (r: Result<
    bool,
    Abort,
>)
    requires
        callable(*f),
        returns_bool(*f),
    ensures
        match r {
            Ok(b) => came_to(*f, seq![v@], Ok(ValueV::Bool(b))),
            Err(a) => came_to(*f, seq![v@], Err(a@)),
        },
{
    match call1(f, v) {
        Ok(out) => {
            proof {
                lemma_value_view(out);
            }
            match out {
                Value::Bool(b) => Ok(b),
                _ => Ok(false),
            }
        },
        Err(a) => Err(a),
    }
}

// ---------------------------------------------------------------------------
// Lists: methods that take a function
// ---------------------------------------------------------------------------

/// Applying `f` to each item came to `r`: a list of the results, or the first abort.
pub open spec fn mapped<F: Fn(Vec<Value>) -> Result<Value, Abort>>(
    f: F,
    items: Seq<ValueV>,
    r: Result<ValueV, DiagnosticView>,
) -> bool {
    exists|outs: Seq<ValueV>| #[trigger]
        all_came_to(f, items, outs) && match r {
            Ok(v) => outs.len() == items.len() && v == ValueV::List(outs),
            Err(a) => outs.len() < items.len() && came_to(f, seq![items[outs.len() as int]], Err(a)),
        }
}

pub fn list_map<F: Fn(Vec<Value>) -> Result<Value, Abort>>(self_: &[Value], f: F) -> (r: Result<
    Value,
    Abort,
>)
    requires
        callable(f),
    ensures
        mapped(f, values_view(self_@), outcome(r)),
{
    let ghost items = values_view(self_@);
    let mut out: Vec<Value> = Vec::new();
    let mut i: usize = 0;
    while i < self_.len()
        invariant
            callable(f),
            items == values_view(self_@),
            i <= self_@.len(),
            out@.len() == i,
            all_came_to(f, items, values_view(out@)),
        decreases self_@.len() - i,
    {
        let ghost seen = values_view(out@);
        match call1(&f, &self_[i]) {
            Ok(v) => {
                out.push(v);
                assert(values_view(out@) =~= seen.push(v@));
            },
            Err(a) => {
                return Err(a);
            },
        }
        i = i + 1;
    }
    Ok(list_value(out))
}

/// The items for which the answer was true.
pub open spec fn kept<A>(items: Seq<A>, answers: Seq<ValueV>) -> Seq<A>
    decreases answers.len(),
{
    if answers.len() == 0 {
        Seq::empty()
    } else if answers.last() == ValueV::Bool(true) {
        kept(items, answers.drop_last()).push(items[answers.len() - 1])
    } else {
        kept(items, answers.drop_last())
    }
}

/// Filtering by `f` came to `r`.
pub open spec fn filtered<F: Fn(Vec<Value>) -> Result<Value, Abort>>(
    f: F,
    items: Seq<ValueV>,
    r: Result<Seq<ValueV>, DiagnosticView>,
) -> bool {
    exists|outs: Seq<ValueV>| #[trigger]
        all_came_to(f, items, outs) && match r {
            Ok(v) => outs.len() == items.len() && v == kept(items, outs),
            Err(a) => outs.len() < items.len() && came_to(f, seq![items[outs.len() as int]], Err(a)),
        }
}

pub open spec fn items_outcome(r: Result<Value, Abort>) -> Result<Seq<ValueV>, DiagnosticView> {
    match r {
        Ok(v) => Ok(v@->List_0),
        Err(a) => Err(a@),
    }
}

pub fn list_filter<F: Fn(Vec<Value>) -> Result<Value, Abort>>(self_: &[Value], f: F) -> (r: Result<
    Value,
    Abort,
>)
    requires
        callable(f),
        returns_bool(f),
    ensures
        r matches Ok(v) ==> v@ is List,
        filtered(f, values_view(self_@), items_outcome(r)),
{
    let ghost items = values_view(self_@);
    let ghost mut answers: Seq<ValueV> = Seq::empty();
    let mut out: Vec<Value> = Vec::new();
    let mut i: usize = 0;
    assert(values_view(out@) =~= Seq::empty());
    while i < self_.len()
        invariant
            callable(f),
            returns_bool(f),
            items == values_view(self_@),
            i <= self_@.len(),
            answers.len() == i,
            all_came_to(f, items, answers),
            values_view(out@) == kept(items, answers),
        decreases self_@.len() - i,
    {
        let ghost seen = values_view(out@);
        match call_bool(&f, &self_[i]) {
            Ok(b) => {
                proof {
                    let before = answers;
                    answers = answers.push(ValueV::Bool(b));
                    assert(answers.drop_last() =~= before);
                }
                if b {
                    let c = self_[i].copy();
                    out.push(c);
                    assert(values_view(out@) =~= seen.push(c@));
                }
            },
            Err(a) => {
                return Err(a);
            },
        }
        i = i + 1;
    }
    Ok(list_value(out))
}

/// The `i`-th call of a fold took `accs[i]` and the `i`-th item to `accs[i + 1]`.
pub open spec fn fold_step<F: Fn(Vec<Value>) -> Result<Value, Abort>>(
    f: F,
    items: Seq<ValueV>,
    accs: Seq<ValueV>,
    i: int,
) -> bool {
    came_to(f, seq![accs[i], items[i]], Ok(accs[i + 1]))
}

/// A fold from `init` can run through the accumulators `accs`.
pub open spec fn fold_ran<F: Fn(Vec<Value>) -> Result<Value, Abort>>(
    f: F,
    init: ValueV,
    items: Seq<ValueV>,
    accs: Seq<ValueV>,
) -> bool {
    &&& 1 <= accs.len() <= items.len() + 1
    &&& accs[0] == init
    &&& forall|i: int| 0 <= i < accs.len() - 1 ==> #[trigger] fold_step(f, items, accs, i)
}

/// Folding `items` with `f` from `init` can come to `r`: the last accumulator, or the first
/// abort.
pub open spec fn folded<F: Fn(Vec<Value>) -> Result<Value, Abort>>(
    f: F,
    init: ValueV,
    items: Seq<ValueV>,
    r: Result<ValueV, DiagnosticView>,
) -> bool {
    exists|accs: Seq<ValueV>| #[trigger]
        fold_ran(f, init, items, accs) && match r {
            Ok(v) => accs.len() == items.len() + 1 && v == accs.last(),
            Err(a) => accs.len() <= items.len() && came_to(
                f,
                seq![accs.last(), items[accs.len() - 1]],
                Err(a),
            ),
        }
}

pub fn list_fold<F: Fn(Vec<Value>) -> Result<Value, Abort>>(
    self_: &[Value],
    init: Value,
    f: F,
) -> (r: Result<Value, Abort>)
    requires
        callable(f),
    ensures
        folded(f, init@, values_view(self_@), outcome(r)),
{
    let ghost items = values_view(self_@);
    let ghost start = init@;
    let ghost mut accs = seq![init@];
    let mut acc = init;
    let mut i: usize = 0;
    while i < self_.len()
        invariant
            callable(f),
            items == values_view(self_@),
            i <= self_@.len(),
            start == init@,
            accs.len() == i + 1,
            accs.last() == acc@,
            fold_ran(f, start, items, accs),
        decreases self_@.len() - i,
    {
        match call2(&f, acc, &self_[i]) {
            Ok(v) => {
                proof {
                    let longer = accs.push(v@);
                    assert forall|j: int| 0 <= j < longer.len() - 1 implies #[trigger] fold_step(
                        f,
                        items,
                        longer,
                        j,
                    ) by {
                        if j < accs.len() - 1 {
                            assert(fold_step(f, items, accs, j));
                        }
                    }
                    accs = longer;
                }
                acc = v;
            },
            Err(a) => {
                return Err(a);
            },
        }
        i = i + 1;
    }
    Ok(acc)
}

/// Asking `f` about one item after the other until the answer is `stop` came to `r`: where it
/// stopped, or that it did not.
pub open spec fn searched<F: Fn(Vec<Value>) -> Result<Value, Abort>>(
    f: F,
    items: Seq<ValueV>,
    stop: bool,
    r: Result<Option<int>, DiagnosticView>,
) -> bool {
    match r {
        Ok(Some(i)) => {
            &&& 0 <= i < items.len()
            &&& forall|j: int|
                0 <= j < i ==> came_to(f, seq![#[trigger] items[j]], Ok(ValueV::Bool(!stop)))
            &&& came_to(f, seq![items[i]], Ok(ValueV::Bool(stop)))
        },
        Ok(None) => forall|j: int|
            0 <= j < items.len() ==> came_to(
                f,
                seq![#[trigger] items[j]],
                Ok(ValueV::Bool(!stop)),
            ),
        Err(a) => exists|i: int|
            {
                &&& 0 <= i < items.len()
                &&& forall|j: int|
                    0 <= j < i ==> came_to(f, seq![items[j]], Ok(ValueV::Bool(!stop)))
                &&& #[trigger] came_to(f, seq![items[i]], Err(a))
            },
    }
}

fn search<F: Fn(Vec<Value>) -> Result<Value, Abort>>(self_: &[Value], f: &F, stop: bool) -> (r:
    Result<Option<usize>, Abort>)
    requires
        callable(*f),
        returns_bool(*f),
    ensures
        searched(
            *f,
            values_view(self_@),
            stop,
            match r {
                Ok(Some(i)) => Ok(Some(i as int)),
                Ok(None) => Ok(None),
                Err(a) => Err(a@),
            },
        ),
{
    let ghost items = values_view(self_@);
    let mut i: usize = 0;
    while i < self_.len()
        invariant
            callable(*f),
            returns_bool(*f),
            items == values_view(self_@),
            i <= self_@.len(),
            forall|j: int|
                0 <= j < i ==> came_to(*f, seq![#[trigger] items[j]], Ok(ValueV::Bool(!stop))),
        decreases self_@.len() - i,
    {
        match call_bool(f, &self_[i]) {
            Ok(b) => {
                if b == stop {
                    assert(items[i as int] == self_@[i as int]@);
                    return Ok(Some(i));
                }
            },
            Err(a) => {
                assert(came_to(*f, seq![items[i as int]], Err(a@)));
                return Err(a);
            },
        }
        i = i + 1;
    }
    Ok(None)
}

/// The first item for which `f` holds.
pub open spec fn found<F: Fn(Vec<Value>) -> Result<Value, Abort>>(
    f: F,
    items: Seq<ValueV>,
    r: Result<ValueV, DiagnosticView>,
) -> bool {
    match r {
        Ok(v) => (exists|i: int| #[trigger]
            searched(f, items, true, Ok(Some(i))) && v == some_v(items[i])) || (searched(
            f,
            items,
            true,
            Ok(None),
        ) && v == none_v()),
        Err(a) => searched(f, items, true, Err(a)),
    }
}

pub fn list_find<F: Fn(Vec<Value>) -> Result<Value, Abort>>(self_: &[Value], f: F) -> (r: Result<
    Value,
    Abort,
>)
    requires
        callable(f),
        returns_bool(f),
    ensures
        found(f, values_view(self_@), outcome(r)),
{
    match search(self_, &f, true) {
        Ok(Some(i)) => {
            assert(searched(f, values_view(self_@), true, Ok(Some(i as int))));
            let v = self_[i].copy();
            Ok(some_value(v))
        },
        Ok(None) => Ok(none_value()),
        Err(a) => Err(a),
    }
}

/// Whether `f` answered `stop` for some item, asked until it did.
pub open spec fn stopped<F: Fn(Vec<Value>) -> Result<Value, Abort>>(
    f: F,
    items: Seq<ValueV>,
    stop: bool,
    r: Result<ValueV, DiagnosticView>,
) -> bool {
    match r {
        Ok(v) => (exists|i: int| #[trigger]
            searched(f, items, stop, Ok(Some(i))) && v == ValueV::Bool(stop)) || (searched(
            f,
            items,
            stop,
            Ok(None),
        ) && v == ValueV::Bool(!stop)),
        Err(a) => searched(f, items, stop, Err(a)),
    }
}

pub fn list_any<F: Fn(Vec<Value>) -> Result<Value, Abort>>(self_: &[Value], f: F) -> (r: Result<
    Value,
    Abort,
>)
    requires
        callable(f),
        returns_bool(f),
    ensures
        stopped(f, values_view(self_@), true, outcome(r)),
{
    match search(self_, &f, true) {
        Ok(Some(i)) => {
            assert(searched(f, values_view(self_@), true, Ok(Some(i as int))));
            Ok(bool_value(true))
        },
        Ok(None) => Ok(bool_value(false)),
        Err(a) => Err(a),
    }
}

pub fn list_all<F: Fn(Vec<Value>) -> Result<Value, Abort>>(self_: &[Value], f: F) -> (r: Result<
    Value,
    Abort,
>)
    requires
        callable(f),
        returns_bool(f),
    ensures
        stopped(f, values_view(self_@), false, outcome(r)),
{
    match search(self_, &f, false) {
        Ok(Some(i)) => {
            assert(searched(f, values_view(self_@), false, Ok(Some(i as int))));
            Ok(bool_value(false))
        },
        Ok(None) => Ok(bool_value(true)),
        Err(a) => Err(a),
    }
}

/// The items of some lists, one list after the other.
pub open spec fn concatenated(lists: Seq<ValueV>) -> Seq<ValueV>
    decreases lists.len(),
{
    if lists.len() == 0 {
        Seq::empty()
    } else {
        concatenated(lists.drop_last()) + lists.last()->List_0
    }
}

pub fn list_flat_map<F: Fn(Vec<Value>) -> Result<Value, Abort>>(self_: &[Value], f: F) -> (r:
    Result<Value, Abort>)
    requires
        callable(f),
        returns_list(f),
    ensures
        exists|outs: Seq<ValueV>| #[trigger]
            all_came_to(f, values_view(self_@), outs) && match outcome(r) {
                Ok(v) => outs.len() == self_@.len() && v == ValueV::List(concatenated(outs)),
                Err(a) => outs.len() < self_@.len() && came_to(
                    f,
                    seq![values_view(self_@)[outs.len() as int]],
                    Err(a),
                ),
            },
{
    let ghost items = values_view(self_@);
    let ghost mut outs: Seq<ValueV> = Seq::empty();
    let mut out: Vec<Value> = Vec::new();
    let mut i: usize = 0;
    assert(values_view(out@) =~= Seq::empty());
    while i < self_.len()
        invariant
            callable(f),
            returns_list(f),
            items == values_view(self_@),
            i <= self_@.len(),
            outs.len() == i,
            all_came_to(f, items, outs),
            values_view(out@) == concatenated(outs),
        decreases self_@.len() - i,
    {
        let ghost seen = values_view(out@);
        match call1(&f, &self_[i]) {
            Ok(v) => {
                proof {
                    lemma_value_view(v);
                    let before = outs;
                    outs = outs.push(v@);
                    assert(outs.drop_last() =~= before);
                }
                match v {
                    Value::List(inner) => {
                        push_copies(&mut out, &inner);
                    },
                    _ => {},
                }
            },
            Err(a) => {
                return Err(a);
            },
        }
        i = i + 1;
    }
    Ok(list_value(out))
}

/// Appends copies of some values.
fn push_copies(out: &mut Vec<Value>, items: &[Value])
    ensures
        values_view(final(out)@) == values_view(old(out)@) + values_view(items@),
{
    let ghost before = values_view(out@);
    let mut i: usize = 0;
    assert(before + values_view(items@).take(0) =~= before);
    while i < items.len()
        invariant
            i <= items@.len(),
            values_view(out@) == before + values_view(items@).take(i as int),
        decreases items@.len() - i,
    {
        let ghost seen = values_view(out@);
        let c = items[i].copy();
        out.push(c);
        assert(values_view(out@) =~= seen.push(c@));
        assert(values_view(out@) =~= before + values_view(items@).take(i + 1));
        i = i + 1;
    }
    assert(values_view(items@).take(i as int) =~= values_view(items@));
}

/// Where an item with key `k` goes among items sorted by `keys`: after those whose keys do not
/// come after it.
pub open spec fn place(keys: Seq<ValueV>, k: ValueV) -> int
    decreases keys.len(),
{
    if keys.len() == 0 || key_le(keys.last(), k) {
        keys.len() as int
    } else {
        place(keys.drop_last(), k)
    }
}

/// The keys and the items, sorted by key; items with equal keys keep their order.
pub open spec fn sorted_by(keys: Seq<ValueV>, items: Seq<ValueV>) -> (Seq<ValueV>, Seq<ValueV>)
    decreases keys.len(),
{
    if keys.len() == 0 || items.len() == 0 {
        (Seq::empty(), Seq::empty())
    } else {
        let (ks, vs) = sorted_by(keys.drop_last(), items.drop_last());
        let at = place(ks, keys.last());
        (ks.insert(at, keys.last()), vs.insert(at, items.last()))
    }
}

proof fn lemma_place(keys: Seq<ValueV>, k: ValueV)
    ensures
        0 <= place(keys, k) <= keys.len(),
    decreases keys.len(),
{
    if keys.len() > 0 && !key_le(keys.last(), k) {
        lemma_place(keys.drop_last(), k);
    }
}

proof fn lemma_sorted_len(keys: Seq<ValueV>, items: Seq<ValueV>)
    requires
        keys.len() == items.len(),
    ensures
        sorted_by(keys, items).0.len() == keys.len(),
        sorted_by(keys, items).1.len() == keys.len(),
    decreases keys.len(),
{
    if keys.len() > 0 {
        lemma_sorted_len(keys.drop_last(), items.drop_last());
        lemma_place(sorted_by(keys.drop_last(), items.drop_last()).0, keys.last());
    }
}

/// Sorts by the keys that `f` gives; items with equal keys keep their order.
pub fn list_sort_by<F: Fn(Vec<Value>) -> Result<Value, Abort>>(self_: &[Value], f: F) -> (r:
    Result<Value, Abort>)
    requires
        callable(f),
    ensures
        exists|keys: Seq<ValueV>| #[trigger]
            all_came_to(f, values_view(self_@), keys) && match outcome(r) {
                Ok(v) => keys.len() == self_@.len() && v == ValueV::List(
                    sorted_by(keys, values_view(self_@)).1,
                ),
                Err(a) => keys.len() < self_@.len() && came_to(
                    f,
                    seq![values_view(self_@)[keys.len() as int]],
                    Err(a),
                ),
            },
{
    let ghost items = values_view(self_@);
    let ghost mut given: Seq<ValueV> = Seq::empty();
    let mut keys: Vec<Value> = Vec::new();
    let mut out: Vec<Value> = Vec::new();
    let mut i: usize = 0;
    assert(values_view(keys@) =~= Seq::empty());
    assert(values_view(out@) =~= Seq::empty());
    while i < self_.len()
        invariant
            callable(f),
            items == values_view(self_@),
            i <= self_@.len(),
            given.len() == i,
            keys@.len() == i,
            out@.len() == i,
            all_came_to(f, items, given),
            (values_view(keys@), values_view(out@)) == sorted_by(given, items.take(i as int)),
        decreases self_@.len() - i,
    {
        match call1(&f, &self_[i]) {
            Ok(k) => {
                let ghost before = given;
                let ghost ks = values_view(keys@);
                let ghost vs = values_view(out@);
                let c = self_[i].copy();
                let at = place_of(&keys, &k);
                let ghost kv = k@;
                keys.insert(at, k);
                out.insert(at, c);
                proof {
                    given = given.push(kv);
                    assert(given.drop_last() =~= before);
                    assert(items.take(i + 1).drop_last() =~= items.take(i as int));
                    assert(values_view(keys@) =~= ks.insert(at as int, kv));
                    assert(values_view(out@) =~= vs.insert(at as int, c@));
                }
            },
            Err(a) => {
                return Err(a);
            },
        }
        i = i + 1;
    }
    assert(items.take(i as int) =~= items);
    Ok(list_value(out))
}

fn place_of(keys: &Vec<Value>, k: &Value) -> (r: usize)
    ensures
        r == place(values_view(keys@), k@),
        r <= keys@.len(),
{
    let ghost ks = values_view(keys@);
    let mut n: usize = keys.len();
    assert(ks.take(n as int) =~= ks);
    while n > 0
        invariant
            n <= keys@.len(),
            ks == values_view(keys@),
            place(ks.take(n as int), k@) == place(ks, k@),
        decreases n,
    {
        if key_not_after(&keys[n - 1], k) {
            return n;
        }
        assert(ks.take(n as int).drop_last() =~= ks.take(n - 1));
        n = n - 1;
    }
    0
}

pub fn list_each<F: Fn(Vec<Value>) -> Result<Value, Abort>>(self_: &[Value], f: F) -> (r: Result<
    Value,
    Abort,
>)
    requires
        callable(f),
    ensures
        each_done(f, values_view(self_@), outcome(r)),
{
    match list_map(self_, f) {
        Ok(_) => Ok(void_value()),
        Err(a) => Err(a),
    }
}

/// Calling `f` with each item came to `r`.
pub open spec fn each_done<F: Fn(Vec<Value>) -> Result<Value, Abort>>(
    f: F,
    items: Seq<ValueV>,
    r: Result<ValueV, DiagnosticView>,
) -> bool {
    exists|outs: Seq<ValueV>| #[trigger]
        all_came_to(f, items, outs) && match r {
            Ok(v) => outs.len() == items.len() && v == ValueV::Void,
            Err(a) => outs.len() < items.len() && came_to(f, seq![items[outs.len() as int]], Err(a)),
        }
}

// ---------------------------------------------------------------------------
// Lists: the other methods
// ---------------------------------------------------------------------------

/// A count as an integer.
pub open spec fn count_v(n: int) -> ValueV {
    ValueV::Int(
        if n <= i64::MAX {
            n as i64
        } else {
            i64::MAX
        },
    )
}

fn count_value(n: usize) -> (r: Value)
    ensures
        r@ == count_v(n as int),
{
    if n as u128 <= i64::MAX as u128 {
        int_value(n as i64)
    } else {
        int_value(i64::MAX)
    }
}

/// An integer as an index, if it can be one.
pub open spec fn index_v(n: int) -> Option<int> {
    if 0 <= n <= usize::MAX {
        Some(n)
    } else {
        None
    }
}

fn as_index(n: i64) -> (r: Option<usize>)
    ensures
        match r {
            Some(i) => index_v(n as int) == Some(i as int),
            None => index_v(n as int) is None,
        },
{
    if n < 0 || n as u128 > usize::MAX as u128 {
        None
    } else {
        Some(n as usize)
    }
}

/// How many items `take` and `skip` speak of.
pub open spec fn span_len(n: int, len: int) -> int {
    match index_v(n) {
        Some(i) => if i <= len {
            i
        } else {
            len
        },
        None => 0,
    }
}

fn clamped(n: i64, len: usize) -> (r: usize)
    ensures
        r == span_len(n as int, len as int),
        r <= len,
{
    match as_index(n) {
        Some(i) => if i <= len {
            i
        } else {
            len
        },
        None => 0,
    }
}

fn copy_range(items: &[Value], from: usize, to: usize) -> (r: Vec<Value>)
    requires
        from <= to <= items@.len(),
    ensures
        values_view(r@) == values_view(items@).subrange(from as int, to as int),
{
    let mut out: Vec<Value> = Vec::new();
    let mut i: usize = from;
    assert(values_view(out@) =~= values_view(items@).subrange(from as int, from as int));
    while i < to
        invariant
            from <= i <= to <= items@.len(),
            values_view(out@) == values_view(items@).subrange(from as int, i as int),
        decreases to - i,
    {
        let ghost seen = values_view(out@);
        let c = items[i].copy();
        out.push(c);
        assert(values_view(out@) =~= seen.push(c@));
        assert(values_view(out@) =~= values_view(items@).subrange(from as int, i + 1));
        i = i + 1;
    }
    out
}

/// A pair as a tuple.
pub open spec fn pair_v(a: ValueV, b: ValueV) -> ValueV {
    ValueV::Tuple(seq![a, b])
}

fn pair_value(a: Value, b: Value) -> (r: Value)
    ensures
        r@ == pair_v(a@, b@),
{
    let items = vec![a, b];
    assert(values_view(items@) =~= seq![a@, b@]);
    tuple_value(items)
}

/// The partial sums of the integers, as long as they fit; floats do not count.
pub open spec fn int_sum(items: Seq<ValueV>) -> Option<int>
    decreases items.len(),
{
    if items.len() == 0 {
        Some(0)
    } else {
        match (int_sum(items.drop_last()), items.last()) {
            (Some(t), ValueV::Int(n)) => if i64::MIN <= t + n <= i64::MAX {
                Some(t + n)
            } else {
                None
            },
            (t, _) => t,
        }
    }
}

/// The floats among some values.
pub open spec fn floats_of(items: Seq<ValueV>) -> Seq<Seq<char>>
    decreases items.len(),
{
    if items.len() == 0 {
        Seq::empty()
    } else {
        match items.last() {
            ValueV::Float(x) => floats_of(items.drop_last()).push(x),
            _ => floats_of(items.drop_last()),
        }
    }
}

pub open spec fn numbers(items: Seq<ValueV>) -> bool {
    forall|i: int|
        0 <= i < items.len() ==> (#[trigger] items[i]) is Int || items[i] is Float
}

/// `plus` can take `a` and `b` to `c`.
pub open spec fn adds<G: Fn(String, String) -> String>(
    plus: G,
    a: Seq<char>,
    b: Seq<char>,
    c: Seq<char>,
) -> bool {
    exists|x: String, y: String, z: String| #[trigger]
        call_ensures(plus, (x, y), z) && x@ == a && y@ == b && z@ == c
}

/// Adding up floats from zero with `plus` can come to `total`.
pub open spec fn added_up<G: Fn(String, String) -> String>(
    plus: G,
    floats: Seq<Seq<char>>,
    totals: Seq<Seq<char>>,
) -> bool {
    &&& totals.len() == floats.len() + 1
    &&& totals[0] == "0"@
    &&& forall|i: int| 0 <= i < floats.len() ==> #[trigger] add_step(plus, floats, totals, i)
}

pub open spec fn add_step<G: Fn(String, String) -> String>(
    plus: G,
    floats: Seq<Seq<char>>,
    totals: Seq<Seq<char>>,
    i: int,
) -> bool {
    adds(plus, totals[i], floats[i], totals[i + 1])
}

/// What the sum of some numbers is: an overflow where the integers do not fit, and a float
/// where there is a float or where there is nothing and an empty sum is one.
pub open spec fn summed<G: Fn(String, String) -> String>(
    plus: G,
    items: Seq<ValueV>,
    empty_is_float: bool,
    span: Span,
    r: Result<ValueV, DiagnosticView>,
) -> bool {
    match int_sum(items) {
        None => r == Err::<ValueV, DiagnosticView>(overflow_view(span)),
        Some(total) => if floats_of(items).len() > 0 || (items.len() == 0 && empty_is_float) {
            exists|totals: Seq<Seq<char>>| #[trigger]
                added_up(plus, floats_of(items), totals) && r == Ok::<ValueV, DiagnosticView>(
                    ValueV::Float(totals.last()),
                )
        } else {
            r == Ok::<ValueV, DiagnosticView>(ValueV::Int(total as i64))
        },
    }
}

proof fn lemma_sum_overflows(items: Seq<ValueV>, n: int)
    requires
        0 <= n <= items.len(),
        int_sum(items.take(n)) is None,
    ensures
        int_sum(items) is None,
    decreases items.len() - n,
{
    if n == items.len() {
        assert(items.take(n) =~= items);
    } else {
        assert(items.take(n + 1).drop_last() =~= items.take(n));
        lemma_sum_overflows(items, n + 1);
    }
}

/// The sum of some numbers. Floats are added with `plus`, which takes and gives spellings.
pub fn list_sum<G: Fn(String, String) -> String>(
    values: &[Value],
    empty_is_float: bool,
    span: Span,
    plus: G,
) -> (r: Result<Value, Abort>)
    requires
        numbers(values_view(values@)),
        forall|x: String, y: String| call_requires(plus, (x, y)),
    ensures
        summed(plus, values_view(values@), empty_is_float, span, outcome(r)),
{
    let ghost items = values_view(values@);
    let ghost mut totals: Seq<Seq<char>> = seq!["0"@];
    let mut int_total: i64 = 0;
    let mut float_total: String = "0".to_owned();
    let mut saw_float = false;
    let mut i: usize = 0;
    assert(items.take(0) =~= Seq::empty());
    while i < values.len()
        invariant
            forall|x: String, y: String| call_requires(plus, (x, y)),
            items == values_view(values@),
            numbers(items),
            i <= values@.len(),
            int_sum(items.take(i as int)) == Some(int_total as int),
            saw_float == (floats_of(items.take(i as int)).len() > 0),
            float_total@ == totals.last(),
            added_up(plus, floats_of(items.take(i as int)), totals),
        decreases values@.len() - i,
    {
        proof {
            lemma_value_view(values@[i as int]);
            assert(items.take(i + 1).drop_last() =~= items.take(i as int));
            assert(items.take(i + 1).last() == items[i as int]);
        }
        match &values[i] {
            Value::Int(n) => {
                match int_total.checked_add(*n) {
                    Some(t) => {
                        int_total = t;
                    },
                    None => {
                        proof {
                            lemma_sum_overflows(items, i + 1);
                        }
                        return Err(overflow(span));
                    },
                }
            },
            Value::Float(x) => {
                saw_float = true;
                let ghost before = float_total@;
                let a = float_total;
                let b = x.clone();
                let c = plus(a, b);
                proof {
                    assert(call_ensures(plus, (a, b), c));
                    let floats = floats_of(items.take(i as int));
                    let longer = floats.push(x@);
                    let more = totals.push(c@);
                    assert forall|j: int| 0 <= j < longer.len() implies #[trigger] add_step(
                        plus,
                        longer,
                        more,
                        j,
                    ) by {
                        if j < floats.len() {
                            assert(add_step(plus, floats, totals, j));
                        } else {
                            assert(adds(plus, before, x@, c@));
                        }
                    }
                    totals = more;
                }
                float_total = c;
            },
            _ => {},
        }
        i = i + 1;
    }
    assert(items.take(i as int) =~= items);
    if saw_float || (values.len() == 0 && empty_is_float) {
        Ok(float_value(float_total))
    } else {
        Ok(int_value(int_total))
    }
}

pub fn list_enumerate(self_: &[Value]) -> (r: Value)
    ensures
        r@ == ValueV::List(
            Seq::new(self_@.len(), |i: int| pair_v(count_v(i), values_view(self_@)[i])),
        ),
{
    let ghost items = values_view(self_@);
    let mut out: Vec<Value> = Vec::new();
    let mut i: usize = 0;
    while i < self_.len()
        invariant
            items == values_view(self_@),
            i <= self_@.len(),
            out@.len() == i,
            forall|j: int|
                0 <= j < i ==> (#[trigger] out@[j])@ == pair_v(count_v(j), items[j]),
        decreases self_@.len() - i,
    {
        let v = self_[i].copy();
        let p = pair_value(count_value(i), v);
        out.push(p);
        i = i + 1;
    }
    assert(values_view(out@) =~= Seq::new(
        self_@.len(),
        |i: int| pair_v(count_v(i), values_view(self_@)[i]),
    ));
    list_value(out)
}

/// The pairs of the items at the same index, as far as both lists go.
pub open spec fn zipped(a: Seq<ValueV>, b: Seq<ValueV>) -> Seq<ValueV> {
    Seq::new(
        if a.len() <= b.len() {
            a.len()
        } else {
            b.len()
        },
        |i: int| pair_v(a[i], b[i]),
    )
}

pub fn list_zip(self_: &[Value], other: &[Value]) -> (r: Value)
    ensures
        r@ == ValueV::List(zipped(values_view(self_@), values_view(other@))),
{
    let ghost a = values_view(self_@);
    let ghost b = values_view(other@);
    let mut out: Vec<Value> = Vec::new();
    let mut i: usize = 0;
    while i < self_.len() && i < other.len()
        invariant
            a == values_view(self_@),
            b == values_view(other@),
            i <= self_@.len(),
            i <= other@.len(),
            out@.len() == i,
            forall|j: int| 0 <= j < i ==> (#[trigger] out@[j])@ == pair_v(a[j], b[j]),
        decreases self_@.len() - i,
    {
        let x = self_[i].copy();
        let y = other[i].copy();
        let p = pair_value(x, y);
        out.push(p);
        i = i + 1;
    }
    assert(values_view(out@) =~= zipped(a, b));
    list_value(out)
}

pub fn list_rev(self_: &[Value]) -> (r: Value)
    ensures
        r@ == ValueV::List(values_view(self_@).reverse()),
{
    let ghost items = values_view(self_@);
    let mut out: Vec<Value> = Vec::new();
    let mut i: usize = self_.len();
    while i > 0
        invariant
            items == values_view(self_@),
            i <= self_@.len(),
            out@.len() == self_@.len() - i,
            forall|j: int|
                0 <= j < out@.len() ==> (#[trigger] out@[j])@ == items[items.len() - 1 - j],
        decreases i,
    {
        let v = self_[i - 1].copy();
        out.push(v);
        i = i - 1;
    }
    assert(values_view(out@) =~= items.reverse());
    list_value(out)
}

pub fn list_take(self_: &[Value], n: i64) -> (r: Value)
    ensures
        r@ == ValueV::List(
            values_view(self_@).take(span_len(n as int, self_@.len() as int)),
        ),
{
    let to: usize = clamped(n, self_.len());
    list_value(copy_range(self_, 0, to))
}

pub fn list_skip(self_: &[Value], n: i64) -> (r: Value)
    ensures
        r@ == ValueV::List(
            values_view(self_@).skip(span_len(n as int, self_@.len() as int)),
        ),
{
    let from: usize = clamped(n, self_.len());
    list_value(copy_range(self_, from, self_.len()))
}

pub fn list_chain(self_: &[Value], other: &[Value]) -> (r: Value)
    ensures
        r@ == ValueV::List(values_view(self_@) + values_view(other@)),
{
    let mut out = copy_range(self_, 0, self_.len());
    assert(values_view(out@) =~= values_view(self_@));
    push_copies(&mut out, other);
    list_value(out)
}

/// The item at an index, if there is one.
pub open spec fn item_at(items: Seq<ValueV>, i: int) -> Option<ValueV> {
    if 0 <= i < items.len() {
        Some(items[i])
    } else {
        None
    }
}

pub fn list_get(self_: &[Value], i: i64) -> (r: Value)
    ensures
        r@ == option_v(item_at(values_view(self_@), i as int)),
{
    match as_index(i) {
        Some(at) => if at < self_.len() {
            let v = self_[at].copy();
            some_value(v)
        } else {
            none_value()
        },
        None => {
            proof {
                assert(self_@.len() <= usize::MAX) by {
                    let _ = self_.len();
                }
            }
            none_value()
        },
    }
}

pub fn list_len(self_: &[Value]) -> (r: Value)
    ensures
        r@ == count_v(self_@.len() as int),
{
    count_value(self_.len())
}

pub fn list_is_empty(self_: &[Value]) -> (r: Value)
    ensures
        r@ == ValueV::Bool(self_@.len() == 0),
{
    bool_value(self_.len() == 0)
}

/// Some item equals `x`.
pub open spec fn holds_same(items: Seq<ValueV>, x: ValueV) -> bool {
    exists|i: int| 0 <= i < items.len() && value_same(#[trigger] items[i], x)
}

pub fn list_contains(self_: &[Value], x: &Value) -> (r: Value)
    ensures
        r@ == ValueV::Bool(holds_same(values_view(self_@), x@)),
{
    let ghost items = values_view(self_@);
    let mut i: usize = 0;
    while i < self_.len()
        invariant
            items == values_view(self_@),
            i <= self_@.len(),
            forall|j: int| 0 <= j < i ==> !value_same(#[trigger] items[j], x@),
        decreases self_@.len() - i,
    {
        if self_[i].same(x) {
            assert(value_same(items[i as int], x@));
            return bool_value(true);
        }
        i = i + 1;
    }
    bool_value(false)
}

pub fn list_first(self_: &[Value]) -> (r: Value)
    ensures
        r@ == option_v(item_at(values_view(self_@), 0)),
{
    if self_.len() > 0 {
        let v = self_[0].copy();
        some_value(v)
    } else {
        none_value()
    }
}

pub fn list_last(self_: &[Value]) -> (r: Value)
    ensures
        r@ == option_v(item_at(values_view(self_@), self_@.len() - 1)),
{
    if self_.len() > 0 {
        let v = self_[self_.len() - 1].copy();
        some_value(v)
    } else {
        none_value()
    }
}

/// All items are texts.
pub open spec fn all_texts(items: Seq<ValueV>) -> bool {
    forall|i: int| 0 <= i < items.len() ==> (#[trigger] items[i]) is Str
}

/// The texts with `sep` between them.
pub open spec fn joined(items: Seq<ValueV>, sep: Seq<char>) -> Seq<char>
    decreases items.len(),
{
    if items.len() == 0 {
        Seq::empty()
    } else if items.len() == 1 {
        items[0]->Str_0
    } else {
        joined(items.drop_last(), sep) + sep + items.last()->Str_0
    }
}

pub fn list_join(self_: &[Value], sep: &str) -> (r: Value)
    requires
        all_texts(values_view(self_@)),
    ensures
        r@ == ValueV::Str(joined(values_view(self_@), sep@)),
{
    let ghost items = values_view(self_@);
    let mut out = String::new();
    let mut i: usize = 0;
    assert(items.take(0) =~= Seq::empty());
    assert(out@ =~= Seq::empty());
    while i < self_.len()
        invariant
            items == values_view(self_@),
            all_texts(items),
            i <= self_@.len(),
            out@ == joined(items.take(i as int), sep@),
        decreases self_@.len() - i,
    {
        proof {
            lemma_value_view(self_@[i as int]);
            assert(items.take(i + 1).drop_last() =~= items.take(i as int));
        }
        if i > 0 {
            out.append(sep);
        }
        match &self_[i] {
            Value::Str(s) => {
                let ghost before = out@;
                out.append(s.as_str());
                assert(i == 0 ==> out@ =~= s@);
            },
            _ => {},
        }
        i = i + 1;
    }
    assert(items.take(i as int) =~= items);
    str_value(out)
}

/// `start..end` is a range of a list of length `len`.
pub open spec fn in_bounds(start: int, end: int, len: int) -> bool {
    0 <= start <= end <= len
}

pub fn list_slice(self_: &[Value], start: i64, end: i64, span: Span) -> (r: Result<Value, Abort>)
    ensures
        outcome(r) == if in_bounds(start as int, end as int, self_@.len() as int) {
            Ok::<ValueV, DiagnosticView>(
                ValueV::List(values_view(self_@).subrange(start as int, end as int)),
            )
        } else {
            Err(out_of_range_view(span, "list slice"@))
        },
{
    let len: usize = self_.len();
    match (as_index(start), as_index(end)) {
        (Some(s), Some(e)) => if s <= e && e <= len {
            Ok(list_value(copy_range(self_, s, e)))
        } else {
            Err(out_of_range(span, "list slice"))
        },
        _ => Err(out_of_range(span, "list slice")),
    }
}

/// The items of `base`, and those of `more` that are new, each once.
pub open spec fn with_more(base: Seq<KeyV>, more: Seq<KeyV>) -> Seq<KeyV>
    decreases more.len(),
{
    if more.len() == 0 {
        base
    } else {
        let r = with_more(base, more.drop_last());
        if r.contains(more.last()) {
            r
        } else {
            r.push(more.last())
        }
    }
}

/// All items can be keys.
pub open spec fn all_keys(items: Seq<ValueV>) -> bool {
    forall|i: int| 0 <= i < items.len() ==> try_key_v(#[trigger] items[i]) is Some
}

/// The keys that some values are.
pub open spec fn as_keys(items: Seq<ValueV>) -> Seq<KeyV> {
    Seq::new(items.len(), |i: int| try_key_v(items[i]).unwrap())
}

pub fn list_to_set(self_: &[Value]) -> (r: Value)
    requires
        all_keys(values_view(self_@)),
    ensures
        r@ == ValueV::SetOf(with_more(Seq::empty(), as_keys(values_view(self_@)))),
{
    let ghost items = values_view(self_@);
    let ghost keys = as_keys(items);
    let mut out = set_new();
    let mut i: usize = 0;
    assert(keys.take(0) =~= Seq::empty());
    while i < self_.len()
        invariant
            items == values_view(self_@),
            keys == as_keys(items),
            all_keys(items),
            i <= self_@.len(),
            items_of(out) == with_more(Seq::empty(), keys.take(i as int)),
        decreases self_@.len() - i,
    {
        assert(keys.take(i + 1).drop_last() =~= keys.take(i as int));
        assert(try_key_v(items[i as int]) is Some);
        match MapKey::try_from_value(&self_[i]) {
            Some(k) => {
                assert(keys[i as int] == k@);
                let _added = set_insert_full(&mut out, k);
            },
            None => {},
        }
        i = i + 1;
    }
    assert(keys.take(i as int) =~= keys);
    set_value(out)
}

pub fn list_push(self_: &mut Vec<Value>, x: Value)
    ensures
        values_view(final(self_)@) == values_view(old(self_)@).push(x@),
{
    self_.push(x);
    assert(values_view(self_@) =~= values_view(old(self_)@).push(x@));
}

/// Removes the last item, if there is one.
pub fn list_pop(self_: &mut Vec<Value>) -> (r: Value)
    ensures
        r@ == option_v(item_at(values_view(old(self_)@), old(self_)@.len() - 1)),
        values_view(final(self_)@) == if old(self_)@.len() > 0 {
            values_view(old(self_)@).drop_last()
        } else {
            values_view(old(self_)@)
        },
{
    let gone = self_.pop();
    assert(old(self_)@.len() > 0 ==> values_view(self_@) =~= values_view(
        old(self_)@,
    ).drop_last());
    option_value(gone)
}

pub fn list_insert(self_: &mut Vec<Value>, i: i64, x: Value, span: Span) -> (r: Result<
    Value,
    Abort,
>)
    ensures
        if 0 <= i <= old(self_)@.len() {
            &&& outcome(r) == Ok::<ValueV, DiagnosticView>(ValueV::Void)
            &&& values_view(final(self_)@) == values_view(old(self_)@).insert(i as int, x@)
        } else {
            &&& outcome(r) == Err::<ValueV, DiagnosticView>(
                out_of_range_view(span, "list insert"@),
            )
            &&& final(self_)@ == old(self_)@
        },
{
    let len: usize = self_.len();
    match as_index(i) {
        Some(at) => if at <= len {
            self_.insert(at, x);
            assert(values_view(self_@) =~= values_view(old(self_)@).insert(at as int, x@));
            Ok(void_value())
        } else {
            Err(out_of_range(span, "list insert"))
        },
        None => Err(out_of_range(span, "list insert")),
    }
}

pub fn list_remove(self_: &mut Vec<Value>, i: i64, span: Span) -> (r: Result<Value, Abort>)
    ensures
        if 0 <= i < old(self_)@.len() {
            &&& outcome(r) == Ok::<ValueV, DiagnosticView>(values_view(old(self_)@)[i as int])
            &&& values_view(final(self_)@) == values_view(old(self_)@).remove(i as int)
        } else {
            &&& outcome(r) == Err::<ValueV, DiagnosticView>(
                out_of_range_view(span, "list remove"@),
            )
            &&& final(self_)@ == old(self_)@
        },
{
    let len: usize = self_.len();
    match as_index(i) {
        Some(at) => if at < len {
            let gone = self_.remove(at);
            assert(values_view(self_@) =~= values_view(old(self_)@).remove(at as int));
            Ok(gone)
        } else {
            Err(out_of_range(span, "list remove"))
        },
        None => Err(out_of_range(span, "list remove")),
    }
}

pub fn list_extend(self_: &mut Vec<Value>, other: &[Value])
    ensures
        values_view(final(self_)@) == values_view(old(self_)@) + values_view(other@),
{
    push_copies(self_, other);
}

pub fn list_clear(self_: &mut Vec<Value>)
    ensures
        values_view(final(self_)@) == Seq::<ValueV>::empty(),
{
    self_.clear();
    assert(values_view(self_@) =~= Seq::empty());
}

// ---------------------------------------------------------------------------
// Dictionaries
// ---------------------------------------------------------------------------

pub fn dict_get(self_: &Dict, k: &MapKey) -> (r: Value)
    ensures
        r@ == option_v(looked_up(self_@, k@)),
{
    match self_.get(k) {
        Some(v) => {
            let c = v.copy();
            some_value(c)
        },
        None => none_value(),
    }
}

pub fn dict_contains_key(self_: &Dict, k: &MapKey) -> (r: Value)
    ensures
        r@ == ValueV::Bool(has_key(self_@, k@)),
{
    match self_.index_of(k) {
        Some(_) => bool_value(true),
        None => bool_value(false),
    }
}

pub fn dict_keys(self_: &Dict) -> (r: Value)
    ensures
        r@ == ValueV::List(Seq::new(self_@.len(), |i: int| key_v(self_@[i].0))),
{
    let n: usize = self_.len();
    let mut out: Vec<Value> = Vec::new();
    let mut i: usize = 0;
    while i < n
        invariant
            n == self_@.len(),
            i <= n,
            out@.len() == i,
            forall|j: int| 0 <= j < i ==> (#[trigger] out@[j])@ == key_v(self_@[j].0),
        decreases n - i,
    {
        let v = self_.key_at(i).to_value();
        out.push(v);
        i = i + 1;
    }
    assert(values_view(out@) =~= Seq::new(self_@.len(), |i: int| key_v(self_@[i].0)));
    list_value(out)
}

pub fn dict_values(self_: &Dict) -> (r: Value)
    ensures
        r@ == ValueV::List(Seq::new(self_@.len(), |i: int| self_@[i].1)),
{
    let n: usize = self_.len();
    let mut out: Vec<Value> = Vec::new();
    let mut i: usize = 0;
    while i < n
        invariant
            n == self_@.len(),
            i <= n,
            out@.len() == i,
            forall|j: int| 0 <= j < i ==> (#[trigger] out@[j])@ == self_@[j].1,
        decreases n - i,
    {
        let v = self_.value_at(i).copy();
        out.push(v);
        i = i + 1;
    }
    assert(values_view(out@) =~= Seq::new(self_@.len(), |i: int| self_@[i].1));
    list_value(out)
}

/// The entries of a dictionary as pairs.
pub open spec fn pairs_v(entries: Seq<(KeyV, ValueV)>) -> Seq<ValueV> {
    Seq::new(entries.len(), |i: int| pair_v(key_v(entries[i].0), entries[i].1))
}

fn dict_pairs(self_: &Dict) -> (r: Vec<Value>)
    ensures
        values_view(r@) == pairs_v(self_@),
{
    let n: usize = self_.len();
    let mut out: Vec<Value> = Vec::new();
    let mut i: usize = 0;
    while i < n
        invariant
            n == self_@.len(),
            i <= n,
            out@.len() == i,
            forall|j: int|
                0 <= j < i ==> (#[trigger] out@[j])@ == pair_v(key_v(self_@[j].0), self_@[j].1),
        decreases n - i,
    {
        let k = self_.key_at(i).to_value();
        let v = self_.value_at(i).copy();
        let p = pair_value(k, v);
        out.push(p);
        i = i + 1;
    }
    assert(values_view(out@) =~= pairs_v(self_@));
    out
}

pub fn dict_entries(self_: &Dict) -> (r: Value)
    ensures
        r@ == ValueV::List(pairs_v(self_@)),
{
    list_value(dict_pairs(self_))
}

pub fn dict_len(self_: &Dict) -> (r: Value)
    ensures
        r@ == count_v(self_@.len() as int),
{
    count_value(self_.len())
}

pub fn dict_map<F: Fn(Vec<Value>) -> Result<Value, Abort>>(self_: &Dict, f: F) -> (r: Result<
    Value,
    Abort,
>)
    requires
        callable(f),
    ensures
        mapped(f, pairs_v(self_@), outcome(r)),
{
    list_map(&dict_pairs(self_), f)
}

/// Filtering the entries by `f` came to `r`.
pub open spec fn entries_filtered<F: Fn(Vec<Value>) -> Result<Value, Abort>>(
    f: F,
    entries: Seq<(KeyV, ValueV)>,
    r: Result<ValueV, DiagnosticView>,
) -> bool {
    exists|outs: Seq<ValueV>| #[trigger]
        all_came_to(f, pairs_v(entries), outs) && match r {
            Ok(v) => outs.len() == entries.len() && v == ValueV::Dict(kept(entries, outs)),
            Err(a) => outs.len() < entries.len() && came_to(
                f,
                seq![pairs_v(entries)[outs.len() as int]],
                Err(a),
            ),
        }
}

proof fn lemma_kept_from<A>(items: Seq<A>, answers: Seq<ValueV>, i: int)
    requires
        answers.len() <= items.len(),
        0 <= i < kept(items, answers).len(),
    ensures
        exists|j: int|
            0 <= j < answers.len() && #[trigger] items[j] == kept(items, answers)[i],
    decreases answers.len(),
{
    if answers.len() > 0 {
        let before = kept(items, answers.drop_last());
        if i < before.len() {
            lemma_kept_from(items, answers.drop_last(), i);
        } else {
            assert(items[answers.len() - 1] == kept(items, answers)[i]);
        }
    }
}

pub fn dict_filter<F: Fn(Vec<Value>) -> Result<Value, Abort>>(self_: &Dict, f: F) -> (r: Result<
    Value,
    Abort,
>)
    requires
        callable(f),
        returns_bool(f),
    ensures
        entries_filtered(f, self_@, outcome(r)),
{
    let ghost entries = self_@;
    let ghost mut answers: Seq<ValueV> = Seq::empty();
    let n: usize = self_.len();
    let mut out = Dict::new();
    let mut i: usize = 0;
    while i < n
        invariant
            callable(f),
            returns_bool(f),
            entries == self_@,
            distinct_keys(entries),
            n == entries.len(),
            i <= n,
            answers.len() == i,
            all_came_to(f, pairs_v(entries), answers),
            out@ == kept(entries, answers),
        decreases n - i,
    {
        let k = self_.key_at(i);
        let v = self_.value_at(i).copy();
        let kv = k.to_value();
        let c = v.copy();
        let p = pair_value(kv, c);
        match call_bool(&f, &p) {
            Ok(b) => {
                let ghost before = answers;
                proof {
                    answers = answers.push(ValueV::Bool(b));
                    assert(answers.drop_last() =~= before);
                    assert(pairs_v(entries)[i as int] == p@);
                }
                if b {
                    proof {
                        if has_key(out@, k@) {
                            let at = choose|at: int|
                                0 <= at < out@.len() && (#[trigger] out@[at]).0 == k@;
                            lemma_kept_from(entries, before, at);
                            let j = choose|j: int|
                                0 <= j < before.len() && #[trigger] entries[j] == out@[at];
                            assert(entries[j].0 == entries[i as int].0);
                        }
                    }
                    let _old = out.insert(k, v);
                }
            },
            Err(a) => {
                return Err(a);
            },
        }
        i = i + 1;
    }
    Ok(dict_value(out))
}

pub fn dict_any<F: Fn(Vec<Value>) -> Result<Value, Abort>>(self_: &Dict, f: F) -> (r: Result<
    Value,
    Abort,
>)
    requires
        callable(f),
        returns_bool(f),
    ensures
        stopped(f, pairs_v(self_@), true, outcome(r)),
{
    list_any(&dict_pairs(self_), f)
}

pub fn dict_all<F: Fn(Vec<Value>) -> Result<Value, Abort>>(self_: &Dict, f: F) -> (r: Result<
    Value,
    Abort,
>)
    requires
        callable(f),
        returns_bool(f),
    ensures
        stopped(f, pairs_v(self_@), false, outcome(r)),
{
    list_all(&dict_pairs(self_), f)
}

pub fn dict_find<F: Fn(Vec<Value>) -> Result<Value, Abort>>(self_: &Dict, f: F) -> (r: Result<
    Value,
    Abort,
>)
    requires
        callable(f),
        returns_bool(f),
    ensures
        found(f, pairs_v(self_@), outcome(r)),
{
    list_find(&dict_pairs(self_), f)
}

pub fn dict_fold<F: Fn(Vec<Value>) -> Result<Value, Abort>>(self_: &Dict, init: Value, f: F) -> (r:
    Result<Value, Abort>)
    requires
        callable(f),
    ensures
        folded(f, init@, pairs_v(self_@), outcome(r)),
{
    list_fold(&dict_pairs(self_), init, f)
}

pub fn dict_each<F: Fn(Vec<Value>) -> Result<Value, Abort>>(self_: &Dict, f: F) -> (r: Result<
    Value,
    Abort,
>)
    requires
        callable(f),
    ensures
        each_done(f, pairs_v(self_@), outcome(r)),
{
    list_each(&dict_pairs(self_), f)
}

/// Gives a key a value; returns the value that it had.
pub fn dict_insert(self_: &mut Dict, k: MapKey, v: Value) -> (r: Value)
    ensures
        final(self_)@ == inserted(old(self_)@, k@, v@),
        r@ == option_v(looked_up(old(self_)@, k@)),
{
    let before = self_.insert(k, v);
    option_value(before)
}

/// Removes the entry of a key; returns the value that it had. The later entries move down.
pub fn dict_remove(self_: &mut Dict, k: &MapKey) -> (r: Value)
    ensures
        final(self_)@ == removed(old(self_)@, k@),
        r@ == option_v(looked_up(old(self_)@, k@)),
{
    let before = self_.remove(k);
    option_value(before)
}

pub fn dict_clear(self_: &mut Dict)
    ensures
        final(self_)@ == Seq::<(KeyV, ValueV)>::empty(),
{
    self_.clear();
}

// ---------------------------------------------------------------------------
// Sets
// ---------------------------------------------------------------------------

pub fn set_contains(self_: &IndexSet<MapKey>, x: &MapKey) -> (r: Value)
    ensures
        r@ == ValueV::Bool(items_of(*self_).contains(x@)),
{
    bool_value(set_has(self_, x))
}

pub fn set_len(self_: &IndexSet<MapKey>) -> (r: Value)
    ensures
        r@ == count_v(items_of(*self_).len() as int),
{
    count_value(set_count(self_))
}

/// The items of the first set, and then those of the second that the first lacks.
pub fn set_union(self_: &IndexSet<MapKey>, other: &IndexSet<MapKey>) -> (r: Value)
    ensures
        r@ == ValueV::SetOf(with_more(items_of(*self_), items_of(*other))),
{
    let mut out = set_copy(self_);
    let ghost base = items_of(*self_);
    let ghost more = items_of(*other);
    let n: usize = set_count(other);
    let mut i: usize = 0;
    assert(more.take(0) =~= Seq::empty());
    while i < n
        invariant
            more == items_of(*other),
            n == more.len(),
            i <= n,
            items_of(out) == with_more(base, more.take(i as int)),
        decreases n - i,
    {
        assert(more.take(i + 1).drop_last() =~= more.take(i as int));
        let k = set_key_at(other, i);
        let _added = set_insert_full(&mut out, k);
        i = i + 1;
    }
    assert(more.take(i as int) =~= more);
    set_value(out)
}

/// The items of `a`, in their order, whose presence in `b` is `wanted`.
pub open spec fn picked(a: Seq<KeyV>, b: Seq<KeyV>, wanted: bool) -> Seq<KeyV>
    decreases a.len(),
{
    if a.len() == 0 {
        Seq::empty()
    } else if b.contains(a.last()) == wanted {
        picked(a.drop_last(), b, wanted).push(a.last())
    } else {
        picked(a.drop_last(), b, wanted)
    }
}

proof fn lemma_picked_from(a: Seq<KeyV>, b: Seq<KeyV>, wanted: bool, i: int)
    requires
        0 <= i < picked(a, b, wanted).len(),
    ensures
        a.contains(picked(a, b, wanted)[i]),
        b.contains(picked(a, b, wanted)[i]) == wanted,
    decreases a.len(),
{
    if a.len() > 0 {
        let before = picked(a.drop_last(), b, wanted);
        if i < before.len() {
            lemma_picked_from(a.drop_last(), b, wanted, i);
            let j = choose|j: int|
                0 <= j < a.drop_last().len() && a.drop_last()[j] == before[i];
            assert(a[j] == picked(a, b, wanted)[i]);
        } else {
            assert(a[a.len() - 1] == picked(a, b, wanted)[i]);
        }
    }
}

fn pick(self_: &IndexSet<MapKey>, other: &IndexSet<MapKey>, wanted: bool) -> (r: IndexSet<MapKey>)
    ensures
        items_of(r) == picked(items_of(*self_), items_of(*other), wanted),
{
    let ghost a = items_of(*self_);
    let ghost b = items_of(*other);
    let n: usize = set_count(self_);
    let mut out = set_new();
    let mut i: usize = 0;
    assert(a.take(0) =~= Seq::empty());
    while i < n
        invariant
            a == items_of(*self_),
            b == items_of(*other),
            a.no_duplicates(),
            n == a.len(),
            i <= n,
            items_of(out) == picked(a.take(i as int), b, wanted),
        decreases n - i,
    {
        assert(a.take(i + 1).drop_last() =~= a.take(i as int));
        let k = set_key_at(self_, i);
        if set_has(other, &k) == wanted {
            proof {
                let seen = picked(a.take(i as int), b, wanted);
                if seen.contains(k@) {
                    let at = choose|at: int| 0 <= at < seen.len() && seen[at] == k@;
                    lemma_picked_from(a.take(i as int), b, wanted, at);
                    let j = choose|j: int|
                        0 <= j < a.take(i as int).len() && a.take(i as int)[j] == k@;
                    assert(a[j] == a[i as int]);
                }
            }
            let _added = set_insert_full(&mut out, k);
        }
        i = i + 1;
    }
    assert(a.take(i as int) =~= a);
    out
}

/// The items of the first set that the second has, in the order of the first.
pub fn set_intersection(self_: &IndexSet<MapKey>, other: &IndexSet<MapKey>) -> (r: Value)
    ensures
        r@ == ValueV::SetOf(picked(items_of(*self_), items_of(*other), true)),
{
    set_value(pick(self_, other, true))
}

/// The items of the first set that the second lacks, in the order of the first.
pub fn set_difference(self_: &IndexSet<MapKey>, other: &IndexSet<MapKey>) -> (r: Value)
    ensures
        r@ == ValueV::SetOf(picked(items_of(*self_), items_of(*other), false)),
{
    set_value(pick(self_, other, false))
}

/// The items of a set as values.
pub open spec fn keys_v(items: Seq<KeyV>) -> Seq<ValueV> {
    Seq::new(items.len(), |i: int| key_v(items[i]))
}

fn set_values(self_: &IndexSet<MapKey>) -> (r: Vec<Value>)
    ensures
        values_view(r@) == keys_v(items_of(*self_)),
{
    let n: usize = set_count(self_);
    let mut out: Vec<Value> = Vec::new();
    let mut i: usize = 0;
    while i < n
        invariant
            n == items_of(*self_).len(),
            i <= n,
            out@.len() == i,
            forall|j: int| 0 <= j < i ==> (#[trigger] out@[j])@ == key_v(items_of(*self_)[j]),
        decreases n - i,
    {
        let v = set_key_at(self_, i).to_value();
        out.push(v);
        i = i + 1;
    }
    assert(values_view(out@) =~= keys_v(items_of(*self_)));
    out
}

pub fn set_to_list(self_: &IndexSet<MapKey>) -> (r: Value)
    ensures
        r@ == ValueV::List(keys_v(items_of(*self_))),
{
    list_value(set_values(self_))
}

pub fn set_map<F: Fn(Vec<Value>) -> Result<Value, Abort>>(self_: &IndexSet<MapKey>, f: F) -> (r:
    Result<Value, Abort>)
    requires
        callable(f),
    ensures
        mapped(f, keys_v(items_of(*self_)), outcome(r)),
{
    list_map(&set_values(self_), f)
}

/// Filtering the items by `f` came to `r`.
pub open spec fn items_filtered<F: Fn(Vec<Value>) -> Result<Value, Abort>>(
    f: F,
    items: Seq<KeyV>,
    r: Result<ValueV, DiagnosticView>,
) -> bool {
    exists|outs: Seq<ValueV>| #[trigger]
        all_came_to(f, keys_v(items), outs) && match r {
            Ok(v) => outs.len() == items.len() && v == ValueV::SetOf(kept(items, outs)),
            Err(a) => outs.len() < items.len() && came_to(
                f,
                seq![keys_v(items)[outs.len() as int]],
                Err(a),
            ),
        }
}

pub fn set_filter<F: Fn(Vec<Value>) -> Result<Value, Abort>>(self_: &IndexSet<MapKey>, f: F) -> (r:
    Result<Value, Abort>)
    requires
        callable(f),
        returns_bool(f),
    ensures
        items_filtered(f, items_of(*self_), outcome(r)),
{
    let ghost items = items_of(*self_);
    let ghost mut answers: Seq<ValueV> = Seq::empty();
    let n: usize = set_count(self_);
    let mut out = set_new();
    let mut i: usize = 0;
    while i < n
        invariant
            callable(f),
            returns_bool(f),
            items == items_of(*self_),
            items.no_duplicates(),
            n == items.len(),
            i <= n,
            answers.len() == i,
            all_came_to(f, keys_v(items), answers),
            items_of(out) == kept(items, answers),
        decreases n - i,
    {
        let k = set_key_at(self_, i);
        let v = k.to_value();
        match call_bool(&f, &v) {
            Ok(b) => {
                let ghost before = answers;
                proof {
                    answers = answers.push(ValueV::Bool(b));
                    assert(answers.drop_last() =~= before);
                    assert(keys_v(items)[i as int] == v@);
                }
                if b {
                    proof {
                        let seen = items_of(out);
                        if seen.contains(k@) {
                            let at = choose|at: int| 0 <= at < seen.len() && seen[at] == k@;
                            lemma_kept_from(items, before, at);
                            let j = choose|j: int|
                                0 <= j < before.len() && #[trigger] items[j] == seen[at];
                            assert(items[j] == items[i as int]);
                        }
                    }
                    let _added = set_insert_full(&mut out, k);
                }
            },
            Err(a) => {
                return Err(a);
            },
        }
        i = i + 1;
    }
    Ok(set_value(out))
}

pub fn set_any<F: Fn(Vec<Value>) -> Result<Value, Abort>>(self_: &IndexSet<MapKey>, f: F) -> (r:
    Result<Value, Abort>)
    requires
        callable(f),
        returns_bool(f),
    ensures
        stopped(f, keys_v(items_of(*self_)), true, outcome(r)),
{
    list_any(&set_values(self_), f)
}

pub fn set_all<F: Fn(Vec<Value>) -> Result<Value, Abort>>(self_: &IndexSet<MapKey>, f: F) -> (r:
    Result<Value, Abort>)
    requires
        callable(f),
        returns_bool(f),
    ensures
        stopped(f, keys_v(items_of(*self_)), false, outcome(r)),
{
    list_all(&set_values(self_), f)
}

pub fn set_find<F: Fn(Vec<Value>) -> Result<Value, Abort>>(self_: &IndexSet<MapKey>, f: F) -> (r:
    Result<Value, Abort>)
    requires
        callable(f),
        returns_bool(f),
    ensures
        found(f, keys_v(items_of(*self_)), outcome(r)),
{
    list_find(&set_values(self_), f)
}

pub fn set_fold<F: Fn(Vec<Value>) -> Result<Value, Abort>>(
    self_: &IndexSet<MapKey>,
    init: Value,
    f: F,
) -> (r: Result<Value, Abort>)
    requires
        callable(f),
    ensures
        folded(f, init@, keys_v(items_of(*self_)), outcome(r)),
{
    list_fold(&set_values(self_), init, f)
}

pub fn set_each<F: Fn(Vec<Value>) -> Result<Value, Abort>>(self_: &IndexSet<MapKey>, f: F) -> (r:
    Result<Value, Abort>)
    requires
        callable(f),
    ensures
        each_done(f, keys_v(items_of(*self_)), outcome(r)),
{
    list_each(&set_values(self_), f)
}

/// The sum of a set of integers.
pub fn set_sum(values: &IndexSet<MapKey>, span: Span) -> (r: Result<Value, Abort>)
    requires
        forall|i: int| 0 <= i < items_of(*values).len() ==> (#[trigger] items_of(*values)[i]) is Int,
    ensures
        outcome(r) == match int_sum(keys_v(items_of(*values))) {
            Some(total) => Ok::<ValueV, DiagnosticView>(ValueV::Int(total as i64)),
            None => Err(overflow_view(span)),
        },
{
    let items = set_values(values);
    let ghost nums = keys_v(items_of(*values));
    let mut total: i64 = 0;
    let mut i: usize = 0;
    assert(nums.take(0) =~= Seq::empty());
    while i < items.len()
        invariant
            nums == values_view(items@),
            nums == keys_v(items_of(*values)),
            forall|i: int|
                0 <= i < items_of(*values).len() ==> (#[trigger] items_of(*values)[i]) is Int,
            i <= items@.len(),
            int_sum(nums.take(i as int)) == Some(total as int),
        decreases items@.len() - i,
    {
        proof {
            lemma_value_view(items@[i as int]);
            assert(nums.take(i + 1).drop_last() =~= nums.take(i as int));
            assert(nums[i as int] == key_v(items_of(*values)[i as int]));
        }
        match &items[i] {
            Value::Int(n) => {
                match total.checked_add(*n) {
                    Some(t) => {
                        total = t;
                    },
                    None => {
                        proof {
                            lemma_sum_overflows(nums, i + 1);
                        }
                        return Err(overflow(span));
                    },
                }
            },
            _ => {},
        }
        i = i + 1;
    }
    assert(nums.take(i as int) =~= nums);
    Ok(int_value(total))
}

/// Adds an item; returns whether it is new.
pub fn set_insert(self_: &mut IndexSet<MapKey>, x: MapKey) -> (r: Value)
    ensures
        r@ == ValueV::Bool(!items_of(*old(self_)).contains(x@)),
        items_of(*final(self_)) == with_more(items_of(*old(self_)), seq![x@]),
{
    let ghost k = x@;
    let (_at, is_new) = set_insert_full(self_, x);
    proof {
        reveal_with_fuel(with_more, 2);
        assert(seq![k].drop_last() =~= Seq::empty());
    }
    bool_value(is_new)
}

/// Removes an item; returns whether it was there. The later items move down.
pub fn set_remove(self_: &mut IndexSet<MapKey>, x: &MapKey) -> (r: Value)
    ensures
        r@ == ValueV::Bool(items_of(*old(self_)).contains(x@)),
        items_of(*final(self_)) == if items_of(*old(self_)).contains(x@) {
            items_of(*old(self_)).remove(items_of(*old(self_)).index_of(x@))
        } else {
            items_of(*old(self_))
        },
{
    let _n: usize = set_count(self_);
    match set_shift_remove_full(self_, x) {
        Some((i, _item)) => {
            assert(items_of(*old(self_))[i as int] == x@);
            bool_value(true)
        },
        None => bool_value(false),
    }
}

pub fn set_clear(self_: &mut IndexSet<MapKey>)
    ensures
        items_of(*final(self_)) == Seq::<KeyV>::empty(),
{
    set_clear_all(self_);
}

// ---------------------------------------------------------------------------
// Tuples
// ---------------------------------------------------------------------------

pub fn tuple_index(self_: &[Value], index: u32) -> (r: Value)
    requires
        index < self_@.len(),
    ensures
        r@ == values_view(self_@)[index as int],
{
    self_[index as usize].copy()
}

} // verus!
