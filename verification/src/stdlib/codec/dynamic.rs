//! Dynamic values: the enum `Value` of the language, whose variants are `Null`, `Bool`, `Int`,
//! `Float`, `Str`, `List` and `Dict`.

use crate::eval::keys::{lemma_key_view, KeyV, MapKey};
use crate::eval::value::{
    bool_value, dict_value, enum_value, float_value, int_value, lemma_value_view, list_value,
    str_value, values_view, Dict, Value, ValueV,
};
use crate::stdlib::primitives::{float_str, format_float};
use crate::text::same_text;
use vstd::prelude::*;
use vstd::string::*;

verus! {

pub open spec fn dyn_v(variant_index: u32, variant_name: Seq<char>, fields: Seq<ValueV>) -> ValueV {
    ValueV::Enum { ty_name: "Value"@, variant_index, variant_name, fields }
}

pub open spec fn null_v() -> ValueV {
    dyn_v(0, "Null"@, Seq::empty())
}

pub open spec fn dbool_v(b: bool) -> ValueV {
    dyn_v(1, "Bool"@, seq![ValueV::Bool(b)])
}

pub open spec fn dint_v(n: i64) -> ValueV {
    dyn_v(2, "Int"@, seq![ValueV::Int(n)])
}

pub open spec fn dfloat_v(text: Seq<char>) -> ValueV {
    dyn_v(3, "Float"@, seq![ValueV::Float(text)])
}

pub open spec fn dstr_v(text: Seq<char>) -> ValueV {
    dyn_v(4, "Str"@, seq![ValueV::Str(text)])
}

pub open spec fn dlist_v(items: Seq<ValueV>) -> ValueV {
    dyn_v(5, "List"@, seq![ValueV::List(items)])
}

pub open spec fn ddict_v(entries: Seq<(KeyV, ValueV)>) -> ValueV {
    dyn_v(6, "Dict"@, seq![ValueV::Dict(entries)])
}

pub fn dyn_null() -> (r: Value)
    ensures
        r@ == null_v(),
{
    let fields: Vec<Value> = Vec::new();
    assert(values_view(fields@) =~= Seq::empty());
    enum_value("Value", 0, "Null", fields)
}

fn dyn_one(variant_index: u32, variant_name: &str, field: Value) -> (r: Value)
    ensures
        r@ == dyn_v(variant_index, variant_name@, seq![field@]),
{
    let fields = vec![field];
    assert(values_view(fields@) =~= seq![field@]);
    enum_value("Value", variant_index, variant_name, fields)
}

pub fn dyn_bool(b: bool) -> (r: Value)
    ensures
        r@ == dbool_v(b),
{
    dyn_one(1, "Bool", bool_value(b))
}

pub fn dyn_int(n: i64) -> (r: Value)
    ensures
        r@ == dint_v(n),
{
    dyn_one(2, "Int", int_value(n))
}

/// A float, by its spelling.
pub fn dyn_float(text: String) -> (r: Value)
    ensures
        r@ == dfloat_v(text@),
{
    dyn_one(3, "Float", float_value(text))
}

pub fn dyn_str(text: String) -> (r: Value)
    ensures
        r@ == dstr_v(text@),
{
    dyn_one(4, "Str", str_value(text))
}

pub fn dyn_list(items: Vec<Value>) -> (r: Value)
    ensures
        r@ == dlist_v(values_view(items@)),
{
    dyn_one(5, "List", list_value(items))
}

pub fn dyn_dict(d: Dict) -> (r: Value)
    ensures
        r@ == ddict_v(d@),
{
    dyn_one(6, "Dict", dict_value(d))
}

// ---------------------------------------------------------------------------
// Taking dynamic values apart
// ---------------------------------------------------------------------------

/// What a dynamic value holds. `Odd` is a variant without the payload that its name calls for.
pub ghost enum DynV {
    NotDynamic,
    Null,
    Bool(bool),
    Int(i64),
    Float(Seq<char>),
    Str(Seq<char>),
    List(Seq<ValueV>),
    Dict(Seq<(KeyV, ValueV)>),
    Odd(Seq<char>),
}

pub open spec fn dyn_of(v: ValueV) -> DynV {
    match v {
        ValueV::Enum { ty_name, variant_index, variant_name, fields } => if ty_name
            != "Value"@ {
            DynV::NotDynamic
        } else if variant_name == "Null"@ {
            DynV::Null
        } else if fields.len() == 0 {
            DynV::Odd(variant_name)
        } else {
            payload(variant_name, fields[0])
        },
        _ => DynV::NotDynamic,
    }
}

pub open spec fn payload(name: Seq<char>, field: ValueV) -> DynV {
    match field {
        ValueV::Bool(b) => if name == "Bool"@ {
            DynV::Bool(b)
        } else {
            DynV::Odd(name)
        },
        ValueV::Int(n) => if name == "Int"@ {
            DynV::Int(n)
        } else {
            DynV::Odd(name)
        },
        ValueV::Float(x) => if name == "Float"@ {
            DynV::Float(x)
        } else {
            DynV::Odd(name)
        },
        ValueV::Str(x) => if name == "Str"@ {
            DynV::Str(x)
        } else {
            DynV::Odd(name)
        },
        ValueV::List(items) => if name == "List"@ {
            DynV::List(items)
        } else {
            DynV::Odd(name)
        },
        ValueV::Dict(entries) => if name == "Dict"@ {
            DynV::Dict(entries)
        } else {
            DynV::Odd(name)
        },
        _ => DynV::Odd(name),
    }
}

/// A dynamic value, taken apart.
pub enum Dynamic<'a> {
    NotDynamic,
    Null,
    Bool(bool),
    Int(i64),
    Float(&'a String),
    Str(&'a String),
    List(&'a Vec<Value>),
    Dict(&'a Dict),
    Odd(&'a String),
}

impl<'a> Dynamic<'a> {
    pub open spec fn view(&self) -> DynV {
        match *self {
            Dynamic::NotDynamic => DynV::NotDynamic,
            Dynamic::Null => DynV::Null,
            Dynamic::Bool(b) => DynV::Bool(b),
            Dynamic::Int(n) => DynV::Int(n),
            Dynamic::Float(x) => DynV::Float(x@),
            Dynamic::Str(x) => DynV::Str(x@),
            Dynamic::List(items) => DynV::List(values_view(items@)),
            Dynamic::Dict(d) => DynV::Dict(d@),
            Dynamic::Odd(name) => DynV::Odd(name@),
        }
    }
}

/// Takes a dynamic value apart.
pub fn dyn_parts(v: &Value) -> (r: Dynamic<'_>)
    ensures
        r@ == dyn_of(v@),
        r matches Dynamic::List(items) ==> decreases_to!(*v => *items),
        r matches Dynamic::Dict(d) ==> decreases_to!(*v => *d),
{
    proof {
        lemma_value_view(*v);
    }
    match v {
        Value::Enum(e) => {
            if !same_text(e.ty_name.as_str(), "Value") {
                return Dynamic::NotDynamic;
            }
            if same_text(e.variant_name.as_str(), "Null") {
                return Dynamic::Null;
            }
            if e.fields.len() == 0 {
                return Dynamic::Odd(&e.variant_name);
            }
            proof {
                lemma_value_view(e.fields@[0]);
                assert(decreases_to!(*v => *e));
                assert(decreases_to!(*e => e.fields));
                assert(decreases_to!(e.fields => e.fields@));
                assert(decreases_to!(e.fields@ => e.fields@[0]));
            }
            let name = e.variant_name.as_str();
            match &e.fields[0] {
                Value::Bool(b) => {
                    if same_text(name, "Bool") {
                        return Dynamic::Bool(*b);
                    }
                },
                Value::Int(n) => {
                    if same_text(name, "Int") {
                        return Dynamic::Int(*n);
                    }
                },
                Value::Float(x) => {
                    if same_text(name, "Float") {
                        return Dynamic::Float(x);
                    }
                },
                Value::Str(x) => {
                    if same_text(name, "Str") {
                        return Dynamic::Str(x);
                    }
                },
                Value::List(items) => {
                    if same_text(name, "List") {
                        return Dynamic::List(items);
                    }
                },
                Value::Dict(d) => {
                    if same_text(name, "Dict") {
                        return Dynamic::Dict(d);
                    }
                },
                _ => {},
            }
            Dynamic::Odd(&e.variant_name)
        },
        _ => Dynamic::NotDynamic,
    }
}

/// The variant name and the fields of a dynamic value.
pub fn dyn_variant(v: &Value) -> (r: Option<(&str, &[Value])>)
    ensures
        match r {
            Some((name, fields)) => {
                &&& v@ matches ValueV::Enum { ty_name, variant_name, fields: fs, .. }
                &&& ty_name == "Value"@
                &&& variant_name == name@
                &&& fs == values_view(fields@)
            },
            None => !(v@ matches ValueV::Enum { ty_name, .. } && ty_name == "Value"@),
        },
{
    proof {
        lemma_value_view(*v);
    }
    match v {
        Value::Enum(e) => {
            if same_text(e.ty_name.as_str(), "Value") {
                Some((e.variant_name.as_str(), e.fields.as_slice()))
            } else {
                None
            }
        },
        _ => None,
    }
}

/// The text of a key that is one; any other key has none.
pub open spec fn key_text(k: KeyV) -> Seq<char> {
    match k {
        KeyV::Str(s) => s,
        _ => Seq::empty(),
    }
}

pub fn map_key_as_str(k: &MapKey) -> (r: String)
    ensures
        r@ == key_text(k@),
{
    proof {
        lemma_key_view(*k);
    }
    match k {
        MapKey::Str(s) => s.clone(),
        _ => {
            let r = String::new();
            assert(r@ =~= Seq::empty());
            r
        },
    }
}

// ---------------------------------------------------------------------------
// Trees: what encoders read
// ---------------------------------------------------------------------------

/// A dynamic value as a tree.
pub ghost enum Tree {
    NotDynamic,
    Null,
    Bool(bool),
    Int(i64),
    Float(Seq<char>),
    Str(Seq<char>),
    List(Seq<Tree>),
    Dict(Seq<(Seq<char>, Tree)>),
    Odd(Seq<char>),
}

pub open spec fn tree_of(v: ValueV) -> Tree
    decreases v,
{
    match dyn_of(v) {
        DynV::NotDynamic => Tree::NotDynamic,
        DynV::Null => Tree::Null,
        DynV::Bool(b) => Tree::Bool(b),
        DynV::Int(n) => Tree::Int(n),
        DynV::Float(x) => Tree::Float(x),
        DynV::Str(x) => Tree::Str(x),
        DynV::List(items) => {
            proof {
                lemma_list_smaller(v);
            }
            Tree::List(
                Seq::new(
                    items.len(),
                    |i: int|
                        if 0 <= i < items.len() {
                            tree_of(items[i])
                        } else {
                            arbitrary()
                        },
                ),
            )
        },
        DynV::Dict(entries) => {
            proof {
                lemma_dict_smaller(v);
            }
            Tree::Dict(
                Seq::new(
                    entries.len(),
                    |i: int|
                        if 0 <= i < entries.len() {
                            (key_text(entries[i].0), tree_of(entries[i].1))
                        } else {
                            arbitrary()
                        },
                ),
            )
        },
        DynV::Odd(name) => Tree::Odd(name),
    }
}

pub proof fn lemma_list_smaller(v: ValueV)
    ensures
        dyn_of(v) matches DynV::List(items) ==> forall|i: int|
            0 <= i < items.len() ==> decreases_to!(v => #[trigger] items[i]),
{
    if let DynV::List(items) = dyn_of(v) {
        assert(v is Enum);
        let fields = v->Enum_fields;
        assert(decreases_to!(v => fields));
        assert(decreases_to!(fields => fields[0]));
        assert(decreases_to!(fields[0] => items));
        assert forall|i: int| 0 <= i < items.len() implies decreases_to!(
            v => #[trigger] items[i]) by {
            assert(decreases_to!(items => items[i]));
        }
    }
}

pub proof fn lemma_dict_smaller(v: ValueV)
    ensures
        dyn_of(v) matches DynV::Dict(entries) ==> forall|i: int|
            0 <= i < entries.len() ==> decreases_to!(v => (#[trigger] entries[i]).1),
{
    if let DynV::Dict(entries) = dyn_of(v) {
        assert(v is Enum);
        let fields = v->Enum_fields;
        assert(decreases_to!(v => fields));
        assert(decreases_to!(fields => fields[0]));
        assert(decreases_to!(fields[0] => entries));
        assert forall|i: int| 0 <= i < entries.len() implies decreases_to!(
            v => (#[trigger] entries[i]).1) by {
            assert(decreases_to!(entries => entries[i]));
            assert(decreases_to!(entries[i] => entries[i].1));
        }
    }
}

/// What a dynamic value holds is smaller than the value.
pub proof fn lemma_payload_smaller(v: ValueV)
    ensures
        dyn_of(v) matches DynV::List(items) ==> decreases_to!(v => items),
        dyn_of(v) matches DynV::Dict(entries) ==> decreases_to!(v => entries),
{
    match dyn_of(v) {
        DynV::List(items) => {
            let fields = v->Enum_fields;
            assert(decreases_to!(v => fields));
            assert(decreases_to!(fields => fields[0]));
            assert(decreases_to!(fields[0] => items));
        },
        DynV::Dict(entries) => {
            let fields = v->Enum_fields;
            assert(decreases_to!(v => fields));
            assert(decreases_to!(fields => fields[0]));
            assert(decreases_to!(fields[0] => entries));
        },
        _ => {},
    }
}

/// The trees of some values.
pub open spec fn trees_of(items: Seq<ValueV>) -> Seq<Tree> {
    Seq::new(items.len(), |i: int| tree_of(items[i]))
}

/// The trees of the values of some entries, with the texts of their keys.
pub open spec fn branches_of(entries: Seq<(KeyV, ValueV)>) -> Seq<(Seq<char>, Tree)> {
    Seq::new(entries.len(), |i: int| (key_text(entries[i].0), tree_of(entries[i].1)))
}

pub proof fn lemma_tree(v: ValueV)
    ensures
        tree_of(v) == match dyn_of(v) {
            DynV::NotDynamic => Tree::NotDynamic,
            DynV::Null => Tree::Null,
            DynV::Bool(b) => Tree::Bool(b),
            DynV::Int(n) => Tree::Int(n),
            DynV::Float(x) => Tree::Float(x),
            DynV::Str(x) => Tree::Str(x),
            DynV::List(items) => Tree::List(trees_of(items)),
            DynV::Dict(entries) => Tree::Dict(branches_of(entries)),
            DynV::Odd(name) => Tree::Odd(name),
        },
{
    match dyn_of(v) {
        DynV::List(items) => {
            assert(tree_of(v)->List_0 =~= trees_of(items));
        },
        DynV::Dict(entries) => {
            assert(tree_of(v)->Dict_0 =~= branches_of(entries));
        },
        _ => {},
    }
}

// ---------------------------------------------------------------------------
// Floats
// ---------------------------------------------------------------------------

/// How a float is written: in the shortest form, with a point or an exponent. What is not finite
/// has no notation and is written as zero.
pub open spec fn float_text(x: Seq<char>) -> Seq<char> {
    if x == "NaN"@ || x == "inf"@ || x == "-inf"@ {
        "0.0"@
    } else {
        float_str(x)
    }
}

/// Whether a text has a character.
pub fn has_char(s: &str, c: char) -> (r: bool)
    ensures
        r == s@.contains(c),
{
    for x in it: s.chars()
        invariant
            it.seq() == s@,
            forall|j: int| 0 <= j < it.index() ==> s@[j] != c,
    {
        if x == c {
            assert(s@[it.index() as int] == c);
            return true;
        }
    }
    false
}

/// How a float with the spelling `x` is written.
pub fn format_float_default(x: &str) -> (r: String)
    ensures
        r@ == float_text(x@),
{
    if same_text(x, "NaN") || same_text(x, "inf") || same_text(x, "-inf") {
        return "0.0".to_owned();
    }
    format_float(x)
}

} // verus!
