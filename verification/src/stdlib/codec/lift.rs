//! From values of any type to dynamic values: the first step of encoding.

use super::dynamic::{
    dbool_v, ddict_v, dfloat_v, dint_v, dlist_v, dstr_v, dyn_bool, dyn_dict, dyn_float, dyn_int,
    dyn_list, dyn_null, dyn_str, null_v,
};
use crate::ast::{params_view, ParamV, StructDecl, StructV};
use crate::eval::env::Program;
use crate::eval::keys::{
    items_of, keys_view, lemma_key_view, set_count, set_key_at, str_key, KeyV, MapKey,
};
use crate::eval::value::{inserted, lemma_value_view, values_view, Dict, Value, ValueV};
use crate::names::{lemma_mapped, lookup};
use crate::text::{int_text, int_to_text, same_text};
use vstd::prelude::*;
use vstd::string::*;

verus! {

/// A key as the text that it is written as.
pub open spec fn key_out(k: KeyV) -> Seq<char>
    decreases k, 0int,
{
    match k {
        KeyV::Str(s) => s,
        KeyV::Int(n) => int_text(n as int),
        KeyV::Bool(b) => if b {
            "true"@
        } else {
            "false"@
        },
        KeyV::Tuple(items) => "("@ + keys_out_from(items, 0) + ")"@,
    }
}

/// The texts of the keys from the `i`-th on, parted by commas.
pub open spec fn keys_out_from(items: Seq<KeyV>, i: int) -> Seq<char>
    decreases items, items.len() - i,
{
    if 0 <= i < items.len() {
        (if i > 0 {
            ", "@
        } else {
            Seq::empty()
        }) + key_out(items[i]) + keys_out_from(items, i + 1)
    } else {
        Seq::empty()
    }
}

/// A key as the text that it is written as.
pub fn map_key_to_output_str(k: &MapKey) -> (r: String)
    ensures
        r@ == key_out(k@),
    decreases k,
{
    proof {
        lemma_key_view(*k);
    }
    match k {
        MapKey::Str(s) => {
            return s.clone();
        },
        MapKey::Int(n) => {
            return int_to_text(*n);
        },
        MapKey::Bool(b) => {
            return if *b {
                "true".to_owned()
            } else {
                "false".to_owned()
            };
        },
        MapKey::Tuple(items) => {
            let ghost ks = keys_view(items@);
            let mut out = "(".to_owned();
            let mut i: usize = 0;
            while i < items.len()
                invariant
                    k matches MapKey::Tuple(w) && w == items,
                    ks == keys_view(items@),
                    i <= items@.len(),
                    out@ + keys_out_from(ks, i as int) == "("@ + keys_out_from(ks, 0),
                decreases items@.len() - i,
            {
                let ghost before = out@;
                proof {
                    assert(decreases_to!(*k => *items));
                    assert(decreases_to!(*items => items@));
                    assert(decreases_to!(items@ => items@[i as int]));
                }
                if i > 0 {
                    out.append(", ");
                }
                let text = map_key_to_output_str(&items[i]);
                out.append(text.as_str());
                assert(out@ + keys_out_from(ks, i + 1) =~= before + keys_out_from(ks, i as int));
                i = i + 1;
            }
            assert(out@ =~= "("@ + keys_out_from(ks, 0));
            out.append(")");
            return out;
        },
    }
}

/// A key as a dynamic value.
pub open spec fn key_lifted(k: KeyV) -> ValueV
    decreases k,
{
    match k {
        KeyV::Str(s) => dstr_v(s),
        KeyV::Int(n) => dint_v(n),
        KeyV::Bool(b) => dbool_v(b),
        KeyV::Tuple(items) => dlist_v(
            Seq::new(
                items.len(),
                |i: int|
                    if 0 <= i < items.len() {
                        key_lifted(items[i])
                    } else {
                        arbitrary()
                    },
            ),
        ),
    }
}

pub open spec fn keys_lifted(items: Seq<KeyV>) -> Seq<ValueV> {
    Seq::new(items.len(), |i: int| key_lifted(items[i]))
}

fn lift_key(k: &MapKey) -> (r: Value)
    ensures
        r@ == key_lifted(k@),
    decreases k,
{
    proof {
        lemma_key_view(*k);
    }
    match k {
        MapKey::Str(s) => {
            return dyn_str(s.clone());
        },
        MapKey::Int(n) => {
            return dyn_int(*n);
        },
        MapKey::Bool(b) => {
            return dyn_bool(*b);
        },
        MapKey::Tuple(items) => {
            let ghost ks = keys_view(items@);
            let mut out: Vec<Value> = Vec::new();
            let mut i: usize = 0;
            while i < items.len()
                invariant
                    k matches MapKey::Tuple(w) && w == items,
                    ks == keys_view(items@),
                    i <= items@.len(),
                    out@.len() == i,
                    forall|j: int| 0 <= j < i ==> (#[trigger] out@[j])@ == key_lifted(ks[j]),
                decreases items@.len() - i,
            {
                proof {
                    assert(decreases_to!(*k => *items));
                    assert(decreases_to!(*items => items@));
                    assert(decreases_to!(items@ => items@[i as int]));
                }
                let v = lift_key(&items[i]);
                out.push(v);
                i = i + 1;
            }
            assert(values_view(out@) =~= key_lifted(k@)->Enum_fields[0]->List_0);
            return dyn_list(out);
        },
    }
}

/// A value as a dynamic value. A struct is a dictionary from the names of its fields, and a
/// variant of an enum of the program a dictionary from its name to what it holds. `Option` and
/// `Result` are what they hold.
pub open spec fn lifted(v: ValueV, structs: Seq<(Seq<char>, StructV)>) -> ValueV
    decreases v, 0int,
{
    match v {
        ValueV::Void => null_v(),
        ValueV::Int(n) => dint_v(n),
        ValueV::Float(x) => dfloat_v(x),
        ValueV::Bool(b) => dbool_v(b),
        ValueV::Str(s) => dstr_v(s),
        ValueV::List(items) => dlist_v(lifted_from(items, 0, structs, Seq::empty())),
        ValueV::Tuple(items) => dlist_v(lifted_from(items, 0, structs, Seq::empty())),
        ValueV::SetOf(keys) => dlist_v(keys_lifted(keys)),
        ValueV::Dict(entries) => ddict_v(entries_lifted_from(entries, 0, structs, Seq::empty())),
        ValueV::Struct { ty_name, fields } => match lookup(structs, ty_name) {
            Some(decl) => ddict_v(
                fields_lifted_from(decl.fields, fields, 0, structs, Seq::empty()),
            ),
            None => ddict_v(Seq::empty()),
        },
        ValueV::Enum { ty_name, variant_index, variant_name, fields } => if ty_name == "Value"@ {
            v
        } else if ty_name == "Option"@ || ty_name == "Result"@ {
            if fields.len() == 0 {
                null_v()
            } else {
                lifted(fields[0], structs)
            }
        } else {
            ddict_v(
                seq![
                    (
                        KeyV::Str(variant_name),
                        if fields.len() == 0 {
                            null_v()
                        } else if fields.len() == 1 {
                            lifted(fields[0], structs)
                        } else {
                            dlist_v(lifted_from(fields, 0, structs, Seq::empty()))
                        },
                    ),
                ],
            )
        },
    }
}

pub open spec fn lifted_from(
    items: Seq<ValueV>,
    i: int,
    structs: Seq<(Seq<char>, StructV)>,
    out: Seq<ValueV>,
) -> Seq<ValueV>
    decreases items, items.len() - i,
{
    if 0 <= i < items.len() {
        lifted_from(items, i + 1, structs, out.push(lifted(items[i], structs)))
    } else {
        out
    }
}

pub open spec fn entries_lifted_from(
    entries: Seq<(KeyV, ValueV)>,
    i: int,
    structs: Seq<(Seq<char>, StructV)>,
    out: Seq<(KeyV, ValueV)>,
) -> Seq<(KeyV, ValueV)>
    decreases entries, entries.len() - i,
{
    if 0 <= i < entries.len() {
        entries_lifted_from(
            entries,
            i + 1,
            structs,
            inserted(out, KeyV::Str(key_out(entries[i].0)), lifted(entries[i].1, structs)),
        )
    } else {
        out
    }
}

/// The fields of a struct from the `i`-th on, as far as there are values for them.
pub open spec fn fields_lifted_from(
    fields: Seq<ParamV>,
    values: Seq<ValueV>,
    i: int,
    structs: Seq<(Seq<char>, StructV)>,
    out: Seq<(KeyV, ValueV)>,
) -> Seq<(KeyV, ValueV)>
    decreases values, values.len() - i,
{
    if 0 <= i < fields.len() && i < values.len() {
        fields_lifted_from(
            fields,
            values,
            i + 1,
            structs,
            inserted(out, KeyV::Str(fields[i].name), lifted(values[i], structs)),
        )
    } else {
        out
    }
}

fn lift_items(items: &Vec<Value>, program: &Program) -> (r: Vec<Value>)
    ensures
        values_view(r@) == lifted_from(values_view(items@), 0, program@.structs, Seq::empty()),
    decreases items, 0int,
{
    let ghost vs = values_view(items@);
    let ghost ss = program@.structs;
    let mut out: Vec<Value> = Vec::new();
    let mut i: usize = 0;
    assert(values_view(out@) =~= Seq::empty());
    while i < items.len()
        invariant
            vs == values_view(items@),
            ss == program@.structs,
            i <= items@.len(),
            lifted_from(vs, i as int, ss, values_view(out@)) == lifted_from(
                vs,
                0,
                ss,
                Seq::empty(),
            ),
        decreases items@.len() - i,
    {
        proof {
            assert(decreases_to!(*items => items@));
            assert(decreases_to!(items@ => items@[i as int]));
        }
        let ghost seen = values_view(out@);
        let v = to_dynamic(&items[i], program);
        out.push(v);
        assert(values_view(out@) =~= seen.push(v@));
        i = i + 1;
    }
    out
}

fn lift_entries(d: &Dict, program: &Program) -> (r: Dict)
    ensures
        r@ == entries_lifted_from(d@, 0, program@.structs, Seq::empty()),
    decreases d, 0int,
{
    let ghost ss = program@.structs;
    let n: usize = d.len();
    let mut out = Dict::new();
    let mut i: usize = 0;
    while i < n
        invariant
            ss == program@.structs,
            n == d@.len(),
            i <= n,
            entries_lifted_from(d@, i as int, ss, out@) == entries_lifted_from(
                d@,
                0,
                ss,
                Seq::empty(),
            ),
        decreases n - i,
    {
        let k = d.key_at(i);
        let key = str_key(map_key_to_output_str(&k));
        let x = d.value_at(i);
        let v = to_dynamic(x, program);
        let _old = out.insert(key, v);
        i = i + 1;
    }
    out
}

fn lift_fields(decl: &StructDecl, values: &Vec<Value>, program: &Program) -> (r: Dict)
    ensures
        r@ == fields_lifted_from(
            decl@.fields,
            values_view(values@),
            0,
            program@.structs,
            Seq::empty(),
        ),
    decreases values, 0int,
{
    let ghost fs = params_view(decl.fields@);
    let ghost vs = values_view(values@);
    let ghost ss = program@.structs;
    let mut out = Dict::new();
    let mut i: usize = 0;
    while i < decl.fields.len() && i < values.len()
        invariant
            fs == params_view(decl.fields@),
            vs == values_view(values@),
            ss == program@.structs,
            i <= decl.fields@.len(),
            i <= values@.len(),
            fields_lifted_from(fs, vs, i as int, ss, out@) == fields_lifted_from(
                fs,
                vs,
                0,
                ss,
                Seq::empty(),
            ),
        decreases values@.len() - i,
    {
        proof {
            assert(decreases_to!(*values => values@));
            assert(decreases_to!(values@ => values@[i as int]));
            assert(fs[i as int] == decl.fields@[i as int]@);
        }
        let key = str_key(decl.fields[i].name.clone());
        let v = to_dynamic(&values[i], program);
        let _old = out.insert(key, v);
        i = i + 1;
    }
    out
}

/// A value as a dynamic value.
pub fn to_dynamic(value: &Value, program: &Program) -> (r: Value)
    ensures
        r@ == lifted(value@, program@.structs),
    decreases value, 1int,
{
    proof {
        lemma_value_view(*value);
    }
    match value {
        Value::Void => {
            return dyn_null();
        },
        Value::Int(n) => {
            return dyn_int(*n);
        },
        Value::Float(x) => {
            return dyn_float(x.clone());
        },
        Value::Bool(b) => {
            return dyn_bool(*b);
        },
        Value::Str(s) => {
            return dyn_str(s.clone());
        },
        Value::List(items) => {
            return dyn_list(lift_items(items, program));
        },
        Value::Tuple(items) => {
            return dyn_list(lift_items(items, program));
        },
        Value::SetOf(keys) => {
            let n: usize = set_count(keys);
            let mut out: Vec<Value> = Vec::new();
            let mut i: usize = 0;
            while i < n
                invariant
                    n == items_of(*keys).len(),
                    i <= n,
                    out@.len() == i,
                    forall|j: int|
                        0 <= j < i ==> (#[trigger] out@[j])@ == key_lifted(items_of(*keys)[j]),
                decreases n - i,
            {
                let k = set_key_at(keys, i);
                let v = lift_key(&k);
                out.push(v);
                i = i + 1;
            }
            assert(values_view(out@) =~= keys_lifted(items_of(*keys)));
            return dyn_list(out);
        },
        Value::Dict(d) => {
            return dyn_dict(lift_entries(d, program));
        },
        Value::Struct(inst) => {
            proof {
                lemma_mapped(
                    program.structs@,
                    |d: StructDecl| d.view(),
                    inst.ty_name@,
                    arbitrary(),
                );
            }
            return match program.structs.get(inst.ty_name.as_str()) {
                Some(decl) => dyn_dict(lift_fields(decl, &inst.fields, program)),
                None => dyn_dict(Dict::new()),
            };
        },
        Value::Enum(inst) => {
            if same_text(inst.ty_name.as_str(), "Value") {
                return value.copy();
            }
            proof {
                assert(decreases_to!(*value => *inst));
                assert(decreases_to!(*inst => inst.fields));
                assert(decreases_to!(inst.fields => inst.fields@));
            }
            if same_text(inst.ty_name.as_str(), "Option") || same_text(
                inst.ty_name.as_str(),
                "Result",
            ) {
                if inst.fields.len() == 0 {
                    return dyn_null();
                }
                assert(decreases_to!(inst.fields@ => inst.fields@[0]));
                return to_dynamic(&inst.fields[0], program);
            }
            let payload = if inst.fields.len() == 0 {
                dyn_null()
            } else if inst.fields.len() == 1 {
                assert(decreases_to!(inst.fields@ => inst.fields@[0]));
                to_dynamic(&inst.fields[0], program)
            } else {
                dyn_list(lift_items(&inst.fields, program))
            };
            let ghost pv = payload@;
            let mut out = Dict::new();
            let _old = out.insert(str_key(inst.variant_name.clone()), payload);
            assert(out@ =~= seq![(KeyV::Str(inst.variant_name@), pv)]);
            return dyn_dict(out);
        },
    }
}

} // verus!
