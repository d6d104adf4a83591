//! From dynamic values to values of a given type: the second step of decoding.

use super::dynamic::{
    dyn_of, dyn_parts, dyn_variant, lemma_dict_smaller, lemma_payload_smaller, DynV, Dynamic,
};
use super::json::Reading;
use crate::ast::{
    params_view, types_view, variants_view, EnumDecl, EnumV, ParamV, StructDecl, TypeAnn, TypeV,
    VariantV,
};
use crate::eval::env::{Program, ProgramV};
use crate::eval::keys::{
    items_of, lemma_key_view, set_insert_full, set_new, str_key, KeyV, MapKey,
};
use crate::eval::value::{
    bool_value, dict_value, enum_value, float_value, has_key, inserted, int_value, key_index,
    list_value, set_value, str_value, struct_value, try_key_v, tuple_value, values_view, Dict,
    Value, ValueV,
};
use crate::generics::{
    ann_ty, bind_generics, bindings_from, substitute, substituted, ty_from_ann,
};
use crate::module_resolve::consts::ty_views;
use crate::names::{lemma_mapped, lookup, NameMap};
use crate::numerals::{read_float, reading, steady};
use crate::stdlib::{error_v, error_value, none_v, none_value, some_v, some_value};
use crate::text::{
    digits, int_text, int_to_text, join2, join3, join5, nat_to_text, same_text, texts,
};
use crate::types::{lemma_ty_view, tys_view, Ty, TyV};
use indexmap::IndexSet;
use vstd::prelude::*;
use vstd::string::*;

verus! {

/// The error that a failure to decode is answered with.
pub open spec fn decode_error_v(message: Seq<char>) -> ValueV {
    error_v("decode"@, message)
}

pub fn decode_error(message: String) -> (r: Value)
    ensures
        r@ == decode_error_v(message@),
{
    error_value("decode", message)
}

pub open spec fn unexpected(wanted: Seq<char>, found: Seq<char>) -> ValueV {
    decode_error_v("expected "@ + wanted + " but found "@ + found)
}

fn unexpected_error(wanted: &str, found: &str) -> (r: Value)
    ensures
        r@ == unexpected(wanted@, found@),
{
    let head = join3("expected ", wanted, " but found ");
    decode_error(join2(head.as_str(), found))
}

/// The variant name of a dynamic value.
pub open spec fn variant_of(d: ValueV) -> Option<Seq<char>> {
    match d {
        ValueV::Enum { ty_name, variant_index, variant_name, fields } => if ty_name == "Value"@ {
            Some(variant_name)
        } else {
            None
        },
        _ => None,
    }
}

/// The float that an integer is.
pub open spec fn int_as_float(read: Reading, n: i64) -> Seq<char> {
    match read(int_text(n as int)) {
        Some(x) => x,
        None => int_text(n as int),
    }
}

/// The index of a variant in an instance.
pub open spec fn variant_no(i: int) -> u32 {
    if i <= u32::MAX {
        i as u32
    } else {
        u32::MAX
    }
}

/// The first variant from the `i`-th on that has a name.
pub open spec fn variant_from(variants: Seq<VariantV>, name: Seq<char>, i: int) -> Option<int>
    decreases variants.len() - i,
{
    if !(0 <= i < variants.len()) {
        None
    } else if variants[i].name == name {
        Some(i)
    } else {
        variant_from(variants, name, i + 1)
    }
}

/// The types of the fields of a variant from the `i`-th on.
pub open spec fn field_tys_from(
    fields: Seq<TypeV>,
    i: int,
    generics: Seq<Seq<char>>,
    by: Seq<(Seq<char>, TyV)>,
    p: ProgramV,
    out: Seq<TyV>,
) -> Option<Seq<TyV>>
    decreases fields.len() - i,
{
    if !(0 <= i < fields.len()) {
        Some(out)
    } else {
        match ann_ty(fields[i], generics, p) {
            Some(t) => field_tys_from(fields, i + 1, generics, by, p, out.push(substituted(t, by))),
            None => None,
        }
    }
}

/// The value of type `t` that a dynamic value stands for, or the error that it is none.
pub open spec fn lowered(read: Reading, t: TyV, d: ValueV, p: ProgramV) -> Result<ValueV, ValueV>
    decreases d, t, 1int,
{
    let is_value = t matches TyV::Named { name, .. } && name == "Value"@;
    if is_value {
        Ok(d)
    } else {
        match variant_of(d) {
            None => Err(
                decode_error_v(
                    "internal error: the dynamic intermediate representation is invalid"@,
                ),
            ),
            Some(variant) => match t {
                TyV::Int => match dyn_of(d) {
                    DynV::Int(n) => Ok(ValueV::Int(n)),
                    _ => Err(unexpected("int"@, variant)),
                },
                TyV::Float => match dyn_of(d) {
                    DynV::Float(x) => Ok(ValueV::Float(x)),
                    DynV::Int(n) => Ok(ValueV::Float(int_as_float(read, n))),
                    _ => Err(unexpected("float"@, variant)),
                },
                TyV::Bool => match dyn_of(d) {
                    DynV::Bool(b) => Ok(ValueV::Bool(b)),
                    _ => Err(unexpected("bool"@, variant)),
                },
                TyV::Str => match dyn_of(d) {
                    DynV::Str(s) => Ok(ValueV::Str(s)),
                    _ => Err(unexpected("str"@, variant)),
                },
                TyV::List(e) => match dyn_of(d) {
                    DynV::List(items) => {
                        proof {
                            lemma_payload_smaller(d);
                        }
                        match list_lowered_from(read, *e, items, 0, p, Seq::empty()) {
                            Ok(vs) => Ok(ValueV::List(vs)),
                            Err(m) => Err(m),
                        }
                    },
                    _ => Err(unexpected("list"@, variant)),
                },
                TyV::SetOf(e) => match dyn_of(d) {
                    DynV::List(items) => {
                        proof {
                            lemma_payload_smaller(d);
                        }
                        match set_lowered_from(read, *e, items, 0, p, Seq::empty()) {
                            Ok(ks) => Ok(ValueV::SetOf(ks)),
                            Err(m) => Err(m),
                        }
                    },
                    _ => Err(unexpected("set"@, variant)),
                },
                TyV::Tuple(ts) => match dyn_of(d) {
                    DynV::List(items) => if items.len() == ts.len() {
                        proof {
                            lemma_payload_smaller(d);
                        }
                        match each_lowered_from(read, ts, items, 0, p, Seq::empty()) {
                            Ok(vs) => Ok(ValueV::Tuple(vs)),
                            Err(m) => Err(m),
                        }
                    } else {
                        Err(tuple_expected(ts.len()))
                    },
                    _ => Err(tuple_expected(ts.len())),
                },
                TyV::Dict(k, v) => match dyn_of(d) {
                    DynV::Dict(entries) => if *k is Str {
                        proof {
                            lemma_payload_smaller(d);
                        }
                        match entries_lowered_from(read, *v, entries, 0, p, Seq::empty()) {
                            Ok(es) => Ok(ValueV::Dict(es)),
                            Err(m) => Err(m),
                        }
                    } else {
                        Err(decode_error_v("expected dict[str, V]"@))
                    },
                    _ => Err(decode_error_v("expected dict[str, V]"@)),
                },
                TyV::Named { name, args } => if name == "Option"@ && args.len() == 1 {
                    if variant == "Null"@ {
                        Ok(none_v())
                    } else {
                        proof {
                            assert(decreases_to!(t => args));
                            assert(decreases_to!(args => args[0]));
                        }
                        match lowered(read, args[0], d, p) {
                            Ok(v) => Ok(some_v(v)),
                            Err(m) => Err(m),
                        }
                    }
                } else {
                    match lookup(p.enums, name) {
                        Some(decl) => enum_lowered(read, name, decl, args, d, p),
                        None => struct_lowered(read, name, args, d, p),
                    }
                },
                _ => Err(decode_error_v("decoding into this type is not supported"@)),
            },
        }
    }
}

pub open spec fn tuple_expected(n: nat) -> ValueV {
    decode_error_v("expected a tuple with "@ + digits(n) + " elements"@)
}

/// The values of type `t` that the items from the `i`-th on stand for.
pub open spec fn list_lowered_from(
    read: Reading,
    t: TyV,
    items: Seq<ValueV>,
    i: int,
    p: ProgramV,
    out: Seq<ValueV>,
) -> Result<Seq<ValueV>, ValueV>
    decreases items, TyV::Int, items.len() - i,
{
    if !(0 <= i < items.len()) {
        Ok(out)
    } else {
        match lowered(read, t, items[i], p) {
            Ok(v) => list_lowered_from(read, t, items, i + 1, p, out.push(v)),
            Err(m) => Err(m),
        }
    }
}

/// The keys that the items from the `i`-th on stand for, each once.
pub open spec fn set_lowered_from(
    read: Reading,
    t: TyV,
    items: Seq<ValueV>,
    i: int,
    p: ProgramV,
    out: Seq<KeyV>,
) -> Result<Seq<KeyV>, ValueV>
    decreases items, TyV::Int, items.len() - i,
{
    if !(0 <= i < items.len()) {
        Ok(out)
    } else {
        match lowered(read, t, items[i], p) {
            Ok(v) => match try_key_v(v) {
                Some(k) => set_lowered_from(
                    read,
                    t,
                    items,
                    i + 1,
                    p,
                    if out.contains(k) {
                        out
                    } else {
                        out.push(k)
                    },
                ),
                None => Err(
                    decode_error_v("a set's elements must be int/str/bool/tuple only"@),
                ),
            },
            Err(m) => Err(m),
        }
    }
}

/// The values that the items from the `i`-th on stand for, each by a type of its own.
pub open spec fn each_lowered_from(
    read: Reading,
    ts: Seq<TyV>,
    items: Seq<ValueV>,
    i: int,
    p: ProgramV,
    out: Seq<ValueV>,
) -> Result<Seq<ValueV>, ValueV>
    decreases items, TyV::Int, items.len() - i,
{
    if !(0 <= i < items.len()) {
        Ok(out)
    } else {
        match lowered(read, ts[i], items[i], p) {
            Ok(v) => each_lowered_from(read, ts, items, i + 1, p, out.push(v)),
            Err(m) => Err(m),
        }
    }
}

/// The entries from the `i`-th on, with the values of type `t` that theirs stand for.
pub open spec fn entries_lowered_from(
    read: Reading,
    t: TyV,
    entries: Seq<(KeyV, ValueV)>,
    i: int,
    p: ProgramV,
    out: Seq<(KeyV, ValueV)>,
) -> Result<Seq<(KeyV, ValueV)>, ValueV>
    decreases entries, TyV::Int, entries.len() - i,
{
    if !(0 <= i < entries.len()) {
        Ok(out)
    } else {
        match lowered(read, t, entries[i].1, p) {
            Ok(v) => entries_lowered_from(
                read,
                t,
                entries,
                i + 1,
                p,
                inserted(out, entries[i].0, v),
            ),
            Err(m) => Err(m),
        }
    }
}

/// The fields of a struct from the `i`-th on, found in a dictionary by their names.
pub open spec fn fields_lowered_from(
    read: Reading,
    fields: Seq<ParamV>,
    i: int,
    generics: Seq<Seq<char>>,
    by: Seq<(Seq<char>, TyV)>,
    entries: Seq<(KeyV, ValueV)>,
    p: ProgramV,
    out: Seq<ValueV>,
) -> Result<Seq<ValueV>, ValueV>
    decreases entries, TyV::Int, fields.len() - i,
{
    if !(0 <= i < fields.len()) {
        Ok(out)
    } else {
        let key = KeyV::Str(fields[i].name);
        if !has_key(entries, key) {
            Err(decode_error_v("field '"@ + fields[i].name + "' is missing"@))
        } else {
            match ann_ty(fields[i].ty, generics, p) {
                None => Err(
                    decode_error_v(
                        "could not resolve the type of field '"@ + fields[i].name + "'"@,
                    ),
                ),
                Some(t) => {
                    let at = key_index(entries, key);
                    proof {
                        assert(0 <= at < entries.len());
                        assert(decreases_to!(entries => entries[at]));
                        assert(decreases_to!(entries[at] => entries[at].1));
                    }
                    match lowered(read, substituted(t, by), entries[at].1, p) {
                        Ok(v) => fields_lowered_from(
                            read,
                            fields,
                            i + 1,
                            generics,
                            by,
                            entries,
                            p,
                            out.push(v),
                        ),
                        Err(m) => Err(m),
                    }
                },
            }
        }
    }
}

/// The struct that a dynamic value stands for.
pub open spec fn struct_lowered(
    read: Reading,
    name: Seq<char>,
    args: Seq<TyV>,
    d: ValueV,
    p: ProgramV,
) -> Result<ValueV, ValueV>
    decreases d, (TyV::Named { name, args }), 0int,
{
    match lookup(p.structs, name) {
        None => Err(decode_error_v("decode target type '"@ + name + "' was not found"@)),
        Some(decl) => match dyn_of(d) {
            DynV::Dict(entries) => {
                proof {
                    lemma_payload_smaller(d);
                }
                match fields_lowered_from(
                    read,
                    decl.fields,
                    0,
                    decl.generics,
                    bindings_from(decl.generics, args, 0, Seq::empty()),
                    entries,
                    p,
                    Seq::empty(),
                ) {
                    Ok(fields) => Ok(ValueV::Struct { ty_name: name, fields }),
                    Err(m) => Err(m),
                }
            },
            _ => Err(decode_error_v("decoding struct '"@ + name + "' requires an object"@)),
        },
    }
}

/// The variant of an enum that a dynamic value stands for: a dictionary from its name to what
/// it holds.
pub open spec fn enum_lowered(
    read: Reading,
    name: Seq<char>,
    decl: EnumV,
    args: Seq<TyV>,
    d: ValueV,
    p: ProgramV,
) -> Result<ValueV, ValueV>
    decreases d, (TyV::Named { name, args }), 0int,
{
    match dyn_of(d) {
        DynV::Dict(tagged) => if tagged.len() != 1 {
            Err(decode_error_v("enum object must contain exactly one variant"@))
        } else {
            match tagged[0].0 {
                KeyV::Str(variant_name) => match variant_from(decl.variants, variant_name, 0) {
                    None => Err(
                        decode_error_v(
                            "unknown variant '"@ + variant_name + "' for enum '"@ + name + "'"@,
                        ),
                    ),
                    Some(at) => match field_tys_from(
                        decl.variants[at].fields,
                        0,
                        decl.generics,
                        bindings_from(decl.generics, args, 0, Seq::empty()),
                        p,
                        Seq::empty(),
                    ) {
                        None => Err(decode_error_v("could not resolve enum field types"@)),
                        Some(ts) => {
                            proof {
                                lemma_dict_smaller(d);
                                assert(decreases_to!(d => tagged[0].1));
                            }
                            match payload_lowered(read, ts, tagged[0].1, p) {
                                Ok(fields) => Ok(
                                    ValueV::Enum {
                                        ty_name: name,
                                        variant_index: variant_no(at),
                                        variant_name,
                                        fields,
                                    },
                                ),
                                Err(m) => Err(m),
                            }
                        },
                    },
                },
                _ => Err(decode_error_v("enum variant name must be a string"@)),
            }
        },
        DynV::Odd(odd) => if odd == "Dict"@ {
            Err(decode_error_v("enum representation is not an object"@))
        } else {
            Err(tag_expected(name))
        },
        _ => Err(tag_expected(name)),
    }
}

pub open spec fn tag_expected(name: Seq<char>) -> ValueV {
    decode_error_v("decoding enum '"@ + name + "' requires an externally tagged object"@)
}

/// The fields of a variant: none, one that the value stands for itself, or as many as the value
/// has items.
pub open spec fn payload_lowered(read: Reading, ts: Seq<TyV>, payload: ValueV, p: ProgramV) -> Result<
    Seq<ValueV>,
    ValueV,
>
    decreases payload, TyV::Tuple(ts), 1int,
{
    if ts.len() == 0 {
        Ok(Seq::empty())
    } else if ts.len() == 1 {
        proof {
            let all = TyV::Tuple(ts);
            assert(decreases_to!(all => all->Tuple_0));
            assert(decreases_to!(ts => ts[0]));
        }
        match lowered(read, ts[0], payload, p) {
            Ok(v) => Ok(seq![v]),
            Err(m) => Err(m),
        }
    } else {
        match dyn_of(payload) {
            DynV::List(items) => if items.len() != ts.len() {
                Err(decode_error_v("enum payload field count does not match"@))
            } else {
                proof {
                    lemma_payload_smaller(payload);
                }
                each_lowered_from(read, ts, items, 0, p, Seq::empty())
            },
            _ => Err(decode_error_v("multi-field enum payload must be an array"@)),
        }
    }
}

/// A result by its view.
pub open spec fn outcome(r: Result<Value, Value>) -> Result<ValueV, ValueV> {
    match r {
        Ok(v) => Ok(v@),
        Err(e) => Err(e@),
    }
}

pub open spec fn outcomes(r: Result<Vec<Value>, Value>) -> Result<Seq<ValueV>, ValueV> {
    match r {
        Ok(vs) => Ok(values_view(vs@)),
        Err(e) => Err(e@),
    }
}

fn lower_list<F: Fn(String) -> Option<String>>(
    elem: &Ty,
    items: &Vec<Value>,
    program: &Program,
    read: &F,
) -> (r: Result<Vec<Value>, Value>)
    requires
        steady(*read),
    ensures
        outcomes(r) == list_lowered_from(
            reading(*read),
            elem@,
            values_view(items@),
            0,
            program@,
            Seq::empty(),
        ),
    decreases *items, Ty::Int, 0int,
{
    let ghost f = reading(*read);
    let ghost vs = values_view(items@);
    let mut out: Vec<Value> = Vec::new();
    let mut i: usize = 0;
    assert(values_view(out@) =~= Seq::empty());
    while i < items.len()
        invariant
            steady(*read),
            f == reading(*read),
            vs == values_view(items@),
            i <= items@.len(),
            list_lowered_from(f, elem@, vs, i as int, program@, values_view(out@))
                == list_lowered_from(f, elem@, vs, 0, program@, Seq::empty()),
        decreases items@.len() - i,
    {
        proof {
            assert(decreases_to!(*items => items@));
            assert(decreases_to!(items@ => items@[i as int]));
        }
        let ghost seen = values_view(out@);
        match lower(elem, &items[i], program, read) {
            Ok(v) => {
                out.push(v);
                assert(values_view(out@) =~= seen.push(v@));
            },
            Err(e) => {
                return Err(e);
            },
        }
        i = i + 1;
    }
    Ok(out)
}

pub open spec fn key_outcomes(r: Result<IndexSet<MapKey>, Value>) -> Result<Seq<KeyV>, ValueV> {
    match r {
        Ok(ks) => Ok(items_of(ks)),
        Err(e) => Err(e@),
    }
}

fn lower_set<F: Fn(String) -> Option<String>>(
    elem: &Ty,
    items: &Vec<Value>,
    program: &Program,
    read: &F,
) -> (r: Result<IndexSet<MapKey>, Value>)
    requires
        steady(*read),
    ensures
        key_outcomes(r) == set_lowered_from(
            reading(*read),
            elem@,
            values_view(items@),
            0,
            program@,
            Seq::empty(),
        ),
    decreases *items, Ty::Int, 0int,
{
    let ghost f = reading(*read);
    let ghost vs = values_view(items@);
    let mut out = set_new();
    let mut i: usize = 0;
    while i < items.len()
        invariant
            steady(*read),
            f == reading(*read),
            vs == values_view(items@),
            i <= items@.len(),
            set_lowered_from(f, elem@, vs, i as int, program@, items_of(out)) == set_lowered_from(
                f,
                elem@,
                vs,
                0,
                program@,
                Seq::empty(),
            ),
        decreases items@.len() - i,
    {
        proof {
            assert(decreases_to!(*items => items@));
            assert(decreases_to!(items@ => items@[i as int]));
        }
        let v = match lower(elem, &items[i], program, read) {
            Ok(v) => v,
            Err(e) => {
                return Err(e);
            },
        };
        match MapKey::try_from_value(&v) {
            Some(k) => {
                let _full = set_insert_full(&mut out, k);
            },
            None => {
                return Err(
                    decode_error("a set's elements must be int/str/bool/tuple only".to_owned()),
                );
            },
        }
        i = i + 1;
    }
    Ok(out)
}

fn lower_each<F: Fn(String) -> Option<String>>(
    tys: &Vec<Ty>,
    items: &Vec<Value>,
    program: &Program,
    read: &F,
) -> (r: Result<Vec<Value>, Value>)
    requires
        steady(*read),
        tys@.len() == items@.len(),
    ensures
        outcomes(r) == each_lowered_from(
            reading(*read),
            tys_view(tys@),
            values_view(items@),
            0,
            program@,
            Seq::empty(),
        ),
    decreases *items, Ty::Int, 0int,
{
    let ghost f = reading(*read);
    let ghost ts = tys_view(tys@);
    let ghost vs = values_view(items@);
    let mut out: Vec<Value> = Vec::new();
    let mut i: usize = 0;
    assert(values_view(out@) =~= Seq::empty());
    while i < items.len()
        invariant
            steady(*read),
            f == reading(*read),
            tys@.len() == items@.len(),
            ts == tys_view(tys@),
            vs == values_view(items@),
            i <= items@.len(),
            each_lowered_from(f, ts, vs, i as int, program@, values_view(out@))
                == each_lowered_from(f, ts, vs, 0, program@, Seq::empty()),
        decreases items@.len() - i,
    {
        proof {
            assert(decreases_to!(*items => items@));
            assert(decreases_to!(items@ => items@[i as int]));
        }
        let ghost seen = values_view(out@);
        match lower(&tys[i], &items[i], program, read) {
            Ok(v) => {
                out.push(v);
                assert(values_view(out@) =~= seen.push(v@));
            },
            Err(e) => {
                return Err(e);
            },
        }
        i = i + 1;
    }
    Ok(out)
}

pub open spec fn entry_outcomes(r: Result<Dict, Value>) -> Result<Seq<(KeyV, ValueV)>, ValueV> {
    match r {
        Ok(d) => Ok(d@),
        Err(e) => Err(e@),
    }
}

fn lower_dict<F: Fn(String) -> Option<String>>(
    val_ty: &Ty,
    d: &Dict,
    program: &Program,
    read: &F,
) -> (r: Result<Dict, Value>)
    requires
        steady(*read),
    ensures
        entry_outcomes(r) == entries_lowered_from(
            reading(*read),
            val_ty@,
            d@,
            0,
            program@,
            Seq::empty(),
        ),
    decreases *d, Ty::Int, 0int,
{
    let ghost f = reading(*read);
    let n: usize = d.len();
    let mut out = Dict::new();
    let mut i: usize = 0;
    while i < n
        invariant
            steady(*read),
            f == reading(*read),
            n == d@.len(),
            i <= n,
            entries_lowered_from(f, val_ty@, d@, i as int, program@, out@)
                == entries_lowered_from(f, val_ty@, d@, 0, program@, Seq::empty()),
        decreases n - i,
    {
        let key = d.key_at(i);
        let x = d.value_at(i);
        match lower(val_ty, x, program, read) {
            Ok(v) => {
                let _old = out.insert(key, v);
            },
            Err(e) => {
                return Err(e);
            },
        }
        i = i + 1;
    }
    Ok(out)
}

fn lower_fields<F: Fn(String) -> Option<String>>(
    decl: &StructDecl,
    by: &NameMap<Ty>,
    d: &Dict,
    program: &Program,
    read: &F,
) -> (r: Result<Vec<Value>, Value>)
    requires
        steady(*read),
    ensures
        outcomes(r) == fields_lowered_from(
            reading(*read),
            decl@.fields,
            0,
            decl@.generics,
            ty_views(by@),
            d@,
            program@,
            Seq::empty(),
        ),
    decreases *d, Ty::Int, 0int,
{
    let ghost f = reading(*read);
    let ghost fs = params_view(decl.fields@);
    let ghost gs = texts(decl.generics@);
    let ghost bs = ty_views(by@);
    let mut out: Vec<Value> = Vec::new();
    let mut i: usize = 0;
    assert(values_view(out@) =~= Seq::empty());
    while i < decl.fields.len()
        invariant
            steady(*read),
            f == reading(*read),
            fs == params_view(decl.fields@),
            gs == texts(decl.generics@),
            bs == ty_views(by@),
            i <= decl.fields@.len(),
            fields_lowered_from(f, fs, i as int, gs, bs, d@, program@, values_view(out@))
                == fields_lowered_from(f, fs, 0, gs, bs, d@, program@, Seq::empty()),
        decreases decl.fields@.len() - i,
    {
        let ghost seen = values_view(out@);
        let field = &decl.fields[i];
        assert(fs[i as int] == field@);
        let key = str_key(field.name.clone());
        let at = match d.index_of(&key) {
            Some(at) => at,
            None => {
                return Err(decode_error(join3("field '", field.name.as_str(), "' is missing")));
            },
        };
        let t = match ty_from_ann(&field.ty, &decl.generics, program) {
            Some(t) => substitute(&t, by),
            None => {
                return Err(
                    decode_error(
                        join3("could not resolve the type of field '", field.name.as_str(), "'"),
                    ),
                );
            },
        };
        let x = d.value_at(at);
        match lower(&t, x, program, read) {
            Ok(v) => {
                out.push(v);
                assert(values_view(out@) =~= seen.push(v@));
            },
            Err(e) => {
                return Err(e);
            },
        }
        i = i + 1;
    }
    Ok(out)
}

fn lower_struct<F: Fn(String) -> Option<String>>(
    name: &String,
    args: &Vec<Ty>,
    dynamic: &Value,
    program: &Program,
    read: &F,
) -> (r: Result<Value, Value>)
    requires
        steady(*read),
    ensures
        outcome(r) == struct_lowered(
            reading(*read),
            name@,
            tys_view(args@),
            dynamic@,
            program@,
        ),
    decreases *dynamic, (Ty::Named { name: *name, args: *args }), 0int,
{
    proof {
        lemma_mapped(program.structs@, |d: StructDecl| d.view(), name@, arbitrary());
    }
    let decl = match program.structs.get(name.as_str()) {
        Some(decl) => decl,
        None => {
            return Err(
                decode_error(join3("decode target type '", name.as_str(), "' was not found")),
            );
        },
    };
    let by = bind_generics(&decl.generics, args);
    match dyn_parts(dynamic) {
        Dynamic::Dict(d) => match lower_fields(decl, &by, d, program, read) {
            Ok(fields) => Ok(struct_value(name.as_str(), fields)),
            Err(e) => Err(e),
        },
        _ => Err(
            decode_error(join3("decoding struct '", name.as_str(), "' requires an object")),
        ),
    }
}

fn find_variant(decl: &EnumDecl, name: &str) -> (r: Option<usize>)
    ensures
        match r {
            Some(i) => i < decl.variants@.len() && variant_from(decl@.variants, name@, 0) == Some(
                i as int,
            ),
            None => variant_from(decl@.variants, name@, 0) is None,
        },
{
    let ghost vs = variants_view(decl.variants@);
    let mut i: usize = 0;
    while i < decl.variants.len()
        invariant
            vs == variants_view(decl.variants@),
            i <= decl.variants@.len(),
            variant_from(vs, name@, i as int) == variant_from(vs, name@, 0),
        decreases decl.variants@.len() - i,
    {
        assert(vs[i as int] == decl.variants@[i as int]@);
        if same_text(decl.variants[i].name.as_str(), name) {
            return Some(i);
        }
        i = i + 1;
    }
    None
}

pub open spec fn opt_ty_views(o: Option<Vec<Ty>>) -> Option<Seq<TyV>> {
    match o {
        Some(v) => Some(tys_view(v@)),
        None => None,
    }
}

fn field_tys(
    fields: &Vec<TypeAnn>,
    generics: &Vec<String>,
    by: &NameMap<Ty>,
    program: &Program,
) -> (r: Option<Vec<Ty>>)
    ensures
        opt_ty_views(r) == field_tys_from(
            types_view(fields@),
            0,
            texts(generics@),
            ty_views(by@),
            program@,
            Seq::empty(),
        ),
{
    let ghost fs = types_view(fields@);
    let ghost gs = texts(generics@);
    let ghost bs = ty_views(by@);
    let mut out: Vec<Ty> = Vec::new();
    let mut i: usize = 0;
    assert(tys_view(out@) =~= Seq::empty());
    while i < fields.len()
        invariant
            fs == types_view(fields@),
            gs == texts(generics@),
            bs == ty_views(by@),
            i <= fields@.len(),
            field_tys_from(fs, i as int, gs, bs, program@, tys_view(out@)) == field_tys_from(
                fs,
                0,
                gs,
                bs,
                program@,
                Seq::empty(),
            ),
        decreases fields@.len() - i,
    {
        let ghost seen = tys_view(out@);
        match ty_from_ann(&fields[i], generics, program) {
            Some(t) => {
                let u = substitute(&t, by);
                out.push(u);
                assert(tys_view(out@) =~= seen.push(u@));
            },
            None => {
                return None;
            },
        }
        i = i + 1;
    }
    Some(out)
}

fn lower_enum<F: Fn(String) -> Option<String>>(
    name: &String,
    decl: &EnumDecl,
    args: &Vec<Ty>,
    dynamic: &Value,
    program: &Program,
    read: &F,
) -> (r: Result<Value, Value>)
    requires
        steady(*read),
    ensures
        outcome(r) == enum_lowered(
            reading(*read),
            name@,
            decl@,
            tys_view(args@),
            dynamic@,
            program@,
        ),
    decreases *dynamic, (Ty::Named { name: *name, args: *args }), 0int,
{
    let tagged = match dyn_parts(dynamic) {
        Dynamic::Dict(d) => d,
        Dynamic::Odd(odd) => {
            if same_text(odd.as_str(), "Dict") {
                return Err(decode_error("enum representation is not an object".to_owned()));
            }
            return Err(
                decode_error(
                    join3(
                        "decoding enum '",
                        name.as_str(),
                        "' requires an externally tagged object",
                    ),
                ),
            );
        },
        _ => {
            return Err(
                decode_error(
                    join3(
                        "decoding enum '",
                        name.as_str(),
                        "' requires an externally tagged object",
                    ),
                ),
            );
        },
    };
    if tagged.len() != 1 {
        return Err(decode_error("enum object must contain exactly one variant".to_owned()));
    }
    let key = tagged.key_at(0);
    proof {
        lemma_key_view(key);
    }
    let variant_name = match key {
        MapKey::Str(s) => s,
        _ => {
            return Err(decode_error("enum variant name must be a string".to_owned()));
        },
    };
    let at = match find_variant(decl, variant_name.as_str()) {
        Some(at) => at,
        None => {
            return Err(
                decode_error(
                    join5(
                        "unknown variant '",
                        variant_name.as_str(),
                        "' for enum '",
                        name.as_str(),
                        "'",
                    ),
                ),
            );
        },
    };
    assert(variants_view(decl.variants@)[at as int] == decl.variants@[at as int]@);
    let by = bind_generics(&decl.generics, args);
    let ts = match field_tys(&decl.variants[at].fields, &decl.generics, &by, program) {
        Some(ts) => ts,
        None => {
            return Err(decode_error("could not resolve enum field types".to_owned()));
        },
    };
    let payload = tagged.value_at(0);
    let fields = match lower_payload(&ts, payload, program, read) {
        Ok(fields) => fields,
        Err(e) => {
            return Err(e);
        },
    };
    let index: u32 = if at as u64 <= u32::MAX as u64 {
        at as u32
    } else {
        u32::MAX
    };
    Ok(enum_value(name.as_str(), index, variant_name.as_str(), fields))
}

fn lower_payload<F: Fn(String) -> Option<String>>(
    ts: &Vec<Ty>,
    payload: &Value,
    program: &Program,
    read: &F,
) -> (r: Result<Vec<Value>, Value>)
    requires
        steady(*read),
    ensures
        outcomes(r) == payload_lowered(reading(*read), tys_view(ts@), payload@, program@),
    decreases *payload, Ty::Tuple(*ts), 2int,
{
    if ts.len() == 0 {
        let none: Vec<Value> = Vec::new();
        assert(values_view(none@) =~= Seq::empty());
        return Ok(none);
    }
    if ts.len() == 1 {
        proof {
            let all = Ty::Tuple(*ts);
            assert(decreases_to!(all => all->Tuple_0));
            assert(decreases_to!(*ts => ts@));
            assert(decreases_to!(ts@ => ts@[0]));
        }
        return match lower(&ts[0], payload, program, read) {
            Ok(v) => {
                let mut one: Vec<Value> = Vec::new();
                one.push(v);
                assert(values_view(one@) =~= seq![v@]);
                Ok(one)
            },
            Err(e) => Err(e),
        };
    }
    match dyn_parts(payload) {
        Dynamic::List(items) => {
            if items.len() != ts.len() {
                return Err(decode_error("enum payload field count does not match".to_owned()));
            }
            lower_each(ts, items, program, read)
        },
        _ => Err(decode_error("multi-field enum payload must be an array".to_owned())),
    }
}

/// The value of type `target` that a dynamic value stands for, or the error that it is none.
pub fn lower<F: Fn(String) -> Option<String>>(
    target: &Ty,
    dynamic: &Value,
    program: &Program,
    read: &F,
) -> (r: Result<Value, Value>)
    requires
        steady(*read),
    ensures
        outcome(r) == lowered(reading(*read), target@, dynamic@, program@),
    decreases *dynamic, *target, 1int,
{
    proof {
        lemma_ty_view(*target);
    }
    if let Ty::Named { name, .. } = target {
        if same_text(name.as_str(), "Value") {
            return Ok(dynamic.copy());
        }
    }
    let variant = match dyn_variant(dynamic) {
        Some((variant, _fields)) => variant,
        None => {
            return Err(
                decode_error(
                    "internal error: the dynamic intermediate representation is invalid".to_owned(),
                ),
            );
        },
    };
    match target {
        Ty::Int => match dyn_parts(dynamic) {
            Dynamic::Int(n) => Ok(int_value(n)),
            _ => Err(unexpected_error("int", variant)),
        },
        Ty::Float => match dyn_parts(dynamic) {
            Dynamic::Float(x) => Ok(float_value(x.clone())),
            Dynamic::Int(n) => {
                let text = int_to_text(n);
                match read_float(read, int_to_text(n)) {
                    Some(x) => Ok(float_value(x)),
                    None => Ok(float_value(text)),
                }
            },
            _ => Err(unexpected_error("float", variant)),
        },
        Ty::Bool => match dyn_parts(dynamic) {
            Dynamic::Bool(b) => Ok(bool_value(b)),
            _ => Err(unexpected_error("bool", variant)),
        },
        Ty::Str => match dyn_parts(dynamic) {
            Dynamic::Str(s) => Ok(str_value(s.clone())),
            _ => Err(unexpected_error("str", variant)),
        },
        Ty::List(elem) => match dyn_parts(dynamic) {
            Dynamic::List(items) => match lower_list(elem, items, program, read) {
                Ok(vs) => Ok(list_value(vs)),
                Err(e) => Err(e),
            },
            _ => Err(unexpected_error("list", variant)),
        },
        Ty::SetOf(elem) => match dyn_parts(dynamic) {
            Dynamic::List(items) => match lower_set(elem, items, program, read) {
                Ok(ks) => Ok(set_value(ks)),
                Err(e) => Err(e),
            },
            _ => Err(unexpected_error("set", variant)),
        },
        Ty::Tuple(ts) => {
            if let Dynamic::List(items) = dyn_parts(dynamic) {
                if items.len() == ts.len() {
                    return match lower_each(ts, items, program, read) {
                        Ok(vs) => Ok(tuple_value(vs)),
                        Err(e) => Err(e),
                    };
                }
            }
            let n = nat_to_text(ts.len() as u64);
            Err(decode_error(join3("expected a tuple with ", n.as_str(), " elements")))
        },
        Ty::Dict(k, v) => {
            proof {
                lemma_ty_view(**k);
            }
            if let Dynamic::Dict(d) = dyn_parts(dynamic) {
                if let Ty::Str = **k {
                    return match lower_dict(v, d, program, read) {
                        Ok(es) => Ok(dict_value(es)),
                        Err(e) => Err(e),
                    };
                }
            }
            Err(decode_error("expected dict[str, V]".to_owned()))
        },
        Ty::Named { name, args } => {
            if same_text(name.as_str(), "Option") && args.len() == 1 {
                if same_text(variant, "Null") {
                    return Ok(none_value());
                }
                proof {
                    assert(decreases_to!(*target => *args));
                    assert(decreases_to!(*args => args@));
                    assert(decreases_to!(args@ => args@[0]));
                }
                return match lower(&args[0], dynamic, program, read) {
                    Ok(v) => Ok(some_value(v)),
                    Err(e) => Err(e),
                };
            }
            proof {
                lemma_mapped(program.enums@, |d: EnumDecl| d.view(), name@, arbitrary());
            }
            match program.enums.get(name.as_str()) {
                Some(decl) => lower_enum(name, decl, args, dynamic, program, read),
                None => lower_struct(name, args, dynamic, program, read),
            }
        },
        _ => Err(decode_error("decoding into this type is not supported".to_owned())),
    }
}

} // verus!
