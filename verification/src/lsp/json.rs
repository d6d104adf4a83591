//! The values of the protocol, which are those of JSON.

use crate::eval::keys::{lemma_key_view, KeyV, MapKey};
use crate::eval::value::{lemma_value_view, values_view, Dict, Value, ValueV};
use crate::names::{
    distinct_names, lemma_mapped, lemma_next, lemma_values_smaller, lookup, mapped, put, NameMap,
};
use crate::numerals::{reading, steady};
use crate::stdlib::codec::dynamic::has_char;
use crate::stdlib::codec::json::{json_of, parse_to_dynamic, quoted, write_json_string, Reading};
use crate::text::{int_text, int_to_text, same_text};
use vstd::prelude::*;
use vstd::string::*;

verus! {

/// A value of the protocol. A float is held by its spelling.
#[derive(Debug)]
pub enum Json {
    Null,
    Bool(bool),
    Int(i64),
    Float(String),
    Str(String),
    Arr(Vec<Json>),
    Obj(NameMap<Json>),
}

/// What a value of the protocol stands for.
pub ghost enum JsonV {
    Null,
    Bool(bool),
    Int(i64),
    Float(Seq<char>),
    Str(Seq<char>),
    Arr(Seq<JsonV>),
    Obj(Seq<(Seq<char>, JsonV)>),
}

impl Json {
    #[verifier::opaque]
    pub closed spec fn view(&self) -> JsonV
        decreases self,
    {
        match *self {
            Json::Null => JsonV::Null,
            Json::Bool(b) => JsonV::Bool(b),
            Json::Int(n) => JsonV::Int(n),
            Json::Float(x) => JsonV::Float(x@),
            Json::Str(s) => JsonV::Str(s@),
            Json::Arr(items) => JsonV::Arr(jsons_rec(items@)),
            Json::Obj(m) => {
                proof {
                    lemma_values_smaller(m);
                }
                JsonV::Obj(Seq::new(m@.len(), |i: int| (m@[i].0, jsons_rec(m.values())[i])))
            },
        }
    }

    /// What this value stands for, in terms of what its parts stand for.
    pub open spec fn shape(&self) -> JsonV {
        match *self {
            Json::Null => JsonV::Null,
            Json::Bool(b) => JsonV::Bool(b),
            Json::Int(n) => JsonV::Int(n),
            Json::Float(x) => JsonV::Float(x@),
            Json::Str(s) => JsonV::Str(s@),
            Json::Arr(items) => JsonV::Arr(jsons_view(items@)),
            Json::Obj(m) => JsonV::Obj(members_view(m@)),
        }
    }
}

#[verifier::opaque]
closed spec fn jsons_rec(v: Seq<Json>) -> Seq<JsonV>
    decreases v,
{
    Seq::new(v.len(), |i: int| if 0 <= i < v.len() { v[i].view() } else { arbitrary() })
}

pub open spec fn jsons_view(v: Seq<Json>) -> Seq<JsonV> {
    Seq::new(v.len(), |i: int| v[i].view())
}

pub open spec fn members_view(m: Seq<(Seq<char>, Json)>) -> Seq<(Seq<char>, JsonV)> {
    mapped(m, |j: Json| j.view())
}

proof fn lemma_jsons_rec(v: Seq<Json>)
    ensures
        jsons_rec(v) == jsons_view(v),
{
    reveal(jsons_rec);
    reveal(Json::view);
    assert(jsons_rec(v) =~= jsons_view(v));
}

pub proof fn lemma_json_view(j: Json)
    ensures
        j@ == j.shape(),
{
    reveal(jsons_rec);
    reveal(Json::view);
    match j {
        Json::Arr(items) => lemma_jsons_rec(items@),
        Json::Obj(m) => {
            lemma_jsons_rec(m.values());
            lemma_values_smaller(m);
            assert(j@->Obj_0 =~= members_view(m@));
        },
        _ => {},
    }
}

// ---------------------------------------------------------------------------
// Builders
// ---------------------------------------------------------------------------

pub fn json_null() -> (r: Json)
    ensures
        r@ == JsonV::Null,
{
    let r = Json::Null;
    proof {
        lemma_json_view(r);
    }
    r
}

pub fn json_bool(b: bool) -> (r: Json)
    ensures
        r@ == JsonV::Bool(b),
{
    let r = Json::Bool(b);
    proof {
        lemma_json_view(r);
    }
    r
}

pub fn json_int(n: i64) -> (r: Json)
    ensures
        r@ == JsonV::Int(n),
{
    let r = Json::Int(n);
    proof {
        lemma_json_view(r);
    }
    r
}

pub fn json_float(x: String) -> (r: Json)
    ensures
        r@ == JsonV::Float(x@),
{
    let r = Json::Float(x);
    proof {
        lemma_json_view(r);
    }
    r
}

pub fn json_str(s: String) -> (r: Json)
    ensures
        r@ == JsonV::Str(s@),
{
    let r = Json::Str(s);
    proof {
        lemma_json_view(r);
    }
    r
}

pub fn json_arr(items: Vec<Json>) -> (r: Json)
    ensures
        r@ == JsonV::Arr(jsons_view(items@)),
{
    let r = Json::Arr(items);
    proof {
        lemma_json_view(r);
    }
    r
}

pub fn json_obj(m: NameMap<Json>) -> (r: Json)
    ensures
        r@ == JsonV::Obj(members_view(m@)),
{
    let r = Json::Obj(m);
    proof {
        lemma_json_view(r);
    }
    r
}

/// Pairs of names and values, by their views.
pub open spec fn pairs_view(v: Seq<(&str, Json)>) -> Seq<(Seq<char>, JsonV)> {
    Seq::new(v.len(), |i: int| (v[i].0@, v[i].1@))
}

/// The table that some pairs make from the `i`-th on: a later one takes the place of an earlier.
pub open spec fn table_from(v: Seq<(Seq<char>, JsonV)>, i: int, out: Seq<(Seq<char>, JsonV)>) -> Seq<
    (Seq<char>, JsonV),
>
    decreases v.len() - i,
{
    if 0 <= i < v.len() {
        table_from(v, i + 1, put(out, v[i].0, v[i].1))
    } else {
        out
    }
}

pub open spec fn obj_v(v: Seq<(Seq<char>, JsonV)>) -> JsonV {
    JsonV::Obj(table_from(v, 0, Seq::empty()))
}

pub open spec fn opt_json(o: Option<&Json>) -> Option<JsonV> {
    match o {
        Some(j) => Some(j@),
        None => None,
    }
}

/// The value under a name of an object.
pub open spec fn member(j: JsonV, key: Seq<char>) -> Option<JsonV> {
    match j {
        JsonV::Obj(m) => lookup(m, key),
        _ => None,
    }
}

impl Json {
    /// An object of some pairs.
    pub fn obj(items: Vec<(&str, Json)>) -> (r: Json)
        ensures
            r@ == obj_v(pairs_view(items@)),
    {
        let ghost ps = pairs_view(items@);
        let mut m: NameMap<Json> = NameMap::new();
        assert(members_view(m@) =~= Seq::empty());
        for pair in it: items
            invariant
                ps == pairs_view(it.seq()),
                table_from(ps, it.index() as int, members_view(m@)) == table_from(
                    ps,
                    0,
                    Seq::empty(),
                ),
        {
            let (key, value) = pair;
            proof {
                lemma_mapped(m@, |j: Json| j.view(), key@, value);
            }
            m.insert(key.to_owned(), value);
        }
        json_obj(m)
    }

    /// The value under a name of an object.
    pub fn get(&self, key: &str) -> (r: Option<&Json>)
        ensures
            opt_json(r) == member(self@, key@),
    {
        proof {
            lemma_json_view(*self);
        }
        match self {
            Json::Obj(m) => {
                proof {
                    lemma_mapped(m@, |j: Json| j.view(), key@, arbitrary());
                }
                m.get(key)
            },
            _ => None,
        }
    }

    pub fn as_str(&self) -> (r: Option<&str>)
        ensures
            match r {
                Some(s) => self@ == JsonV::Str(s@),
                None => !(self@ is Str),
            },
    {
        proof {
            lemma_json_view(*self);
        }
        match self {
            Json::Str(s) => Some(s.as_str()),
            _ => None,
        }
    }

    pub fn as_i64(&self) -> (r: Option<i64>)
        ensures
            match r {
                Some(n) => self@ == JsonV::Int(n),
                None => !(self@ is Int),
            },
    {
        proof {
            lemma_json_view(*self);
        }
        match self {
            Json::Int(n) => Some(*n),
            _ => None,
        }
    }

    pub fn as_arr(&self) -> (r: Option<&Vec<Json>>)
        ensures
            match r {
                Some(items) => self@ == JsonV::Arr(jsons_view(items@)),
                None => !(self@ is Arr),
            },
    {
        proof {
            lemma_json_view(*self);
        }
        match self {
            Json::Arr(items) => Some(items),
            _ => None,
        }
    }

    pub fn as_obj(&self) -> (r: Option<&NameMap<Json>>)
        ensures
            match r {
                Some(m) => self@ == JsonV::Obj(members_view(m@)),
                None => !(self@ is Obj),
            },
    {
        proof {
            lemma_json_view(*self);
        }
        match self {
            Json::Obj(m) => Some(m),
            _ => None,
        }
    }

    /// A value with the same content.
    pub fn copy(&self) -> (r: Json)
        ensures
            r@ == self@,
        decreases self,
    {
        proof {
            lemma_json_view(*self);
        }
        match self {
            Json::Null => {
                return json_null();
            },
            Json::Bool(b) => {
                return json_bool(*b);
            },
            Json::Int(n) => {
                return json_int(*n);
            },
            Json::Float(x) => {
                return json_float(x.clone());
            },
            Json::Str(s) => {
                return json_str(s.clone());
            },
            Json::Arr(items) => {
                let mut out: Vec<Json> = Vec::new();
                let mut i: usize = 0;
                while i < items.len()
                    invariant
                        self matches Json::Arr(w) && w == items,
                        i <= items@.len(),
                        out@.len() == i,
                        forall|k: int| 0 <= k < i ==> (#[trigger] out@[k])@ == items@[k]@,
                    decreases items@.len() - i,
                {
                    proof {
                        assert(decreases_to!(*self => *items));
                        assert(decreases_to!(*items => items@));
                        assert(decreases_to!(items@ => items@[i as int]));
                    }
                    let j = items[i].copy();
                    out.push(j);
                    i = i + 1;
                }
                assert(jsons_view(out@) =~= jsons_view(items@));
                return json_arr(out);
            },
            Json::Obj(m) => {
                let n: usize = m.len();
                let mut out: NameMap<Json> = NameMap::new();
                let mut i: usize = 0;
                assert(members_view(out@) =~= members_view(m@).take(0));
                while i < n
                    invariant
                        self matches Json::Obj(w) && w == m,
                        n == m@.len(),
                        i <= n,
                        distinct_names(members_view(m@)),
                        members_view(out@) == members_view(m@).take(i as int),
                    decreases n - i,
                {
                    let x = m.item_at(i);
                    proof {
                        assert(decreases_to!(*self => *m));
                    }
                    let j = x.copy();
                    let name = m.name_at(i);
                    proof {
                        lemma_mapped(out@, |j: Json| j.view(), name@, j);
                        lemma_next(members_view(m@), i as int);
                    }
                    out.insert(name.to_owned(), j);
                    i = i + 1;
                }
                assert(members_view(m@).take(n as int) =~= members_view(m@));
                return json_obj(out);
            },
        }
    }
}

// ---------------------------------------------------------------------------
// From text
// ---------------------------------------------------------------------------

pub open spec fn is_finite(x: Seq<char>) -> bool {
    x != "NaN"@ && x != "inf"@ && x != "-inf"@
}

/// The value of the protocol that a dynamic value is.
pub open spec fn json_from(d: ValueV) -> Result<JsonV, Seq<char>>
    decreases d, 1int, 0int,
{
    match d {
        ValueV::Enum { ty_name, variant_index, variant_name, fields } => if ty_name != "Value"@ {
            Err("JSON: invalid dynamic value"@)
        } else if variant_name == "Null"@ && fields.len() == 0 {
            Ok(JsonV::Null)
        } else if variant_name == "Bool"@ {
            match fields[0] {
                ValueV::Bool(b) if fields.len() == 1 => Ok(JsonV::Bool(b)),
                _ => Err("JSON: invalid bool value"@),
            }
        } else if variant_name == "Int"@ {
            match fields[0] {
                ValueV::Int(n) if fields.len() == 1 => Ok(JsonV::Int(n)),
                _ => Err("JSON: invalid integer value"@),
            }
        } else if variant_name == "Float"@ {
            match fields[0] {
                ValueV::Float(x) if fields.len() == 1 => if is_finite(x) {
                    Ok(JsonV::Float(x))
                } else {
                    Err("JSON: number is outside the finite range"@)
                },
                _ => Err("JSON: invalid float value"@),
            }
        } else if variant_name == "Str"@ {
            match fields[0] {
                ValueV::Str(s) if fields.len() == 1 => Ok(JsonV::Str(s)),
                _ => Err("JSON: invalid string value"@),
            }
        } else if variant_name == "List"@ {
            match fields[0] {
                ValueV::List(items) if fields.len() == 1 => {
                    proof {
                        assert(decreases_to!(d => fields));
                        assert(decreases_to!(fields => fields[0]));
                        assert(decreases_to!(fields[0] => items));
                    }
                    match jsons_from(items, 0, Seq::empty()) {
                        Ok(js) => Ok(JsonV::Arr(js)),
                        Err(m) => Err(m),
                    }
                },
                _ => Err("JSON: invalid array value"@),
            }
        } else if variant_name == "Dict"@ {
            match fields[0] {
                ValueV::Dict(entries) if fields.len() == 1 => {
                    proof {
                        assert(decreases_to!(d => fields));
                        assert(decreases_to!(fields => fields[0]));
                        assert(decreases_to!(fields[0] => entries));
                    }
                    match members_from(entries, 0, Seq::empty()) {
                        Ok(m) => Ok(JsonV::Obj(m)),
                        Err(e) => Err(e),
                    }
                },
                _ => Err("JSON: invalid object value"@),
            }
        } else {
            Err("JSON: invalid dynamic value"@)
        },
        _ => Err("JSON: invalid dynamic value"@),
    }
}

pub open spec fn jsons_from(items: Seq<ValueV>, i: int, out: Seq<JsonV>) -> Result<
    Seq<JsonV>,
    Seq<char>,
>
    decreases items, 0int, items.len() - i,
{
    if !(0 <= i < items.len()) {
        Ok(out)
    } else {
        match json_from(items[i]) {
            Ok(j) => jsons_from(items, i + 1, out.push(j)),
            Err(m) => Err(m),
        }
    }
}

pub open spec fn members_from(
    entries: Seq<(KeyV, ValueV)>,
    i: int,
    out: Seq<(Seq<char>, JsonV)>,
) -> Result<Seq<(Seq<char>, JsonV)>, Seq<char>>
    decreases entries, 0int, entries.len() - i,
{
    if !(0 <= i < entries.len()) {
        Ok(out)
    } else {
        proof {
            assert(decreases_to!(entries => entries[i]));
            assert(decreases_to!(entries[i] => entries[i].1));
        }
        match entries[i].0 {
            KeyV::Str(name) => match json_from(entries[i].1) {
                Ok(j) => members_from(entries, i + 1, put(out, name, j)),
                Err(m) => Err(m),
            },
            _ => Err("JSON: object key is not a string"@),
        }
    }
}

pub open spec fn json_result(r: Result<Json, String>) -> Result<JsonV, Seq<char>> {
    match r {
        Ok(j) => Ok(j@),
        Err(m) => Err(m@),
    }
}

fn finite(x: &str) -> (r: bool)
    ensures
        r == is_finite(x@),
{
    !same_text(x, "NaN") && !same_text(x, "inf") && !same_text(x, "-inf")
}

fn from_list(items: &Vec<Value>) -> (r: Result<Json, String>)
    ensures
        json_result(r) == (match jsons_from(values_view(items@), 0, Seq::empty()) {
            Ok(js) => Ok(JsonV::Arr(js)),
            Err(m) => Err(m),
        }),
    decreases *items, 0int,
{
    let ghost vs = values_view(items@);
    let mut out: Vec<Json> = Vec::new();
    let mut i: usize = 0;
    assert(jsons_view(out@) =~= Seq::empty());
    while i < items.len()
        invariant
            vs == values_view(items@),
            i <= items@.len(),
            jsons_from(vs, i as int, jsons_view(out@)) == jsons_from(vs, 0, Seq::empty()),
        decreases items@.len() - i,
    {
        proof {
            assert(decreases_to!(*items => items@));
            assert(decreases_to!(items@ => items@[i as int]));
        }
        let ghost seen = jsons_view(out@);
        match from_dynamic(&items[i]) {
            Ok(j) => {
                out.push(j);
                assert(jsons_view(out@) =~= seen.push(j@));
            },
            Err(m) => {
                return Err(m);
            },
        }
        i = i + 1;
    }
    Ok(json_arr(out))
}

fn from_dict(d: &Dict) -> (r: Result<Json, String>)
    ensures
        json_result(r) == (match members_from(d@, 0, Seq::empty()) {
            Ok(m) => Ok(JsonV::Obj(m)),
            Err(m) => Err(m),
        }),
    decreases *d, 0int,
{
    let n: usize = d.len();
    let mut out: NameMap<Json> = NameMap::new();
    let mut i: usize = 0;
    assert(members_view(out@) =~= Seq::empty());
    while i < n
        invariant
            n == d@.len(),
            i <= n,
            members_from(d@, i as int, members_view(out@)) == members_from(d@, 0, Seq::empty()),
        decreases n - i,
    {
        let key = d.key_at(i);
        proof {
            lemma_key_view(key);
        }
        let name = match key {
            MapKey::Str(name) => name,
            _ => {
                return Err("JSON: object key is not a string".to_owned());
            },
        };
        let x = d.value_at(i);
        match from_dynamic(x) {
            Ok(j) => {
                proof {
                    lemma_mapped(out@, |j: Json| j.view(), name@, j);
                }
                out.insert(name, j);
            },
            Err(m) => {
                return Err(m);
            },
        }
        i = i + 1;
    }
    Ok(json_obj(out))
}

/// The value of the protocol that a dynamic value is.
pub fn from_dynamic(value: &Value) -> (r: Result<Json, String>)
    ensures
        json_result(r) == json_from(value@),
    decreases *value, 1int,
{
    proof {
        lemma_value_view(*value);
    }
    match value {
        Value::Enum(e) => {
            if !same_text(e.ty_name.as_str(), "Value") {
                return Err("JSON: invalid dynamic value".to_owned());
            }
            let name = e.variant_name.as_str();
            if e.fields.len() == 0 && same_text(name, "Null") {
                return Ok(json_null());
            }
            let one = e.fields.len() == 1;
            if one {
                proof {
                    lemma_value_view(e.fields@[0]);
                    assert(decreases_to!(*value => *e));
                    assert(decreases_to!(*e => e.fields));
                    assert(decreases_to!(e.fields => e.fields@));
                    assert(decreases_to!(e.fields@ => e.fields@[0]));
                }
            }
            if same_text(name, "Bool") {
                if one {
                    if let Value::Bool(b) = &e.fields[0] {
                        return Ok(json_bool(*b));
                    }
                }
                return Err("JSON: invalid bool value".to_owned());
            }
            if same_text(name, "Int") {
                if one {
                    if let Value::Int(n) = &e.fields[0] {
                        return Ok(json_int(*n));
                    }
                }
                return Err("JSON: invalid integer value".to_owned());
            }
            if same_text(name, "Float") {
                if one {
                    if let Value::Float(x) = &e.fields[0] {
                        if finite(x.as_str()) {
                            return Ok(json_float(x.clone()));
                        }
                        return Err("JSON: number is outside the finite range".to_owned());
                    }
                }
                return Err("JSON: invalid float value".to_owned());
            }
            if same_text(name, "Str") {
                if one {
                    if let Value::Str(s) = &e.fields[0] {
                        return Ok(json_str(s.clone()));
                    }
                }
                return Err("JSON: invalid string value".to_owned());
            }
            if same_text(name, "List") {
                if one {
                    if let Value::List(items) = &e.fields[0] {
                        return from_list(items);
                    }
                }
                return Err("JSON: invalid array value".to_owned());
            }
            if same_text(name, "Dict") {
                if one {
                    if let Value::Dict(d) = &e.fields[0] {
                        return from_dict(d);
                    }
                }
                return Err("JSON: invalid object value".to_owned());
            }
            Err("JSON: invalid dynamic value".to_owned())
        },
        _ => Err("JSON: invalid dynamic value".to_owned()),
    }
}

/// The value of the protocol that a text is.
pub open spec fn json_value(read: Reading, text: Seq<char>) -> Result<JsonV, Seq<char>> {
    match json_of(read, text) {
        Ok(d) => json_from(d),
        Err(m) => Err(m),
    }
}

/// Reads a value of the protocol. Floats are read with `read`, from what the text has to their
/// spelling.
pub fn parse<F: Fn(String) -> Option<String>>(text: &str, read: &F) -> (r: Result<Json, String>)
    requires
        steady(*read),
    ensures
        json_result(r) == json_value(reading(*read), text@),
{
    match parse_to_dynamic(text, read) {
        Ok(v) => from_dynamic(&v),
        Err(m) => Err(m),
    }
}

// ---------------------------------------------------------------------------
// To text
// ---------------------------------------------------------------------------

pub open spec fn comma(i: int) -> Seq<char> {
    if i > 0 {
        seq![',']
    } else {
        Seq::empty()
    }
}

/// A float of the protocol as text: always with a fraction or an exponent.
pub open spec fn number_text(x: Seq<char>) -> Seq<char> {
    if x.contains('.') || x.contains('e') || x.contains('E') {
        x
    } else {
        x + ".0"@
    }
}

/// A value of the protocol as text.
pub open spec fn written(j: JsonV) -> Seq<char>
    decreases j, 0int,
{
    match j {
        JsonV::Null => "null"@,
        JsonV::Bool(b) => if b {
            "true"@
        } else {
            "false"@
        },
        JsonV::Int(n) => int_text(n as int),
        JsonV::Float(x) => number_text(x),
        JsonV::Str(s) => quoted(s),
        JsonV::Arr(items) => seq!['['] + items_written(items, 0) + seq![']'],
        JsonV::Obj(m) => seq!['{'] + members_written(m, 0) + seq!['}'],
    }
}

pub open spec fn items_written(items: Seq<JsonV>, i: int) -> Seq<char>
    decreases items, items.len() - i,
{
    if 0 <= i < items.len() {
        comma(i) + written(items[i]) + items_written(items, i + 1)
    } else {
        Seq::empty()
    }
}

pub open spec fn members_written(m: Seq<(Seq<char>, JsonV)>, i: int) -> Seq<char>
    decreases m, m.len() - i,
{
    if 0 <= i < m.len() {
        comma(i) + quoted(m[i].0) + seq![':'] + written(m[i].1) + members_written(m, i + 1)
    } else {
        Seq::empty()
    }
}

fn write_items(items: &Vec<Json>, out: &mut String)
    ensures
        final(out)@ == old(out)@ + items_written(jsons_view(items@), 0),
    decreases *items, 0int,
{
    let ghost start = out@;
    let ghost js = jsons_view(items@);
    let mut i: usize = 0;
    while i < items.len()
        invariant
            js == jsons_view(items@),
            i <= items@.len(),
            out@ + items_written(js, i as int) == start + items_written(js, 0),
        decreases items@.len() - i,
    {
        proof {
            assert(decreases_to!(*items => items@));
            assert(decreases_to!(items@ => items@[i as int]));
        }
        let ghost before = out@;
        if i > 0 {
            out.push(',');
        }
        assert(out@ =~= before + comma(i as int));
        write_json(&items[i], out);
        assert(out@ + items_written(js, i + 1) =~= before + items_written(js, i as int));
        i = i + 1;
    }
    assert(out@ =~= start + items_written(js, 0));
}

fn write_members(m: &NameMap<Json>, out: &mut String)
    ensures
        final(out)@ == old(out)@ + members_written(members_view(m@), 0),
    decreases *m, 0int,
{
    let ghost start = out@;
    let ghost ms = members_view(m@);
    let n: usize = m.len();
    let mut i: usize = 0;
    while i < n
        invariant
            ms == members_view(m@),
            n == m@.len(),
            i <= n,
            out@ + members_written(ms, i as int) == start + members_written(ms, 0),
        decreases n - i,
    {
        let ghost before = out@;
        if i > 0 {
            out.push(',');
        }
        assert(out@ =~= before + comma(i as int));
        write_json_string(m.name_at(i), out);
        out.push(':');
        let x = m.item_at(i);
        write_json(x, out);
        assert(out@ + members_written(ms, i + 1) =~= before + members_written(ms, i as int));
        i = i + 1;
    }
    assert(out@ =~= start + members_written(ms, 0));
}

fn write_json(value: &Json, out: &mut String)
    ensures
        final(out)@ == old(out)@ + written(value@),
    decreases *value, 1int,
{
    proof {
        lemma_json_view(*value);
    }
    let ghost start = out@;
    match value {
        Json::Null => {
            out.append("null");
        },
        Json::Bool(b) => {
            if *b {
                out.append("true");
            } else {
                out.append("false");
            }
        },
        Json::Int(n) => {
            let text = int_to_text(*n);
            out.append(text.as_str());
        },
        Json::Float(x) => {
            out.append(x.as_str());
            if !has_char(x.as_str(), '.') && !has_char(x.as_str(), 'e') && !has_char(
                x.as_str(),
                'E',
            ) {
                out.append(".0");
            }
            assert(out@ =~= start + number_text(x@));
        },
        Json::Str(s) => {
            write_json_string(s.as_str(), out);
        },
        Json::Arr(items) => {
            out.push('[');
            write_items(items, out);
            out.push(']');
            assert(out@ =~= start + written(value@));
        },
        Json::Obj(m) => {
            out.push('{');
            write_members(m, out);
            out.push('}');
            assert(out@ =~= start + written(value@));
        },
    }
}

impl Json {
    /// The value as text.
    pub fn text(&self) -> (r: String)
        ensures
            r@ == written(self@),
    {
        let mut out = String::new();
        write_json(self, &mut out);
        assert(out@ =~= written(self@));
        out
    }
}

} // verus!
