//! The `http` namespace: what a request needs of the program, and what the program sees of the
//! response.

use super::{err_v, err_value, error_v, error_value, ok_v, ok_value};
use crate::eval::keys::{lemma_key_view, str_key, KeyV, MapKey};
use crate::eval::value::{
    dict_value, inserted, int_value, lemma_value_view, str_value, struct_value, values_view, Dict,
    Value, ValueV,
};
use vstd::prelude::*;
use vstd::string::*;

verus! {

/// How long, in milliseconds, a request may take where the program does not say.
pub const DEFAULT_TIMEOUT_MS: u64 = 30_000;

/// The error that a failed request is answered with.
pub open spec fn net_error_v(message: Seq<char>) -> ValueV {
    error_v("net"@, message)
}

pub fn net_error(message: String) -> (r: Value)
    ensures
        r@ == net_error_v(message@),
{
    error_value("net", message)
}

pub open spec fn headers_view(headers: Seq<(String, String)>) -> Seq<(Seq<char>, Seq<char>)> {
    Seq::new(headers.len(), |i: int| (headers[i].0@, headers[i].1@))
}

/// The headers from the `i`-th on as entries of a dictionary: of those with the same name the
/// last one counts.
pub open spec fn header_entries_from(
    headers: Seq<(Seq<char>, Seq<char>)>,
    i: int,
    out: Seq<(KeyV, ValueV)>,
) -> Seq<(KeyV, ValueV)>
    decreases headers.len() - i,
{
    if 0 <= i < headers.len() {
        header_entries_from(
            headers,
            i + 1,
            inserted(out, KeyV::Str(headers[i].0), ValueV::Str(headers[i].1)),
        )
    } else {
        out
    }
}

/// A response as the program sees it.
pub open spec fn response_v(status: u16, headers: Seq<(Seq<char>, Seq<char>)>, body: Seq<char>) -> ValueV {
    ValueV::Struct {
        ty_name: "Response"@,
        fields: seq![
            ValueV::Int(status as i64),
            ValueV::Dict(header_entries_from(headers, 0, Seq::empty())),
            ValueV::Str(body),
        ],
    }
}

/// What a request came to: a response, whatever its status, or the error that there is none.
pub fn response_to_value(
    status: u16,
    headers: &Vec<(String, String)>,
    body: Result<String, String>,
) -> (r: Value)
    ensures
        r@ == (match body {
            Ok(text) => ok_v(response_v(status, headers_view(headers@), text@)),
            Err(m) => err_v(net_error_v(m@)),
        }),
{
    let ghost hs = headers_view(headers@);
    let mut d = Dict::new();
    let mut i: usize = 0;
    while i < headers.len()
        invariant
            hs == headers_view(headers@),
            i <= headers@.len(),
            header_entries_from(hs, i as int, d@) == header_entries_from(hs, 0, Seq::empty()),
        decreases headers@.len() - i,
    {
        let _old = d.insert(str_key(headers[i].0.clone()), str_value(headers[i].1.clone()));
        i = i + 1;
    }
    match body {
        Ok(text) => {
            let mut fields: Vec<Value> = Vec::new();
            fields.push(int_value(status as i64));
            fields.push(dict_value(d));
            fields.push(str_value(text));
            assert(values_view(fields@) =~= response_v(status, hs, text@)->Struct_fields);
            ok_value(struct_value("Response", fields))
        },
        Err(m) => err_value(net_error(m)),
    }
}

/// The options of a request: a struct of headers, texts by texts, and a time limit.
pub open spec fn are_options(v: ValueV) -> bool {
    match v {
        ValueV::Struct { ty_name, fields } => {
            &&& fields.len() >= 2
            &&& fields[0] matches ValueV::Dict(entries) && forall|i: int|
                0 <= i < entries.len() ==> (#[trigger] entries[i]).0 is Str && entries[i].1 is Str
            &&& fields[1] is Int
        },
        _ => false,
    }
}

/// The headers that options ask for.
pub open spec fn option_headers(v: ValueV) -> Seq<(Seq<char>, Seq<char>)> {
    let entries = v->Struct_fields[0]->Dict_0;
    Seq::new(entries.len(), |i: int| (entries[i].0->Str_0, entries[i].1->Str_0))
}

/// The time limit that options ask for; the usual one where it is negative.
pub open spec fn option_timeout(v: ValueV) -> u64 {
    let n = v->Struct_fields[1]->Int_0;
    if n >= 0 {
        n as u64
    } else {
        DEFAULT_TIMEOUT_MS
    }
}

/// The headers and the time limit that options ask for.
pub fn request_options(opts: &Value) -> (r: (Vec<(String, String)>, u64))
    requires
        are_options(opts@),
    ensures
        headers_view(r.0@) == option_headers(opts@),
        r.1 == option_timeout(opts@),
{
    proof {
        lemma_value_view(*opts);
    }
    let mut headers: Vec<(String, String)> = Vec::new();
    let mut timeout: u64 = DEFAULT_TIMEOUT_MS;
    if let Value::Struct(s) = opts {
        proof {
            lemma_value_view(s.fields@[0]);
            lemma_value_view(s.fields@[1]);
        }
        if let Value::Dict(d) = &s.fields[0] {
            let ghost wanted = option_headers(opts@);
            let n: usize = d.len();
            let mut i: usize = 0;
            assert(headers_view(headers@) =~= wanted.take(0));
            while i < n
                invariant
                    n == d@.len(),
                    i <= n,
                    wanted.len() == n,
                    forall|j: int| 0 <= j < n ==> (#[trigger] d@[j]).0 is Str && d@[j].1 is Str
                        && wanted[j] == (d@[j].0->Str_0, d@[j].1->Str_0),
                    headers_view(headers@) == wanted.take(i as int),
                decreases n - i,
            {
                let ghost seen = headers_view(headers@);
                let key = d.key_at(i);
                let x = d.value_at(i);
                assert(d@[i as int].0 is Str && d@[i as int].1 is Str);
                proof {
                    lemma_key_view(key);
                    lemma_value_view(*x);
                }
                if let MapKey::Str(name) = key {
                    if let Value::Str(text) = x {
                        headers.push((name, text.clone()));
                        assert(headers_view(headers@) =~= seen.push(wanted[i as int]));
                    }
                }
                assert(headers_view(headers@) =~= wanted.take(i + 1));
                i = i + 1;
            }
            assert(wanted.take(n as int) =~= wanted);
        }
        if let Value::Int(n) = &s.fields[1] {
            if *n >= 0 {
                timeout = *n as u64;
            }
        }
    }
    (headers, timeout)
}

} // verus!
