//! Encoding values as text, and decoding them from it.

pub mod csv;
pub mod csv_columns;
pub mod csv_forms;
pub mod csv_laws;
pub mod dynamic;
pub mod escape_laws;
pub mod escapes;
pub mod json;
pub mod json_laws;
pub mod json_spaces;
pub mod lift;
pub mod lift_laws;
pub mod lower;
pub mod lower_laws;
pub mod toml;
pub mod toml_forms;
pub mod toml_laws;
pub mod toml_lines;
pub mod toml_paths;
pub mod toml_sections;
pub mod yaml;
pub mod yaml_comments;
pub mod yaml_forms;
pub mod yaml_laws;
pub mod yaml_words;

use crate::eval::env::{Program, ProgramV};
use crate::eval::keys::KeyV;
use crate::eval::value::{str_value, Value, ValueV};
use crate::numerals::{reading, steady};
use crate::stdlib::{err_v, err_value, ok_v, ok_value, NamespaceId};
use crate::text::join2;
use crate::types::{Ty, TyV};
use dynamic::{ddict_v, dyn_of, tree_of, DynV};
use json::{codec_floats, json_of, json_text, parsed, Reading};
use json_laws::{holdable, law_json_reads_back_what_it_wrote};
use lift::{lifted, to_dynamic};
use lift_laws::{law_lowering_undoes_lifting, of_type};
use lower::{decode_error, decode_error_v, lower, lowered};
use toml::{toml_of, toml_text};
use toml_laws::{law_toml_reads_back_what_it_wrote, toml_holdable};
use vstd::prelude::*;
use vstd::string::*;
use yaml::{yaml_of, yaml_text};
use yaml_laws::{law_yaml_reads_back_what_it_wrote, yaml_holdable};

verus! {

/// The namespaces whose texts are decoded by way of dynamic values.
pub open spec fn is_format(n: NamespaceId) -> bool {
    n == NamespaceId::Json || n == NamespaceId::Yaml || n == NamespaceId::Toml
}

/// What a text is in a format, and in no other one.
pub open spec fn dynamic_of(format: NamespaceId, read: Reading, text: Seq<char>) -> Result<
    ValueV,
    Seq<char>,
> {
    let (label, result) = match format {
        NamespaceId::Json => ("json: "@, json_of(read, text)),
        NamespaceId::Yaml => ("yaml: "@, yaml_of(read, text)),
        _ => ("toml: "@, toml_of(read, text)),
    };
    match result {
        Ok(v) => Ok(v),
        Err(m) => Err(label + m),
    }
}

fn parse_dynamic<F: Fn(String) -> Option<String>>(
    format: NamespaceId,
    text: &str,
    read: &F,
) -> (r: Result<Value, String>)
    requires
        steady(*read),
        is_format(format),
    ensures
        parsed(r) == dynamic_of(format, reading(*read), text@),
{
    match format {
        NamespaceId::Json => match json::parse_to_dynamic(text, read) {
            Ok(v) => Ok(v),
            Err(m) => Err(join2("json: ", m.as_str())),
        },
        NamespaceId::Yaml => match yaml::parse_to_dynamic(text, read) {
            Ok(v) => Ok(v),
            Err(m) => Err(join2("yaml: ", m.as_str())),
        },
        _ => match toml::parse_to_dynamic(text, read) {
            Ok(v) => Ok(v),
            Err(m) => Err(join2("toml: ", m.as_str())),
        },
    }
}

/// The result of decoding a text: `Ok` with the value, or `Err` with an error of kind `decode`.
pub open spec fn decoded(
    format: NamespaceId,
    read: Reading,
    target: TyV,
    text: Seq<char>,
    p: ProgramV,
) -> ValueV {
    match dynamic_of(format, read, text) {
        Ok(d) => match lowered(read, target, d, p) {
            Ok(v) => ok_v(v),
            Err(e) => err_v(e),
        },
        Err(m) => err_v(decode_error_v(m)),
    }
}

/// Decodes a text in a format as a value of a type. Floats are read with `read`, from what the
/// text has to their spelling.
pub fn decode<F: Fn(String) -> Option<String>>(
    format: NamespaceId,
    target: &Ty,
    text: &str,
    program: &Program,
    read: &F,
) -> (r: Value)
    requires
        steady(*read),
        is_format(format),
    ensures
        r@ == decoded(format, reading(*read), target@, text@, program@),
{
    match parse_dynamic(format, text, read) {
        Ok(d) => match lower(target, &d, program, read) {
            Ok(v) => ok_value(v),
            Err(e) => err_value(e),
        },
        Err(m) => err_value(decode_error(m)),
    }
}

/// What a value is written as in a format.
pub open spec fn encoded(format: NamespaceId, v: ValueV, p: ProgramV) -> Seq<char> {
    let t = tree_of(lifted(v, p.structs));
    match format {
        NamespaceId::Json => json_text(t),
        NamespaceId::Yaml => yaml_text(t),
        _ => toml_text(t),
    }
}

/// Writes a value in a format.
pub fn encode(format: NamespaceId, value: &Value, program: &Program) -> (r: Value)
    requires
        is_format(format),
    ensures
        r@ == ValueV::Str(encoded(format, value@, program@)),
{
    let d = to_dynamic(value, program);
    let text = match format {
        NamespaceId::Json => json::dynamic_to_string(&d),
        NamespaceId::Yaml => yaml::dynamic_to_string(&d),
        _ => toml::dynamic_to_string(&d),
    };
    str_value(text)
}

/// The type of dynamic values.
pub open spec fn value_ty() -> TyV {
    TyV::Named { name: "Value"@, args: Seq::empty() }
}

/// What was encoded as JSON decodes as the same value, in its dynamic form.
pub proof fn law_json_decodes_what_it_encoded(read: Reading, v: ValueV, p: ProgramV)
    requires
        holdable(read, codec_floats(), lifted(v, p.structs), 0),
    ensures
        decoded(
            NamespaceId::Json,
            read,
            value_ty(),
            encoded(NamespaceId::Json, v, p),
            p,
        ) == ok_v(lifted(v, p.structs)),
{
    law_json_reads_back_what_it_wrote(read, lifted(v, p.structs));
}

/// What was encoded as TOML decodes as the same value, in its dynamic form: a table with values
/// that TOML can hold.
pub proof fn law_toml_decodes_what_it_encoded(
    read: Reading,
    v: ValueV,
    entries: Seq<(KeyV, ValueV)>,
    p: ProgramV,
)
    requires
        dyn_of(lifted(v, p.structs)) == DynV::Dict(entries),
        lifted(v, p.structs) == ddict_v(entries),
        toml_laws::entries_fit(entries),
        forall|i: int|
            0 <= i < entries.len() ==> toml_holdable(read, (#[trigger] entries[i]).1, 0),
    ensures
        decoded(
            NamespaceId::Toml,
            read,
            value_ty(),
            encoded(NamespaceId::Toml, v, p),
            p,
        ) == ok_v(lifted(v, p.structs)),
{
    law_toml_reads_back_what_it_wrote(read, lifted(v, p.structs), entries);
}

/// What was encoded as YAML decodes as the same value, in its dynamic form: a value that YAML
/// can hold.
pub proof fn law_yaml_decodes_what_it_encoded(read: Reading, v: ValueV, p: ProgramV)
    requires
        yaml_holdable(read, lifted(v, p.structs), 0),
    ensures
        decoded(
            NamespaceId::Yaml,
            read,
            value_ty(),
            encoded(NamespaceId::Yaml, v, p),
            p,
        ) == ok_v(lifted(v, p.structs)),
{
    law_yaml_reads_back_what_it_wrote(read, lifted(v, p.structs));
}

/// A value of a type survives being encoded and decoded as JSON.
pub proof fn law_json_gives_back_values_of_a_type(read: Reading, v: ValueV, t: TyV, p: ProgramV)
    requires
        of_type(v, t, p),
        holdable(read, codec_floats(), lifted(v, p.structs), 0),
    ensures
        decoded(NamespaceId::Json, read, t, encoded(NamespaceId::Json, v, p), p) == ok_v(v),
{
    law_json_reads_back_what_it_wrote(read, lifted(v, p.structs));
    law_lowering_undoes_lifting(read, v, t, p);
}

/// A value of a type survives being encoded and decoded as TOML.
pub proof fn law_toml_gives_back_values_of_a_type(
    read: Reading,
    v: ValueV,
    t: TyV,
    entries: Seq<(KeyV, ValueV)>,
    p: ProgramV,
)
    requires
        of_type(v, t, p),
        dyn_of(lifted(v, p.structs)) == DynV::Dict(entries),
        lifted(v, p.structs) == ddict_v(entries),
        toml_laws::entries_fit(entries),
        forall|i: int|
            0 <= i < entries.len() ==> toml_holdable(read, (#[trigger] entries[i]).1, 0),
    ensures
        decoded(NamespaceId::Toml, read, t, encoded(NamespaceId::Toml, v, p), p) == ok_v(v),
{
    law_toml_reads_back_what_it_wrote(read, lifted(v, p.structs), entries);
    law_lowering_undoes_lifting(read, v, t, p);
}

/// A value of a type survives being encoded and decoded as YAML.
pub proof fn law_yaml_gives_back_values_of_a_type(read: Reading, v: ValueV, t: TyV, p: ProgramV)
    requires
        of_type(v, t, p),
        yaml_holdable(read, lifted(v, p.structs), 0),
    ensures
        decoded(NamespaceId::Yaml, read, t, encoded(NamespaceId::Yaml, v, p), p) == ok_v(v),
{
    law_yaml_reads_back_what_it_wrote(read, lifted(v, p.structs));
    law_lowering_undoes_lifting(read, v, t, p);
}

/// Decoding as a dynamic value succeeds on exactly the texts that the format accepts.
pub proof fn law_any_text_of_the_format_decodes(
    format: NamespaceId,
    read: Reading,
    text: Seq<char>,
    p: ProgramV,
)
    requires
        is_format(format),
    ensures
        dynamic_of(format, read, text) matches Ok(d) ==> decoded(
            format,
            read,
            value_ty(),
            text,
            p,
        ) == ok_v(d),
        dynamic_of(format, read, text) matches Err(m) ==> decoded(
            format,
            read,
            value_ty(),
            text,
            p,
        ) == err_v(decode_error_v(m)),
{
}

} // verus!
