//! The `proc` namespace: the arguments of a command, and what the program sees of its run.

use super::{err_v, err_value, error_v, error_value, ok_v, ok_value};
use crate::eval::value::{
    int_value, lemma_value_view, str_value, struct_value, values_view, Value, ValueV,
};
use crate::text::{join4, texts};
use vstd::prelude::*;
use vstd::string::*;

verus! {

/// A list of texts.
pub open spec fn all_strs(items: Seq<ValueV>) -> bool {
    forall|i: int| 0 <= i < items.len() ==> (#[trigger] items[i]) is Str
}

/// The arguments of a command.
pub fn arg_texts(args: &[Value]) -> (r: Vec<String>)
    requires
        all_strs(values_view(args@)),
    ensures
        texts(r@) == Seq::new(args@.len(), |i: int| values_view(args@)[i]->Str_0),
{
    let ghost vs = values_view(args@);
    let mut out: Vec<String> = Vec::new();
    let mut i: usize = 0;
    while i < args.len()
        invariant
            vs == values_view(args@),
            all_strs(vs),
            i <= args@.len(),
            out@.len() == i,
            forall|j: int| 0 <= j < i ==> (#[trigger] out@[j])@ == vs[j]->Str_0,
        decreases args@.len() - i,
    {
        proof {
            lemma_value_view(args@[i as int]);
            assert(vs[i as int] is Str);
        }
        if let Value::Str(s) = &args[i] {
            out.push(s.clone());
        }
        i = i + 1;
    }
    assert(texts(out@) =~= Seq::new(args@.len(), |i: int| vs[i]->Str_0));
    out
}

/// What a command wrote and how it ended; -1 where it has no exit code.
pub open spec fn output_v(stdout: Seq<char>, stderr: Seq<char>, code: Option<i32>) -> ValueV {
    ValueV::Struct {
        ty_name: "ProcOutput"@,
        fields: seq![
            ValueV::Str(stdout),
            ValueV::Str(stderr),
            ValueV::Int(
                match code {
                    Some(n) => n as i64,
                    None => (-1) as i64,
                },
            ),
        ],
    }
}

/// `run`: what a command wrote and how it ended, also where it failed.
pub fn output_value(stdout: String, stderr: String, code: Option<i32>) -> (r: Value)
    ensures
        r@ == ok_v(output_v(stdout@, stderr@, code)),
{
    let ghost wanted = output_v(stdout@, stderr@, code);
    let exit: i64 = match code {
        Some(n) => n as i64,
        None => -1,
    };
    let mut fields: Vec<Value> = Vec::new();
    fields.push(str_value(stdout));
    fields.push(str_value(stderr));
    fields.push(int_value(exit));
    assert(values_view(fields@) =~= wanted->Struct_fields);
    ok_value(struct_value("ProcOutput", fields))
}

/// `run` where the command could not be started.
pub fn spawn_failure(cmd: &str, message: &str) -> (r: Value)
    ensures
        r@ == err_v(error_v("proc"@, "failed to spawn '"@ + cmd@ + "': "@ + message@)),
{
    err_value(error_value("proc", join4("failed to spawn '", cmd, "': ", message)))
}

} // verus!
