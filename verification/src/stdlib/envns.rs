//! The `env` namespace: variables that the program has set, and its arguments.

use super::{
    err_v, err_value, error_v, error_value, ok_v, ok_value, option_v, option_value, strs_v,
    strs_value,
};
use crate::eval::value::{str_value, Value, ValueV};
use crate::names::{lemma_mapped, lookup, mapped, put, NameMap};
use crate::text::{same_text, texts};
use vstd::prelude::*;
use vstd::string::*;

verus! {

/// The variables that the program has set. The process keeps its own.
#[derive(Debug)]
pub struct EnvOverlay {
    values: NameMap<String>,
}

impl EnvOverlay {
    pub closed spec fn view(&self) -> Seq<(Seq<char>, Seq<char>)> {
        mapped(self.values@, |s: String| s.view())
    }

    /// No variable is set.
    pub fn new() -> (r: EnvOverlay)
        ensures
            r@ == Seq::<(Seq<char>, Seq<char>)>::empty(),
    {
        let r = EnvOverlay { values: NameMap::new() };
        assert(r@ =~= Seq::empty());
        r
    }

    /// `get`: the value that the program has set, or else the one of the process, `outer`.
    pub fn get(&self, key: &str, outer: Option<String>) -> (r: Value)
        ensures
            r@ == option_v(
                match lookup(self@, key@) {
                    Some(s) => Some(ValueV::Str(s)),
                    None => match outer {
                        Some(s) => Some(ValueV::Str(s@)),
                        None => None,
                    },
                },
            ),
    {
        proof {
            lemma_mapped(self.values@, |s: String| s.view(), key@, arbitrary());
        }
        match self.values.get(key) {
            Some(s) => option_value(Some(str_value(s.clone()))),
            None => match outer {
                Some(s) => option_value(Some(str_value(s))),
                None => option_value(None),
            },
        }
    }

    /// `set`: gives a variable a value.
    pub fn set(&mut self, key: &str, value: &str)
        ensures
            final(self)@ == put(old(self)@, key@, value@),
    {
        let v = value.to_owned();
        proof {
            lemma_mapped(self.values@, |s: String| s.view(), key@, v);
        }
        self.values.insert(key.to_owned(), v);
    }

    /// How many variables the program has set.
    pub fn len(&self) -> (r: usize)
        ensures
            r == self@.len(),
    {
        self.values.len()
    }

    /// The name and the value of a variable that the program has set.
    pub fn entry(&self, i: usize) -> (r: (String, String))
        requires
            i < self@.len(),
        ensures
            (r.0@, r.1@) == self@[i as int],
    {
        (self.values.name_at(i).to_owned(), self.values.item_at(i).clone())
    }
}

/// The arguments from the `i`-th on without the flag, of which the first is the file where it has
/// not been found.
pub open spec fn check_args_from(
    argv: Seq<Seq<char>>,
    i: int,
    found: bool,
    out: Seq<Seq<char>>,
) -> Seq<Seq<char>>
    decreases argv.len() - i,
{
    if !(0 <= i < argv.len()) {
        out
    } else if argv[i] == "--apply"@ {
        check_args_from(argv, i + 1, found, out)
    } else if found {
        check_args_from(argv, i + 1, true, out.push(argv[i]))
    } else {
        check_args_from(argv, i + 1, true, out)
    }
}

/// The arguments of the script itself: without the binary, the command and the file.
pub open spec fn script_args_of(argv: Seq<Seq<char>>) -> Seq<Seq<char>> {
    if argv.len() < 2 {
        Seq::empty()
    } else if argv[1] == "check"@ {
        check_args_from(argv, 2, false, Seq::empty())
    } else if argv[1] == "test"@ {
        if argv.len() < 3 {
            Seq::empty()
        } else {
            argv.skip(3)
        }
    } else {
        argv.skip(2)
    }
}

fn tail(argv: &Vec<String>, from: usize) -> (r: Vec<String>)
    requires
        from <= argv@.len(),
    ensures
        texts(r@) == texts(argv@).skip(from as int),
{
    let mut out: Vec<String> = Vec::new();
    let mut i: usize = from;
    assert(texts(out@) =~= texts(argv@).subrange(from as int, from as int));
    while i < argv.len()
        invariant
            from <= i <= argv@.len(),
            texts(out@) == texts(argv@).subrange(from as int, i as int),
        decreases argv@.len() - i,
    {
        let ghost seen = texts(out@);
        out.push(argv[i].clone());
        assert(texts(out@) =~= seen.push(texts(argv@)[i as int]));
        assert(texts(out@) =~= texts(argv@).subrange(from as int, i + 1));
        i = i + 1;
    }
    assert(texts(out@) =~= texts(argv@).skip(from as int));
    out
}

/// The arguments of the script itself.
pub fn script_args(argv: Vec<String>) -> (r: Vec<String>)
    ensures
        texts(r@) == script_args_of(texts(argv@)),
{
    let none: Vec<String> = Vec::new();
    assert(texts(none@) =~= Seq::empty());
    let n: usize = argv.len();
    if n < 2 {
        return none;
    }
    assert(texts(argv@)[1] == argv@[1]@);
    if same_text(argv[1].as_str(), "check") {
        let ghost all = texts(argv@);
        let mut out: Vec<String> = Vec::new();
        let mut found = false;
        let mut i: usize = 2;
        assert(texts(out@) =~= Seq::empty());
        while i < n
            invariant
                n == argv@.len(),
                all == texts(argv@),
                2 <= i <= n,
                check_args_from(all, i as int, found, texts(out@)) == check_args_from(
                    all,
                    2,
                    false,
                    Seq::empty(),
                ),
            decreases n - i,
        {
            let ghost seen = texts(out@);
            assert(all[i as int] == argv@[i as int]@);
            if !same_text(argv[i].as_str(), "--apply") {
                if found {
                    out.push(argv[i].clone());
                    assert(texts(out@) =~= seen.push(all[i as int]));
                }
                found = true;
            }
            i = i + 1;
        }
        return out;
    }
    if same_text(argv[1].as_str(), "test") {
        if n < 3 {
            return none;
        }
        return tail(&argv, 3);
    }
    tail(&argv, 2)
}

/// `args`: the arguments of the script itself, as a list.
pub fn args(argv: Vec<String>) -> (r: Value)
    ensures
        r@ == strs_v(script_args_of(texts(argv@))),
{
    let rest = script_args(argv);
    strs_value(&rest)
}

/// `stdin`: what was read from the standard input, or why that failed.
pub fn stdin_value(read: Result<String, String>) -> (r: Value)
    ensures
        r@ == (match read {
            Ok(text) => ok_v(ValueV::Str(text@)),
            Err(m) => err_v(error_v("env"@, m@)),
        }),
{
    match read {
        Ok(text) => ok_value(str_value(text)),
        Err(m) => err_value(error_value("env", m)),
    }
}

} // verus!
