//! Regular expressions.
//!
//! A pattern is a text. One that is not a regular expression is answered with an error.

use crate::eval::value::{bool_value, str_value, Value, ValueV};
use crate::numerals::is_digit;
use crate::stdlib::{
    err_v, err_value, error_v, error_value, none_v, none_value, ok_v, ok_value, some_v, some_value,
    strs_v, strs_value,
};
use crate::text::{opt_text, texts};
use vstd::prelude::*;

verus! {

/// Why a pattern is no regular expression; nothing where it is one.
pub uninterp spec fn pattern_error(pattern: Seq<char>) -> Option<Seq<char>>;

/// Whether a regular expression matches somewhere in a text.
pub uninterp spec fn matches_of(pattern: Seq<char>, text: Seq<char>) -> bool;

/// The first match of a regular expression in a text.
pub uninterp spec fn match_of(pattern: Seq<char>, text: Seq<char>) -> Option<Seq<char>>;

/// All matches of a regular expression in a text that do not overlap.
pub uninterp spec fn all_matches_of(pattern: Seq<char>, text: Seq<char>) -> Seq<Seq<char>>;

/// A text with the first match of a regular expression replaced.
pub uninterp spec fn replaced_of(
    pattern: Seq<char>,
    text: Seq<char>,
    replacement: Seq<char>,
) -> Seq<char>;

/// A text with all matches of a regular expression replaced.
pub uninterp spec fn all_replaced_of(
    pattern: Seq<char>,
    text: Seq<char>,
    replacement: Seq<char>,
) -> Seq<char>;

/// What the groups of a regular expression captured in its first match; a group that took no
/// part has nothing.
pub uninterp spec fn groups_of(pattern: Seq<char>, text: Seq<char>) -> Option<
    Seq<Option<Seq<char>>>,
>;

/// What the class `\d` matches: in ASCII the ten decimal digits, and elsewhere what `is_match`
/// says of it.
pub open spec fn in_digit_class(c: char) -> bool {
    if c as u32 <= 127 {
        is_digit(c)
    } else {
        matches_of("\\d"@, seq![c])
    }
}

/// A text that starts with four digits and a dash, a digit being what the class `\d` matches.
pub open spec fn starts_as_date(text: Seq<char>) -> bool {
    &&& text.len() >= 5
    &&& forall|i: int| 0 <= i < 4 ==> in_digit_class(#[trigger] text[i])
    &&& text[4] == '-'
}

/// `Regex::new` and `Regex::is_match`: whether the pattern matches, or the text of the error
/// that compiling it came to. Of the pattern of dates it is known what its parts stand for:
/// the start of the text, four times the class of digits, and a dash. The class is that of the
/// decimal numbers of Unicode, of which `0` to `9` are the ones in ASCII.
#[verifier::external_body]
pub(crate) fn regex_is_match(pattern: &str, text: &str) -> (r: Result<bool, String>)
    ensures
        match r {
            Ok(b) => pattern_error(pattern@) is None && b == matches_of(pattern@, text@),
            Err(m) => pattern_error(pattern@) == Some(m@),
        },
        pattern@ == "^\\d{4}-"@ ==> r is Ok && r->Ok_0 == starts_as_date(text@),
{
    match regex::Regex::new(pattern) {
        Ok(re) => Ok(re.is_match(text)),
        Err(e) => Err(e.to_string()),
    }
}

/// `Regex::new` and `Regex::find`: the text of the first match. There is one just where
/// `Regex::is_match` says so.
#[verifier::external_body]
fn regex_find(pattern: &str, text: &str) -> (r: Result<Option<String>, String>)
    ensures
        match r {
            Ok(o) => pattern_error(pattern@) is None && opt_text(o) == match_of(pattern@, text@)
                && (o is Some) == matches_of(pattern@, text@),
            Err(m) => pattern_error(pattern@) == Some(m@),
        },
{
    match regex::Regex::new(pattern) {
        Ok(re) => Ok(re.find(text).map(|m| m.as_str().to_owned())),
        Err(e) => Err(e.to_string()),
    }
}

/// `Regex::new` and `Regex::find_iter`: the texts of the matches, in their order. There are some
/// just where `Regex::is_match` says so, and `Regex::find` finds the first of them.
#[verifier::external_body]
fn regex_find_all(pattern: &str, text: &str) -> (r: Result<Vec<String>, String>)
    ensures
        match r {
            Ok(v) => pattern_error(pattern@) is None && texts(v@) == all_matches_of(
                pattern@,
                text@,
            ) && (v@.len() > 0) == matches_of(pattern@, text@) && (v@.len() > 0 ==> match_of(
                pattern@,
                text@,
            ) == Some(v@[0]@)),
            Err(m) => pattern_error(pattern@) == Some(m@),
        },
{
    match regex::Regex::new(pattern) {
        Ok(re) => Ok(re.find_iter(text).map(|m| m.as_str().to_owned()).collect()),
        Err(e) => Err(e.to_string()),
    }
}

/// `Regex::new` and `Regex::replace`: the text with the first match replaced, references to
/// groups in the replacement filled in.
#[verifier::external_body]
fn regex_replace(pattern: &str, text: &str, replacement: &str) -> (r: Result<String, String>)
    ensures
        match r {
            Ok(t) => pattern_error(pattern@) is None && t@ == replaced_of(
                pattern@,
                text@,
                replacement@,
            ),
            Err(m) => pattern_error(pattern@) == Some(m@),
        },
{
    match regex::Regex::new(pattern) {
        Ok(re) => Ok(re.replace(text, replacement).into_owned()),
        Err(e) => Err(e.to_string()),
    }
}

/// `Regex::new` and `Regex::replace_all`: the text with all matches replaced.
#[verifier::external_body]
fn regex_replace_all(pattern: &str, text: &str, replacement: &str) -> (r: Result<String, String>)
    ensures
        match r {
            Ok(t) => pattern_error(pattern@) is None && t@ == all_replaced_of(
                pattern@,
                text@,
                replacement@,
            ),
            Err(m) => pattern_error(pattern@) == Some(m@),
        },
{
    match regex::Regex::new(pattern) {
        Ok(re) => Ok(re.replace_all(text, replacement).into_owned()),
        Err(e) => Err(e.to_string()),
    }
}

/// The texts of some groups.
pub open spec fn opt_texts_view(v: Seq<Option<String>>) -> Seq<Option<Seq<char>>> {
    Seq::new(v.len(), |i: int| opt_text(v[i]))
}

pub open spec fn groups_view(o: Option<Vec<Option<String>>>) -> Option<Seq<Option<Seq<char>>>> {
    match o {
        Some(v) => Some(opt_texts_view(v@)),
        None => None,
    }
}

/// `Regex::new` and `Regex::captures`: the texts of the groups in their order, the whole match
/// first.
#[verifier::external_body]
fn regex_captures(pattern: &str, text: &str) -> (r: Result<Option<Vec<Option<String>>>, String>)
    ensures
        match r {
            Ok(o) => pattern_error(pattern@) is None && groups_view(o) == groups_of(
                pattern@,
                text@,
            ),
            Err(m) => pattern_error(pattern@) == Some(m@),
        },
{
    match regex::Regex::new(pattern) {
        Ok(re) => Ok(
            re.captures(text).map(
                |c| c.iter().map(|m| m.map(|x| x.as_str().to_owned())).collect(),
            ),
        ),
        Err(e) => Err(e.to_string()),
    }
}

/// What a pattern that is no regular expression is answered.
pub open spec fn bad_pattern(message: Seq<char>) -> ValueV {
    err_v(error_v("regex"@, message))
}

/// The answer where compiling came to `error`, and to `v` where it succeeded.
pub open spec fn answer(error: Option<Seq<char>>, v: ValueV) -> ValueV {
    match error {
        Some(m) => bad_pattern(m),
        None => ok_v(v),
    }
}

fn bad_pattern_value(message: String) -> (r: Value)
    ensures
        r@ == bad_pattern(message@),
{
    err_value(error_value("regex", message))
}

/// What a search for a match is answered.
pub fn is_match_value(found: Result<bool, String>) -> (r: Value)
    ensures
        r@ == match found {
            Ok(b) => ok_v(ValueV::Bool(b)),
            Err(m) => bad_pattern(m@),
        },
{
    match found {
        Ok(b) => ok_value(bool_value(b)),
        Err(m) => bad_pattern_value(m),
    }
}

pub open spec fn opt_str_v(o: Option<Seq<char>>) -> ValueV {
    match o {
        Some(t) => some_v(ValueV::Str(t)),
        None => none_v(),
    }
}

/// What a search for the first match is answered.
pub fn find_value(found: Result<Option<String>, String>) -> (r: Value)
    ensures
        r@ == match found {
            Ok(o) => ok_v(opt_str_v(opt_text(o))),
            Err(m) => bad_pattern(m@),
        },
{
    match found {
        Ok(Some(t)) => ok_value(some_value(str_value(t))),
        Ok(None) => ok_value(none_value()),
        Err(m) => bad_pattern_value(m),
    }
}

/// What a search for all matches is answered.
pub fn find_all_value(found: Result<Vec<String>, String>) -> (r: Value)
    ensures
        r@ == match found {
            Ok(v) => ok_v(strs_v(texts(v@))),
            Err(m) => bad_pattern(m@),
        },
{
    match found {
        Ok(v) => ok_value(strs_value(&v)),
        Err(m) => bad_pattern_value(m),
    }
}

/// What a replacement is answered.
pub fn replaced_value(found: Result<String, String>) -> (r: Value)
    ensures
        r@ == match found {
            Ok(t) => ok_v(ValueV::Str(t@)),
            Err(m) => bad_pattern(m@),
        },
{
    match found {
        Ok(t) => ok_value(str_value(t)),
        Err(m) => bad_pattern_value(m),
    }
}

/// The text of a group; one that took no part in the match has the empty text.
pub open spec fn group_text(o: Option<Seq<char>>) -> Seq<char> {
    match o {
        Some(t) => t,
        None => Seq::empty(),
    }
}

pub open spec fn group_texts(groups: Seq<Option<Seq<char>>>) -> Seq<Seq<char>> {
    Seq::new(groups.len(), |i: int| group_text(groups[i]))
}

/// The groups of a match, if there is one.
pub open spec fn groups_v(found: Option<Seq<Option<Seq<char>>>>) -> ValueV {
    match found {
        Some(groups) => some_v(strs_v(group_texts(groups))),
        None => none_v(),
    }
}

/// What a search for groups is answered.
pub fn captures_value(found: Result<Option<Vec<Option<String>>>, String>) -> (r: Value)
    ensures
        r@ == match found {
            Ok(o) => ok_v(groups_v(groups_view(o))),
            Err(m) => bad_pattern(m@),
        },
{
    match found {
        Ok(Some(groups)) => {
            let mut out: Vec<String> = Vec::new();
            let mut i: usize = 0;
            while i < groups.len()
                invariant
                    i <= groups@.len(),
                    out@.len() == i,
                    forall|j: int|
                        0 <= j < i ==> (#[trigger] out@[j])@ == group_text(opt_text(groups@[j])),
                decreases groups@.len() - i,
            {
                match &groups[i] {
                    Some(t) => {
                        out.push(t.clone());
                    },
                    None => {
                        let none = String::new();
                        assert(none@ =~= Seq::empty());
                        out.push(none);
                    },
                }
                i = i + 1;
            }
            assert(texts(out@) =~= group_texts(opt_texts_view(groups@)));
            ok_value(some_value(strs_value(&out)))
        },
        Ok(None) => ok_value(none_value()),
        Err(m) => bad_pattern_value(m),
    }
}

pub fn is_match(pattern: &str, s: &str) -> (r: Value)
    ensures
        r@ == answer(pattern_error(pattern@), ValueV::Bool(matches_of(pattern@, s@))),
{
    is_match_value(regex_is_match(pattern, s))
}

/// The first match. It finds one just where `is_match` answers that there is one.
pub fn find(pattern: &str, s: &str) -> (r: Value)
    ensures
        r@ == answer(pattern_error(pattern@), opt_str_v(match_of(pattern@, s@))),
        pattern_error(pattern@) is None ==> match_of(pattern@, s@) is Some == matches_of(
            pattern@,
            s@,
        ),
{
    find_value(regex_find(pattern, s))
}

/// All matches. There are some just where `is_match` answers that there is one, and the first of
/// them is what `find` finds.
pub fn find_all(pattern: &str, s: &str) -> (r: Value)
    ensures
        r@ == answer(pattern_error(pattern@), strs_v(all_matches_of(pattern@, s@))),
        pattern_error(pattern@) is None ==> if matches_of(pattern@, s@) {
            all_matches_of(pattern@, s@).len() > 0 && match_of(pattern@, s@) == Some(
                all_matches_of(pattern@, s@)[0],
            )
        } else {
            all_matches_of(pattern@, s@) == Seq::<Seq<char>>::empty()
        },
{
    let found = regex_find_all(pattern, s);
    proof {
        if found is Ok {
            let all = found->Ok_0@;
            if all.len() > 0 {
                assert(texts(all)[0] == all[0]@);
            } else {
                assert(texts(all) =~= Seq::empty());
            }
        }
    }
    find_all_value(found)
}

/// Replaces the first match.
pub fn replace(pattern: &str, s: &str, replacement: &str) -> (r: Value)
    ensures
        r@ == answer(
            pattern_error(pattern@),
            ValueV::Str(replaced_of(pattern@, s@, replacement@)),
        ),
{
    replaced_value(regex_replace(pattern, s, replacement))
}

pub fn replace_all(pattern: &str, s: &str, replacement: &str) -> (r: Value)
    ensures
        r@ == answer(
            pattern_error(pattern@),
            ValueV::Str(all_replaced_of(pattern@, s@, replacement@)),
        ),
{
    replaced_value(regex_replace_all(pattern, s, replacement))
}

/// The groups of the first match, the whole match first.
pub fn captures(pattern: &str, s: &str) -> (r: Value)
    ensures
        r@ == answer(pattern_error(pattern@), groups_v(groups_of(pattern@, s@))),
{
    captures_value(regex_captures(pattern, s))
}

} // verus!
