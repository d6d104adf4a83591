//! The words of YAML.

use super::dynamic::{dbool_v, null_v};
use super::json::Reading;
use super::yaml::{ascii_lower, same_word, scalar_of, unsupported};
use crate::text::{is_space, trimmed};
use vstd::prelude::*;
use vstd::string::*;

verus! {

/// `s` is `word`, with any of its letters in upper case.
pub open spec fn in_any_case(s: Seq<char>, word: Seq<char>) -> bool {
    s.len() == word.len() && forall|i: int|
        0 <= i < s.len() ==> (#[trigger] s[i] == word[i] || ('a' <= word[i] <= 'z' && s[i] as u32
            + 32 == word[i] as u32))
}

proof fn lemma_any_case(s: Seq<char>, word: Seq<char>)
    requires
        in_any_case(s, word),
        word.len() > 0,
        forall|i: int| 0 <= i < word.len() ==> 'a' <= #[trigger] word[i] <= 'z',
    ensures
        same_word(s, word),
        trimmed(s) == s,
        unsupported(s[0]) is None,
        forall|i: int|
            0 <= i < s.len() ==> ('a' <= #[trigger] s[i] <= 'z') || ('A' <= s[i] <= 'Z'),
{
    assert forall|i: int| 0 <= i < s.len() implies ascii_lower(#[trigger] s[i]) == word[i] && (('a'
        <= s[i] <= 'z') || ('A' <= s[i] <= 'Z')) by {
        let c = word[i];
        assert('a' <= c <= 'z');
        if s[i] != c {
            let n = s[i] as u32;
            assert(n + 32 == c as u32);
            assert((n + 32) as u32 as char == c);
        }
    }
    assert(!is_space(s[0]));
    assert(!is_space(s[s.len() - 1]));
}

/// `true`, `false` and `null` are what they say, in whatever case their letters are.
pub proof fn law_yaml_words_have_any_case(read: Reading, s: Seq<char>)
    ensures
        in_any_case(s, "true"@) ==> scalar_of(read, s) == Ok::<_, Seq<char>>(dbool_v(true)),
        in_any_case(s, "false"@) ==> scalar_of(read, s) == Ok::<_, Seq<char>>(dbool_v(false)),
        in_any_case(s, "null"@) ==> scalar_of(read, s) == Ok::<_, Seq<char>>(null_v()),
{
    reveal_strlit("true");
    reveal_strlit("false");
    reveal_strlit("null");
    reveal_strlit("~");
    assert("true"@.len() == 4 && "false"@.len() == 5 && "null"@.len() == 4 && "~"@.len() == 1);
    if in_any_case(s, "true"@) {
        lemma_any_case(s, "true"@);
        assert(ascii_lower(s[0]) == 't');
        assert("null"@[0] == 'n');
        assert(!same_word(s, "null"@));
    }
    if in_any_case(s, "false"@) {
        lemma_any_case(s, "false"@);
    }
    if in_any_case(s, "null"@) {
        lemma_any_case(s, "null"@);
    }
}

} // verus!
