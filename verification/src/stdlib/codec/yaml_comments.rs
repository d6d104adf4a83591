//! Comments in YAML texts.

use super::json::Reading;
use super::toml::{passed, Within};
use super::toml_laws::bare;
use super::yaml::{
    comment_from, content_from, indent_of, parts_documents, tab_leads, uncommented, yaml_of, LineV,
};
use super::yaml_laws::{lemma_no_tab, lemma_trim_spaces, lemma_widths, spaces};
use crate::text::{
    chomped, is_space, lines_of, starts_with, trim_left, trim_right, trimmed,
};
use crate::text_laws::{ends_line, lemma_lines_around, lemma_lines_join, one_line};
use vstd::prelude::*;
use vstd::string::*;

verus! {

/// A text without quotes.
pub open spec fn unquoted(s: Seq<char>) -> bool {
    forall|i: int| 0 <= i < s.len() ==> #[trigger] s[i] != '"' && s[i] != '\''
}

/// A space or a tab, a hash, and any text: what a comment behind something is written as.
pub open spec fn remark(blank: char, t: Seq<char>) -> Seq<char> {
    seq![blank, '#'] + t
}

proof fn lemma_trim_right_kept(a: Seq<char>, s: Seq<char>, k: int)
    requires
        0 <= k < s.len(),
        !is_space(s[k]),
    ensures
        trim_right(a + s) == a + trim_right(s),
        k < trim_right(s).len() <= s.len(),
        trim_right(s) == s.take(trim_right(s).len() as int),
        !is_space(trim_right(s).last()),
    decreases s.len(),
{
    assert((a + s).last() == s.last());
    if is_space(s.last()) {
        let less = s.drop_last();
        assert((a + s).drop_last() =~= a + less);
        lemma_trim_right_kept(a, less, k);
        let n = trim_right(less).len() as int;
        assert(less.take(n) =~= s.take(n));
    } else {
        assert(s.take(s.len() as int) =~= s);
    }
}

/// A comment in `y` starts where it does alone, and otherwise the one behind it does.
proof fn lemma_comment_behind(c: Seq<char>, y: Seq<char>, j: int)
    requires
        0 <= j <= y.len(),
        y.len() + 2 <= c.len(),
        forall|i: int| 0 <= i < y.len() ==> #[trigger] c[i] == y[i],
        c[y.len() as int] == ' ' || c[y.len() as int] == '\t',
        c[y.len() as int + 1] == '#',
        unquoted(y),
    ensures
        comment_from(c, j, Within::Nothing) == if comment_from(y, j, Within::Nothing) < y.len() {
            comment_from(y, j, Within::Nothing)
        } else {
            y.len() as int + 1
        },
        comment_from(y, j, Within::Nothing) <= y.len(),
    decreases y.len() - j,
{
    reveal_with_fuel(comment_from, 3);
    if j < y.len() {
        assert(c[j] == y[j]);
        assert(y[j] != '"' && y[j] != '\'');
        if j > 0 {
            assert(c[j - 1] == y[j - 1]);
        }
        lemma_comment_behind(c, y, j + 1);
    } else {
        assert(c[j] != '"' && c[j] != '\'' && c[j] != '#');
        assert(passed(c[j], Within::Nothing) == Within::Nothing);
    }
}

/// What a line holds: whether it is indented with tabs, parts documents, and its content.
spec fn held(line: Seq<char>) -> (bool, bool, Option<LineV>) {
    let l = trim_right(line);
    let content = uncommented(trim_left(l));
    (
        tab_leads(line, 0),
        parts_documents(trimmed(l)),
        if trimmed(content).len() == 0 {
            None
        } else {
            Some(LineV { indent: indent_of(l), content: trim_right(content) })
        },
    )
}

proof fn lemma_same_content(a: Seq<Seq<char>>, b: Seq<Seq<char>>, i: int, out: Seq<LineV>)
    requires
        a.len() == b.len(),
        forall|j: int| 0 <= j < a.len() ==> held(#[trigger] a[j]) == held(b[j]),
    ensures
        content_from(a, i, out) == content_from(b, i, out),
    decreases a.len() - i,
{
    if 0 <= i < a.len() {
        assert(held(a[i]) == held(b[i]));
        match held(a[i]).2 {
            None => {
                lemma_same_content(a, b, i + 1, out);
            },
            Some(l) => {
                lemma_same_content(a, b, i + 1, out.push(l));
            },
        }
    }
}

proof fn lemma_skipped(a: Seq<Seq<char>>, b: Seq<Seq<char>>, m: int, i: int, out: Seq<LineV>)
    requires
        0 <= m < a.len(),
        b == a.remove(m),
        held(a[m]) == (false, false, None::<LineV>),
        0 <= i,
    ensures
        i <= m ==> content_from(a, i, out) == content_from(b, i, out),
        i > m ==> content_from(a, i, out) == content_from(b, i - 1, out),
    decreases a.len() - i,
{
    if i < m {
        assert(a[i] == b[i]);
        match held(a[i]).2 {
            None => {
                lemma_skipped(a, b, m, i + 1, out);
            },
            Some(l) => {
                lemma_skipped(a, b, m, i + 1, out.push(l));
            },
        }
    } else if i == m {
        lemma_skipped(a, b, m, i + 1, out);
    } else if i < a.len() {
        assert(a[i] == b[i - 1]);
        match held(a[i]).2 {
            None => {
                lemma_skipped(a, b, m, i + 1, out);
            },
            Some(l) => {
                lemma_skipped(a, b, m, i + 1, out.push(l));
            },
        }
    }
}

proof fn lemma_remark_holds_nothing(n: int, y: Seq<char>, blank: char, t: Seq<char>)
    requires
        0 <= n,
        bare(y),
        unquoted(y),
        y != "---"@,
        y != "..."@,
        blank == ' ' || blank == '\t',
    ensures
        held(spaces(n) + (y + remark(blank, t))) == held(spaces(n) + y),
{
    let s = y + remark(blank, t);
    let k = y.len() as int + 1;
    assert(s[k] == '#');
    lemma_trim_right_kept(spaces(n), s, k);
    let c = trim_right(s);
    let line = spaces(n) + c;
    assert(c[0] == y[0]);
    assert(trim_right(spaces(n) + s) == line);
    lemma_trim_right_kept(spaces(n), y, y.len() - 1);
    assert(trim_right(y) == y);
    lemma_trim_spaces(n, c);
    lemma_trim_spaces(n, y);
    lemma_widths(n, c, n);
    lemma_widths(n, y, n);
    lemma_no_tab(n, y, 0);
    assert(bare(c));
    lemma_no_tab(n, c, 0);
    assert(!tab_leads(spaces(n) + s, 0)) by {
        lemma_leads(n, s, 0);
    }
    assert(trim_right(c) == c);
    lemma_trim_right_kept(Seq::empty(), c, c.len() - 1);
    // Documents.
    reveal_strlit("---");
    reveal_strlit("...");
    reveal_strlit("--- ");
    assert(c[k] == '#');
    assert("---"@ =~= seq!['-', '-', '-']);
    assert("..."@ =~= seq!['.', '.', '.']);
    assert("--- "@ =~= seq!['-', '-', '-', ' ']);
    assert(c != "---"@ && c != "..."@) by {
        if c == "---"@ {
            assert("---"@[k] == '-');
        }
        if c == "..."@ {
            assert("..."@[k] == '.');
        }
    }
    assert forall|i: int| 0 <= i < y.len() implies #[trigger] c[i] == y[i] by {
        assert(c[i] == s[i]);
    }
    assert(c[y.len() as int] == blank) by {
        assert(s[y.len() as int] == blank);
    }
    assert(starts_with(c, "--- "@) == starts_with(y, "--- "@)) by {
        if y.len() >= 4 {
            assert(c.take(4) =~= y.take(4));
        } else if c.len() >= 4 {
            if c.take(4) == "--- "@ {
                if y.len() == 3 {
                    assert(y =~= c.take(4).take(3));
                    assert(y =~= "---"@);
                } else {
                    assert(c.take(4)[k] == '#');
                }
            }
        }
    }
    // The comment.
    lemma_comment_behind(c, y, 0);
    let e = comment_from(y, 0, Within::Nothing);
    if e < y.len() {
        lemma_comment_bounds(y, 0);
        assert(c.take(e) =~= y.take(e));
    } else {
        let more = y.push(blank);
        assert(c.take(y.len() as int + 1) =~= more);
        assert(y.take(e) =~= y);
        assert(more[0] == y[0]);
        assert(more.drop_last() =~= y);
        assert(is_space(blank));
        assert(trim_right(more) == y);
        assert(trim_left(more) == more);
        assert(trim_left(y) == y);
    }
}

proof fn lemma_comment_bounds(y: Seq<char>, j: int)
    requires
        0 <= j,
        unquoted(y),
    ensures
        comment_from(y, j, Within::Nothing) >= 0,
    decreases y.len() - j,
{
    if j < y.len() {
        assert(y[j] != '"' && y[j] != '\'');
        lemma_comment_bounds(y, j + 1);
    }
}

proof fn lemma_leads(n: int, s: Seq<char>, i: int)
    requires
        0 <= i <= n,
        s.len() > 0,
        !is_space(s[0]),
    ensures
        !tab_leads(spaces(n) + s, i),
    decreases n - i,
{
    let w = spaces(n) + s;
    if i < n {
        assert(w[i] == ' ');
        lemma_leads(n, s, i + 1);
    } else {
        assert(w[i] == s[0]);
    }
}

/// Whether the line of a comment ends with a carriage return makes no difference.
proof fn lemma_chomped_remark(n: int, y: Seq<char>, blank: char, t: Seq<char>)
    ensures
        chomped(spaces(n) + (y + remark(blank, t))) == spaces(n) + (y + remark(blank, chomped(t))),
{
    let s = spaces(n) + (y + remark(blank, t));
    if t.len() > 0 {
        assert(s.last() == t.last());
        if t.last() == '\r' {
            assert(s.drop_last() =~= spaces(n) + (y + remark(blank, t.drop_last())));
        }
    } else {
        assert(s.last() == '#');
    }
}

/// A hash outside quotes that follows a space or a tab ends what a line holds: with or without
/// what stands from there on, the text reads the same, in any place of it. A line that parts
/// documents holds nothing, and is left out.
pub proof fn law_yaml_comments_end_lines(
    read: Reading,
    before: Seq<char>,
    n: int,
    y: Seq<char>,
    blank: char,
    t: Seq<char>,
    after: Seq<char>,
)
    requires
        ends_line(before),
        0 <= n,
        bare(y),
        one_line(y),
        unquoted(y),
        y != "---"@,
        y != "..."@,
        blank == ' ' || blank == '\t',
        one_line(t),
        after.len() == 0 || after[0] == '\n',
    ensures
        yaml_of(read, before + (spaces(n) + (y + remark(blank, t))) + after) == yaml_of(
            read,
            before + (spaces(n) + y) + after,
        ),
{
    let l1 = spaces(n) + y;
    let l2 = spaces(n) + (y + remark(blank, t));
    assert(l1.last() == y.last());
    assert(is_space('\r'));
    assert forall|i: int| 0 <= i < l1.len() implies #[trigger] l1[i] != '\n' by {
        if i >= spaces(n).len() {
            assert(l1[i] == y[i - spaces(n).len()]);
        }
    }
    assert forall|i: int| 0 <= i < l2.len() implies #[trigger] l2[i] != '\n' by {
        let k = i - spaces(n).len();
        if k >= y.len() + 2 {
            assert(l2[i] == t[k - y.len() - 2]);
        } else if 0 <= k < y.len() {
            assert(l2[i] == y[k]);
        }
    }
    lemma_lines_around(before, l1, after);
    lemma_lines_around(before, l2, after);
    lemma_chomped_remark(n, y, blank, t);
    lemma_remark_holds_nothing(n, y, blank, t);
    lemma_remark_holds_nothing(n, y, blank, chomped(t));
    let a = lines_of(before + l1 + after);
    let b = lines_of(before + l2 + after);
    lemma_same_content(a, b, 0, Seq::empty());
}

/// A line that holds only a comment is skipped: the text reads as if the line were not there.
pub proof fn law_yaml_comment_lines_are_skipped(
    read: Reading,
    before: Seq<char>,
    n: int,
    t: Seq<char>,
    after: Seq<char>,
)
    requires
        ends_line(before),
        0 <= n,
        one_line(t),
    ensures
        yaml_of(read, before + (spaces(n) + (seq!['#'] + t) + seq!['\n']) + after) == yaml_of(
            read,
            before + after,
        ),
{
    let s = seq!['#'] + t;
    let l = spaces(n) + s;
    assert forall|i: int| 0 <= i < l.len() implies #[trigger] l[i] != '\n' by {
        let k = i - spaces(n).len();
        if k >= 1 {
            assert(l[i] == t[k - 1]);
        }
    }
    let z = seq!['\n'] + after;
    assert(before + (l + seq!['\n']) + after =~= before + l + z);
    assert(z.drop_first() =~= after);
    lemma_lines_around(before, l, z);
    lemma_lines_join(before, after);
    let u = chomped(l);
    let s1 = if t.len() > 0 && t.last() == '\r' {
        s.drop_last()
    } else {
        s
    };
    assert(u =~= spaces(n) + s1);
    assert(s1[0] == '#');
    assert(!is_space('#'));
    lemma_trim_right_kept(spaces(n), s1, 0);
    let c = trim_right(s1);
    assert(c[0] == '#');
    assert(bare(c));
    lemma_trim_spaces(n, c);
    lemma_leads(n, s1, 0);
    assert(trim_right(c) == c);
    reveal_strlit("---");
    reveal_strlit("...");
    reveal_strlit("--- ");
    assert("---"@[0] == '-');
    assert("..."@[0] == '.');
    assert(!starts_with(c, "--- "@)) by {
        if starts_with(c, "--- "@) {
            assert(c.take(4)[0] == '#');
            assert("--- "@[0] == '-');
        }
    }
    assert(comment_from(c, 0, Within::Nothing) == 0);
    assert(c.take(0) =~= Seq::empty());
    assert(held(u) == (false, false, None::<LineV>));
    let m = lines_of(before).len() as int;
    let a = lines_of(before) + seq![u] + lines_of(after);
    assert(a[m] == u);
    assert(a.remove(m) =~= lines_of(before) + lines_of(after));
    lemma_skipped(a, a.remove(m), m, 0, Seq::empty());
}

proof fn lemma_no_comment(y: Seq<char>, j: int)
    requires
        0 <= j,
        unquoted(y),
        forall|i: int|
            0 <= i < y.len() && #[trigger] y[i] == '#' ==> i > 0 && y[i - 1] != ' ' && y[i - 1]
                != '\t',
    ensures
        comment_from(y, j, Within::Nothing) == y.len(),
    decreases y.len() - j,
{
    if j < y.len() {
        assert(y[j] != '"' && y[j] != '\'');
        lemma_no_comment(y, j + 1);
    }
}

/// A hash that follows anything but a space or a tab is part of what a line holds.
pub proof fn law_yaml_hashes_inside_words_stay(y: Seq<char>)
    requires
        unquoted(y),
        forall|i: int|
            0 <= i < y.len() && #[trigger] y[i] == '#' ==> i > 0 && y[i - 1] != ' ' && y[i - 1]
                != '\t',
    ensures
        uncommented(y) == y,
{
    lemma_no_comment(y, 0);
    assert(y.take(y.len() as int) =~= y);
}

} // verus!
