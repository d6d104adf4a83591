//! The paths that messages are about.

use super::json::JsonV;
use super::message::publication_v;
use super::server::{parts_before, path_before, placed, tidied, withdrawn_from};
use crate::stdlib::order::{lemma_text_le_carries, text_le};
use crate::text::pieces_of;
use vstd::prelude::*;

verus! {

proof fn lemma_same_text(a: Seq<char>, b: Seq<char>)
    requires
        text_le(a, b),
        text_le(b, a),
    ensures
        a == b,
    decreases a.len(),
{
    if a.len() > 0 {
        lemma_same_text(a.drop_first(), b.drop_first());
        assert(a =~= seq![a[0]] + a.drop_first());
        assert(b =~= seq![b[0]] + b.drop_first());
    } else {
        assert(a =~= b);
    }
}

proof fn lemma_parts_carry(a: Seq<Seq<char>>, b: Seq<Seq<char>>, c: Seq<Seq<char>>, i: int)
    requires
        0 <= i,
        parts_before(a, b, i),
        parts_before(b, c, i),
    ensures
        parts_before(a, c, i),
    decreases a.len() - i,
{
    if i < a.len() {
        if a[i] != b[i] && b[i] != c[i] {
            lemma_text_le_carries(a[i], b[i], c[i]);
            if a[i] == c[i] {
                lemma_same_text(a[i], b[i]);
            }
        } else if a[i] == b[i] && b[i] == c[i] {
            lemma_parts_carry(a, b, c, i + 1);
        }
    }
}

/// No path comes before one that stands ahead of it.
pub open spec fn in_order(paths: Seq<Seq<char>>) -> bool {
    forall|i: int, j: int|
        0 <= i < j < paths.len() ==> !path_before(#[trigger] paths[j], #[trigger] paths[i])
}

/// No path stands there twice.
pub open spec fn each_once(paths: Seq<Seq<char>>) -> bool {
    forall|i: int, j: int|
        0 <= i < j < paths.len() ==> #[trigger] paths[i] != #[trigger] paths[j]
}

proof fn lemma_placed(paths: Seq<Seq<char>>, p: Seq<char>, i: int, x: Seq<char>)
    requires
        0 <= i <= paths.len(),
        in_order(paths),
        each_once(paths),
        forall|j: int| 0 <= j < i ==> !path_before(p, #[trigger] paths[j]) && paths[j] != p,
    ensures
        placed(paths, p, i).contains(x) == (paths.contains(x) || x == p),
        in_order(placed(paths, p, i)),
    decreases paths.len() - i,
{
    let new = placed(paths, p, i);
    if i == paths.len() {
        assert(new[paths.len() as int] == p);
        if paths.contains(x) {
            let k = choose|k: int| 0 <= k < paths.len() && paths[k] == x;
            assert(new[k] == x);
        }
    } else if paths[i] == p {
        assert(paths.contains(p));
    } else if path_before(p, paths[i]) {
        assert(new[i] == p);
        if paths.contains(x) {
            let k = choose|k: int| 0 <= k < paths.len() && paths[k] == x;
            assert(new[if k < i {
                k
            } else {
                k + 1
            }] == x);
        }
        if new.contains(x) {
            let k = choose|k: int| 0 <= k < new.len() && new[k] == x;
            if k < i {
                assert(paths[k] == x);
            } else if k > i {
                assert(paths[k - 1] == x);
            }
        }
        assert forall|a: int, b: int| 0 <= a < b < new.len() implies !path_before(
            #[trigger] new[b],
            #[trigger] new[a],
        ) by {
            if a == i {
                let q = paths[b - 1];
                if path_before(q, p) {
                    lemma_parts_carry(
                        pieces_of(q, '/'),
                        pieces_of(p, '/'),
                        pieces_of(paths[i], '/'),
                        0,
                    );
                    if b - 1 > i {
                        assert(!path_before(paths[b - 1], paths[i]));
                    } else {
                        lemma_not_before_itself(pieces_of(q, '/'), 0);
                    }
                }
            } else if b == i {
                assert(!path_before(p, paths[a]));
            } else {
                let y = if a < i {
                    paths[a]
                } else {
                    paths[a - 1]
                };
                let z = if b < i {
                    paths[b]
                } else {
                    paths[b - 1]
                };
                assert(!path_before(z, y));
            }
        }
    } else {
        lemma_placed(paths, p, i + 1, x);
    }
}

proof fn lemma_not_before_itself(a: Seq<Seq<char>>, i: int)
    requires
        0 <= i <= a.len(),
    ensures
        !parts_before(a, a, i),
    decreases a.len() - i,
{
    if i < a.len() {
        lemma_not_before_itself(a, i + 1);
    }
}

proof fn lemma_placed_once(paths: Seq<Seq<char>>, p: Seq<char>, i: int)
    requires
        0 <= i <= paths.len(),
        each_once(paths),
        in_order(paths),
        !paths.contains(p),
    ensures
        each_once(placed(paths, p, i)),
    decreases paths.len() - i,
{
    let new = placed(paths, p, i);
    assert forall|k: int| 0 <= k < paths.len() implies #[trigger] paths[k] != p by {
        assert(paths.contains(paths[k]));
    }
    if i < paths.len() && paths[i] != p {
        if path_before(p, paths[i]) {
            assert forall|a: int, b: int| 0 <= a < b < new.len() implies #[trigger] new[a]
                != #[trigger] new[b] by {
                let y = if a < i {
                    paths[a]
                } else if a == i {
                    p
                } else {
                    paths[a - 1]
                };
                let z = if b < i {
                    paths[b]
                } else if b == i {
                    p
                } else {
                    paths[b - 1]
                };
                assert(y != z);
            }
        } else {
            lemma_placed_once(paths, p, i + 1);
        }
    }
}

proof fn lemma_placed_again(paths: Seq<Seq<char>>, p: Seq<char>, i: int)
    requires
        0 <= i <= paths.len(),
        in_order(paths),
        exists|k: int| i <= k < paths.len() && #[trigger] paths[k] == p,
    ensures
        placed(paths, p, i) == paths,
    decreases paths.len() - i,
{
    let k = choose|k: int| i <= k < paths.len() && #[trigger] paths[k] == p;
    if paths[i] != p {
        assert(!path_before(paths[k], paths[i]));
        lemma_placed_again(paths, p, i + 1);
    }
}

proof fn lemma_tidied(more: Seq<Seq<char>>, i: int, paths: Seq<Seq<char>>, x: Seq<char>)
    requires
        0 <= i <= more.len(),
        in_order(paths),
        each_once(paths),
    ensures
        tidied(more, i, paths).contains(x) == (paths.contains(x) || exists|k: int|
            i <= k < more.len() && #[trigger] more[k] == x),
        in_order(tidied(more, i, paths)),
        each_once(tidied(more, i, paths)),
    decreases more.len() - i,
{
    if i < more.len() {
        let p = more[i];
        lemma_placed(paths, p, 0, x);
        if paths.contains(p) {
            let k = choose|k: int| 0 <= k < paths.len() && paths[k] == p;
            assert(paths[k] == p);
            lemma_placed_again(paths, p, 0);
        } else {
            lemma_placed_once(paths, p, 0);
        }
        lemma_tidied(more, i + 1, placed(paths, p, 0), x);
    }
}

/// The paths of a list, tidied, are the paths of the list, each once and none before one that
/// stands ahead of it.
pub proof fn law_tidied_paths_are_the_same_paths_in_order(more: Seq<Seq<char>>, x: Seq<char>)
    ensures
        tidied(more, 0, Seq::empty()).contains(x) == more.contains(x),
        in_order(tidied(more, 0, Seq::empty())),
        each_once(tidied(more, 0, Seq::empty())),
{
    lemma_tidied(more, 0, Seq::empty(), x);
    if more.contains(x) {
        let k = choose|k: int| 0 <= k < more.len() && more[k] == x;
        assert(more[k] == x);
    }
}

proof fn lemma_withdrawn(
    old_paths: Seq<Seq<char>>,
    i: int,
    new_paths: Seq<Seq<char>>,
    out: Seq<JsonV>,
)
    requires
        0 <= i <= old_paths.len(),
    ensures
        withdrawn_from(old_paths, i, new_paths, out).len() >= out.len(),
        forall|k: int|
            0 <= k < out.len() ==> #[trigger] withdrawn_from(old_paths, i, new_paths, out)[k]
                == out[k],
        forall|j: int|
            i <= j < old_paths.len() && !new_paths.contains(#[trigger] old_paths[j])
                ==> withdrawn_from(old_paths, i, new_paths, out).contains(
                publication_v(old_paths[j], Seq::empty()),
            ),
        forall|k: int|
            out.len() <= k < withdrawn_from(old_paths, i, new_paths, out).len() ==> told_off(
                old_paths,
                new_paths,
                #[trigger] withdrawn_from(old_paths, i, new_paths, out)[k],
            ),
    decreases old_paths.len() - i,
{
    if i < old_paths.len() {
        let p = old_paths[i];
        let note = publication_v(p, Seq::empty());
        let next = if new_paths.contains(p) {
            out
        } else {
            out.push(note)
        };
        lemma_withdrawn(old_paths, i + 1, new_paths, next);
        let all = withdrawn_from(old_paths, i, new_paths, out);
        if !new_paths.contains(p) {
            assert(all[out.len() as int] == next[out.len() as int]);
            assert(told_off(old_paths, new_paths, note)) by {
                assert(old_paths[i] == p);
            }
        }
        assert forall|k: int| 0 <= k < out.len() implies #[trigger] all[k] == out[k] by {
            assert(all[k] == next[k]);
        }
    }
}

/// A message withdraws the problems of a path that is among some and not among others.
pub open spec fn told_off(
    old_paths: Seq<Seq<char>>,
    new_paths: Seq<Seq<char>>,
    message: JsonV,
) -> bool {
    exists|j: int|
        0 <= j < old_paths.len() && !new_paths.contains(#[trigger] old_paths[j]) && message
            == publication_v(old_paths[j], Seq::empty())
}

/// The problems of each file that an analysis is no longer about are withdrawn, and those of no
/// other.
pub proof fn law_problems_of_files_left_out_are_withdrawn(
    old_paths: Seq<Seq<char>>,
    new_paths: Seq<Seq<char>>,
)
    ensures
        forall|j: int|
            0 <= j < old_paths.len() && !new_paths.contains(#[trigger] old_paths[j])
                ==> withdrawn_from(old_paths, 0, new_paths, Seq::empty()).contains(
                publication_v(old_paths[j], Seq::empty()),
            ),
        forall|k: int|
            0 <= k < withdrawn_from(old_paths, 0, new_paths, Seq::empty()).len() ==> told_off(
                old_paths,
                new_paths,
                #[trigger] withdrawn_from(old_paths, 0, new_paths, Seq::empty())[k],
            ),
{
    lemma_withdrawn(old_paths, 0, new_paths, Seq::empty());
}

} // verus!
