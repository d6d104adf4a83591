//! Which files of a directory go with an entry file.

use crate::stdlib::order::{
    lemma_text_le_carries, lemma_text_le_total, text_le, text_not_after,
};
use crate::text::{chars_of, same_text, sub_text, texts};
use vstd::prelude::*;
use vstd::string::*;

verus! {

/// A file of a directory: its name, whether it is an ordinary file, and whether its text
/// starts with the word `module`.
pub struct Listed {
    pub name: String,
    pub is_file: bool,
    pub starts_with_module: bool,
}

pub ghost struct ListedV {
    pub name: Seq<char>,
    pub is_file: bool,
    pub starts_with_module: bool,
}

impl Listed {
    pub open spec fn view(&self) -> ListedV {
        ListedV {
            name: self.name@,
            is_file: self.is_file,
            starts_with_module: self.starts_with_module,
        }
    }
}

pub open spec fn listed_view(v: Seq<Listed>) -> Seq<ListedV> {
    Seq::new(v.len(), |i: int| v[i].view())
}

/// The index of the last dot, below zero where there is none.
pub open spec fn last_dot(s: Seq<char>) -> int
    decreases s.len(),
{
    if s.len() == 0 || s.last() == '.' {
        s.len() - 1
    } else {
        last_dot(s.drop_last())
    }
}

/// What follows the last dot of a name that does not merely begin with one.
pub open spec fn extension(name: Seq<char>) -> Option<Seq<char>> {
    if last_dot(name) > 0 {
        Some(name.skip(last_dot(name) + 1))
    } else {
        None
    }
}

/// A file goes with the entry file: it is a module file beside it.
pub open spec fn goes_with(entry: Seq<char>, f: ListedV) -> bool {
    &&& f.is_file
    &&& extension(f.name) == Some("ybm"@)
    &&& f.name != entry
    &&& f.starts_with_module
}

/// The names of the files that go with the entry file, in the order of the listing.
pub open spec fn going_with(entry: Seq<char>, files: Seq<ListedV>) -> Seq<Seq<char>>
    decreases files.len(),
{
    if files.len() == 0 {
        Seq::empty()
    } else {
        let before = going_with(entry, files.drop_last());
        if goes_with(entry, files.last()) {
            before.push(files.last().name)
        } else {
            before
        }
    }
}

pub open spec fn ascending(names: Seq<Seq<char>>) -> bool {
    forall|i: int, j: int|
        0 <= i <= j < names.len() ==> text_le(#[trigger] names[i], #[trigger] names[j])
}

fn has_extension(name: &str, wanted: &str) -> (r: bool)
    ensures
        r == (extension(name@) == Some(wanted@)),
{
    let v = chars_of(name);
    let mut i: usize = v.len();
    assert(name@.take(name@.len() as int) =~= name@);
    while i > 0 && v[i - 1] != '.'
        invariant
            v@ == name@,
            i <= v@.len(),
            last_dot(name@.take(i as int)) == last_dot(name@),
        decreases i,
    {
        assert(name@.take(i as int).drop_last() =~= name@.take(i - 1));
        i = i - 1;
    }
    if i <= 1 {
        return false;
    }
    let rest = sub_text(v.as_slice(), i, v.len());
    assert(rest@ =~= name@.skip(i as int));
    same_text(rest.as_str(), wanted)
}

/// Puts a name into its place among ascending ones.
fn place(names: &mut Vec<String>, name: String)
    requires
        ascending(texts(old(names)@)),
    ensures
        ascending(texts(final(names)@)),
        texts(final(names)@).to_multiset() == texts(old(names)@).to_multiset().insert(name@),
{
    let mut at: usize = 0;
    while at < names.len() && text_not_after(names[at].as_str(), name.as_str())
        invariant
            names@ == old(names)@,
            at <= names@.len(),
            forall|j: int| 0 <= j < at ==> text_le(#[trigger] texts(names@)[j], name@),
        decreases names@.len() - at,
    {
        assert(texts(names@)[at as int] == names@[at as int]@);
        at = at + 1;
    }
    let ghost before = texts(names@);
    let ghost x = name@;
    names.insert(at, name);
    proof {
        let after = texts(names@);
        assert(after =~= before.insert(at as int, x));
        before.to_multiset_ensures();
        lemma_insert_counts(before, at as int, x);
        if at < before.len() {
            lemma_text_le_total(before[at as int], x);
        }
        assert forall|i: int, j: int| 0 <= i <= j < after.len() implies text_le(
            #[trigger] after[i],
            #[trigger] after[j],
        ) by {
            let p = if i < at { i } else { i - 1 };
            let q = if j < at { j } else { j - 1 };
            if i == at && j == at {
                lemma_text_le_total(x, x);
            } else if i == at {
                assert(text_le(before[at as int], before[q]));
                lemma_text_le_carries(x, before[at as int], before[q]);
            } else if j == at {
                assert(before[p] == after[i]);
            } else {
                assert(text_le(before[p], before[q]));
            }
        }
    }
}

proof fn lemma_insert_counts(s: Seq<Seq<char>>, at: int, x: Seq<char>)
    requires
        0 <= at <= s.len(),
    ensures
        s.insert(at, x).to_multiset() == s.to_multiset().insert(x),
{
    s.to_multiset_ensures();
    s.insert(at, x).to_multiset_ensures();
    assert(s.insert(at, x).remove(at) =~= s);
    assert(s.insert(at, x)[at] == x);
    let m = s.insert(at, x).to_multiset();
    assert(s.to_multiset() == m.remove(x));
    assert(m.contains(x));
    assert(m.remove(x).insert(x) =~= m);
}

/// The names of the module files beside an entry file, in ascending order. The entry file
/// itself, directories, files with another extension and files that do not start with the
/// word `module` are left out.
pub fn discover_sibling_modules(entry: &str, listing: &Vec<Listed>) -> (r: Vec<String>)
    ensures
        ascending(texts(r@)),
        texts(r@).to_multiset() == going_with(entry@, listed_view(listing@)).to_multiset(),
{
    let mut names: Vec<String> = Vec::new();
    let mut i: usize = 0;
    let ghost all = listed_view(listing@);
    assert(all.take(0) =~= Seq::<ListedV>::empty());
    assert(texts(names@) =~= Seq::<Seq<char>>::empty());
    while i < listing.len()
        invariant
            all == listed_view(listing@),
            i <= listing@.len(),
            ascending(texts(names@)),
            texts(names@).to_multiset() == going_with(entry@, all.take(i as int)).to_multiset(),
        decreases listing@.len() - i,
    {
        let file = &listing[i];
        assert(all.take(i + 1).drop_last() =~= all.take(i as int));
        assert(all.take(i + 1).last() == file@);
        if file.is_file && file.starts_with_module && has_extension(file.name.as_str(), "ybm")
            && !same_text(file.name.as_str(), entry) {
            place(&mut names, file.name.clone());
            proof {
                going_with(entry@, all.take(i as int)).to_multiset_ensures();
            }
        }
        i = i + 1;
    }
    assert(all.take(listing@.len() as int) =~= all);
    names
}

proof fn lemma_one_ascending_order(a: Seq<Seq<char>>, b: Seq<Seq<char>>)
    requires
        ascending(a),
        ascending(b),
        a.to_multiset() == b.to_multiset(),
    ensures
        a == b,
    decreases a.len(),
{
    a.to_multiset_ensures();
    b.to_multiset_ensures();
    assert(a.len() == b.len());
    if a.len() > 0 {
        let n = a.len() - 1;
        assert(b.contains(b[n]));
        assert(b.to_multiset().count(b[n]) > 0);
        assert(a.contains(a[n]));
        assert(a.to_multiset().count(a[n]) > 0);
        let i = choose|i: int| 0 <= i < a.len() && a[i] == b[n];
        let j = choose|j: int| 0 <= j < b.len() && b[j] == a[n];
        assert(text_le(a[i], a[n]));
        assert(text_le(b[j], b[n]));
        lemma_text_le_both_ways(a[n], b[n]);
        assert(a.remove(n) =~= a.drop_last());
        assert(b.remove(n) =~= b.drop_last());
        lemma_one_ascending_order(a.drop_last(), b.drop_last());
        assert(a =~= a.drop_last().push(a[n]));
        assert(b =~= b.drop_last().push(b[n]));
    } else {
        assert(a =~= b);
    }
}

proof fn lemma_text_le_both_ways(a: Seq<char>, b: Seq<char>)
    requires
        text_le(a, b),
        text_le(b, a),
    ensures
        a == b,
    decreases a.len(),
{
    if a.len() > 0 {
        lemma_text_le_both_ways(a.drop_first(), b.drop_first());
        assert(a =~= seq![a[0]] + a.drop_first());
        assert(b =~= seq![b[0]] + b.drop_first());
    } else {
        assert(a =~= b);
    }
}

proof fn lemma_without_one_file(entry: Seq<char>, files: Seq<ListedV>, i: int)
    requires
        0 <= i < files.len(),
    ensures
        going_with(entry, files).to_multiset() == if goes_with(entry, files[i]) {
            going_with(entry, files.remove(i)).to_multiset().insert(files[i].name)
        } else {
            going_with(entry, files.remove(i)).to_multiset()
        },
    decreases files.len(),
{
    let before = files.drop_last();
    going_with(entry, before).to_multiset_ensures();
    if i == files.len() - 1 {
        assert(files.remove(i) =~= before);
    } else {
        lemma_without_one_file(entry, before, i);
        let left = files.remove(i);
        assert(left.drop_last() =~= before.remove(i));
        assert(left.last() == files.last());
        going_with(entry, before.remove(i)).to_multiset_ensures();
        let x = files[i].name;
        let y = files.last().name;
        let m = going_with(entry, before.remove(i)).to_multiset();
        assert(m.insert(x).insert(y) =~= m.insert(y).insert(x));
    }
}

proof fn lemma_same_files(entry: Seq<char>, one: Seq<ListedV>, two: Seq<ListedV>)
    requires
        one.to_multiset() == two.to_multiset(),
    ensures
        going_with(entry, one).to_multiset() == going_with(entry, two).to_multiset(),
    decreases one.len(),
{
    one.to_multiset_ensures();
    two.to_multiset_ensures();
    if one.len() > 0 {
        let n = one.len() - 1;
        let last = one[n];
        assert(one.contains(last));
        assert(one.to_multiset().count(last) > 0);
        let j = choose|j: int| 0 <= j < two.len() && two[j] == last;
        lemma_without_one_file(entry, one, n);
        lemma_without_one_file(entry, two, j);
        lemma_same_files(entry, one.remove(n), two.remove(j));
    } else {
        assert(one =~= two);
    }
}

/// The order in which a directory lists its files does not matter: what is found for one order
/// of the listing is found for every other.
pub proof fn law_discovery_ignores_the_order_of_the_listing(
    entry: Seq<char>,
    one: Seq<ListedV>,
    two: Seq<ListedV>,
    found_in_one: Seq<Seq<char>>,
    found_in_two: Seq<Seq<char>>,
)
    requires
        one.to_multiset() == two.to_multiset(),
        ascending(found_in_one),
        found_in_one.to_multiset() == going_with(entry, one).to_multiset(),
        ascending(found_in_two),
        found_in_two.to_multiset() == going_with(entry, two).to_multiset(),
    ensures
        found_in_one == found_in_two,
{
    lemma_same_files(entry, one, two);
    lemma_one_ascending_order(found_in_one, found_in_two);
}

/// The entry file is never among the files that go with it.
pub proof fn law_the_entry_file_is_left_out(entry: Seq<char>, files: Seq<ListedV>)
    ensures
        !going_with(entry, files).contains(entry),
    decreases files.len(),
{
    if files.len() > 0 {
        law_the_entry_file_is_left_out(entry, files.drop_last());
    }
}

} // verus!
