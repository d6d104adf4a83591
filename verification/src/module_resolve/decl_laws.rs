//! Which declarations a program has.

use super::{empty_program, grammar_from, skeleton, with_item, with_items, with_modules};
use super::flat_namespace::registered;
use crate::ast::{DeclV, EnumV, FunctionV, ItemV, ModuleV, StructV};
use crate::diagnostics::DiagnosticView;
use crate::eval::env::ProgramV;
use crate::names::{find, lemma_find, lemma_put_lookup, lookup, put_new};
use crate::sources::SourcesV;
use crate::stdlib::prelude::installed;
use vstd::prelude::*;

verus! {

/// The first struct of a name that is declared from the `i`-th item on.
pub open spec fn struct_from(items: Seq<ItemV>, i: int, name: Seq<char>) -> Option<StructV>
    decreases items.len() - i,
{
    if !(0 <= i < items.len()) {
        None
    } else {
        match items[i] {
            ItemV::Decl(DeclV::Struct(d)) if d.name == name => Some(d),
            _ => struct_from(items, i + 1, name),
        }
    }
}

/// The first enum of a name that is declared from the `i`-th item on.
pub open spec fn enum_from(items: Seq<ItemV>, i: int, name: Seq<char>) -> Option<EnumV>
    decreases items.len() - i,
{
    if !(0 <= i < items.len()) {
        None
    } else {
        match items[i] {
            ItemV::Decl(DeclV::Enum(d)) if d.name == name => Some(d),
            _ => enum_from(items, i + 1, name),
        }
    }
}

/// The first function of a name that is declared from the `i`-th item on.
pub open spec fn function_from(items: Seq<ItemV>, i: int, name: Seq<char>) -> Option<FunctionV>
    decreases items.len() - i,
{
    if !(0 <= i < items.len()) {
        None
    } else {
        match items[i] {
            ItemV::Decl(DeclV::Function(d)) if d.name == name => Some(d),
            _ => function_from(items, i + 1, name),
        }
    }
}

/// The first of two that is there.
pub open spec fn either<T>(a: Option<T>, b: Option<T>) -> Option<T> {
    if a is Some {
        a
    } else {
        b
    }
}

/// The items of some files, one file after the other.
pub open spec fn all_items(modules: Seq<ModuleV>) -> Seq<ItemV>
    decreases modules.len(),
{
    if modules.len() == 0 {
        Seq::empty()
    } else {
        modules[0].items + all_items(modules.drop_first())
    }
}

proof fn lemma_put_new<T>(s: Seq<(Seq<char>, T)>, name: Seq<char>, item: T, other: Seq<char>)
    ensures
        lookup(put_new(s, name, item), other) == either(
            lookup(s, other),
            if name == other {
                Some(item)
            } else {
                None
            },
        ),
{
    lemma_put_lookup(s, name, item, other);
    lemma_find(s, name, 0);
    lemma_find(s, other, 0);
    if find(s, name) is Some && name == other {
        assert(lookup(s, other) is Some);
    }
}

proof fn lemma_shift(items: Seq<ItemV>, i: int, name: Seq<char>)
    requires
        items.len() > 0,
        0 <= i <= items.len() - 1,
    ensures
        struct_from(items, i + 1, name) == struct_from(items.drop_first(), i, name),
        enum_from(items, i + 1, name) == enum_from(items.drop_first(), i, name),
        function_from(items, i + 1, name) == function_from(items.drop_first(), i, name),
    decreases items.len() - i,
{
    if i + 1 < items.len() {
        assert(items.drop_first()[i] == items[i + 1]);
        lemma_shift(items, i + 1, name);
    }
}

proof fn lemma_items(p: ProgramV, items: Seq<ItemV>, name: Seq<char>)
    ensures
        lookup(with_items(p, items).structs, name) == either(
            lookup(p.structs, name),
            struct_from(items, 0, name),
        ),
        lookup(with_items(p, items).enums, name) == either(
            lookup(p.enums, name),
            enum_from(items, 0, name),
        ),
        lookup(with_items(p, items).functions, name) == either(
            lookup(p.functions, name),
            function_from(items, 0, name),
        ),
    decreases items.len(),
{
    if items.len() > 0 {
        lemma_items(with_item(p, items[0]), items.drop_first(), name);
        lemma_shift(items, 0, name);
        match items[0] {
            ItemV::Decl(DeclV::Struct(d)) => {
                lemma_put_new(p.structs, d.name, d, name);
            },
            ItemV::Decl(DeclV::Enum(d)) => {
                lemma_put_new(p.enums, d.name, d, name);
            },
            ItemV::Decl(DeclV::Function(d)) => {
                lemma_put_new(p.functions, d.name, d, name);
            },
            ItemV::Stmt(_) => {},
        }
    }
}

proof fn lemma_joined(p: ProgramV, a: Seq<ItemV>, b: Seq<ItemV>)
    ensures
        with_items(p, a + b) == with_items(with_items(p, a), b),
    decreases a.len(),
{
    if a.len() == 0 {
        assert(a + b =~= b);
    } else {
        assert((a + b).drop_first() =~= a.drop_first() + b);
        assert((a + b)[0] == a[0]);
        lemma_joined(with_item(p, a[0]), a.drop_first(), b);
    }
}

proof fn lemma_modules(p: ProgramV, modules: Seq<ModuleV>)
    ensures
        with_modules(p, modules) == with_items(p, all_items(modules)),
    decreases modules.len(),
{
    if modules.len() > 0 {
        lemma_modules(with_items(p, modules[0].items), modules.drop_first());
        lemma_joined(p, modules[0].items, all_items(modules.drop_first()));
    }
}

/// A name stands for what every program has under it, or else for the first declaration of it in
/// the files, in their order; each kind of declaration has names of its own.
pub proof fn law_the_first_declaration_counts(
    modules: Seq<ModuleV>,
    sources: SourcesV,
    notes: Seq<DiagnosticView>,
    name: Seq<char>,
)
    ensures
        ({
            let built_in = installed(empty_program(sources));
            let items = all_items(modules);
            let p = skeleton(modules, sources, notes);
            &&& lookup(p.structs, name) == either(
                lookup(built_in.structs, name),
                struct_from(items, 0, name),
            )
            &&& lookup(p.enums, name) == either(
                lookup(built_in.enums, name),
                enum_from(items, 0, name),
            )
            &&& lookup(p.functions, name) == either(
                lookup(built_in.functions, name),
                function_from(items, 0, name),
            )
        }),
{
    let built_in = installed(empty_program(sources));
    let start = registered(modules, built_in, grammar_from(modules, 0, notes));
    lemma_modules(start, modules);
    lemma_items(start, all_items(modules), name);
}

} // verus!
