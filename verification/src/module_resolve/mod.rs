//! Putting the files of a program together.

pub mod const_laws;
pub mod const_types;
pub mod consts;
pub mod decl_laws;
pub mod flat_namespace;
pub mod module_grammar;
pub mod siblings;

use crate::ast::{Decl, DeclV, Item, ItemV, Module, ModuleV};
use crate::diagnostics::{DiagnosticBag, DiagnosticView};
use crate::eval::env::{Program, ProgramV};
use crate::names::put_new;
use crate::sources::{SourceMap, SourcesV};
use crate::stdlib::prelude::{add_enum, add_function, add_struct, install, installed};
use flat_namespace::{modules_view, register_flat_namespace, registered, registered_notes};
use module_grammar::{check_module_toplevel_grammar, checked_from};
use vstd::prelude::*;

verus! {

/// The diagnostics once the module files from the `i`-th on have been checked.
pub open spec fn grammar_from(
    modules: Seq<ModuleV>,
    i: int,
    notes: Seq<DiagnosticView>,
) -> Seq<DiagnosticView>
    decreases modules.len() - i,
{
    if !(0 <= i < modules.len()) {
        notes
    } else if modules[i].is_module_directive {
        grammar_from(modules, i + 1, checked_from(modules[i].items, 0, notes))
    } else {
        grammar_from(modules, i + 1, notes)
    }
}

/// The program once it has the declaration of an item; the first one of a name stays.
pub open spec fn with_item(p: ProgramV, item: ItemV) -> ProgramV {
    match item {
        ItemV::Decl(DeclV::Function(f)) => ProgramV {
            functions: put_new(p.functions, f.name, f),
            ..p
        },
        ItemV::Decl(DeclV::Struct(s)) => ProgramV {
            structs: put_new(p.structs, s.name, s),
            ..p
        },
        ItemV::Decl(DeclV::Enum(e)) => ProgramV { enums: put_new(p.enums, e.name, e), ..p },
        ItemV::Stmt(_) => p,
    }
}

pub open spec fn with_items(p: ProgramV, items: Seq<ItemV>) -> ProgramV
    decreases items.len(),
{
    if items.len() == 0 {
        p
    } else {
        with_items(with_item(p, items[0]), items.drop_first())
    }
}

/// The program once it has the declarations of some files.
pub open spec fn with_modules(p: ProgramV, modules: Seq<ModuleV>) -> ProgramV
    decreases modules.len(),
{
    if modules.len() == 0 {
        p
    } else {
        with_modules(with_items(p, modules[0].items), modules.drop_first())
    }
}

/// A program that declares nothing, with its source files.
pub open spec fn empty_program(sources: SourcesV) -> ProgramV {
    ProgramV {
        functions: Seq::empty(),
        structs: Seq::empty(),
        enums: Seq::empty(),
        consts: Seq::empty(),
        const_spans: Seq::empty(),
        sources,
    }
}

/// The program that some files make up.
pub open spec fn skeleton(
    modules: Seq<ModuleV>,
    sources: SourcesV,
    notes: Seq<DiagnosticView>,
) -> ProgramV {
    with_modules(
        registered(modules, installed(empty_program(sources)), grammar_from(modules, 0, notes)),
        modules,
    )
}

/// The diagnostics of putting some files together.
pub open spec fn skeleton_notes(
    modules: Seq<ModuleV>,
    sources: SourcesV,
    notes: Seq<DiagnosticView>,
) -> Seq<DiagnosticView> {
    registered_notes(
        modules,
        installed(empty_program(sources)),
        grammar_from(modules, 0, notes),
    )
}

fn reversed<T>(v: Vec<T>) -> (r: Vec<T>)
    ensures
        r@ == v@.reverse(),
{
    let ghost all = v@;
    let mut rest = v;
    let mut out: Vec<T> = Vec::new();
    while rest.len() > 0
        invariant
            rest@.len() + out@.len() == all.len(),
            rest@ == all.take(rest@.len() as int),
            forall|j: int| 0 <= j < out@.len() ==> #[trigger] out@[j] == all[all.len() - 1 - j],
        decreases rest@.len(),
    {
        match rest.pop() {
            Some(x) => {
                out.push(x);
            },
            None => {},
        }
    }
    assert(out@ =~= all.reverse());
    out
}

fn add_item(program: &mut Program, item: Item)
    ensures
        final(program)@ == with_item(old(program)@, item@),
{
    match item {
        Item::Decl(Decl::Function(f)) => {
            add_function(program, f);
        },
        Item::Decl(Decl::Struct(s)) => {
            add_struct(program, s);
        },
        Item::Decl(Decl::Enum(e)) => {
            add_enum(program, e);
        },
        Item::Stmt(_) => {},
    }
}

fn add_items(program: &mut Program, items: Vec<Item>)
    ensures
        final(program)@ == with_items(old(program)@, crate::ast::items_view(items@)),
{
    let ghost all = items@;
    let ghost vs = crate::ast::items_view(all);
    let ghost p = program@;
    let mut rest = reversed(items);
    let ghost mut i: int = 0;
    assert(vs.skip(0) =~= vs);
    while rest.len() > 0
        invariant
            vs == crate::ast::items_view(all),
            0 <= i <= all.len(),
            rest@ == all.skip(i).reverse(),
            with_items(program@, vs.skip(i)) == with_items(p, vs),
        decreases rest@.len(),
    {
        let ghost before = rest@;
        match rest.pop() {
            Some(item) => {
                proof {
                    assert(before.last() == all.skip(i)[0]);
                    assert(item@ == vs[i]);
                    assert(vs.skip(i).drop_first() =~= vs.skip(i + 1));
                    assert(rest@ =~= all.skip(i + 1).reverse());
                    i = i + 1;
                }
                add_item(program, item);
            },
            None => {},
        }
    }
    assert(all.skip(i).reverse().len() == 0);
}

fn add_modules(program: &mut Program, modules: Vec<Module>)
    ensures
        final(program)@ == with_modules(old(program)@, modules_view(modules@)),
{
    let ghost all = modules@;
    let ghost vs = modules_view(all);
    let ghost p = program@;
    let mut rest = reversed(modules);
    let ghost mut i: int = 0;
    assert(vs.skip(0) =~= vs);
    while rest.len() > 0
        invariant
            vs == modules_view(all),
            0 <= i <= all.len(),
            rest@ == all.skip(i).reverse(),
            with_modules(program@, vs.skip(i)) == with_modules(p, vs),
        decreases rest@.len(),
    {
        let ghost before = rest@;
        match rest.pop() {
            Some(module) => {
                proof {
                    assert(before.last() == all.skip(i)[0]);
                    assert(module@ == vs[i]);
                    assert(vs.skip(i).drop_first() =~= vs.skip(i + 1));
                    assert(rest@ =~= all.skip(i + 1).reverse());
                    i = i + 1;
                }
                add_items(program, module.items);
            },
            None => {},
        }
    }
    assert(all.skip(i).reverse().len() == 0);
}

/// Puts files together: what every program starts with, the constants of the module files, and
/// the declarations of all files. Names that are defined twice, and statements that may not
/// stand in a module file, are reported.
pub fn build_program_skeleton(
    modules: Vec<Module>,
    sources: SourceMap,
    diagnostics: &mut DiagnosticBag,
) -> (r: Program)
    ensures
        r@ == skeleton(modules_view(modules@), sources@, old(diagnostics)@),
        final(diagnostics)@ == skeleton_notes(
            modules_view(modules@),
            sources@,
            old(diagnostics)@,
        ),
{
    let ghost ms = modules_view(modules@);
    let ghost start = diagnostics@;
    let mut program = Program::new(sources);
    install(&mut program);
    let mut i: usize = 0;
    while i < modules.len()
        invariant
            ms == modules_view(modules@),
            i <= modules@.len(),
            grammar_from(ms, i as int, diagnostics@) == grammar_from(ms, 0, start),
        decreases modules@.len() - i,
    {
        assert(ms[i as int] == modules@[i as int]@);
        if modules[i].is_module_directive {
            check_module_toplevel_grammar(&modules[i], diagnostics);
        }
        i = i + 1;
    }
    register_flat_namespace(&modules, &mut program, diagnostics);
    add_modules(&mut program, modules);
    program
}

} // verus!
