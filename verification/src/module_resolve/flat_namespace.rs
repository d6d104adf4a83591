//! One flat namespace for all files of a program.

use super::consts::{
    candidates_view, consts_resolved, resolve_module_const_values, types_checked,
    validate_module_const_types, Candidate, CandidateV,
};
use super::module_grammar::{const_of, module_level_const};
use crate::ast::{
    lemma_stmt_view, Decl, DeclV, EnumV, EnumVariant, Expr, ExprV, FunctionV, Item, ItemV, Module,
    ModuleV, StructV, VariantV,
};
use crate::diagnostics::{Diagnostic, DiagnosticBag, DiagnosticView, ErrorCode, Span};
use crate::eval::env::{Program, ProgramV};
use crate::names::{lookup, put, NameMap};
use crate::sources::{path_text, SourceMap};
use crate::text::{digits, join2, join4, join5, nat_to_text};
use vstd::prelude::*;

verus! {

/// A name that a file declares, and the expression that it has where it is a constant.
pub struct Announcement<'a> {
    pub name: String,
    pub span: Span,
    pub value: Option<&'a Expr>,
}

pub ghost struct AnnouncementV {
    pub name: Seq<char>,
    pub span: Span,
    pub value: Option<ExprV>,
}

impl<'a> Announcement<'a> {
    pub open spec fn view(&self) -> AnnouncementV {
        AnnouncementV {
            name: self.name@,
            span: self.span,
            value: match self.value {
                Some(e) => Some(e.view()),
                None => None,
            },
        }
    }
}

pub open spec fn announcements_view(v: Seq<Announcement<'_>>) -> Seq<AnnouncementV> {
    Seq::new(v.len(), |i: int| v[i].view())
}

pub open spec fn plain(name: Seq<char>, span: Span) -> AnnouncementV {
    AnnouncementV { name, span, value: None }
}

/// The names of the variants from the `i`-th on.
pub open spec fn variants_from(
    variants: Seq<VariantV>,
    i: int,
    out: Seq<AnnouncementV>,
) -> Seq<AnnouncementV>
    decreases variants.len() - i,
{
    if 0 <= i < variants.len() {
        variants_from(variants, i + 1, out.push(plain(variants[i].name, variants[i].span)))
    } else {
        out
    }
}

/// The names that an item declares. Only a module file has constants.
pub open spec fn item_names(item: ItemV, in_module: bool, out: Seq<AnnouncementV>) -> Seq<
    AnnouncementV,
> {
    match item {
        ItemV::Decl(DeclV::Function(f)) => out.push(plain(f.name, f.span)),
        ItemV::Decl(DeclV::Struct(s)) => out.push(plain(s.name, s.span)),
        ItemV::Decl(DeclV::Enum(e)) => variants_from(e.variants, 0, out.push(plain(e.name, e.span))),
        ItemV::Stmt(s) => match const_of(s) {
            Some((name, value)) => if in_module {
                out.push(AnnouncementV { name, span: s.span, value: Some(value) })
            } else {
                out
            },
            None => out,
        },
    }
}

/// The names that the items from the `i`-th on declare.
pub open spec fn items_from(
    items: Seq<ItemV>,
    i: int,
    in_module: bool,
    out: Seq<AnnouncementV>,
) -> Seq<AnnouncementV>
    decreases items.len() - i,
{
    if 0 <= i < items.len() {
        items_from(items, i + 1, in_module, item_names(items[i], in_module, out))
    } else {
        out
    }
}

/// The names that the files from the `i`-th on declare.
pub open spec fn modules_from(
    modules: Seq<ModuleV>,
    i: int,
    out: Seq<AnnouncementV>,
) -> Seq<AnnouncementV>
    decreases modules.len() - i,
{
    if 0 <= i < modules.len() {
        modules_from(
            modules,
            i + 1,
            items_from(modules[i].items, 0, modules[i].is_module_directive, out),
        )
    } else {
        out
    }
}

pub open spec fn modules_view(v: Seq<Module>) -> Seq<ModuleV> {
    Seq::new(v.len(), |i: int| v[i].view())
}

fn announce_variants<'a>(variants: &'a Vec<EnumVariant>, out: &mut Vec<Announcement<'a>>)
    ensures
        announcements_view(final(out)@) == variants_from(
            crate::ast::variants_view(variants@),
            0,
            announcements_view(old(out)@),
        ),
{
    let ghost vs = crate::ast::variants_view(variants@);
    let ghost start = announcements_view(out@);
    let mut i: usize = 0;
    while i < variants.len()
        invariant
            vs == crate::ast::variants_view(variants@),
            i <= variants@.len(),
            variants_from(vs, i as int, announcements_view(out@)) == variants_from(vs, 0, start),
        decreases variants@.len() - i,
    {
        let ghost seen = announcements_view(out@);
        assert(vs[i as int] == variants@[i as int]@);
        let a = Announcement {
            name: variants[i].name.clone(),
            span: variants[i].span,
            value: None,
        };
        out.push(a);
        assert(announcements_view(out@) =~= seen.push(plain(vs[i as int].name, vs[i as int].span)));
        i = i + 1;
    }
}

fn announce_item<'a>(item: &'a Item, in_module: bool, out: &mut Vec<Announcement<'a>>)
    ensures
        announcements_view(final(out)@) == item_names(
            item@,
            in_module,
            announcements_view(old(out)@),
        ),
{
    let ghost seen = announcements_view(out@);
    match item {
        Item::Decl(Decl::Function(f)) => {
            out.push(Announcement { name: f.name.clone(), span: f.span, value: None });
            assert(announcements_view(out@) =~= seen.push(plain(f.name@, f.span)));
        },
        Item::Decl(Decl::Struct(s)) => {
            out.push(Announcement { name: s.name.clone(), span: s.span, value: None });
            assert(announcements_view(out@) =~= seen.push(plain(s.name@, s.span)));
        },
        Item::Decl(Decl::Enum(e)) => {
            out.push(Announcement { name: e.name.clone(), span: e.span, value: None });
            assert(announcements_view(out@) =~= seen.push(plain(e.name@, e.span)));
            announce_variants(&e.variants, out);
        },
        Item::Stmt(stmt) => {
            match module_level_const(stmt) {
                Some((name, value)) => {
                    if in_module {
                        proof {
                            lemma_stmt_view(*stmt);
                        }
                        let a = Announcement {
                            name: name.clone(),
                            span: stmt.span,
                            value: Some(value),
                        };
                        out.push(a);
                        assert(announcements_view(out@) =~= seen.push(a@));
                    }
                },
                None => {},
            }
        },
    }
}

fn announce_all<'a>(modules: &'a [Module]) -> (r: Vec<Announcement<'a>>)
    ensures
        announcements_view(r@) == modules_from(modules_view(modules@), 0, Seq::empty()),
{
    let ghost ms = modules_view(modules@);
    let mut out: Vec<Announcement<'a>> = Vec::new();
    let mut i: usize = 0;
    assert(announcements_view(out@) =~= Seq::empty());
    while i < modules.len()
        invariant
            ms == modules_view(modules@),
            i <= modules@.len(),
            modules_from(ms, i as int, announcements_view(out@)) == modules_from(
                ms,
                0,
                Seq::empty(),
            ),
        decreases modules@.len() - i,
    {
        let module = &modules[i];
        let in_module = module.is_module_directive;
        let ghost items = module@.items;
        let ghost start = announcements_view(out@);
        assert(ms[i as int] == module@);
        let mut j: usize = 0;
        while j < module.items.len()
            invariant
                items == module@.items,
                j <= module.items@.len(),
                items_from(items, j as int, in_module, announcements_view(out@)) == items_from(
                    items,
                    0,
                    in_module,
                    start,
                ),
            decreases module.items@.len() - j,
        {
            assert(items[j as int] == module.items@[j as int]@);
            announce_item(&module.items[j], in_module, &mut out);
            j = j + 1;
        }
        i = i + 1;
    }
    out
}

// ---------------------------------------------------------------------------
// Declaring
// ---------------------------------------------------------------------------

/// The names and spans of the functions from the `i`-th on.
pub open spec fn function_spans(
    s: Seq<(Seq<char>, FunctionV)>,
    i: int,
    out: Seq<(Seq<char>, Span)>,
) -> Seq<(Seq<char>, Span)>
    decreases s.len() - i,
{
    if 0 <= i < s.len() {
        function_spans(s, i + 1, put(out, s[i].0, s[i].1.span))
    } else {
        out
    }
}

/// The names and spans of the structs from the `i`-th on.
pub open spec fn struct_spans(
    s: Seq<(Seq<char>, StructV)>,
    i: int,
    out: Seq<(Seq<char>, Span)>,
) -> Seq<(Seq<char>, Span)>
    decreases s.len() - i,
{
    if 0 <= i < s.len() {
        struct_spans(s, i + 1, put(out, s[i].0, s[i].1.span))
    } else {
        out
    }
}

pub open spec fn variant_spans(
    variants: Seq<VariantV>,
    i: int,
    out: Seq<(Seq<char>, Span)>,
) -> Seq<(Seq<char>, Span)>
    decreases variants.len() - i,
{
    if 0 <= i < variants.len() {
        variant_spans(variants, i + 1, put(out, variants[i].name, variants[i].span))
    } else {
        out
    }
}

/// The names and spans of the enums from the `i`-th on, and of their variants.
pub open spec fn enum_spans(
    s: Seq<(Seq<char>, EnumV)>,
    i: int,
    out: Seq<(Seq<char>, Span)>,
) -> Seq<(Seq<char>, Span)>
    decreases s.len() - i,
{
    if 0 <= i < s.len() {
        enum_spans(s, i + 1, variant_spans(s[i].1.variants, 0, put(out, s[i].0, s[i].1.span)))
    } else {
        out
    }
}

/// The names that a program has taken already, and where.
pub open spec fn taken(p: ProgramV) -> Seq<(Seq<char>, Span)> {
    enum_spans(p.enums, 0, struct_spans(p.structs, 0, function_spans(p.functions, 0, Seq::empty())))
}

fn taken_names(program: &Program) -> (r: NameMap<Span>)
    ensures
        r@ == taken(program@),
{
    let mut out: NameMap<Span> = NameMap::new();
    let ghost fs = program@.functions;
    let mut i: usize = 0;
    while i < program.functions.len()
        invariant
            fs == program@.functions,
            i <= program.functions@.len(),
            function_spans(fs, i as int, out@) == function_spans(fs, 0, Seq::empty()),
        decreases program.functions@.len() - i,
    {
        out.insert(
            program.functions.name_at(i).to_owned(),
            program.functions.item_at(i).span,
        );
        i = i + 1;
    }
    let ghost d0 = out@;
    let ghost ss = program@.structs;
    let mut j: usize = 0;
    while j < program.structs.len()
        invariant
            ss == program@.structs,
            j <= program.structs@.len(),
            struct_spans(ss, j as int, out@) == struct_spans(ss, 0, d0),
        decreases program.structs@.len() - j,
    {
        out.insert(program.structs.name_at(j).to_owned(), program.structs.item_at(j).span);
        j = j + 1;
    }
    let ghost d1 = out@;
    let ghost es = program@.enums;
    let mut k: usize = 0;
    while k < program.enums.len()
        invariant
            es == program@.enums,
            k <= program.enums@.len(),
            enum_spans(es, k as int, out@) == enum_spans(es, 0, d1),
        decreases program.enums@.len() - k,
    {
        let decl = program.enums.item_at(k);
        assert(es[k as int].1 == decl@);
        out.insert(program.enums.name_at(k).to_owned(), decl.span);
        let ghost d2 = out@;
        let ghost vs = decl@.variants;
        let mut n: usize = 0;
        while n < decl.variants.len()
            invariant
                vs == decl@.variants,
                n <= decl.variants@.len(),
                variant_spans(vs, n as int, out@) == variant_spans(vs, 0, d2),
            decreases decl.variants@.len() - n,
        {
            assert(vs[n as int] == decl.variants@[n as int]@);
            out.insert(decl.variants[n].name.clone(), decl.variants[n].span);
            n = n + 1;
        }
        k = k + 1;
    }
    out
}

/// What a name that is taken is reported as.
pub open spec fn duplicate(
    sources: Seq<Seq<char>>,
    first: Span,
    name: Seq<char>,
    span: Span,
) -> DiagnosticView {
    DiagnosticView {
        code: ErrorCode::DuplicateName,
        span,
        message: "duplicate definition of '"@ + name + "' (also defined at "@ + path_text(
            sources,
            first.file,
        ) + ":"@ + digits(first.start.line as nat) + ":"@ + digits(first.start.col as nat) + ")"@,
    }
}

/// The state of declaring names: those that are taken, the diagnostics, where the constants
/// stand, and the constants.
pub ghost struct SpaceV {
    pub declared: Seq<(Seq<char>, Span)>,
    pub notes: Seq<DiagnosticView>,
    pub const_spans: Seq<(Seq<char>, Span)>,
    pub candidates: Seq<CandidateV>,
}

/// The state once a name has been declared: one that is taken is reported, and a constant that
/// is new is kept.
pub open spec fn declared_one(sources: Seq<Seq<char>>, st: SpaceV, a: AnnouncementV) -> SpaceV {
    match lookup(st.declared, a.name) {
        Some(first) => SpaceV {
            notes: st.notes.push(duplicate(sources, first, a.name, a.span)),
            ..st
        },
        None => {
            let declared = put(st.declared, a.name, a.span);
            match a.value {
                Some(value) => SpaceV {
                    declared,
                    const_spans: put(st.const_spans, a.name, a.span),
                    candidates: st.candidates.push(CandidateV { name: a.name, value }),
                    ..st
                },
                None => SpaceV { declared, ..st },
            }
        },
    }
}

pub open spec fn declared_from(
    sources: Seq<Seq<char>>,
    names: Seq<AnnouncementV>,
    i: int,
    st: SpaceV,
) -> SpaceV
    decreases names.len() - i,
{
    if 0 <= i < names.len() {
        declared_from(sources, names, i + 1, declared_one(sources, st, names[i]))
    } else {
        st
    }
}

/// The state once all names of all files have been declared.
pub open spec fn namespace(
    modules: Seq<ModuleV>,
    p: ProgramV,
    notes: Seq<DiagnosticView>,
) -> SpaceV {
    declared_from(
        p.sources.paths,
        modules_from(modules, 0, Seq::empty()),
        0,
        SpaceV {
            declared: taken(p),
            notes,
            const_spans: p.const_spans,
            candidates: Seq::empty(),
        },
    )
}

/// The program once all names have been declared: its constants have their values.
pub open spec fn registered(
    modules: Seq<ModuleV>,
    p: ProgramV,
    notes: Seq<DiagnosticView>,
) -> ProgramV {
    let st = namespace(modules, p, notes);
    ProgramV {
        consts: consts_resolved(st.candidates, p.consts),
        const_spans: st.const_spans,
        ..p
    }
}

/// The diagnostics once all names have been declared and the types of the constants checked.
pub open spec fn registered_notes(
    modules: Seq<ModuleV>,
    p: ProgramV,
    notes: Seq<DiagnosticView>,
) -> Seq<DiagnosticView> {
    let st = namespace(modules, p, notes);
    types_checked(st.candidates, Seq::empty(), st.notes)
}

/// Declares a name, and returns whether it was new.
fn try_declare(
    declared_at: &mut NameMap<Span>,
    diagnostics: &mut DiagnosticBag,
    sources: &SourceMap,
    name: &String,
    span: Span,
) -> (r: bool)
    ensures
        match lookup(old(declared_at)@, name@) {
            Some(first) => {
                &&& !r
                &&& final(declared_at)@ == old(declared_at)@
                &&& final(diagnostics)@ == old(diagnostics)@.push(
                    duplicate(sources@.paths, first, name@, span),
                )
            },
            None => {
                &&& r
                &&& final(declared_at)@ == put(old(declared_at)@, name@, span)
                &&& final(diagnostics)@ == old(diagnostics)@
            },
        },
{
    match declared_at.get(name.as_str()) {
        Some(first) => {
            let path = sources.path(first.file);
            let line = nat_to_text(first.start.line as u64);
            let col = nat_to_text(first.start.col as u64);
            let head = join4(
                "duplicate definition of '",
                name.as_str(),
                "' (also defined at ",
                path.as_str(),
            );
            let message = join5(head.as_str(), ":", line.as_str(), ":", col.as_str());
            diagnostics.push(
                Diagnostic {
                    code: ErrorCode::DuplicateName,
                    span,
                    message: join2(message.as_str(), ")"),
                },
            );
            false
        },
        None => {
            declared_at.insert(name.clone(), span);
            true
        },
    }
}

fn copy_candidates<'a>(v: &Vec<Candidate<'a>>) -> (r: Vec<Candidate<'a>>)
    ensures
        candidates_view(r@) == candidates_view(v@),
{
    let mut out: Vec<Candidate<'a>> = Vec::new();
    let mut i: usize = 0;
    while i < v.len()
        invariant
            i <= v@.len(),
            out@.len() == i,
            forall|j: int| 0 <= j < i ==> (#[trigger] out@[j])@ == v@[j]@,
        decreases v@.len() - i,
    {
        out.push(Candidate { name: v[i].name.clone(), value: v[i].value });
        i = i + 1;
    }
    assert(candidates_view(out@) =~= candidates_view(v@));
    out
}

/// Declares the names of all files in one flat namespace, reports those that are taken, and
/// finds the values of the constants of module files.
pub fn register_flat_namespace(
    modules: &[Module],
    program: &mut Program,
    diagnostics: &mut DiagnosticBag,
)
    ensures
        final(program)@ == registered(
            modules_view(modules@),
            old(program)@,
            old(diagnostics)@,
        ),
        final(diagnostics)@ == registered_notes(
            modules_view(modules@),
            old(program)@,
            old(diagnostics)@,
        ),
{
    let ghost p = program@;
    let ghost ms = modules_view(modules@);
    let ghost goal = namespace(ms, p, diagnostics@);
    let mut declared_at = taken_names(program);
    let names = announce_all(modules);
    let ghost ns = announcements_view(names@);
    let mut candidates: Vec<Candidate<'_>> = Vec::new();
    let mut i: usize = 0;
    assert(candidates_view(candidates@) =~= Seq::empty());
    while i < names.len()
        invariant
            ns == announcements_view(names@),
            i <= names@.len(),
            program@ == (ProgramV { const_spans: program@.const_spans, ..p }),
            program.consts@ == old(program).consts@,
            declared_from(
                p.sources.paths,
                ns,
                i as int,
                SpaceV {
                    declared: declared_at@,
                    notes: diagnostics@,
                    const_spans: program@.const_spans,
                    candidates: candidates_view(candidates@),
                },
            ) == goal,
        decreases names@.len() - i,
    {
        assert(ns[i as int] == names@[i as int]@);
        let ghost seen = candidates_view(candidates@);
        let is_new = try_declare(
            &mut declared_at,
            diagnostics,
            &program.sources,
            &names[i].name,
            names[i].span,
        );
        if is_new {
            match names[i].value {
                Some(value) => {
                    program.const_spans.insert(names[i].name.clone(), names[i].span);
                    let c = Candidate { name: names[i].name.clone(), value };
                    candidates.push(c);
                    assert(candidates_view(candidates@) =~= seen.push(c@));
                },
                None => {},
            }
        }
        i = i + 1;
    }
    let again = copy_candidates(&candidates);
    validate_module_const_types(again, diagnostics);
    resolve_module_const_values(candidates, &mut program.consts);
}

} // verus!
