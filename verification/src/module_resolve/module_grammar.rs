//! What may stand at the top level of a module file: declarations, and constants made of
//! literals.

use crate::ast::{
    entries_view, exprs_view, lemma_expr_kind_view, lemma_expr_view, lemma_stmt_kind_view,
    lemma_stmt_view, Expr, ExprKind, ExprKindV, ExprV, Item, ItemV, Module, Stmt, StmtKind,
    StmtKindV, StmtV,
};
use crate::diagnostics::{Diagnostic, DiagnosticBag, DiagnosticView, ErrorCode};
use vstd::prelude::*;

verus! {

/// An expression that a module constant can have: literals, collections of them, and
/// references to other constants.
pub open spec fn is_const(e: ExprV) -> bool
    decreases e,
{
    match e.kind {
        ExprKindV::IntLit(_) => true,
        ExprKindV::FloatLit(_) => true,
        ExprKindV::BoolLit(_) => true,
        ExprKindV::StringLit(_) => true,
        ExprKindV::Ident(_) => true,
        ExprKindV::ListLit { elements, was_multiline } => forall|i: int|
            0 <= i < elements.len() ==> is_const(#[trigger] elements[i]),
        ExprKindV::SetLit { elements, was_multiline } => forall|i: int|
            0 <= i < elements.len() ==> is_const(#[trigger] elements[i]),
        ExprKindV::TupleLit { elements, was_multiline } => forall|i: int|
            0 <= i < elements.len() ==> is_const(#[trigger] elements[i]),
        ExprKindV::DictLit { entries, was_multiline } => forall|i: int|
            0 <= i < entries.len() ==> is_const((#[trigger] entries[i]).0) && is_const(
                entries[i].1,
            ),
        ExprKindV::Grouping(inner) => is_const(*inner),
        _ => false,
    }
}

/// All expressions can be those of module constants.
pub open spec fn all_const(elements: Seq<ExprV>) -> bool {
    forall|i: int| 0 <= i < elements.len() ==> is_const(#[trigger] elements[i])
}

/// All entries have such expressions for keys and values.
pub open spec fn all_const_pairs(entries: Seq<(ExprV, ExprV)>) -> bool {
    forall|i: int|
        0 <= i < entries.len() ==> is_const((#[trigger] entries[i]).0) && is_const(entries[i].1)
}

proof fn lemma_const(e: ExprV)
    ensures
        match e.kind {
            ExprKindV::ListLit { elements, was_multiline } => is_const(e) == all_const(elements),
            ExprKindV::SetLit { elements, was_multiline } => is_const(e) == all_const(elements),
            ExprKindV::TupleLit { elements, was_multiline } => is_const(e) == all_const(elements),
            ExprKindV::DictLit { entries, was_multiline } => is_const(e) == all_const_pairs(
                entries,
            ),
            _ => true,
        },
{
}

fn are_const(elements: &Vec<Expr>) -> (r: bool)
    ensures
        r == all_const(exprs_view(elements@)),
    decreases elements, 0int,
{
    let ghost es = exprs_view(elements@);
    let mut i: usize = 0;
    while i < elements.len()
        invariant
            es == exprs_view(elements@),
            i <= elements@.len(),
            forall|j: int| 0 <= j < i ==> is_const(#[trigger] es[j]),
        decreases elements@.len() - i,
    {
        proof {
            assert(decreases_to!(*elements => elements@));
            assert(decreases_to!(elements@ => elements@[i as int]));
        }
        if !is_module_const_value_expr(&elements[i]) {
            assert(!is_const(es[i as int]));
            return false;
        }
        i = i + 1;
    }
    true
}

pub fn is_module_const_value_expr(expr: &Expr) -> (r: bool)
    ensures
        r == is_const(expr@),
    decreases expr, 1int,
{
    proof {
        lemma_expr_view(*expr);
        lemma_expr_kind_view(expr.kind);
        assert(decreases_to!(*expr => expr.kind));
        lemma_const(expr@);
    }
    match &expr.kind {
        ExprKind::IntLit(_) => true,
        ExprKind::FloatLit(_) => true,
        ExprKind::BoolLit(_) => true,
        ExprKind::StringLit(_) => true,
        ExprKind::Ident(_) => true,
        ExprKind::ListLit { elements, was_multiline } => are_const(elements),
        ExprKind::SetLit { elements, was_multiline } => are_const(elements),
        ExprKind::TupleLit { elements, was_multiline } => are_const(elements),
        ExprKind::DictLit { entries, was_multiline } => {
            let ghost es = entries_view(entries@);
            let mut i: usize = 0;
            while i < entries.len()
                invariant
                    expr.kind matches ExprKind::DictLit { entries: w, .. } && w == *entries,
                    decreases_to!(*expr => expr.kind),
                    is_const(expr@) == all_const_pairs(es),
                    es == entries_view(entries@),
                    i <= entries@.len(),
                    forall|j: int|
                        0 <= j < i ==> is_const((#[trigger] es[j]).0) && is_const(es[j].1),
                decreases entries@.len() - i,
            {
                proof {
                    assert(decreases_to!(*entries => entries@));
                    assert(decreases_to!(entries@ => entries@[i as int]));
                    assert(decreases_to!(entries@[i as int] => entries@[i as int].0));
                    assert(decreases_to!(entries@[i as int] => entries@[i as int].1));
                }
                if !is_module_const_value_expr(&entries[i].0) || !is_module_const_value_expr(
                    &entries[i].1,
                ) {
                    assert(!is_const(es[i as int].0) || !is_const(es[i as int].1));
                    return false;
                }
                i = i + 1;
            }
            true
        },
        ExprKind::Grouping(inner) => is_module_const_value_expr(inner),
        _ => false,
    }
}

/// The module constant that a statement defines, if it defines one.
pub open spec fn const_of(s: StmtV) -> Option<(Seq<char>, ExprV)> {
    match s.kind {
        StmtKindV::NameAssign { name, ty, value } => if is_const(value) {
            Some((name, value))
        } else {
            None
        },
        _ => None,
    }
}

/// The module constant that a statement defines, if it defines one.
pub fn module_level_const(stmt: &Stmt) -> (r: Option<(&String, &Expr)>)
    ensures
        match r {
            Some((name, value)) => const_of(stmt@) == Some((name@, value@)),
            None => const_of(stmt@) is None,
        },
{
    proof {
        lemma_stmt_view(*stmt);
        lemma_stmt_kind_view(stmt.kind);
    }
    match &stmt.kind {
        StmtKind::NameAssign { name, ty, value } => {
            if is_module_const_value_expr(value) {
                Some((name, value))
            } else {
                None
            }
        },
        _ => None,
    }
}

/// What a statement that may not stand in a module is reported as.
pub open spec fn misplaced(s: StmtV) -> DiagnosticView {
    DiagnosticView {
        code: ErrorCode::ModuleTopLevelStatement,
        span: s.span,
        message: "a file with a module directive cannot contain a top-level executable statement (only declarations, or module-level constants that are literals only, are allowed; SPEC §10, D-MOD-02)"@,
    }
}

/// The diagnostics once the items from the `i`-th on have been checked.
pub open spec fn checked_from(items: Seq<ItemV>, i: int, diagnostics: Seq<DiagnosticView>) -> Seq<
    DiagnosticView,
>
    decreases items.len() - i,
{
    if !(0 <= i < items.len()) {
        diagnostics
    } else {
        match items[i] {
            ItemV::Stmt(s) => if const_of(s) is None {
                checked_from(items, i + 1, diagnostics.push(misplaced(s)))
            } else {
                checked_from(items, i + 1, diagnostics)
            },
            _ => checked_from(items, i + 1, diagnostics),
        }
    }
}

/// Reports each statement of a module that is no constant.
pub fn check_module_toplevel_grammar(module: &Module, diagnostics: &mut DiagnosticBag)
    ensures
        final(diagnostics)@ == checked_from(module@.items, 0, old(diagnostics)@),
{
    let ghost items = module@.items;
    let ghost start = diagnostics@;
    let mut i: usize = 0;
    while i < module.items.len()
        invariant
            items == module@.items,
            i <= module.items@.len(),
            checked_from(items, i as int, diagnostics@) == checked_from(items, 0, start),
        decreases module.items@.len() - i,
    {
        assert(items[i as int] == module.items@[i as int]@);
        match &module.items[i] {
            Item::Stmt(stmt) => {
                match module_level_const(stmt) {
                    Some(_) => {},
                    None => {
                        proof {
                            lemma_stmt_view(*stmt);
                        }
                        diagnostics.push(
                            Diagnostic {
                                code: ErrorCode::ModuleTopLevelStatement,
                                span: stmt.span,
                                message: "a file with a module directive cannot contain a top-level executable statement (only declarations, or module-level constants that are literals only, are allowed; SPEC §10, D-MOD-02)".to_owned(),
                            },
                        );
                    },
                }
            },
            _ => {},
        }
        i = i + 1;
    }
}

} // verus!
