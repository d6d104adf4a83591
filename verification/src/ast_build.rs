//! Builders for the nodes of the syntax tree, each with the value that the node stands for.

use crate::ast::{
    args_view, arms_view, entries_view, exprs_view, lambda_params_view, leading_view,
    lemma_arg_view, lemma_block_view, lemma_else_branch_view, lemma_expr_kind_view,
    lemma_expr_view, lemma_fstring_segment_view, lemma_if_expr_view, lemma_match_arm_body_view,
    lemma_match_arm_view, lemma_pipe_callee_view, lemma_pipe_stage_view, lemma_stmt_kind_view,
    lemma_stmt_view, opt_type_view, segments_view, stages_view, stmts_view, types_view, Arg, ArgV,
    ArmBodyV, ArmV, BinaryOp, Block, BlockV, CalleeV, ElseBranch, ElseV, Expr, ExprKind,
    ExprKindV, ExprV, FStringSegment, IfExpr, IfV, LambdaParam, LeadingComment, LeadingV, MatchArm,
    MatchArmBody, NodeId, ParKind, Pattern, PipeCallee, PipeExpr, PipeStage, SegmentV, StageV,
    Stmt, StmtKind, StmtKindV, StmtV, TypeAnn, UnaryOp,
};
use crate::diagnostics::Span;
use crate::text::opt_text;
use vstd::prelude::*;

verus! {

impl ExprKind {
    pub fn int_lit(value: i64) -> (r: ExprKind)
        ensures
            r@ == (ExprKindV::IntLit(value)),
    {
        let r = ExprKind::IntLit(value);
        proof {
            lemma_expr_kind_view(r);
            assert(r@ == (ExprKindV::IntLit(value)));
        }
        r
    }

    pub fn float_lit(text: String) -> (r: ExprKind)
        ensures
            r@ == (ExprKindV::FloatLit(text@)),
    {
        let r = ExprKind::FloatLit(text);
        proof {
            lemma_expr_kind_view(r);
            assert(r@ == (ExprKindV::FloatLit(text@)));
        }
        r
    }

    pub fn bool_lit(value: bool) -> (r: ExprKind)
        ensures
            r@ == (ExprKindV::BoolLit(value)),
    {
        let r = ExprKind::BoolLit(value);
        proof {
            lemma_expr_kind_view(r);
            assert(r@ == (ExprKindV::BoolLit(value)));
        }
        r
    }

    pub fn string_lit(text: String) -> (r: ExprKind)
        ensures
            r@ == (ExprKindV::StringLit(text@)),
    {
        let r = ExprKind::StringLit(text);
        proof {
            lemma_expr_kind_view(r);
            assert(r@ == (ExprKindV::StringLit(text@)));
        }
        r
    }

    pub fn fstring(segments: Vec<FStringSegment>) -> (r: ExprKind)
        ensures
            r@ == (ExprKindV::FString(segments_view(segments@))),
    {
        let r = ExprKind::FString(segments);
        proof {
            lemma_expr_kind_view(r);
            assert(r@ == (ExprKindV::FString(segments_view(segments@))));
        }
        r
    }

    pub fn ident(name: String) -> (r: ExprKind)
        ensures
            r@ == (ExprKindV::Ident(name@)),
    {
        let r = ExprKind::Ident(name);
        proof {
            lemma_expr_kind_view(r);
            assert(r@ == (ExprKindV::Ident(name@)));
        }
        r
    }

    pub fn list_lit(elements: Vec<Expr>, was_multiline: bool) -> (r: ExprKind)
        ensures
            r@ == (ExprKindV::ListLit { elements: exprs_view(elements@), was_multiline }),
    {
        let r = ExprKind::ListLit { elements, was_multiline };
        proof {
            lemma_expr_kind_view(r);
            assert(r@ == (ExprKindV::ListLit { elements: exprs_view(elements@), was_multiline }));
        }
        r
    }

    pub fn set_lit(elements: Vec<Expr>, was_multiline: bool) -> (r: ExprKind)
        ensures
            r@ == (ExprKindV::SetLit { elements: exprs_view(elements@), was_multiline }),
    {
        let r = ExprKind::SetLit { elements, was_multiline };
        proof {
            lemma_expr_kind_view(r);
            assert(r@ == (ExprKindV::SetLit { elements: exprs_view(elements@), was_multiline }));
        }
        r
    }

    pub fn tuple_lit(elements: Vec<Expr>, was_multiline: bool) -> (r: ExprKind)
        ensures
            r@ == (ExprKindV::TupleLit { elements: exprs_view(elements@), was_multiline }),
    {
        let r = ExprKind::TupleLit { elements, was_multiline };
        proof {
            lemma_expr_kind_view(r);
            assert(r@ == (ExprKindV::TupleLit { elements: exprs_view(elements@), was_multiline }));
        }
        r
    }

    pub fn dict_lit(entries: Vec<(Expr, Expr)>, was_multiline: bool) -> (r: ExprKind)
        ensures
            r@ == (ExprKindV::DictLit { entries: entries_view(entries@), was_multiline }),
    {
        let r = ExprKind::DictLit { entries, was_multiline };
        proof {
            lemma_expr_kind_view(r);
            assert(r@ == (ExprKindV::DictLit { entries: entries_view(entries@), was_multiline }));
        }
        r
    }

    pub fn unary(op: UnaryOp, operand: Expr) -> (r: ExprKind)
        ensures
            r@ == (ExprKindV::Unary { op, operand: Box::new(operand@) }),
    {
        let r = ExprKind::Unary { op, operand: Box::new(operand) };
        proof {
            lemma_expr_kind_view(r);
            assert(r@ == (ExprKindV::Unary { op, operand: Box::new(operand@) }));
        }
        r
    }

    pub fn binary(op: BinaryOp, lhs: Expr, rhs: Expr) -> (r: ExprKind)
        ensures
            r@ == (ExprKindV::Binary { op, lhs: Box::new(lhs@), rhs: Box::new(rhs@) }),
    {
        let r = ExprKind::Binary { op, lhs: Box::new(lhs), rhs: Box::new(rhs) };
        proof {
            lemma_expr_kind_view(r);
            assert(r@ == (ExprKindV::Binary { op, lhs: Box::new(lhs@), rhs: Box::new(rhs@) }));
        }
        r
    }

    pub fn call(callee: Expr, type_args: Vec<TypeAnn>, args: Vec<Arg>, was_multiline: bool) -> (r: ExprKind)
        ensures
            r@ == (ExprKindV::Call {
                callee: Box::new(callee@),
                type_args: types_view(type_args@),
                args: args_view(args@),
                was_multiline,
            }),
    {
        let r = ExprKind::Call { callee: Box::new(callee), type_args, args, was_multiline };
        proof {
            lemma_expr_kind_view(r);
            assert(r@ == (ExprKindV::Call {
                callee: Box::new(callee@),
                type_args: types_view(type_args@),
                args: args_view(args@),
                was_multiline,
            }));
        }
        r
    }

    pub fn method_call(receiver: Expr, method: String, type_args: Vec<TypeAnn>, args: Vec<Arg>, was_multiline: bool) -> (r: ExprKind)
        ensures
            r@ == (ExprKindV::MethodCall {
                receiver: Box::new(receiver@),
                method: method@,
                type_args: types_view(type_args@),
                args: args_view(args@),
                was_multiline,
            }),
    {
        let r = ExprKind::MethodCall { receiver: Box::new(receiver), method, type_args, args, was_multiline };
        proof {
            lemma_expr_kind_view(r);
            assert(r@ == (ExprKindV::MethodCall {
                receiver: Box::new(receiver@),
                method: method@,
                type_args: types_view(type_args@),
                args: args_view(args@),
                was_multiline,
            }));
        }
        r
    }

    pub fn field_access(target: Expr, field: String) -> (r: ExprKind)
        ensures
            r@ == (ExprKindV::FieldAccess { target: Box::new(target@), field: field@ }),
    {
        let r = ExprKind::FieldAccess { target: Box::new(target), field };
        proof {
            lemma_expr_kind_view(r);
            assert(r@ == (ExprKindV::FieldAccess { target: Box::new(target@), field: field@ }));
        }
        r
    }

    pub fn tuple_index(target: Expr, index: u32) -> (r: ExprKind)
        ensures
            r@ == (ExprKindV::TupleIndex { target: Box::new(target@), index }),
    {
        let r = ExprKind::TupleIndex { target: Box::new(target), index };
        proof {
            lemma_expr_kind_view(r);
            assert(r@ == (ExprKindV::TupleIndex { target: Box::new(target@), index }));
        }
        r
    }

    pub fn index(target: Expr, index: Expr) -> (r: ExprKind)
        ensures
            r@ == (ExprKindV::Index { target: Box::new(target@), index: Box::new(index@) }),
    {
        let r = ExprKind::Index { target: Box::new(target), index: Box::new(index) };
        proof {
            lemma_expr_kind_view(r);
            assert(r@ == (ExprKindV::Index { target: Box::new(target@), index: Box::new(index@) }));
        }
        r
    }

    pub fn question(target: Expr) -> (r: ExprKind)
        ensures
            r@ == (ExprKindV::Question { target: Box::new(target@) }),
    {
        let r = ExprKind::Question { target: Box::new(target) };
        proof {
            lemma_expr_kind_view(r);
            assert(r@ == (ExprKindV::Question { target: Box::new(target@) }));
        }
        r
    }

    pub fn pipe(source: Expr, stages: Vec<PipeStage>) -> (r: ExprKind)
        ensures
            r@ == (ExprKindV::Pipe { source: Box::new(source@), stages: stages_view(stages@) }),
    {
        let r = ExprKind::Pipe(PipeExpr { source: Box::new(source), stages });
        proof {
            lemma_expr_kind_view(r);
            assert(r@ == (ExprKindV::Pipe { source: Box::new(source@), stages: stages_view(stages@) }));
        }
        r
    }

    pub fn lambda(params: Vec<LambdaParam>, body: Expr) -> (r: ExprKind)
        ensures
            r@ == (ExprKindV::Lambda { params: lambda_params_view(params@), body: Box::new(body@) }),
    {
        let r = ExprKind::Lambda { params, body: Box::new(body) };
        proof {
            lemma_expr_kind_view(r);
            assert(r@ == (ExprKindV::Lambda { params: lambda_params_view(params@), body: Box::new(body@) }));
        }
        r
    }

    pub fn if_kind(inner: IfExpr) -> (r: ExprKind)
        ensures
            r@ == (ExprKindV::If(Box::new(inner@))),
    {
        let r = ExprKind::If(Box::new(inner));
        proof {
            lemma_expr_kind_view(r);
            assert(r@ == (ExprKindV::If(Box::new(inner@))));
        }
        r
    }

    pub fn match_kind(scrutinee: Expr, arms: Vec<MatchArm>) -> (r: ExprKind)
        ensures
            r@ == (ExprKindV::Match { scrutinee: Box::new(scrutinee@), arms: arms_view(arms@) }),
    {
        let r = ExprKind::Match { scrutinee: Box::new(scrutinee), arms };
        proof {
            lemma_expr_kind_view(r);
            assert(r@ == (ExprKindV::Match { scrutinee: Box::new(scrutinee@), arms: arms_view(arms@) }));
        }
        r
    }

    pub fn par(kind: ParKind, elements: Vec<Expr>) -> (r: ExprKind)
        ensures
            r@ == (ExprKindV::Par { kind, elements: exprs_view(elements@) }),
    {
        let r = ExprKind::Par { kind, elements };
        proof {
            lemma_expr_kind_view(r);
            assert(r@ == (ExprKindV::Par { kind, elements: exprs_view(elements@) }));
        }
        r
    }

    pub fn grouping(inner: Expr) -> (r: ExprKind)
        ensures
            r@ == (ExprKindV::Grouping(Box::new(inner@))),
    {
        let r = ExprKind::Grouping(Box::new(inner));
        proof {
            lemma_expr_kind_view(r);
            assert(r@ == (ExprKindV::Grouping(Box::new(inner@))));
        }
        r
    }

}

impl StmtKind {
    pub fn var_decl(name: String, ty: Option<TypeAnn>, value: Expr) -> (r: StmtKind)
        ensures
            r@ == (StmtKindV::VarDecl { name: name@, ty: opt_type_view(ty), value: value@ }),
    {
        let r = StmtKind::VarDecl { name, ty, value };
        proof {
            lemma_stmt_kind_view(r);
            assert(r@ == (StmtKindV::VarDecl { name: name@, ty: opt_type_view(ty), value: value@ }));
        }
        r
    }

    pub fn name_assign(name: String, ty: Option<TypeAnn>, value: Expr) -> (r: StmtKind)
        ensures
            r@ == (StmtKindV::NameAssign { name: name@, ty: opt_type_view(ty), value: value@ }),
    {
        let r = StmtKind::NameAssign { name, ty, value };
        proof {
            lemma_stmt_kind_view(r);
            assert(r@ == (StmtKindV::NameAssign { name: name@, ty: opt_type_view(ty), value: value@ }));
        }
        r
    }

    pub fn field_assign(target: Expr, field: String, value: Expr) -> (r: StmtKind)
        ensures
            r@ == (StmtKindV::FieldAssign { target: target@, field: field@, value: value@ }),
    {
        let r = StmtKind::FieldAssign { target, field, value };
        proof {
            lemma_stmt_kind_view(r);
            assert(r@ == (StmtKindV::FieldAssign { target: target@, field: field@, value: value@ }));
        }
        r
    }

    pub fn index_assign(target: Expr, index: Expr, value: Expr) -> (r: StmtKind)
        ensures
            r@ == (StmtKindV::IndexAssign { target: target@, index: index@, value: value@ }),
    {
        let r = StmtKind::IndexAssign { target, index, value };
        proof {
            lemma_stmt_kind_view(r);
            assert(r@ == (StmtKindV::IndexAssign { target: target@, index: index@, value: value@ }));
        }
        r
    }

    pub fn discard(value: Expr) -> (r: StmtKind)
        ensures
            r@ == (StmtKindV::Discard(value@)),
    {
        let r = StmtKind::Discard(value);
        proof {
            lemma_stmt_kind_view(r);
            assert(r@ == (StmtKindV::Discard(value@)));
        }
        r
    }

    pub fn expr_stmt(value: Expr) -> (r: StmtKind)
        ensures
            r@ == (StmtKindV::ExprStmt(value@)),
    {
        let r = StmtKind::ExprStmt(value);
        proof {
            lemma_stmt_kind_view(r);
            assert(r@ == (StmtKindV::ExprStmt(value@)));
        }
        r
    }

    pub fn return_none() -> (r: StmtKind)
        ensures
            r@ == (StmtKindV::Return(None)),
    {
        let r = StmtKind::Return(None);
        proof {
            lemma_stmt_kind_view(r);
            assert(r@ == (StmtKindV::Return(None)));
        }
        r
    }

    pub fn return_some(value: Expr) -> (r: StmtKind)
        ensures
            r@ == (StmtKindV::Return(Some(value@))),
    {
        let r = StmtKind::Return(Some(value));
        proof {
            lemma_stmt_kind_view(r);
            assert(r@ == (StmtKindV::Return(Some(value@))));
        }
        r
    }

}

/// Where an expression stands.
pub fn expr_span(e: &Expr) -> (r: Span)
    ensures
        r == e@.span,
{
    proof {
        lemma_expr_view(*e);
    }
    e.span
}

/// Where a pipe stage stands.
pub fn stage_span(stage: &PipeStage) -> (r: Span)
    ensures
        r == stage@.span,
{
    proof {
        lemma_pipe_stage_view(*stage);
    }
    stage.span
}

/// Where an `if` stands.
pub fn if_span(x: &IfExpr) -> (r: Span)
    ensures
        r == x@.span,
{
    proof {
        lemma_if_expr_view(*x);
    }
    x.span
}

pub fn new_expr(id: NodeId, kind: ExprKind, span: Span) -> (r: Expr)
    ensures
        r@ == (ExprV { id, kind: kind@, span }),
{
    let r = Expr { id, kind, span };
    proof {
        lemma_expr_view(r);
    }
    r
}

pub fn text_segment(text: String) -> (r: FStringSegment)
    ensures
        r@ == (SegmentV::Text(text@)),
{
    let r = FStringSegment::Text(text);
    proof {
        lemma_fstring_segment_view(r);
    }
    r
}

pub fn expr_segment(expr: Expr) -> (r: FStringSegment)
    ensures
        r@ == (SegmentV::Expr(Box::new(expr@))),
{
    let r = FStringSegment::Expr(Box::new(expr));
    proof {
        lemma_fstring_segment_view(r);
    }
    r
}

pub fn new_arg(name: Option<String>, value: Expr, is_placeholder: bool) -> (r: Arg)
    ensures
        r@ == (ArgV { name: opt_text(name), value: value@, is_placeholder }),
{
    let r = Arg { name, value, is_placeholder };
    proof {
        lemma_arg_view(r);
    }
    r
}

pub fn bare_callee(expr: Expr) -> (r: PipeCallee)
    ensures
        r@ == (CalleeV::Bare(expr@)),
{
    let r = PipeCallee::Bare(expr);
    proof {
        lemma_pipe_callee_view(r);
    }
    r
}

pub fn callee_with_args(callee: Expr, args: Vec<Arg>) -> (r: PipeCallee)
    ensures
        r@ == (CalleeV::WithArgs { callee: Box::new(callee@), args: args_view(args@) }),
{
    let r = PipeCallee::WithArgs { callee: Box::new(callee), args };
    proof {
        lemma_pipe_callee_view(r);
    }
    r
}

pub fn new_stage(callee: PipeCallee, question: bool, span: Span) -> (r: PipeStage)
    ensures
        r@ == (StageV { callee: callee@, question, span }),
{
    let r = PipeStage { callee, question, span };
    proof {
        lemma_pipe_stage_view(r);
    }
    r
}

pub fn new_block(stmts: Vec<Stmt>, span: Span) -> (r: Block)
    ensures
        r@ == (BlockV { stmts: stmts_view(stmts@), span }),
{
    let r = Block { stmts, span };
    proof {
        lemma_block_view(r);
    }
    r
}

pub fn else_block(block: Block) -> (r: ElseBranch)
    ensures
        r@ == (ElseV::Block(block@)),
{
    let r = ElseBranch::Block(block);
    proof {
        lemma_else_branch_view(r);
    }
    r
}

pub fn else_if(inner: IfExpr) -> (r: ElseBranch)
    ensures
        r@ == (ElseV::ElseIf(Box::new(inner@))),
{
    let r = ElseBranch::ElseIf(Box::new(inner));
    proof {
        lemma_else_branch_view(r);
    }
    r
}

pub fn new_if(cond: Expr, then_branch: Block, else_branch: ElseBranch, span: Span) -> (r: IfExpr)
    ensures
        r@ == (IfV {
            cond: Box::new(cond@),
            then_branch: then_branch@,
            else_branch: else_branch@,
            span,
        }),
{
    let r = IfExpr { cond: Box::new(cond), then_branch, else_branch, span };
    proof {
        lemma_if_expr_view(r);
    }
    r
}

pub fn arm_block(block: Block) -> (r: MatchArmBody)
    ensures
        r@ == (ArmBodyV::Block(block@)),
{
    let r = MatchArmBody::Block(block);
    proof {
        lemma_match_arm_body_view(r);
    }
    r
}

pub fn arm_expr(expr: Expr) -> (r: MatchArmBody)
    ensures
        r@ == (ArmBodyV::Expr(expr@)),
{
    let r = MatchArmBody::Expr(expr);
    proof {
        lemma_match_arm_body_view(r);
    }
    r
}

/// An arm without comments.
pub fn new_arm(pattern: Pattern, body: MatchArmBody, span: Span) -> (r: MatchArm)
    ensures
        r@ == (ArmV {
            pattern: pattern@,
            body: body@,
            leading_comments: Seq::<LeadingV>::empty(),
            trailing_comment: None,
            span,
        }),
{
    let leading_comments: Vec<LeadingComment> = Vec::new();
    let r = MatchArm { pattern, body, leading_comments, trailing_comment: None, span };
    proof {
        lemma_match_arm_view(r);
        assert(leading_view(leading_comments@) =~= Seq::empty());
    }
    r
}

/// A statement without comments.
pub fn new_stmt(kind: StmtKind, span: Span) -> (r: Stmt)
    ensures
        r@ == (StmtV {
            kind: kind@,
            span,
            doc_comment: None,
            leading_comments: Seq::<LeadingV>::empty(),
            trailing_comment: None,
        }),
{
    let leading_comments: Vec<LeadingComment> = Vec::new();
    let r = Stmt { kind, span, doc_comment: None, leading_comments, trailing_comment: None };
    proof {
        lemma_stmt_view(r);
        assert(leading_view(leading_comments@) =~= Seq::empty());
    }
    r
}

} // verus!
