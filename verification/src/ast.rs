//! The syntax tree, and beside each type of it the mathematical value that it stands for.

use crate::diagnostics::{FileId, Span};
use crate::text::{opt_text, texts};
use vstd::prelude::*;

verus! {

/// Identifies a node of the syntax tree.
#[derive(Clone, Copy, Debug, PartialEq, Eq, Hash, Structural)]
pub struct NodeId(pub u32);

/// One parsed file.
#[derive(Debug)]
pub struct Module {
    pub file: FileId,
    pub is_module_directive: bool,
    pub items: Vec<Item>,
    pub trailing_comments: Vec<LeadingComment>,
}

#[derive(Debug)]
pub enum Item {
    Decl(Decl),
    Stmt(Stmt),
}

#[derive(Debug)]
pub enum Decl {
    Function(FunctionDecl),
    Struct(StructDecl),
    Enum(EnumDecl),
}

#[derive(Debug)]
pub struct FunctionDecl {
    pub id: NodeId,
    pub name: String,
    pub generics: Vec<String>,
    pub self_param: Option<SelfParam>,
    pub params: Vec<Param>,
    pub ret: TypeAnn,
    pub effects: Vec<String>,
    pub body: Block,
    pub leading_comments: Vec<LeadingComment>,
    pub doc_comment: Option<DocComment>,
    pub span: Span,
}

#[derive(Clone, Copy, Debug, PartialEq, Eq, Structural)]
pub struct SelfParam {
    pub mutable: bool,
    pub span: Span,
}

#[derive(Debug)]
pub struct Param {
    pub name: String,
    pub ty: TypeAnn,
    pub span: Span,
}

#[derive(Debug)]
pub struct StructDecl {
    pub id: NodeId,
    pub name: String,
    pub generics: Vec<String>,
    pub fields: Vec<Param>,
    pub field_leading_comments: Vec<Vec<LeadingComment>>,
    pub field_trailing_comments: Vec<Option<String>>,
    pub methods: Vec<FunctionDecl>,
    pub leading_comments: Vec<LeadingComment>,
    pub doc_comment: Option<DocComment>,
    pub span: Span,
}

#[derive(Debug)]
pub struct EnumDecl {
    pub id: NodeId,
    pub name: String,
    pub generics: Vec<String>,
    pub variants: Vec<EnumVariant>,
    pub leading_comments: Vec<LeadingComment>,
    pub doc_comment: Option<DocComment>,
    pub span: Span,
}

#[derive(Debug)]
pub struct EnumVariant {
    pub name: String,
    pub fields: Vec<TypeAnn>,
    pub field_names: Vec<Option<String>>,
    pub leading_comments: Vec<LeadingComment>,
    pub trailing_comment: Option<String>,
    pub span: Span,
}

/// A comment line before a node, and the line on which it stands.
#[derive(Clone, Debug, PartialEq, Eq)]
pub struct LeadingComment {
    pub text: String,
    pub line: u32,
}

/// A documentation comment: prose lines and fenced blocks, with their order in `parts`.
#[derive(Clone, Debug, PartialEq, Eq)]
pub struct DocComment {
    pub prose_lines: Vec<String>,
    pub fences: Vec<DocFence>,
    pub parts: Vec<DocPart>,
    pub span: Span,
}

#[derive(Clone, Debug, PartialEq, Eq)]
pub struct DocFence {
    pub lang_tag: Option<String>,
    pub body_start_line: u32,
    pub raw_text: String,
    pub span: Span,
}

/// Points at a prose line or at a fence, by index.
#[derive(Clone, Copy, Debug, PartialEq, Eq, Structural)]
pub enum DocPart {
    Prose(usize),
    Fence(usize),
}

#[derive(Debug)]
pub struct TypeAnn {
    pub kind: TypeAnnKind,
    pub span: Span,
}

#[derive(Debug)]
pub enum TypeAnnKind {
    Void,
    Named { name: String, args: Vec<TypeAnn> },
    Tuple(Vec<TypeAnn>),
    Function { params: Vec<TypeAnn>, effects: Vec<String>, ret: Box<TypeAnn> },
}

#[derive(Debug)]
pub struct Block {
    pub stmts: Vec<Stmt>,
    pub span: Span,
}

#[derive(Debug)]
pub struct Stmt {
    pub kind: StmtKind,
    pub span: Span,
    pub doc_comment: Option<DocComment>,
    pub leading_comments: Vec<LeadingComment>,
    pub trailing_comment: Option<String>,
}

#[derive(Debug)]
pub enum StmtKind {
    VarDecl { name: String, ty: Option<TypeAnn>, value: Expr },
    NameAssign { name: String, ty: Option<TypeAnn>, value: Expr },
    FieldAssign { target: Expr, field: String, value: Expr },
    IndexAssign { target: Expr, index: Expr, value: Expr },
    Discard(Expr),
    ExprStmt(Expr),
    Return(Option<Expr>),
}

#[derive(Debug)]
pub struct Expr {
    pub id: NodeId,
    pub kind: ExprKind,
    pub span: Span,
}

/// The kinds of expressions. A float literal carries its decimal spelling.
#[derive(Debug)]
pub enum ExprKind {
    IntLit(i64),
    FloatLit(String),
    BoolLit(bool),
    StringLit(String),
    FString(Vec<FStringSegment>),
    Ident(String),
    ListLit { elements: Vec<Expr>, was_multiline: bool },
    SetLit { elements: Vec<Expr>, was_multiline: bool },
    TupleLit { elements: Vec<Expr>, was_multiline: bool },
    DictLit { entries: Vec<(Expr, Expr)>, was_multiline: bool },
    Unary { op: UnaryOp, operand: Box<Expr> },
    Binary { op: BinaryOp, lhs: Box<Expr>, rhs: Box<Expr> },
    Call { callee: Box<Expr>, type_args: Vec<TypeAnn>, args: Vec<Arg>, was_multiline: bool },
    MethodCall {
        receiver: Box<Expr>,
        method: String,
        type_args: Vec<TypeAnn>,
        args: Vec<Arg>,
        was_multiline: bool,
    },
    FieldAccess { target: Box<Expr>, field: String },
    TupleIndex { target: Box<Expr>, index: u32 },
    Index { target: Box<Expr>, index: Box<Expr> },
    Question { target: Box<Expr> },
    Pipe(PipeExpr),
    Lambda { params: Vec<LambdaParam>, body: Box<Expr> },
    If(Box<IfExpr>),
    Match { scrutinee: Box<Expr>, arms: Vec<MatchArm> },
    Par { kind: ParKind, elements: Vec<Expr> },
    Grouping(Box<Expr>),
}

#[derive(Clone, Copy, Debug, PartialEq, Eq, Structural)]
pub enum UnaryOp {
    Neg,
    Not,
}

#[derive(Clone, Copy, Debug, PartialEq, Eq, Structural)]
pub enum BinaryOp {
    Add,
    Sub,
    Mul,
    Div,
    Mod,
    EqEq,
    NotEq,
    Lt,
    LtEq,
    Gt,
    GtEq,
    And,
    Or,
}

#[derive(Clone, Copy, Debug, PartialEq, Eq, Structural)]
pub enum ParKind {
    List,
    Tuple,
}

#[derive(Debug)]
pub enum FStringSegment {
    Text(String),
    Expr(Box<Expr>),
}

#[derive(Debug)]
pub struct Arg {
    pub name: Option<String>,
    pub value: Expr,
    pub is_placeholder: bool,
}

#[derive(Debug)]
pub struct LambdaParam {
    pub name: String,
    pub ty: Option<TypeAnn>,
    pub span: Span,
}

#[derive(Debug)]
pub struct PipeExpr {
    pub source: Box<Expr>,
    pub stages: Vec<PipeStage>,
}

#[derive(Debug)]
pub struct PipeStage {
    pub callee: PipeCallee,
    pub question: bool,
    pub span: Span,
}

#[derive(Debug)]
pub enum PipeCallee {
    Bare(Expr),
    WithArgs { callee: Box<Expr>, args: Vec<Arg> },
}

#[derive(Debug)]
pub struct IfExpr {
    pub cond: Box<Expr>,
    pub then_branch: Block,
    pub else_branch: ElseBranch,
    pub span: Span,
}

#[derive(Debug)]
pub enum ElseBranch {
    Block(Block),
    ElseIf(Box<IfExpr>),
}

#[derive(Debug)]
pub struct MatchArm {
    pub pattern: Pattern,
    pub body: MatchArmBody,
    pub leading_comments: Vec<LeadingComment>,
    pub trailing_comment: Option<String>,
    pub span: Span,
}

#[derive(Debug)]
pub enum MatchArmBody {
    Expr(Expr),
    Block(Block),
}

#[derive(Debug)]
pub enum Pattern {
    Literal(LiteralPat, Span),
    Wildcard(Span),
    BareIdent(String, NodeId, Span),
    Variant { name: String, fields: Vec<SubPattern>, span: Span },
    Tuple { elements: Vec<SubPattern>, span: Span },
}

/// A pattern inside another one: patterns nest no deeper.
#[derive(Debug)]
pub enum SubPattern {
    Literal(LiteralPat, Span),
    Wildcard(Span),
    BareIdent(String, NodeId, Span),
}

/// A literal in a pattern. A float carries its decimal spelling, with its sign.
#[derive(Debug)]
pub enum LiteralPat {
    Int(i64),
    Float(String),
    Str(String),
    Bool(bool),
}

// ---------------------------------------------------------------------------
// What the nodes stand for
// ---------------------------------------------------------------------------

pub ghost struct ModuleV {
    pub file: FileId,
    pub is_module_directive: bool,
    pub items: Seq<ItemV>,
    pub trailing_comments: Seq<LeadingV>,
}

pub ghost enum ItemV {
    Decl(DeclV),
    Stmt(StmtV),
}

pub ghost enum DeclV {
    Function(FunctionV),
    Struct(StructV),
    Enum(EnumV),
}

pub ghost struct FunctionV {
    pub id: NodeId,
    pub name: Seq<char>,
    pub generics: Seq<Seq<char>>,
    pub self_param: Option<SelfParam>,
    pub params: Seq<ParamV>,
    pub ret: TypeV,
    pub effects: Seq<Seq<char>>,
    pub body: BlockV,
    pub leading_comments: Seq<LeadingV>,
    pub doc_comment: Option<DocV>,
    pub span: Span,
}

pub ghost struct ParamV {
    pub name: Seq<char>,
    pub ty: TypeV,
    pub span: Span,
}

pub ghost struct StructV {
    pub id: NodeId,
    pub name: Seq<char>,
    pub generics: Seq<Seq<char>>,
    pub fields: Seq<ParamV>,
    pub field_leading_comments: Seq<Seq<LeadingV>>,
    pub field_trailing_comments: Seq<Option<Seq<char>>>,
    pub methods: Seq<FunctionV>,
    pub leading_comments: Seq<LeadingV>,
    pub doc_comment: Option<DocV>,
    pub span: Span,
}

pub ghost struct EnumV {
    pub id: NodeId,
    pub name: Seq<char>,
    pub generics: Seq<Seq<char>>,
    pub variants: Seq<VariantV>,
    pub leading_comments: Seq<LeadingV>,
    pub doc_comment: Option<DocV>,
    pub span: Span,
}

pub ghost struct VariantV {
    pub name: Seq<char>,
    pub fields: Seq<TypeV>,
    pub field_names: Seq<Option<Seq<char>>>,
    pub leading_comments: Seq<LeadingV>,
    pub trailing_comment: Option<Seq<char>>,
    pub span: Span,
}

pub ghost struct LeadingV {
    pub text: Seq<char>,
    pub line: u32,
}

pub ghost struct DocV {
    pub prose_lines: Seq<Seq<char>>,
    pub fences: Seq<FenceV>,
    pub parts: Seq<DocPart>,
    pub span: Span,
}

pub ghost struct FenceV {
    pub lang_tag: Option<Seq<char>>,
    pub body_start_line: u32,
    pub raw_text: Seq<char>,
    pub span: Span,
}

pub ghost struct TypeV {
    pub kind: TypeKindV,
    pub span: Span,
}

pub ghost enum TypeKindV {
    Void,
    Named { name: Seq<char>, args: Seq<TypeV> },
    Tuple(Seq<TypeV>),
    Function { params: Seq<TypeV>, effects: Seq<Seq<char>>, ret: Box<TypeV> },
}

pub ghost struct BlockV {
    pub stmts: Seq<StmtV>,
    pub span: Span,
}

pub ghost struct StmtV {
    pub kind: StmtKindV,
    pub span: Span,
    pub doc_comment: Option<DocV>,
    pub leading_comments: Seq<LeadingV>,
    pub trailing_comment: Option<Seq<char>>,
}

pub ghost enum StmtKindV {
    VarDecl { name: Seq<char>, ty: Option<TypeV>, value: ExprV },
    NameAssign { name: Seq<char>, ty: Option<TypeV>, value: ExprV },
    FieldAssign { target: ExprV, field: Seq<char>, value: ExprV },
    IndexAssign { target: ExprV, index: ExprV, value: ExprV },
    Discard(ExprV),
    ExprStmt(ExprV),
    Return(Option<ExprV>),
}

pub ghost struct ExprV {
    pub id: NodeId,
    pub kind: ExprKindV,
    pub span: Span,
}

pub ghost enum ExprKindV {
    IntLit(i64),
    FloatLit(Seq<char>),
    BoolLit(bool),
    StringLit(Seq<char>),
    FString(Seq<SegmentV>),
    Ident(Seq<char>),
    ListLit { elements: Seq<ExprV>, was_multiline: bool },
    SetLit { elements: Seq<ExprV>, was_multiline: bool },
    TupleLit { elements: Seq<ExprV>, was_multiline: bool },
    DictLit { entries: Seq<(ExprV, ExprV)>, was_multiline: bool },
    Unary { op: UnaryOp, operand: Box<ExprV> },
    Binary { op: BinaryOp, lhs: Box<ExprV>, rhs: Box<ExprV> },
    Call { callee: Box<ExprV>, type_args: Seq<TypeV>, args: Seq<ArgV>, was_multiline: bool },
    MethodCall {
        receiver: Box<ExprV>,
        method: Seq<char>,
        type_args: Seq<TypeV>,
        args: Seq<ArgV>,
        was_multiline: bool,
    },
    FieldAccess { target: Box<ExprV>, field: Seq<char> },
    TupleIndex { target: Box<ExprV>, index: u32 },
    Index { target: Box<ExprV>, index: Box<ExprV> },
    Question { target: Box<ExprV> },
    Pipe { source: Box<ExprV>, stages: Seq<StageV> },
    Lambda { params: Seq<LambdaParamV>, body: Box<ExprV> },
    If(Box<IfV>),
    Match { scrutinee: Box<ExprV>, arms: Seq<ArmV> },
    Par { kind: ParKind, elements: Seq<ExprV> },
    Grouping(Box<ExprV>),
}

pub ghost enum SegmentV {
    Text(Seq<char>),
    Expr(Box<ExprV>),
}

pub ghost struct ArgV {
    pub name: Option<Seq<char>>,
    pub value: ExprV,
    pub is_placeholder: bool,
}

pub ghost struct LambdaParamV {
    pub name: Seq<char>,
    pub ty: Option<TypeV>,
    pub span: Span,
}

pub ghost struct StageV {
    pub callee: CalleeV,
    pub question: bool,
    pub span: Span,
}

pub ghost enum CalleeV {
    Bare(ExprV),
    WithArgs { callee: Box<ExprV>, args: Seq<ArgV> },
}

pub ghost struct IfV {
    pub cond: Box<ExprV>,
    pub then_branch: BlockV,
    pub else_branch: ElseV,
    pub span: Span,
}

pub ghost enum ElseV {
    Block(BlockV),
    ElseIf(Box<IfV>),
}

pub ghost struct ArmV {
    pub pattern: PatternV,
    pub body: ArmBodyV,
    pub leading_comments: Seq<LeadingV>,
    pub trailing_comment: Option<Seq<char>>,
    pub span: Span,
}

pub ghost enum ArmBodyV {
    Expr(ExprV),
    Block(BlockV),
}

pub ghost enum PatternV {
    Literal(LiteralV, Span),
    Wildcard(Span),
    BareIdent(Seq<char>, NodeId, Span),
    Variant { name: Seq<char>, fields: Seq<SubPatternV>, span: Span },
    Tuple { elements: Seq<SubPatternV>, span: Span },
}

pub ghost enum SubPatternV {
    Literal(LiteralV, Span),
    Wildcard(Span),
    BareIdent(Seq<char>, NodeId, Span),
}

pub ghost enum LiteralV {
    Int(i64),
    Float(Seq<char>),
    Str(Seq<char>),
    Bool(bool),
}

impl LiteralPat {
    pub open spec fn view(&self) -> LiteralV {
        match *self {
            LiteralPat::Int(n) => LiteralV::Int(n),
            LiteralPat::Float(s) => LiteralV::Float(s@),
            LiteralPat::Str(s) => LiteralV::Str(s@),
            LiteralPat::Bool(b) => LiteralV::Bool(b),
        }
    }
}

impl SubPattern {
    pub open spec fn view(&self) -> SubPatternV {
        match *self {
            SubPattern::Literal(l, s) => SubPatternV::Literal(l.view(), s),
            SubPattern::Wildcard(s) => SubPatternV::Wildcard(s),
            SubPattern::BareIdent(n, id, s) => SubPatternV::BareIdent(n@, id, s),
        }
    }
}

pub open spec fn sub_patterns_view(v: Seq<SubPattern>) -> Seq<SubPatternV> {
    Seq::new(v.len(), |i: int| v[i].view())
}

impl Pattern {
    pub open spec fn view(&self) -> PatternV {
        match *self {
            Pattern::Literal(l, s) => PatternV::Literal(l.view(), s),
            Pattern::Wildcard(s) => PatternV::Wildcard(s),
            Pattern::BareIdent(n, id, s) => PatternV::BareIdent(n@, id, s),
            Pattern::Variant { name, fields, span } => PatternV::Variant {
                name: name@,
                fields: sub_patterns_view(fields@),
                span,
            },
            Pattern::Tuple { elements, span } => PatternV::Tuple {
                elements: sub_patterns_view(elements@),
                span,
            },
        }
    }
}

impl TypeAnn {
    pub open spec fn view(&self) -> TypeV
        decreases self,
    {
        TypeV { kind: self.kind.view(), span: self.span }
    }
}

impl TypeAnnKind {
    pub open spec fn view(&self) -> TypeKindV
        decreases self,
    {
        match *self {
            TypeAnnKind::Void => TypeKindV::Void,
            TypeAnnKind::Named { name, args } => TypeKindV::Named {
                name: name@,
                args: types_view(args@),
            },
            TypeAnnKind::Tuple(args) => TypeKindV::Tuple(types_view(args@)),
            TypeAnnKind::Function { params, effects, ret } => TypeKindV::Function {
                params: types_view(params@),
                effects: texts(effects@),
                ret: Box::new(ret.view()),
            },
        }
    }
}

pub open spec fn types_view(v: Seq<TypeAnn>) -> Seq<TypeV>
    decreases v,
{
    Seq::new(v.len(), |i: int| if 0 <= i < v.len() { v[i].view() } else { arbitrary() })
}

pub open spec fn opt_type_view(o: Option<TypeAnn>) -> Option<TypeV> {
    match o {
        Some(t) => Some(t.view()),
        None => None,
    }
}

impl LeadingComment {
    pub open spec fn view(&self) -> LeadingV {
        LeadingV { text: self.text@, line: self.line }
    }
}

pub open spec fn leading_view(v: Seq<LeadingComment>) -> Seq<LeadingV> {
    Seq::new(v.len(), |i: int| v[i].view())
}

impl DocFence {
    pub open spec fn view(&self) -> FenceV {
        FenceV {
            lang_tag: opt_text(self.lang_tag),
            body_start_line: self.body_start_line,
            raw_text: self.raw_text@,
            span: self.span,
        }
    }
}

pub open spec fn fences_view(v: Seq<DocFence>) -> Seq<FenceV> {
    Seq::new(v.len(), |i: int| v[i].view())
}

impl DocComment {
    pub open spec fn view(&self) -> DocV {
        DocV {
            prose_lines: texts(self.prose_lines@),
            fences: fences_view(self.fences@),
            parts: self.parts@,
            span: self.span,
        }
    }
}

pub open spec fn opt_doc_view(o: Option<DocComment>) -> Option<DocV> {
    match o {
        Some(d) => Some(d.view()),
        None => None,
    }
}

impl Param {
    pub open spec fn view(&self) -> ParamV {
        ParamV { name: self.name@, ty: self.ty.view(), span: self.span }
    }
}

pub open spec fn params_view(v: Seq<Param>) -> Seq<ParamV> {
    Seq::new(v.len(), |i: int| v[i].view())
}

impl LambdaParam {
    pub open spec fn view(&self) -> LambdaParamV {
        LambdaParamV { name: self.name@, ty: opt_type_view(self.ty), span: self.span }
    }
}

pub open spec fn lambda_params_view(v: Seq<LambdaParam>) -> Seq<LambdaParamV> {
    Seq::new(v.len(), |i: int| v[i].view())
}

pub open spec fn opt_texts(v: Seq<Option<String>>) -> Seq<Option<Seq<char>>> {
    Seq::new(v.len(), |i: int| opt_text(v[i]))
}

impl EnumVariant {
    pub open spec fn view(&self) -> VariantV {
        VariantV {
            name: self.name@,
            fields: types_view(self.fields@),
            field_names: opt_texts(self.field_names@),
            leading_comments: leading_view(self.leading_comments@),
            trailing_comment: opt_text(self.trailing_comment),
            span: self.span,
        }
    }
}

pub open spec fn variants_view(v: Seq<EnumVariant>) -> Seq<VariantV> {
    Seq::new(v.len(), |i: int| v[i].view())
}

impl Expr {
    #[verifier::opaque]
    pub open spec fn view(&self) -> ExprV
        decreases self,
    {
        ExprV { id: self.id, kind: self.kind.view(), span: self.span }
    }
}

#[verifier::opaque]
pub open spec fn exprs_rec(v: Seq<Expr>) -> Seq<ExprV>
    decreases v,
{
    Seq::new(v.len(), |i: int| if 0 <= i < v.len() { v[i].view() } else { arbitrary() })
}

#[verifier::opaque]
pub open spec fn entries_rec(v: Seq<(Expr, Expr)>) -> Seq<(ExprV, ExprV)>
    decreases v,
{
    Seq::new(
        v.len(),
        |i: int|
            if 0 <= i < v.len() {
                (v[i].0.view(), v[i].1.view())
            } else {
                arbitrary()
            },
    )
}

impl Arg {
    #[verifier::opaque]
    pub open spec fn view(&self) -> ArgV
        decreases self,
    {
        ArgV {
            name: opt_text(self.name),
            value: self.value.view(),
            is_placeholder: self.is_placeholder,
        }
    }
}

#[verifier::opaque]
pub open spec fn args_rec(v: Seq<Arg>) -> Seq<ArgV>
    decreases v,
{
    Seq::new(v.len(), |i: int| if 0 <= i < v.len() { v[i].view() } else { arbitrary() })
}

impl FStringSegment {
    #[verifier::opaque]
    pub open spec fn view(&self) -> SegmentV
        decreases self,
    {
        match *self {
            FStringSegment::Text(s) => SegmentV::Text(s@),
            FStringSegment::Expr(e) => SegmentV::Expr(Box::new(e.view())),
        }
    }
}

#[verifier::opaque]
pub open spec fn segments_rec(v: Seq<FStringSegment>) -> Seq<SegmentV>
    decreases v,
{
    Seq::new(v.len(), |i: int| if 0 <= i < v.len() { v[i].view() } else { arbitrary() })
}

impl PipeStage {
    #[verifier::opaque]
    pub open spec fn view(&self) -> StageV
        decreases self,
    {
        StageV { callee: self.callee.view(), question: self.question, span: self.span }
    }
}

impl PipeCallee {
    #[verifier::opaque]
    pub open spec fn view(&self) -> CalleeV
        decreases self,
    {
        match *self {
            PipeCallee::Bare(e) => CalleeV::Bare(e.view()),
            PipeCallee::WithArgs { callee, args } => CalleeV::WithArgs {
                callee: Box::new(callee.view()),
                args: args_rec(args@),
            },
        }
    }
}

#[verifier::opaque]
pub open spec fn stages_rec(v: Seq<PipeStage>) -> Seq<StageV>
    decreases v,
{
    Seq::new(v.len(), |i: int| if 0 <= i < v.len() { v[i].view() } else { arbitrary() })
}

impl IfExpr {
    #[verifier::opaque]
    pub open spec fn view(&self) -> IfV
        decreases self,
    {
        IfV {
            cond: Box::new(self.cond.view()),
            then_branch: self.then_branch.view(),
            else_branch: self.else_branch.view(),
            span: self.span,
        }
    }
}

impl ElseBranch {
    #[verifier::opaque]
    pub open spec fn view(&self) -> ElseV
        decreases self,
    {
        match *self {
            ElseBranch::Block(b) => ElseV::Block(b.view()),
            ElseBranch::ElseIf(i) => ElseV::ElseIf(Box::new(i.view())),
        }
    }
}

impl MatchArm {
    #[verifier::opaque]
    pub open spec fn view(&self) -> ArmV
        decreases self,
    {
        ArmV {
            pattern: self.pattern.view(),
            body: self.body.view(),
            leading_comments: leading_view(self.leading_comments@),
            trailing_comment: opt_text(self.trailing_comment),
            span: self.span,
        }
    }
}

impl MatchArmBody {
    #[verifier::opaque]
    pub open spec fn view(&self) -> ArmBodyV
        decreases self,
    {
        match *self {
            MatchArmBody::Expr(e) => ArmBodyV::Expr(e.view()),
            MatchArmBody::Block(b) => ArmBodyV::Block(b.view()),
        }
    }
}

#[verifier::opaque]
pub open spec fn arms_rec(v: Seq<MatchArm>) -> Seq<ArmV>
    decreases v,
{
    Seq::new(v.len(), |i: int| if 0 <= i < v.len() { v[i].view() } else { arbitrary() })
}

impl ExprKind {
    #[verifier::opaque]
    pub open spec fn view(&self) -> ExprKindV
        decreases self,
    {
        match *self {
            ExprKind::IntLit(n) => ExprKindV::IntLit(n),
            ExprKind::FloatLit(s) => ExprKindV::FloatLit(s@),
            ExprKind::BoolLit(b) => ExprKindV::BoolLit(b),
            ExprKind::StringLit(s) => ExprKindV::StringLit(s@),
            ExprKind::FString(segments) => ExprKindV::FString(segments_rec(segments@)),
            ExprKind::Ident(s) => ExprKindV::Ident(s@),
            ExprKind::ListLit { elements, was_multiline } => ExprKindV::ListLit {
                elements: exprs_rec(elements@),
                was_multiline,
            },
            ExprKind::SetLit { elements, was_multiline } => ExprKindV::SetLit {
                elements: exprs_rec(elements@),
                was_multiline,
            },
            ExprKind::TupleLit { elements, was_multiline } => ExprKindV::TupleLit {
                elements: exprs_rec(elements@),
                was_multiline,
            },
            ExprKind::DictLit { entries, was_multiline } => ExprKindV::DictLit {
                entries: entries_rec(entries@),
                was_multiline,
            },
            ExprKind::Unary { op, operand } => ExprKindV::Unary {
                op,
                operand: Box::new(operand.view()),
            },
            ExprKind::Binary { op, lhs, rhs } => ExprKindV::Binary {
                op,
                lhs: Box::new(lhs.view()),
                rhs: Box::new(rhs.view()),
            },
            ExprKind::Call { callee, type_args, args, was_multiline } => ExprKindV::Call {
                callee: Box::new(callee.view()),
                type_args: types_view(type_args@),
                args: args_rec(args@),
                was_multiline,
            },
            ExprKind::MethodCall { receiver, method, type_args, args, was_multiline } =>
                ExprKindV::MethodCall {
                receiver: Box::new(receiver.view()),
                method: method@,
                type_args: types_view(type_args@),
                args: args_rec(args@),
                was_multiline,
            },
            ExprKind::FieldAccess { target, field } => ExprKindV::FieldAccess {
                target: Box::new(target.view()),
                field: field@,
            },
            ExprKind::TupleIndex { target, index } => ExprKindV::TupleIndex {
                target: Box::new(target.view()),
                index,
            },
            ExprKind::Index { target, index } => ExprKindV::Index {
                target: Box::new(target.view()),
                index: Box::new(index.view()),
            },
            ExprKind::Question { target } => ExprKindV::Question {
                target: Box::new(target.view()),
            },
            ExprKind::Pipe(pipe) => ExprKindV::Pipe {
                source: Box::new(pipe.source.view()),
                stages: stages_rec(pipe.stages@),
            },
            ExprKind::Lambda { params, body } => ExprKindV::Lambda {
                params: lambda_params_view(params@),
                body: Box::new(body.view()),
            },
            ExprKind::If(i) => ExprKindV::If(Box::new(i.view())),
            ExprKind::Match { scrutinee, arms } => ExprKindV::Match {
                scrutinee: Box::new(scrutinee.view()),
                arms: arms_rec(arms@),
            },
            ExprKind::Par { kind, elements } => ExprKindV::Par {
                kind,
                elements: exprs_rec(elements@),
            },
            ExprKind::Grouping(e) => ExprKindV::Grouping(Box::new(e.view())),
        }
    }
}

impl Block {
    #[verifier::opaque]
    pub open spec fn view(&self) -> BlockV
        decreases self,
    {
        BlockV { stmts: stmts_rec(self.stmts@), span: self.span }
    }
}

impl Stmt {
    #[verifier::opaque]
    pub open spec fn view(&self) -> StmtV
        decreases self,
    {
        StmtV {
            kind: self.kind.view(),
            span: self.span,
            doc_comment: opt_doc_view(self.doc_comment),
            leading_comments: leading_view(self.leading_comments@),
            trailing_comment: opt_text(self.trailing_comment),
        }
    }
}

#[verifier::opaque]
pub open spec fn stmts_rec(v: Seq<Stmt>) -> Seq<StmtV>
    decreases v,
{
    Seq::new(v.len(), |i: int| if 0 <= i < v.len() { v[i].view() } else { arbitrary() })
}

impl StmtKind {
    #[verifier::opaque]
    pub open spec fn view(&self) -> StmtKindV
        decreases self,
    {
        match *self {
            StmtKind::VarDecl { name, ty, value } => StmtKindV::VarDecl {
                name: name@,
                ty: opt_type_view(ty),
                value: value.view(),
            },
            StmtKind::NameAssign { name, ty, value } => StmtKindV::NameAssign {
                name: name@,
                ty: opt_type_view(ty),
                value: value.view(),
            },
            StmtKind::FieldAssign { target, field, value } => StmtKindV::FieldAssign {
                target: target.view(),
                field: field@,
                value: value.view(),
            },
            StmtKind::IndexAssign { target, index, value } => StmtKindV::IndexAssign {
                target: target.view(),
                index: index.view(),
                value: value.view(),
            },
            StmtKind::Discard(e) => StmtKindV::Discard(e.view()),
            StmtKind::ExprStmt(e) => StmtKindV::ExprStmt(e.view()),
            StmtKind::Return(o) => StmtKindV::Return(
                match o {
                    Some(e) => Some(e.view()),
                    None => None,
                },
            ),
        }
    }
}

// ---------------------------------------------------------------------------
// The same values, one level at a time
// ---------------------------------------------------------------------------

pub open spec fn exprs_view(v: Seq<Expr>) -> Seq<ExprV> {
    Seq::new(v.len(), |i: int| v[i].view())
}

pub open spec fn entries_view(v: Seq<(Expr, Expr)>) -> Seq<(ExprV, ExprV)> {
    Seq::new(v.len(), |i: int| (v[i].0.view(), v[i].1.view()))
}

pub open spec fn args_view(v: Seq<Arg>) -> Seq<ArgV> {
    Seq::new(v.len(), |i: int| v[i].view())
}

pub open spec fn segments_view(v: Seq<FStringSegment>) -> Seq<SegmentV> {
    Seq::new(v.len(), |i: int| v[i].view())
}

pub open spec fn stages_view(v: Seq<PipeStage>) -> Seq<StageV> {
    Seq::new(v.len(), |i: int| v[i].view())
}

pub open spec fn arms_view(v: Seq<MatchArm>) -> Seq<ArmV> {
    Seq::new(v.len(), |i: int| v[i].view())
}

pub open spec fn stmts_view(v: Seq<Stmt>) -> Seq<StmtV> {
    Seq::new(v.len(), |i: int| v[i].view())
}

impl Expr {
    /// What this node stands for, in terms of what its children stand for.
    pub open spec fn shape(&self) -> ExprV {
        ExprV { id: self.id, kind: self.kind.view(), span: self.span }
    }
}

impl ExprKind {
    /// What this node stands for, in terms of what its children stand for.
    pub open spec fn shape(&self) -> ExprKindV {
        match *self {
            ExprKind::IntLit(n) => ExprKindV::IntLit(n),
            ExprKind::FloatLit(s) => ExprKindV::FloatLit(s@),
            ExprKind::BoolLit(b) => ExprKindV::BoolLit(b),
            ExprKind::StringLit(s) => ExprKindV::StringLit(s@),
            ExprKind::FString(segments) => ExprKindV::FString(segments_view(segments@)),
            ExprKind::Ident(s) => ExprKindV::Ident(s@),
            ExprKind::ListLit { elements, was_multiline } => ExprKindV::ListLit {
                elements: exprs_view(elements@),
                was_multiline,
            },
            ExprKind::SetLit { elements, was_multiline } => ExprKindV::SetLit {
                elements: exprs_view(elements@),
                was_multiline,
            },
            ExprKind::TupleLit { elements, was_multiline } => ExprKindV::TupleLit {
                elements: exprs_view(elements@),
                was_multiline,
            },
            ExprKind::DictLit { entries, was_multiline } => ExprKindV::DictLit {
                entries: entries_view(entries@),
                was_multiline,
            },
            ExprKind::Unary { op, operand } => ExprKindV::Unary {
                op,
                operand: Box::new(operand.view()),
            },
            ExprKind::Binary { op, lhs, rhs } => ExprKindV::Binary {
                op,
                lhs: Box::new(lhs.view()),
                rhs: Box::new(rhs.view()),
            },
            ExprKind::Call { callee, type_args, args, was_multiline } => ExprKindV::Call {
                callee: Box::new(callee.view()),
                type_args: types_view(type_args@),
                args: args_view(args@),
                was_multiline,
            },
            ExprKind::MethodCall { receiver, method, type_args, args, was_multiline } =>
                ExprKindV::MethodCall {
                receiver: Box::new(receiver.view()),
                method: method@,
                type_args: types_view(type_args@),
                args: args_view(args@),
                was_multiline,
            },
            ExprKind::FieldAccess { target, field } => ExprKindV::FieldAccess {
                target: Box::new(target.view()),
                field: field@,
            },
            ExprKind::TupleIndex { target, index } => ExprKindV::TupleIndex {
                target: Box::new(target.view()),
                index,
            },
            ExprKind::Index { target, index } => ExprKindV::Index {
                target: Box::new(target.view()),
                index: Box::new(index.view()),
            },
            ExprKind::Question { target } => ExprKindV::Question {
                target: Box::new(target.view()),
            },
            ExprKind::Pipe(pipe) => ExprKindV::Pipe {
                source: Box::new(pipe.source.view()),
                stages: stages_view(pipe.stages@),
            },
            ExprKind::Lambda { params, body } => ExprKindV::Lambda {
                params: lambda_params_view(params@),
                body: Box::new(body.view()),
            },
            ExprKind::If(i) => ExprKindV::If(Box::new(i.view())),
            ExprKind::Match { scrutinee, arms } => ExprKindV::Match {
                scrutinee: Box::new(scrutinee.view()),
                arms: arms_view(arms@),
            },
            ExprKind::Par { kind, elements } => ExprKindV::Par {
                kind,
                elements: exprs_view(elements@),
            },
            ExprKind::Grouping(e) => ExprKindV::Grouping(Box::new(e.view())),
        }
    }
}

impl Arg {
    /// What this node stands for, in terms of what its children stand for.
    pub open spec fn shape(&self) -> ArgV {
        ArgV {
            name: opt_text(self.name),
            value: self.value.view(),
            is_placeholder: self.is_placeholder,
        }
    }
}

impl FStringSegment {
    /// What this node stands for, in terms of what its children stand for.
    pub open spec fn shape(&self) -> SegmentV {
        match *self {
            FStringSegment::Text(s) => SegmentV::Text(s@),
            FStringSegment::Expr(e) => SegmentV::Expr(Box::new(e.view())),
        }
    }
}

impl PipeStage {
    /// What this node stands for, in terms of what its children stand for.
    pub open spec fn shape(&self) -> StageV {
        StageV { callee: self.callee.view(), question: self.question, span: self.span }
    }
}

impl PipeCallee {
    /// What this node stands for, in terms of what its children stand for.
    pub open spec fn shape(&self) -> CalleeV {
        match *self {
            PipeCallee::Bare(e) => CalleeV::Bare(e.view()),
            PipeCallee::WithArgs { callee, args } => CalleeV::WithArgs {
                callee: Box::new(callee.view()),
                args: args_view(args@),
            },
        }
    }
}

impl IfExpr {
    /// What this node stands for, in terms of what its children stand for.
    pub open spec fn shape(&self) -> IfV {
        IfV {
            cond: Box::new(self.cond.view()),
            then_branch: self.then_branch.view(),
            else_branch: self.else_branch.view(),
            span: self.span,
        }
    }
}

impl ElseBranch {
    /// What this node stands for, in terms of what its children stand for.
    pub open spec fn shape(&self) -> ElseV {
        match *self {
            ElseBranch::Block(b) => ElseV::Block(b.view()),
            ElseBranch::ElseIf(i) => ElseV::ElseIf(Box::new(i.view())),
        }
    }
}

impl MatchArm {
    /// What this node stands for, in terms of what its children stand for.
    pub open spec fn shape(&self) -> ArmV {
        ArmV {
            pattern: self.pattern.view(),
            body: self.body.view(),
            leading_comments: leading_view(self.leading_comments@),
            trailing_comment: opt_text(self.trailing_comment),
            span: self.span,
        }
    }
}

impl MatchArmBody {
    /// What this node stands for, in terms of what its children stand for.
    pub open spec fn shape(&self) -> ArmBodyV {
        match *self {
            MatchArmBody::Expr(e) => ArmBodyV::Expr(e.view()),
            MatchArmBody::Block(b) => ArmBodyV::Block(b.view()),
        }
    }
}

impl Block {
    /// What this node stands for, in terms of what its children stand for.
    pub open spec fn shape(&self) -> BlockV {
        BlockV { stmts: stmts_view(self.stmts@), span: self.span }
    }
}

impl Stmt {
    /// What this node stands for, in terms of what its children stand for.
    pub open spec fn shape(&self) -> StmtV {
        StmtV {
            kind: self.kind.view(),
            span: self.span,
            doc_comment: opt_doc_view(self.doc_comment),
            leading_comments: leading_view(self.leading_comments@),
            trailing_comment: opt_text(self.trailing_comment),
        }
    }
}

impl StmtKind {
    /// What this node stands for, in terms of what its children stand for.
    pub open spec fn shape(&self) -> StmtKindV {
        match *self {
            StmtKind::VarDecl { name, ty, value } => StmtKindV::VarDecl {
                name: name@,
                ty: opt_type_view(ty),
                value: value.view(),
            },
            StmtKind::NameAssign { name, ty, value } => StmtKindV::NameAssign {
                name: name@,
                ty: opt_type_view(ty),
                value: value.view(),
            },
            StmtKind::FieldAssign { target, field, value } => StmtKindV::FieldAssign {
                target: target.view(),
                field: field@,
                value: value.view(),
            },
            StmtKind::IndexAssign { target, index, value } => StmtKindV::IndexAssign {
                target: target.view(),
                index: index.view(),
                value: value.view(),
            },
            StmtKind::Discard(e) => StmtKindV::Discard(e.view()),
            StmtKind::ExprStmt(e) => StmtKindV::ExprStmt(e.view()),
            StmtKind::Return(o) => StmtKindV::Return(
                match o {
                    Some(e) => Some(e.view()),
                    None => None,
                },
            ),
        }
    }
}

proof fn lemma_exprs_rec(v: Seq<Expr>)
    ensures
        exprs_rec(v) == exprs_view(v),
{
    reveal(Expr::view);
    reveal(ExprKind::view);
    reveal(Arg::view);
    reveal(FStringSegment::view);
    reveal(PipeStage::view);
    reveal(PipeCallee::view);
    reveal(IfExpr::view);
    reveal(ElseBranch::view);
    reveal(MatchArm::view);
    reveal(MatchArmBody::view);
    reveal(Block::view);
    reveal(Stmt::view);
    reveal(StmtKind::view);
    reveal(exprs_rec);
    reveal(entries_rec);
    reveal(args_rec);
    reveal(segments_rec);
    reveal(stages_rec);
    reveal(arms_rec);
    reveal(stmts_rec);
    assert(exprs_rec(v) =~= exprs_view(v));
}

proof fn lemma_entries_rec(v: Seq<(Expr, Expr)>)
    ensures
        entries_rec(v) == entries_view(v),
{
    reveal(Expr::view);
    reveal(ExprKind::view);
    reveal(Arg::view);
    reveal(FStringSegment::view);
    reveal(PipeStage::view);
    reveal(PipeCallee::view);
    reveal(IfExpr::view);
    reveal(ElseBranch::view);
    reveal(MatchArm::view);
    reveal(MatchArmBody::view);
    reveal(Block::view);
    reveal(Stmt::view);
    reveal(StmtKind::view);
    reveal(exprs_rec);
    reveal(entries_rec);
    reveal(args_rec);
    reveal(segments_rec);
    reveal(stages_rec);
    reveal(arms_rec);
    reveal(stmts_rec);
    assert(entries_rec(v) =~= entries_view(v));
}

proof fn lemma_args_rec(v: Seq<Arg>)
    ensures
        args_rec(v) == args_view(v),
{
    reveal(Expr::view);
    reveal(ExprKind::view);
    reveal(Arg::view);
    reveal(FStringSegment::view);
    reveal(PipeStage::view);
    reveal(PipeCallee::view);
    reveal(IfExpr::view);
    reveal(ElseBranch::view);
    reveal(MatchArm::view);
    reveal(MatchArmBody::view);
    reveal(Block::view);
    reveal(Stmt::view);
    reveal(StmtKind::view);
    reveal(exprs_rec);
    reveal(entries_rec);
    reveal(args_rec);
    reveal(segments_rec);
    reveal(stages_rec);
    reveal(arms_rec);
    reveal(stmts_rec);
    assert(args_rec(v) =~= args_view(v));
}

proof fn lemma_segments_rec(v: Seq<FStringSegment>)
    ensures
        segments_rec(v) == segments_view(v),
{
    reveal(Expr::view);
    reveal(ExprKind::view);
    reveal(Arg::view);
    reveal(FStringSegment::view);
    reveal(PipeStage::view);
    reveal(PipeCallee::view);
    reveal(IfExpr::view);
    reveal(ElseBranch::view);
    reveal(MatchArm::view);
    reveal(MatchArmBody::view);
    reveal(Block::view);
    reveal(Stmt::view);
    reveal(StmtKind::view);
    reveal(exprs_rec);
    reveal(entries_rec);
    reveal(args_rec);
    reveal(segments_rec);
    reveal(stages_rec);
    reveal(arms_rec);
    reveal(stmts_rec);
    assert(segments_rec(v) =~= segments_view(v));
}

proof fn lemma_stages_rec(v: Seq<PipeStage>)
    ensures
        stages_rec(v) == stages_view(v),
{
    reveal(Expr::view);
    reveal(ExprKind::view);
    reveal(Arg::view);
    reveal(FStringSegment::view);
    reveal(PipeStage::view);
    reveal(PipeCallee::view);
    reveal(IfExpr::view);
    reveal(ElseBranch::view);
    reveal(MatchArm::view);
    reveal(MatchArmBody::view);
    reveal(Block::view);
    reveal(Stmt::view);
    reveal(StmtKind::view);
    reveal(exprs_rec);
    reveal(entries_rec);
    reveal(args_rec);
    reveal(segments_rec);
    reveal(stages_rec);
    reveal(arms_rec);
    reveal(stmts_rec);
    assert(stages_rec(v) =~= stages_view(v));
}

proof fn lemma_arms_rec(v: Seq<MatchArm>)
    ensures
        arms_rec(v) == arms_view(v),
{
    reveal(Expr::view);
    reveal(ExprKind::view);
    reveal(Arg::view);
    reveal(FStringSegment::view);
    reveal(PipeStage::view);
    reveal(PipeCallee::view);
    reveal(IfExpr::view);
    reveal(ElseBranch::view);
    reveal(MatchArm::view);
    reveal(MatchArmBody::view);
    reveal(Block::view);
    reveal(Stmt::view);
    reveal(StmtKind::view);
    reveal(exprs_rec);
    reveal(entries_rec);
    reveal(args_rec);
    reveal(segments_rec);
    reveal(stages_rec);
    reveal(arms_rec);
    reveal(stmts_rec);
    assert(arms_rec(v) =~= arms_view(v));
}

proof fn lemma_stmts_rec(v: Seq<Stmt>)
    ensures
        stmts_rec(v) == stmts_view(v),
{
    reveal(Expr::view);
    reveal(ExprKind::view);
    reveal(Arg::view);
    reveal(FStringSegment::view);
    reveal(PipeStage::view);
    reveal(PipeCallee::view);
    reveal(IfExpr::view);
    reveal(ElseBranch::view);
    reveal(MatchArm::view);
    reveal(MatchArmBody::view);
    reveal(Block::view);
    reveal(Stmt::view);
    reveal(StmtKind::view);
    reveal(exprs_rec);
    reveal(entries_rec);
    reveal(args_rec);
    reveal(segments_rec);
    reveal(stages_rec);
    reveal(arms_rec);
    reveal(stmts_rec);
    assert(stmts_rec(v) =~= stmts_view(v));
}

pub proof fn lemma_expr_view(x: Expr)
    ensures
        x@ == x.shape(),
{
    reveal(Expr::view);
    reveal(ExprKind::view);
    reveal(Arg::view);
    reveal(FStringSegment::view);
    reveal(PipeStage::view);
    reveal(PipeCallee::view);
    reveal(IfExpr::view);
    reveal(ElseBranch::view);
    reveal(MatchArm::view);
    reveal(MatchArmBody::view);
    reveal(Block::view);
    reveal(Stmt::view);
    reveal(StmtKind::view);
    reveal(exprs_rec);
    reveal(entries_rec);
    reveal(args_rec);
    reveal(segments_rec);
    reveal(stages_rec);
    reveal(arms_rec);
    reveal(stmts_rec);
}

pub proof fn lemma_expr_kind_view(x: ExprKind)
    ensures
        x@ == x.shape(),
{
    reveal(Expr::view);
    reveal(ExprKind::view);
    reveal(Arg::view);
    reveal(FStringSegment::view);
    reveal(PipeStage::view);
    reveal(PipeCallee::view);
    reveal(IfExpr::view);
    reveal(ElseBranch::view);
    reveal(MatchArm::view);
    reveal(MatchArmBody::view);
    reveal(Block::view);
    reveal(Stmt::view);
    reveal(StmtKind::view);
    reveal(exprs_rec);
    reveal(entries_rec);
    reveal(args_rec);
    reveal(segments_rec);
    reveal(stages_rec);
    reveal(arms_rec);
    reveal(stmts_rec);
    match x {
        ExprKind::FString(segments) => lemma_segments_rec(segments@),
        ExprKind::ListLit { elements, was_multiline } => lemma_exprs_rec(elements@),
        ExprKind::SetLit { elements, was_multiline } => lemma_exprs_rec(elements@),
        ExprKind::TupleLit { elements, was_multiline } => lemma_exprs_rec(elements@),
        ExprKind::Par { kind, elements } => lemma_exprs_rec(elements@),
        ExprKind::DictLit { entries, was_multiline } => lemma_entries_rec(entries@),
        ExprKind::Call { callee, type_args, args, was_multiline } => lemma_args_rec(args@),
        ExprKind::MethodCall { receiver, method, type_args, args, was_multiline } =>
            lemma_args_rec(args@),
        ExprKind::Pipe(pipe) => lemma_stages_rec(pipe.stages@),
        ExprKind::Match { scrutinee, arms } => lemma_arms_rec(arms@),
        _ => {},
    }
}

pub proof fn lemma_arg_view(x: Arg)
    ensures
        x@ == x.shape(),
{
    reveal(Expr::view);
    reveal(ExprKind::view);
    reveal(Arg::view);
    reveal(FStringSegment::view);
    reveal(PipeStage::view);
    reveal(PipeCallee::view);
    reveal(IfExpr::view);
    reveal(ElseBranch::view);
    reveal(MatchArm::view);
    reveal(MatchArmBody::view);
    reveal(Block::view);
    reveal(Stmt::view);
    reveal(StmtKind::view);
    reveal(exprs_rec);
    reveal(entries_rec);
    reveal(args_rec);
    reveal(segments_rec);
    reveal(stages_rec);
    reveal(arms_rec);
    reveal(stmts_rec);
}

pub proof fn lemma_fstring_segment_view(x: FStringSegment)
    ensures
        x@ == x.shape(),
{
    reveal(Expr::view);
    reveal(ExprKind::view);
    reveal(Arg::view);
    reveal(FStringSegment::view);
    reveal(PipeStage::view);
    reveal(PipeCallee::view);
    reveal(IfExpr::view);
    reveal(ElseBranch::view);
    reveal(MatchArm::view);
    reveal(MatchArmBody::view);
    reveal(Block::view);
    reveal(Stmt::view);
    reveal(StmtKind::view);
    reveal(exprs_rec);
    reveal(entries_rec);
    reveal(args_rec);
    reveal(segments_rec);
    reveal(stages_rec);
    reveal(arms_rec);
    reveal(stmts_rec);
}

pub proof fn lemma_pipe_stage_view(x: PipeStage)
    ensures
        x@ == x.shape(),
{
    reveal(Expr::view);
    reveal(ExprKind::view);
    reveal(Arg::view);
    reveal(FStringSegment::view);
    reveal(PipeStage::view);
    reveal(PipeCallee::view);
    reveal(IfExpr::view);
    reveal(ElseBranch::view);
    reveal(MatchArm::view);
    reveal(MatchArmBody::view);
    reveal(Block::view);
    reveal(Stmt::view);
    reveal(StmtKind::view);
    reveal(exprs_rec);
    reveal(entries_rec);
    reveal(args_rec);
    reveal(segments_rec);
    reveal(stages_rec);
    reveal(arms_rec);
    reveal(stmts_rec);
}

pub proof fn lemma_pipe_callee_view(x: PipeCallee)
    ensures
        x@ == x.shape(),
{
    reveal(Expr::view);
    reveal(ExprKind::view);
    reveal(Arg::view);
    reveal(FStringSegment::view);
    reveal(PipeStage::view);
    reveal(PipeCallee::view);
    reveal(IfExpr::view);
    reveal(ElseBranch::view);
    reveal(MatchArm::view);
    reveal(MatchArmBody::view);
    reveal(Block::view);
    reveal(Stmt::view);
    reveal(StmtKind::view);
    reveal(exprs_rec);
    reveal(entries_rec);
    reveal(args_rec);
    reveal(segments_rec);
    reveal(stages_rec);
    reveal(arms_rec);
    reveal(stmts_rec);
    match x {
        PipeCallee::WithArgs { callee, args } => lemma_args_rec(args@),
        _ => {},
    }
}

pub proof fn lemma_if_expr_view(x: IfExpr)
    ensures
        x@ == x.shape(),
{
    reveal(Expr::view);
    reveal(ExprKind::view);
    reveal(Arg::view);
    reveal(FStringSegment::view);
    reveal(PipeStage::view);
    reveal(PipeCallee::view);
    reveal(IfExpr::view);
    reveal(ElseBranch::view);
    reveal(MatchArm::view);
    reveal(MatchArmBody::view);
    reveal(Block::view);
    reveal(Stmt::view);
    reveal(StmtKind::view);
    reveal(exprs_rec);
    reveal(entries_rec);
    reveal(args_rec);
    reveal(segments_rec);
    reveal(stages_rec);
    reveal(arms_rec);
    reveal(stmts_rec);
}

pub proof fn lemma_else_branch_view(x: ElseBranch)
    ensures
        x@ == x.shape(),
{
    reveal(Expr::view);
    reveal(ExprKind::view);
    reveal(Arg::view);
    reveal(FStringSegment::view);
    reveal(PipeStage::view);
    reveal(PipeCallee::view);
    reveal(IfExpr::view);
    reveal(ElseBranch::view);
    reveal(MatchArm::view);
    reveal(MatchArmBody::view);
    reveal(Block::view);
    reveal(Stmt::view);
    reveal(StmtKind::view);
    reveal(exprs_rec);
    reveal(entries_rec);
    reveal(args_rec);
    reveal(segments_rec);
    reveal(stages_rec);
    reveal(arms_rec);
    reveal(stmts_rec);
}

pub proof fn lemma_match_arm_view(x: MatchArm)
    ensures
        x@ == x.shape(),
{
    reveal(Expr::view);
    reveal(ExprKind::view);
    reveal(Arg::view);
    reveal(FStringSegment::view);
    reveal(PipeStage::view);
    reveal(PipeCallee::view);
    reveal(IfExpr::view);
    reveal(ElseBranch::view);
    reveal(MatchArm::view);
    reveal(MatchArmBody::view);
    reveal(Block::view);
    reveal(Stmt::view);
    reveal(StmtKind::view);
    reveal(exprs_rec);
    reveal(entries_rec);
    reveal(args_rec);
    reveal(segments_rec);
    reveal(stages_rec);
    reveal(arms_rec);
    reveal(stmts_rec);
}

pub proof fn lemma_match_arm_body_view(x: MatchArmBody)
    ensures
        x@ == x.shape(),
{
    reveal(Expr::view);
    reveal(ExprKind::view);
    reveal(Arg::view);
    reveal(FStringSegment::view);
    reveal(PipeStage::view);
    reveal(PipeCallee::view);
    reveal(IfExpr::view);
    reveal(ElseBranch::view);
    reveal(MatchArm::view);
    reveal(MatchArmBody::view);
    reveal(Block::view);
    reveal(Stmt::view);
    reveal(StmtKind::view);
    reveal(exprs_rec);
    reveal(entries_rec);
    reveal(args_rec);
    reveal(segments_rec);
    reveal(stages_rec);
    reveal(arms_rec);
    reveal(stmts_rec);
}

pub proof fn lemma_block_view(x: Block)
    ensures
        x@ == x.shape(),
{
    reveal(Expr::view);
    reveal(ExprKind::view);
    reveal(Arg::view);
    reveal(FStringSegment::view);
    reveal(PipeStage::view);
    reveal(PipeCallee::view);
    reveal(IfExpr::view);
    reveal(ElseBranch::view);
    reveal(MatchArm::view);
    reveal(MatchArmBody::view);
    reveal(Block::view);
    reveal(Stmt::view);
    reveal(StmtKind::view);
    reveal(exprs_rec);
    reveal(entries_rec);
    reveal(args_rec);
    reveal(segments_rec);
    reveal(stages_rec);
    reveal(arms_rec);
    reveal(stmts_rec);
    lemma_stmts_rec(x.stmts@);
}

pub proof fn lemma_stmt_view(x: Stmt)
    ensures
        x@ == x.shape(),
{
    reveal(Expr::view);
    reveal(ExprKind::view);
    reveal(Arg::view);
    reveal(FStringSegment::view);
    reveal(PipeStage::view);
    reveal(PipeCallee::view);
    reveal(IfExpr::view);
    reveal(ElseBranch::view);
    reveal(MatchArm::view);
    reveal(MatchArmBody::view);
    reveal(Block::view);
    reveal(Stmt::view);
    reveal(StmtKind::view);
    reveal(exprs_rec);
    reveal(entries_rec);
    reveal(args_rec);
    reveal(segments_rec);
    reveal(stages_rec);
    reveal(arms_rec);
    reveal(stmts_rec);
}

pub proof fn lemma_stmt_kind_view(x: StmtKind)
    ensures
        x@ == x.shape(),
{
    reveal(Expr::view);
    reveal(ExprKind::view);
    reveal(Arg::view);
    reveal(FStringSegment::view);
    reveal(PipeStage::view);
    reveal(PipeCallee::view);
    reveal(IfExpr::view);
    reveal(ElseBranch::view);
    reveal(MatchArm::view);
    reveal(MatchArmBody::view);
    reveal(Block::view);
    reveal(Stmt::view);
    reveal(StmtKind::view);
    reveal(exprs_rec);
    reveal(entries_rec);
    reveal(args_rec);
    reveal(segments_rec);
    reveal(stages_rec);
    reveal(arms_rec);
    reveal(stmts_rec);
}

impl FunctionDecl {
    pub open spec fn view(&self) -> FunctionV {
        FunctionV {
            id: self.id,
            name: self.name@,
            generics: texts(self.generics@),
            self_param: self.self_param,
            params: params_view(self.params@),
            ret: self.ret.view(),
            effects: texts(self.effects@),
            body: self.body.view(),
            leading_comments: leading_view(self.leading_comments@),
            doc_comment: opt_doc_view(self.doc_comment),
            span: self.span,
        }
    }
}

pub open spec fn functions_view(v: Seq<FunctionDecl>) -> Seq<FunctionV> {
    Seq::new(v.len(), |i: int| v[i].view())
}

pub open spec fn leading_lists_view(v: Seq<Vec<LeadingComment>>) -> Seq<Seq<LeadingV>> {
    Seq::new(v.len(), |i: int| leading_view(v[i]@))
}

impl StructDecl {
    pub open spec fn view(&self) -> StructV {
        StructV {
            id: self.id,
            name: self.name@,
            generics: texts(self.generics@),
            fields: params_view(self.fields@),
            field_leading_comments: leading_lists_view(self.field_leading_comments@),
            field_trailing_comments: opt_texts(self.field_trailing_comments@),
            methods: functions_view(self.methods@),
            leading_comments: leading_view(self.leading_comments@),
            doc_comment: opt_doc_view(self.doc_comment),
            span: self.span,
        }
    }
}

impl EnumDecl {
    pub open spec fn view(&self) -> EnumV {
        EnumV {
            id: self.id,
            name: self.name@,
            generics: texts(self.generics@),
            variants: variants_view(self.variants@),
            leading_comments: leading_view(self.leading_comments@),
            doc_comment: opt_doc_view(self.doc_comment),
            span: self.span,
        }
    }
}

impl Decl {
    pub open spec fn view(&self) -> DeclV {
        match *self {
            Decl::Function(f) => DeclV::Function(f.view()),
            Decl::Struct(s) => DeclV::Struct(s.view()),
            Decl::Enum(e) => DeclV::Enum(e.view()),
        }
    }
}

impl Item {
    pub open spec fn view(&self) -> ItemV {
        match *self {
            Item::Decl(d) => ItemV::Decl(d.view()),
            Item::Stmt(s) => ItemV::Stmt(s.view()),
        }
    }
}

pub open spec fn items_view(v: Seq<Item>) -> Seq<ItemV> {
    Seq::new(v.len(), |i: int| v[i].view())
}

impl Module {
    pub open spec fn view(&self) -> ModuleV {
        ModuleV {
            file: self.file,
            is_module_directive: self.is_module_directive,
            items: items_view(self.items@),
            trailing_comments: leading_view(self.trailing_comments@),
        }
    }
}

} // verus!
