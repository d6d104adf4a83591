//! The declarations that every program starts with.

use crate::ast::{
    params_view, types_view, variants_view, BlockV, EnumDecl, EnumV, EnumVariant, FunctionDecl,
    FunctionV, NodeId, Param, ParamV, StructDecl, StructV, TypeAnn, TypeAnnKind, TypeKindV, TypeV,
    VariantV,
};
use crate::ast::functions_view;
use crate::ast_build::new_block;
use crate::diagnostics::{FileId, Position, Span};
use crate::eval::env::{Program, ProgramV};
use crate::names::{lemma_mapped, put_new};
use crate::text::{same_text, texts};
use vstd::prelude::*;

verus! {

// ---------------------------------------------------------------------------
// What the declarations are
// ---------------------------------------------------------------------------

pub open spec fn builtin_span_v() -> Span {
    Span {
        file: FileId(0),
        start: Position { line: 1, col: 1 },
        end: Position { line: 1, col: 1 },
    }
}

/// Nodes of these declarations count down from the greatest identifier.
pub open spec fn nid_v(offset: u32) -> NodeId {
    NodeId((u32::MAX - offset) as u32)
}

pub open spec fn generic_v(name: Seq<char>, args: Seq<TypeV>) -> TypeV {
    TypeV { kind: TypeKindV::Named { name, args }, span: builtin_span_v() }
}

pub open spec fn named_v(name: Seq<char>) -> TypeV {
    generic_v(name, Seq::empty())
}

pub open spec fn void_v() -> TypeV {
    TypeV { kind: TypeKindV::Void, span: builtin_span_v() }
}

pub open spec fn variant_v(name: Seq<char>, fields: Seq<TypeV>) -> VariantV {
    VariantV {
        name,
        fields,
        field_names: Seq::new(fields.len(), |i: int| None),
        leading_comments: Seq::empty(),
        trailing_comment: None,
        span: builtin_span_v(),
    }
}

pub open spec fn param_v(name: Seq<char>, ty: TypeV) -> ParamV {
    ParamV { name, ty, span: builtin_span_v() }
}

pub open spec fn struct_v(name: Seq<char>, id: NodeId, fields: Seq<ParamV>) -> StructV {
    StructV {
        id,
        name,
        generics: Seq::empty(),
        fields,
        field_leading_comments: Seq::empty(),
        field_trailing_comments: Seq::empty(),
        methods: Seq::empty(),
        leading_comments: Seq::empty(),
        doc_comment: None,
        span: builtin_span_v(),
    }
}

pub open spec fn enum_v(
    name: Seq<char>,
    id: NodeId,
    generics: Seq<Seq<char>>,
    variants: Seq<VariantV>,
) -> EnumV {
    EnumV {
        id,
        name,
        generics,
        variants,
        leading_comments: Seq::empty(),
        doc_comment: None,
        span: builtin_span_v(),
    }
}

/// A function that returns nothing and has an empty body.
pub open spec fn function_v(name: Seq<char>, id: NodeId, params: Seq<ParamV>) -> FunctionV {
    FunctionV {
        id,
        name,
        generics: Seq::empty(),
        self_param: None,
        params,
        ret: void_v(),
        effects: Seq::empty(),
        body: BlockV { stmts: Seq::empty(), span: builtin_span_v() },
        leading_comments: Seq::empty(),
        doc_comment: None,
        span: builtin_span_v(),
    }
}

pub open spec fn result_enum_v() -> EnumV {
    enum_v(
        "Result"@,
        nid_v(0),
        seq!["T"@, "E"@],
        seq![
            variant_v("Ok"@, seq![named_v("T"@)]),
            variant_v("Err"@, seq![named_v("E"@)]),
        ],
    )
}

pub open spec fn option_enum_v() -> EnumV {
    enum_v(
        "Option"@,
        nid_v(1),
        seq!["T"@],
        seq![
            variant_v("Some"@, seq![named_v("T"@)]),
            variant_v("None"@, Seq::empty()),
        ],
    )
}

pub open spec fn value_enum_v() -> EnumV {
    enum_v(
        "Value"@,
        nid_v(2),
        Seq::empty(),
        seq![
            variant_v("Null"@, Seq::empty()),
            variant_v("Bool"@, seq![named_v("bool"@)]),
            variant_v("Int"@, seq![named_v("int"@)]),
            variant_v("Float"@, seq![named_v("float"@)]),
            variant_v("Str"@, seq![named_v("str"@)]),
            variant_v("List"@, seq![generic_v("list"@, seq![named_v("Value"@)])]),
            variant_v(
                "Dict"@,
                seq![generic_v("dict"@, seq![named_v("str"@), named_v("Value"@)])],
            ),
        ],
    )
}

pub open spec fn error_struct_v() -> StructV {
    struct_v(
        "Error"@,
        nid_v(10),
        seq![
            param_v("kind"@, named_v("str"@)),
            param_v("message"@, named_v("str"@)),
            param_v("cause"@, generic_v("Option"@, seq![named_v("Error"@)])),
        ],
    )
}

pub open spec fn texts_dict_v() -> TypeV {
    generic_v("dict"@, seq![named_v("str"@), named_v("str"@)])
}

pub open spec fn response_struct_v() -> StructV {
    struct_v(
        "Response"@,
        nid_v(11),
        seq![
            param_v("status"@, named_v("int"@)),
            param_v("headers"@, texts_dict_v()),
            param_v("body"@, named_v("str"@)),
        ],
    )
}

pub open spec fn http_options_struct_v() -> StructV {
    struct_v(
        "HttpOptions"@,
        nid_v(12),
        seq![
            param_v("headers"@, texts_dict_v()),
            param_v("timeout_ms"@, named_v("int"@)),
        ],
    )
}

pub open spec fn proc_output_struct_v() -> StructV {
    struct_v(
        "ProcOutput"@,
        nid_v(13),
        seq![
            param_v("stdout"@, named_v("str"@)),
            param_v("stderr"@, named_v("str"@)),
            param_v("exit_code"@, named_v("int"@)),
        ],
    )
}

/// The enums that every program starts with.
pub open spec fn builtin_enums() -> Seq<EnumV> {
    seq![result_enum_v(), option_enum_v(), value_enum_v()]
}

/// The structs that every program starts with.
pub open spec fn builtin_structs() -> Seq<StructV> {
    seq![
        error_struct_v(),
        response_struct_v(),
        http_options_struct_v(),
        proc_output_struct_v(),
    ]
}

/// The functions that every program starts with. They stand for their names only.
pub open spec fn builtin_functions_v() -> Seq<FunctionV> {
    seq![
        function_v("int"@, nid_v(20), seq![param_v("x"@, named_v("float"@))]),
        function_v("float"@, nid_v(21), seq![param_v("x"@, named_v("int"@))]),
        function_v("str"@, nid_v(22), seq![param_v("x"@, named_v("int"@))]),
        function_v("print"@, nid_v(23), seq![param_v("value"@, named_v("str"@))]),
        function_v("eprint"@, nid_v(24), seq![param_v("value"@, named_v("str"@))]),
        function_v("assert"@, nid_v(25), seq![param_v("cond"@, named_v("bool"@))]),
        function_v("set"@, nid_v(26), Seq::empty()),
    ]
}

pub open spec fn with_enums(s: Seq<(Seq<char>, EnumV)>, decls: Seq<EnumV>, i: int) -> Seq<
    (Seq<char>, EnumV),
>
    decreases decls.len() - i,
{
    if 0 <= i < decls.len() {
        with_enums(put_new(s, decls[i].name, decls[i]), decls, i + 1)
    } else {
        s
    }
}

pub open spec fn with_structs(s: Seq<(Seq<char>, StructV)>, decls: Seq<StructV>, i: int) -> Seq<
    (Seq<char>, StructV),
>
    decreases decls.len() - i,
{
    if 0 <= i < decls.len() {
        with_structs(put_new(s, decls[i].name, decls[i]), decls, i + 1)
    } else {
        s
    }
}

pub open spec fn with_functions(
    s: Seq<(Seq<char>, FunctionV)>,
    decls: Seq<FunctionV>,
    i: int,
) -> Seq<(Seq<char>, FunctionV)>
    decreases decls.len() - i,
{
    if 0 <= i < decls.len() {
        with_functions(put_new(s, decls[i].name, decls[i]), decls, i + 1)
    } else {
        s
    }
}

/// A program with the declarations that every program starts with; a name that is taken stays
/// as it is.
pub open spec fn installed(p: ProgramV) -> ProgramV {
    ProgramV {
        enums: with_enums(p.enums, builtin_enums(), 0),
        structs: with_structs(p.structs, builtin_structs(), 0),
        functions: with_functions(p.functions, builtin_functions_v(), 0),
        ..p
    }
}

// ---------------------------------------------------------------------------
// Building them
// ---------------------------------------------------------------------------

fn builtin_span() -> (r: Span)
    ensures
        r == builtin_span_v(),
{
    Span {
        file: FileId(0),
        start: Position { line: 1, col: 1 },
        end: Position { line: 1, col: 1 },
    }
}

fn nid(offset: u32) -> (r: NodeId)
    ensures
        r == nid_v(offset),
{
    NodeId(u32::MAX - offset)
}

fn generic_ty(name: &str, args: Vec<TypeAnn>) -> (r: TypeAnn)
    ensures
        r@ == generic_v(name@, types_view(args@)),
{
    let kind = TypeAnnKind::Named { name: name.to_owned(), args };
    let r = TypeAnn { kind, span: builtin_span() };
    assert(r@.kind == r.kind@);
    r
}

fn named_ty(name: &str) -> (r: TypeAnn)
    ensures
        r@ == named_v(name@),
{
    let args: Vec<TypeAnn> = Vec::new();
    assert(types_view(args@) =~= Seq::empty());
    generic_ty(name, args)
}

fn one_ty(a: TypeAnn) -> (r: Vec<TypeAnn>)
    ensures
        types_view(r@) == seq![a@],
{
    let r = vec![a];
    assert(types_view(r@) =~= seq![a@]);
    r
}

fn two_tys(a: TypeAnn, b: TypeAnn) -> (r: Vec<TypeAnn>)
    ensures
        types_view(r@) == seq![a@, b@],
{
    let r = vec![a, b];
    assert(types_view(r@) =~= seq![a@, b@]);
    r
}

fn void_ty() -> (r: TypeAnn)
    ensures
        r@ == void_v(),
{
    let r = TypeAnn { kind: TypeAnnKind::Void, span: builtin_span() };
    assert(r@.kind == r.kind@);
    r
}

fn enum_variant(name: &str, fields: Vec<TypeAnn>) -> (r: EnumVariant)
    ensures
        r@ == variant_v(name@, types_view(fields@)),
{
    let n: usize = fields.len();
    let mut field_names: Vec<Option<String>> = Vec::new();
    let mut i: usize = 0;
    while i < n
        invariant
            i <= n,
            field_names@.len() == i,
            forall|j: int| 0 <= j < i ==> (#[trigger] field_names@[j]) is None,
        decreases n - i,
    {
        field_names.push(None);
        i = i + 1;
    }
    let r = EnumVariant {
        name: name.to_owned(),
        fields,
        field_names,
        leading_comments: Vec::new(),
        trailing_comment: None,
        span: builtin_span(),
    };
    proof {
        assert(types_view(r.fields@).len() == r.fields@.len());
        assert(r@.field_names =~= variant_v(name@, types_view(fields@)).field_names);
        assert(r@.leading_comments =~= Seq::empty());
    }
    r
}

fn plain_variant(name: &str) -> (r: EnumVariant)
    ensures
        r@ == variant_v(name@, Seq::empty()),
{
    let fields: Vec<TypeAnn> = Vec::new();
    assert(types_view(fields@) =~= Seq::empty());
    enum_variant(name, fields)
}

fn param(name: &str, ty: TypeAnn) -> (r: Param)
    ensures
        r@ == param_v(name@, ty@),
{
    Param { name: name.to_owned(), ty, span: builtin_span() }
}

fn builtin_struct(name: &str, id: NodeId, fields: Vec<Param>) -> (r: StructDecl)
    ensures
        r@ == struct_v(name@, id, params_view(fields@)),
{
    let r = StructDecl {
        id,
        name: name.to_owned(),
        generics: Vec::new(),
        fields,
        field_leading_comments: Vec::new(),
        field_trailing_comments: Vec::new(),
        methods: Vec::new(),
        leading_comments: Vec::new(),
        doc_comment: None,
        span: builtin_span(),
    };
    proof {
        assert(r@.generics =~= Seq::empty());
        assert(r@.field_leading_comments =~= Seq::empty());
        assert(r@.field_trailing_comments =~= Seq::empty());
        assert(r@.methods =~= Seq::empty());
        assert(r@.leading_comments =~= Seq::empty());
    }
    r
}

fn builtin_enum(name: &str, id: NodeId, generics: Vec<String>, variants: Vec<EnumVariant>) -> (r:
    EnumDecl)
    ensures
        r@ == enum_v(name@, id, texts(generics@), variants_view(variants@)),
{
    let r = EnumDecl {
        id,
        name: name.to_owned(),
        generics,
        variants,
        leading_comments: Vec::new(),
        doc_comment: None,
        span: builtin_span(),
    };
    assert(r@.leading_comments =~= Seq::empty());
    r
}

fn builtin_function(name: &str, id: NodeId, params: Vec<Param>) -> (r: FunctionDecl)
    ensures
        r@ == function_v(name@, id, params_view(params@)),
{
    let body = new_block(Vec::new(), builtin_span());
    let r = FunctionDecl {
        id,
        name: name.to_owned(),
        generics: Vec::new(),
        self_param: None,
        params,
        ret: void_ty(),
        effects: Vec::new(),
        body,
        leading_comments: Vec::new(),
        doc_comment: None,
        span: builtin_span(),
    };
    proof {
        assert(r@.generics =~= Seq::empty());
        assert(r@.effects =~= Seq::empty());
        assert(r@.leading_comments =~= Seq::empty());
        assert(r@.body.stmts =~= Seq::empty());
    }
    r
}

fn result_enum() -> (r: EnumDecl)
    ensures
        r@ == result_enum_v(),
{
    let generics = vec!["T".to_owned(), "E".to_owned()];
    let ok = enum_variant("Ok", one_ty(named_ty("T")));
    let err = enum_variant("Err", one_ty(named_ty("E")));
    let variants = vec![ok, err];
    assert(texts(generics@) =~= seq!["T"@, "E"@]);
    assert(variants_view(variants@) =~= seq![ok@, err@]);
    builtin_enum("Result", nid(0), generics, variants)
}

fn option_enum() -> (r: EnumDecl)
    ensures
        r@ == option_enum_v(),
{
    let generics = vec!["T".to_owned()];
    let some = enum_variant("Some", one_ty(named_ty("T")));
    let none = plain_variant("None");
    let variants = vec![some, none];
    assert(texts(generics@) =~= seq!["T"@]);
    assert(variants_view(variants@) =~= seq![some@, none@]);
    builtin_enum("Option", nid(1), generics, variants)
}

fn value_enum() -> (r: EnumDecl)
    ensures
        r@ == value_enum_v(),
{
    let generics: Vec<String> = Vec::new();
    let null = plain_variant("Null");
    let bool_ = enum_variant("Bool", one_ty(named_ty("bool")));
    let int_ = enum_variant("Int", one_ty(named_ty("int")));
    let float_ = enum_variant("Float", one_ty(named_ty("float")));
    let str_ = enum_variant("Str", one_ty(named_ty("str")));
    let list = enum_variant("List", one_ty(generic_ty("list", one_ty(named_ty("Value")))));
    let dict = enum_variant(
        "Dict",
        one_ty(generic_ty("dict", two_tys(named_ty("str"), named_ty("Value")))),
    );
    let variants = vec![null, bool_, int_, float_, str_, list, dict];
    assert(texts(generics@) =~= Seq::empty());
    assert(variants_view(variants@) =~= seq![
        null@,
        bool_@,
        int_@,
        float_@,
        str_@,
        list@,
        dict@,
    ]);
    builtin_enum("Value", nid(2), generics, variants)
}

fn three_params(a: Param, b: Param, c: Param) -> (r: Vec<Param>)
    ensures
        params_view(r@) == seq![a@, b@, c@],
{
    let r = vec![a, b, c];
    assert(params_view(r@) =~= seq![a@, b@, c@]);
    r
}

fn one_param(a: Param) -> (r: Vec<Param>)
    ensures
        params_view(r@) == seq![a@],
{
    let r = vec![a];
    assert(params_view(r@) =~= seq![a@]);
    r
}

fn error_struct() -> (r: StructDecl)
    ensures
        r@ == error_struct_v(),
{
    let cause = generic_ty("Option", one_ty(named_ty("Error")));
    let fields = three_params(
        param("kind", named_ty("str")),
        param("message", named_ty("str")),
        param("cause", cause),
    );
    builtin_struct("Error", nid(10), fields)
}

fn texts_dict() -> (r: TypeAnn)
    ensures
        r@ == texts_dict_v(),
{
    generic_ty("dict", two_tys(named_ty("str"), named_ty("str")))
}

fn response_struct() -> (r: StructDecl)
    ensures
        r@ == response_struct_v(),
{
    let fields = three_params(
        param("status", named_ty("int")),
        param("headers", texts_dict()),
        param("body", named_ty("str")),
    );
    builtin_struct("Response", nid(11), fields)
}

fn http_options_struct() -> (r: StructDecl)
    ensures
        r@ == http_options_struct_v(),
{
    let headers = param("headers", texts_dict());
    let timeout = param("timeout_ms", named_ty("int"));
    let fields = vec![headers, timeout];
    assert(params_view(fields@) =~= seq![headers@, timeout@]);
    builtin_struct("HttpOptions", nid(12), fields)
}

fn proc_output_struct() -> (r: StructDecl)
    ensures
        r@ == proc_output_struct_v(),
{
    let fields = three_params(
        param("stdout", named_ty("str")),
        param("stderr", named_ty("str")),
        param("exit_code", named_ty("int")),
    );
    builtin_struct("ProcOutput", nid(13), fields)
}

fn builtin_functions() -> (r: Vec<FunctionDecl>)
    ensures
        functions_view(r@) == builtin_functions_v(),
{
    let to_int = builtin_function("int", nid(20), one_param(param("x", named_ty("float"))));
    let to_float = builtin_function("float", nid(21), one_param(param("x", named_ty("int"))));
    let to_str = builtin_function("str", nid(22), one_param(param("x", named_ty("int"))));
    let print = builtin_function("print", nid(23), one_param(param("value", named_ty("str"))));
    let eprint = builtin_function("eprint", nid(24), one_param(param("value", named_ty("str"))));
    let check = builtin_function("assert", nid(25), one_param(param("cond", named_ty("bool"))));
    let none: Vec<Param> = Vec::new();
    assert(params_view(none@) =~= Seq::empty());
    let to_set = builtin_function("set", nid(26), none);
    let r = vec![to_int, to_float, to_str, print, eprint, check, to_set];
    assert(functions_view(r@) =~= builtin_functions_v());
    r
}

// ---------------------------------------------------------------------------
// Registering them
// ---------------------------------------------------------------------------

pub(crate) fn add_enum(program: &mut Program, decl: EnumDecl)
    ensures
        final(program)@ == (ProgramV {
            enums: put_new(old(program)@.enums, decl@.name, decl@),
            ..old(program)@
        }),
{
    proof {
        lemma_mapped(program.enums@, |d: EnumDecl| d.view(), decl.name@, decl);
    }
    program.enums.insert_new(decl.name.clone(), decl);
}

pub(crate) fn add_struct(program: &mut Program, decl: StructDecl)
    ensures
        final(program)@ == (ProgramV {
            structs: put_new(old(program)@.structs, decl@.name, decl@),
            ..old(program)@
        }),
{
    proof {
        lemma_mapped(program.structs@, |d: StructDecl| d.view(), decl.name@, decl);
    }
    program.structs.insert_new(decl.name.clone(), decl);
}

pub(crate) fn add_function(program: &mut Program, decl: FunctionDecl)
    ensures
        final(program)@ == (ProgramV {
            functions: put_new(old(program)@.functions, decl@.name, decl@),
            ..old(program)@
        }),
{
    proof {
        lemma_mapped(program.functions@, |d: FunctionDecl| d.view(), decl.name@, decl);
    }
    program.functions.insert_new(decl.name.clone(), decl);
}

/// The names of the functions that every program starts with.
pub open spec fn is_builtin_name(name: Seq<char>) -> bool {
    name == "int"@ || name == "float"@ || name == "str"@ || name == "print"@ || name == "eprint"@
        || name == "assert"@ || name == "set"@
}

/// Whether a declaration is one of those functions.
pub fn is_builtin_function(declaration: &FunctionDecl) -> (r: bool)
    ensures
        r == (declaration@.id.0 >= u32::MAX - 26 && is_builtin_name(declaration@.name)),
{
    let name = declaration.name.as_str();
    declaration.id.0 >= u32::MAX - 26 && (same_text(name, "int") || same_text(name, "float")
        || same_text(name, "str") || same_text(name, "print") || same_text(name, "eprint")
        || same_text(name, "assert") || same_text(name, "set"))
}

/// Registers the declarations that every program starts with.
pub fn install(program: &mut Program)
    ensures
        final(program)@ == installed(old(program)@),
{
    let ghost p = program@;
    add_enum(program, result_enum());
    add_enum(program, option_enum());
    add_enum(program, value_enum());
    assert(program@.enums == with_enums(p.enums, builtin_enums(), 0)) by {
        reveal_with_fuel(with_enums, 4);
    }
    add_struct(program, error_struct());
    add_struct(program, response_struct());
    add_struct(program, http_options_struct());
    add_struct(program, proc_output_struct());
    assert(program@.structs == with_structs(p.structs, builtin_structs(), 0)) by {
        reveal_with_fuel(with_structs, 5);
    }
    let mut rest = builtin_functions();
    let ghost decls = builtin_functions_v();
    let ghost q = program@;
    let ghost mut i: int = 0;
    assert(functions_view(rest@) =~= decls.skip(0));
    while rest.len() > 0
        invariant
            0 <= i <= decls.len(),
            functions_view(rest@) == decls.skip(i),
            program@ == (ProgramV { functions: program@.functions, ..q }),
            with_functions(program@.functions, decls, i) == with_functions(
                q.functions,
                decls,
                0,
            ),
        decreases rest@.len(),
    {
        let ghost before = functions_view(rest@);
        assert(before.len() == decls.len() - i);
        let decl = rest.remove(0);
        assert(decl@ == before[0]);
        assert(before[0] == decls[i]);
        add_function(program, decl);
        assert(functions_view(rest@) =~= before.drop_first());
        assert(before.drop_first() =~= decls.skip(i + 1));
        proof {
            i = i + 1;
        }
    }
    assert(functions_view(rest@).len() == 0);
}

} // verus!
