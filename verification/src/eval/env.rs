//! What a program declares.

use super::value::{Value, ValueV};
use crate::ast::{EnumDecl, EnumV, FunctionDecl, FunctionV, StructDecl, StructV};
use crate::diagnostics::Span;
use crate::names::{mapped, NameMap};
use crate::sources::{SourceMap, SourcesV};
use vstd::prelude::*;

verus! {

/// The declarations of a program, its constants and where they stand, and its source files.
#[derive(Debug)]
pub struct Program {
    pub functions: NameMap<FunctionDecl>,
    pub structs: NameMap<StructDecl>,
    pub enums: NameMap<EnumDecl>,
    pub consts: NameMap<Value>,
    pub const_spans: NameMap<Span>,
    pub sources: SourceMap,
}

pub ghost struct ProgramV {
    pub functions: Seq<(Seq<char>, FunctionV)>,
    pub structs: Seq<(Seq<char>, StructV)>,
    pub enums: Seq<(Seq<char>, EnumV)>,
    pub consts: Seq<(Seq<char>, ValueV)>,
    pub const_spans: Seq<(Seq<char>, Span)>,
    pub sources: SourcesV,
}

pub open spec fn function_views(s: Seq<(Seq<char>, FunctionDecl)>) -> Seq<(Seq<char>, FunctionV)> {
    mapped(s, |d: FunctionDecl| d.view())
}

pub open spec fn struct_views(s: Seq<(Seq<char>, StructDecl)>) -> Seq<(Seq<char>, StructV)> {
    mapped(s, |d: StructDecl| d.view())
}

pub open spec fn enum_views(s: Seq<(Seq<char>, EnumDecl)>) -> Seq<(Seq<char>, EnumV)> {
    mapped(s, |d: EnumDecl| d.view())
}

pub open spec fn const_views(s: Seq<(Seq<char>, Value)>) -> Seq<(Seq<char>, ValueV)> {
    mapped(s, |v: Value| v.view())
}

impl Program {
    pub open spec fn view(&self) -> ProgramV {
        ProgramV {
            functions: function_views(self.functions@),
            structs: struct_views(self.structs@),
            enums: enum_views(self.enums@),
            consts: const_views(self.consts@),
            const_spans: self.const_spans@,
            sources: self.sources@,
        }
    }

    /// A program that declares nothing.
    pub fn new(sources: SourceMap) -> (r: Program)
        ensures
            r@ == (ProgramV {
                functions: Seq::empty(),
                structs: Seq::empty(),
                enums: Seq::empty(),
                consts: Seq::empty(),
                const_spans: Seq::empty(),
                sources: sources@,
            }),
    {
        let r = Program {
            functions: NameMap::new(),
            structs: NameMap::new(),
            enums: NameMap::new(),
            consts: NameMap::new(),
            const_spans: NameMap::new(),
            sources,
        };
        assert(r@.functions =~= Seq::empty());
        assert(r@.structs =~= Seq::empty());
        assert(r@.enums =~= Seq::empty());
        assert(r@.consts =~= Seq::empty());
        r
    }
}

} // verus!
