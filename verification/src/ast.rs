//! The in-memory description of a module, and its mathematical view.

use vstd::prelude::*;

verus! {

/// The type of a value on the operand stack or in a local slot.
#[derive(Debug, Clone, Copy, PartialEq, Eq)]
pub enum ValueType {
    I32,
    I64,
}

/// An ordered list of value types.
pub type StackType = Vec<ValueType>;

/// A function signature: parameter types, then result types. A signature has
/// no name; it is known by its position in the module's type table.
pub type Type = (StackType, StackType);

/// One instruction of a function body.
#[derive(Debug, Clone, Copy, PartialEq, Eq)]
pub enum Instr {
    /// Push the value of the local slot with the given index.
    LocalGet(usize),
    /// Pop two operands and push their sum.
    I32Add,
}

/// A function: the index of its signature in the type table, the locals it
/// declares beyond its parameters, and its body.
#[derive(Debug, Clone, PartialEq, Eq)]
pub struct Func {
    pub f_type: i32,
    pub locals: StackType,
    pub body: Vec<Instr>,
}

/// What an export refers to.
#[derive(Debug, Clone, Copy, PartialEq, Eq)]
pub enum EDesc {
    /// The function with the given index in the function table.
    FuncExport(usize),
}

/// A named entry point into the module.
#[derive(Debug, Clone, PartialEq, Eq)]
pub struct Export {
    pub name: String,
    pub e_desc: EDesc,
}

/// A complete module: type table, function table and export table.
#[derive(Debug, Clone, PartialEq, Eq)]
pub struct Module {
    pub types: Vec<Type>,
    pub funcs: Vec<Func>,
    pub exports: Vec<Export>,
}

/// A signature as a pair of sequences.
pub struct SignatureView {
    pub params: Seq<ValueType>,
    pub results: Seq<ValueType>,
}

/// A function with its lists as sequences.
pub struct FuncView {
    pub f_type: i32,
    pub locals: Seq<ValueType>,
    pub body: Seq<Instr>,
}

/// An export with its name as a sequence of characters.
pub struct ExportView {
    pub name: Seq<char>,
    pub e_desc: EDesc,
}

/// A module as three sequences. Two modules with the same view have the same
/// type table, function table and export table.
pub struct ModuleView {
    pub types: Seq<SignatureView>,
    pub funcs: Seq<FuncView>,
    pub exports: Seq<ExportView>,
}

/// The locals and the instructions of one entry of the code section.
pub struct BodyView {
    pub locals: Seq<ValueType>,
    pub instrs: Seq<Instr>,
}

/// The view of one signature.
pub open spec fn signature_view(t: Type) -> SignatureView {
    SignatureView { params: t.0@, results: t.1@ }
}

/// The view of a type table.
pub open spec fn signatures_view(ts: Seq<Type>) -> Seq<SignatureView> {
    ts.map_values(|t: Type| signature_view(t))
}

impl View for Func {
    type V = FuncView;

    open spec fn view(&self) -> FuncView {
        FuncView { f_type: self.f_type, locals: self.locals@, body: self.body@ }
    }
}

impl View for Export {
    type V = ExportView;

    open spec fn view(&self) -> ExportView {
        ExportView { name: self.name@, e_desc: self.e_desc }
    }
}

/// The view of a function table.
pub open spec fn funcs_view(fs: Seq<Func>) -> Seq<FuncView> {
    fs.map_values(|f: Func| f@)
}

/// The view of an export table.
pub open spec fn exports_view(es: Seq<Export>) -> Seq<ExportView> {
    es.map_values(|e: Export| e@)
}

/// The view of one entry of the code section.
pub open spec fn body_view(b: (StackType, Vec<Instr>)) -> BodyView {
    BodyView { locals: b.0@, instrs: b.1@ }
}

/// The view of the entries of a code section.
pub open spec fn bodies_view(bs: Seq<(StackType, Vec<Instr>)>) -> Seq<BodyView> {
    bs.map_values(|b: (StackType, Vec<Instr>)| body_view(b))
}

impl View for Module {
    type V = ModuleView;

    open spec fn view(&self) -> ModuleView {
        ModuleView {
            types: signatures_view(self.types@),
            funcs: funcs_view(self.funcs@),
            exports: exports_view(self.exports@),
        }
    }
}

} // verus!
