//! The decoded module model: value types, function types, limits, import
//! and export descriptors, and the module root.  Each owning type has a
//! mathematical view (`FuncTy`, `ImportV`, ...) over `Seq` values, which the
//! decoding specification speaks about.

use vstd::prelude::*;

verus! {

/// A WebAssembly value type.
#[derive(Clone, Copy, Debug, PartialEq, Eq, Structural)]
pub enum ValueType {
    I32,
    I64,
    F32,
    F64,
    V128,
    FuncRef,
    ExternRef,
}

impl DeepView for ValueType {
    type V = ValueType;

    open spec fn deep_view(&self) -> ValueType {
        *self
    }
}

/// Size bounds of a table or memory: a minimum and an optional maximum.
/// A well-formed pair has `max >= min`; the binary format can carry any
/// pair, and the decoder reports what the bytes say.
#[derive(Clone, Copy, Debug, PartialEq, Eq)]
pub struct Limits {
    pub min: u32,
    pub max: Option<u32>,
}

impl Limits {
    /// The well-formedness the format intends: a present maximum is at
    /// least the minimum.
    pub open spec fn wf(self) -> bool {
        match self.max {
            Some(m) => self.min <= m,
            None => true,
        }
    }
}

impl DeepView for Limits {
    type V = Limits;

    open spec fn deep_view(&self) -> Limits {
        *self
    }
}

/// A table's element type and size bounds.
#[derive(Clone, Copy, Debug, PartialEq, Eq)]
pub struct TableType {
    pub element: ValueType,
    pub limits: Limits,
}

impl DeepView for TableType {
    type V = TableType;

    open spec fn deep_view(&self) -> TableType {
        *self
    }
}

/// A memory's size bounds, in pages.
#[derive(Clone, Copy, Debug, PartialEq, Eq)]
pub struct MemoryType {
    pub limits: Limits,
}

impl DeepView for MemoryType {
    type V = MemoryType;

    open spec fn deep_view(&self) -> MemoryType {
        *self
    }
}

/// A global's value type and mutability.
#[derive(Clone, Copy, Debug, PartialEq, Eq)]
pub struct GlobalType {
    pub content: ValueType,
    pub mutable: bool,
}

impl DeepView for GlobalType {
    type V = GlobalType;

    open spec fn deep_view(&self) -> GlobalType {
        *self
    }
}

/// The four kinds of importable and exportable entities.
#[derive(Clone, Copy, Debug, PartialEq, Eq, Structural)]
pub enum ExternKind {
    Func,
    Table,
    Memory,
    Global,
}

impl DeepView for ExternKind {
    type V = ExternKind;

    open spec fn deep_view(&self) -> ExternKind {
        *self
    }
}

/// The kind and shape of an importable or exportable entity: a function's
/// type index into the type space, or the full table, memory, or global
/// type.
#[derive(Clone, Copy, Debug, PartialEq, Eq)]
pub enum ExternDesc {
    Func(u32),
    Table(TableType),
    Memory(MemoryType),
    Global(GlobalType),
}

impl ExternDesc {
    /// The kind of entity this descriptor describes.
    pub open spec fn kind(self) -> ExternKind {
        match self {
            ExternDesc::Func(_) => ExternKind::Func,
            ExternDesc::Table(_) => ExternKind::Table,
            ExternDesc::Memory(_) => ExternKind::Memory,
            ExternDesc::Global(_) => ExternKind::Global,
        }
    }
}

impl DeepView for ExternDesc {
    type V = ExternDesc;

    open spec fn deep_view(&self) -> ExternDesc {
        *self
    }
}

/// A function type: ordered parameter and result value types.
#[derive(Clone, Debug, PartialEq, Eq)]
pub struct FuncType {
    pub params: Vec<ValueType>,
    pub results: Vec<ValueType>,
}

/// Mathematical view of a `FuncType`.
pub ghost struct FuncTy {
    pub params: Seq<ValueType>,
    pub results: Seq<ValueType>,
}

impl DeepView for FuncType {
    type V = FuncTy;

    open spec fn deep_view(&self) -> FuncTy {
        FuncTy { params: self.params@, results: self.results@ }
    }
}

/// One import: the module it comes from, its name there, and what it is.
#[derive(Clone, Debug, PartialEq, Eq)]
pub struct Import {
    pub module: String,
    pub name: String,
    pub desc: ExternDesc,
}

/// Mathematical view of an `Import`.
pub ghost struct ImportV {
    pub module: Seq<char>,
    pub name: Seq<char>,
    pub desc: ExternDesc,
}

impl DeepView for Import {
    type V = ImportV;

    open spec fn deep_view(&self) -> ImportV {
        ImportV { module: self.module@, name: self.name@, desc: self.desc }
    }
}

/// One export: its name and the resolved descriptor of the entity it
/// exports.
#[derive(Clone, Debug, PartialEq, Eq)]
pub struct Export {
    pub name: String,
    pub desc: ExternDesc,
}

/// Mathematical view of an `Export`.
pub ghost struct ExportV {
    pub name: Seq<char>,
    pub desc: ExternDesc,
}

impl DeepView for Export {
    type V = ExportV;

    open spec fn deep_view(&self) -> ExportV {
        ExportV { name: self.name@, desc: self.desc }
    }
}

/// The decoded module: the type space, the imports in declaration order,
/// the locally declared functions (as type indices), tables, memories and
/// globals in declaration order, and the exports with resolved descriptors.
#[derive(Clone, Debug, PartialEq, Eq)]
pub struct Module {
    pub types: Vec<FuncType>,
    pub imports: Vec<Import>,
    pub funcs: Vec<u32>,
    pub tables: Vec<TableType>,
    pub mems: Vec<MemoryType>,
    pub globals: Vec<GlobalType>,
    pub exports: Vec<Export>,
}

/// Mathematical view of a `Module`.
pub ghost struct ModuleV {
    pub types: Seq<FuncTy>,
    pub imports: Seq<ImportV>,
    pub funcs: Seq<u32>,
    pub tables: Seq<TableType>,
    pub mems: Seq<MemoryType>,
    pub globals: Seq<GlobalType>,
    pub exports: Seq<ExportV>,
}

impl DeepView for Module {
    type V = ModuleV;

    open spec fn deep_view(&self) -> ModuleV {
        ModuleV {
            types: self.types.deep_view(),
            imports: self.imports.deep_view(),
            funcs: self.funcs.deep_view(),
            tables: self.tables.deep_view(),
            mems: self.mems.deep_view(),
            globals: self.globals.deep_view(),
            exports: self.exports.deep_view(),
        }
    }
}

impl ModuleV {
    /// The module with nothing declared: what a bare header decodes to.
    pub open spec fn empty() -> ModuleV {
        ModuleV {
            types: Seq::empty(),
            imports: Seq::empty(),
            funcs: Seq::empty(),
            tables: Seq::empty(),
            mems: Seq::empty(),
            globals: Seq::empty(),
            exports: Seq::empty(),
        }
    }
}

} // verus!
