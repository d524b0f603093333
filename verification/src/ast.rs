//! The syntax tree of a library of program organisation units (POUs) and
//! data types, as far as the transformations and semantic rules read it.
use crate::ident::Id;
use vstd::prelude::*;

verus! {

/// A library: the declarations of one or more source files.
pub struct Library {
    pub elems: Vec<LibraryElement>,
}

/// A top-level declaration.
pub enum LibraryElement {
    /// `TYPE ... END_TYPE`: declarations of enumerated data types.
    DataTypeDeclaration(Vec<EnumerationDeclaration>),
    FunctionBlockDeclaration(FunctionBlockDeclaration),
    FunctionDeclaration(FunctionDeclaration),
    ProgramDeclaration(ProgramDeclaration),
}

/// `NAME : (A, B, ...) := DEFAULT;` or `NAME : OTHER_ENUM := DEFAULT;`,
/// where the default value is optional.
pub struct EnumerationDeclaration {
    pub name: Id,
    pub spec: EnumeratedSpecificationKind,
    pub default: Option<Id>,
}

/// What an enumerated type is made of.
pub enum EnumeratedSpecificationKind {
    /// Another enumerated type, by name.
    TypeName(Id),
    /// The list of values.
    Values(Vec<Id>),
}

/// The statements of a POU's body, as source text.
pub struct FunctionBlockBody {
    pub statements: Vec<String>,
}

/// `FUNCTION_BLOCK name ... END_FUNCTION_BLOCK`
pub struct FunctionBlockDeclaration {
    pub name: Id,
    pub var_decls: Vec<VarInitKind>,
    pub body: FunctionBlockBody,
}

/// `FUNCTION name : return_type ... END_FUNCTION`
pub struct FunctionDeclaration {
    pub name: Id,
    pub return_type: Id,
    pub var_decls: Vec<VarInitKind>,
    pub body: FunctionBlockBody,
}

/// `PROGRAM type_id ... END_PROGRAM`
pub struct ProgramDeclaration {
    pub type_id: Id,
    pub var_declarations: Vec<VarInitKind>,
    pub body: FunctionBlockBody,
}

/// The storage qualifier of a variable block.
#[derive(PartialEq, Eq, Structural)]
pub enum StorageClass {
    Unspecified,
    Constant,
    Retain,
    NonRetain,
}

/// A variable declaration.
pub enum VarInitKind {
    /// A declaration whose type is known.
    VarInit(VarInitDecl),
    /// A declaration whose type name is not yet resolved to a kind of type.
    LateResolvedType(LateResolvedType),
}

/// `name : initializer;`
pub struct VarInitDecl {
    pub name: Id,
    pub storage_class: StorageClass,
    pub initializer: TypeInitializer,
}

/// `name : type_id;` before the kind of `type_id` is known.
pub struct LateResolvedType {
    pub name: Id,
    pub storage_class: StorageClass,
    pub type_id: Id,
}

/// The type, and the initial value, of a declared variable.
pub enum TypeInitializer {
    /// A variable of an elementary or derived data type.
    Simple { type_id: Id },
    /// An instance of a function block.
    FunctionBlock(FunctionBlockTypeInitializer),
}

/// An instance of the function block `type_id`.
pub struct FunctionBlockTypeInitializer {
    pub type_id: Id,
}

} // verus!
