//! The source abstract syntax, as plain values: what the lowering reads of
//! a parsed Solidity source unit. The surrounding program converts the
//! parser's tree into these types; type names are carried as their source
//! spelling.
use vstd::prelude::*;

verus! {

/// The specifier of an import directive.
#[derive(Clone, Debug, PartialEq, Eq)]
pub enum ImportPath {
    /// A plain filename, relative to the importing file's directory.
    Filename(String),
    /// An experimental non-file specifier.
    Path(String),
}

/// An import directive: plain, global-symbol or renamed form.
#[derive(Clone, Debug, PartialEq, Eq)]
pub enum Import {
    Plain(ImportPath),
    GlobalSymbol(ImportPath),
    Rename(ImportPath),
}

/// The kind of a contract-like definition.
#[derive(Clone, Copy, Debug, PartialEq, Eq, Structural)]
pub enum ContractTy {
    Abstract,
    Contract,
    Interface,
    Library,
}

/// A named, typed declaration: a function parameter, a return value or a
/// struct field.
#[derive(Clone, Debug, PartialEq, Eq)]
pub struct VariableDeclaration {
    pub name: String,
    pub ty: String,
}

/// The kind of a function-like member.
#[derive(Clone, Copy, Debug, PartialEq, Eq, Structural)]
pub enum FunctionTy {
    Constructor,
    Function,
    Fallback,
    Receive,
    Modifier,
}

/// A function-like member of a contract or interface.
#[derive(Clone, Debug, PartialEq, Eq)]
pub struct FunctionDefinition {
    pub ty: FunctionTy,
    pub name: String,
    /// Whether the source marks the function public or external.
    pub is_public: bool,
    pub params: Vec<VariableDeclaration>,
    /// The types of the return values, in declaration order.
    pub return_types: Vec<String>,
}

/// A state variable of a contract.
#[derive(Clone, Debug, PartialEq, Eq)]
pub struct VariableDefinition {
    pub name: String,
    pub ty: String,
    /// Whether the source marks the variable public or external.
    pub is_public: bool,
    pub is_constant: bool,
    pub is_immutable: bool,
}

/// An event declaration; fields are carried as their types, in order.
#[derive(Clone, Debug, PartialEq, Eq)]
pub struct EventDefinition {
    pub name: String,
    pub fields: Vec<String>,
}

/// An error declaration; fields are carried as their types, in order.
#[derive(Clone, Debug, PartialEq, Eq)]
pub struct ErrorDefinition {
    pub name: String,
    pub fields: Vec<String>,
}

/// A struct declaration.
#[derive(Clone, Debug, PartialEq, Eq)]
pub struct StructDefinition {
    pub name: String,
    pub fields: Vec<VariableDeclaration>,
}

/// An enum declaration.
#[derive(Clone, Debug, PartialEq, Eq)]
pub struct EnumDefinition {
    pub name: String,
}

/// A type alias declaration.
#[derive(Clone, Debug, PartialEq, Eq)]
pub struct TypeDefinition {
    pub name: String,
    pub ty: String,
}

/// A member of a contract-like definition.
#[derive(Clone, Debug, PartialEq, Eq)]
pub enum ContractPart {
    TypeDefinition(TypeDefinition),
    StructDefinition(StructDefinition),
    EnumDefinition(EnumDefinition),
    EventDefinition(EventDefinition),
    ErrorDefinition(ErrorDefinition),
    FunctionDefinition(FunctionDefinition),
    VariableDefinition(VariableDefinition),
    Using,
    Annotation,
    StraySemicolon,
}

/// A contract, abstract contract, interface or library definition.
#[derive(Clone, Debug, PartialEq, Eq)]
pub struct ContractDefinition {
    pub ty: ContractTy,
    pub name: String,
    /// The names of the inherited definitions, in declaration order.
    pub inherits: Vec<String>,
    pub parts: Vec<ContractPart>,
}

/// A top-level item of a source unit. Free declarations are carried
/// without their substance: the lowering only reports them as unsupported.
#[derive(Clone, Debug, PartialEq, Eq)]
pub enum SourceUnitPart {
    PragmaDirective,
    ImportDirective(Import),
    ContractDefinition(ContractDefinition),
    EnumDefinition,
    StructDefinition,
    EventDefinition,
    ErrorDefinition,
    FunctionDefinition,
    VariableDefinition,
    TypeDefinition,
    Annotation,
    Using,
    StraySemicolon,
}

/// One parsed source file.
#[derive(Clone, Debug, PartialEq, Eq)]
pub struct SourceUnit {
    pub parts: Vec<SourceUnitPart>,
}

} // verus!
