//! The target abstract syntax: the Sway constructs that the lowering
//! builds. Only the shapes the translator produces are modelled; generic
//! parameters are not carried, since no lowering fills them in yet.
use vstd::prelude::*;

verus! {

/// A type name in the target tree.
#[derive(Clone, Debug, PartialEq, Eq)]
pub struct TypeName {
    pub name: String,
}

/// An expression in the target tree. Value lowering is not done yet, so
/// besides identifiers there is an explicit placeholder that stands where
/// an initializer or a body will later go.
#[derive(Clone, Debug, PartialEq, Eq)]
pub enum Expression {
    Identifier(String),
    Placeholder,
}

/// A block: statements followed by an optional final expression.
#[derive(Clone, Debug, PartialEq, Eq)]
pub struct Block {
    pub statements: Vec<Expression>,
    pub final_expr: Option<Expression>,
}

/// One variant of a target enum.
#[derive(Clone, Debug, PartialEq, Eq)]
pub struct EnumVariant {
    pub name: String,
    pub ty: TypeName,
}

/// A target enum.
#[derive(Clone, Debug, PartialEq, Eq)]
pub struct Enum {
    pub is_public: bool,
    pub name: String,
    pub variants: Vec<EnumVariant>,
}

/// A parameter of a target function.
#[derive(Clone, Debug, PartialEq, Eq)]
pub struct Parameter {
    pub name: String,
    pub ty: TypeName,
}

/// A target function: a signature, and a body once one is lowered.
#[derive(Clone, Debug, PartialEq, Eq)]
pub struct Function {
    pub is_public: bool,
    pub name: String,
    pub parameters: Vec<Parameter>,
    pub return_type: Option<TypeName>,
    pub body: Option<Block>,
}

/// The externally callable surface of a translated contract.
#[derive(Clone, Debug, PartialEq, Eq)]
pub struct Abi {
    pub name: String,
    pub inherits: Vec<String>,
    pub functions: Vec<Function>,
}

/// A field of a target struct.
#[derive(Clone, Debug, PartialEq, Eq)]
pub struct StructField {
    pub is_public: bool,
    pub name: String,
    pub ty: TypeName,
}

/// A target struct.
#[derive(Clone, Debug, PartialEq, Eq)]
pub struct Struct {
    pub is_public: bool,
    pub name: String,
    pub fields: Vec<StructField>,
}

/// A module-level constant.
#[derive(Clone, Debug, PartialEq, Eq)]
pub struct Constant {
    pub is_public: bool,
    pub name: String,
    pub ty: TypeName,
    pub value: Option<Expression>,
}

/// A field of the storage block.
#[derive(Clone, Debug, PartialEq, Eq)]
pub struct StorageField {
    pub name: String,
    pub ty: TypeName,
    pub value: Expression,
}

/// The storage block: the persistent state of a translated contract.
#[derive(Clone, Debug, PartialEq, Eq)]
pub struct Storage {
    pub fields: Vec<StorageField>,
}

/// A field of the configurable block.
#[derive(Clone, Debug, PartialEq, Eq)]
pub struct ConfigurableField {
    pub name: String,
    pub ty: TypeName,
    pub value: Expression,
}

/// The configurable block: deploy-time-fixed values.
#[derive(Clone, Debug, PartialEq, Eq)]
pub struct Configurable {
    pub fields: Vec<ConfigurableField>,
}

/// A target type alias.
#[derive(Clone, Debug, PartialEq, Eq)]
pub struct TypeDefinition {
    pub is_public: bool,
    pub name: TypeName,
    pub underlying_type: Option<TypeName>,
}

/// An item of an implementation block.
#[derive(Clone, Debug, PartialEq, Eq)]
pub enum ImplItem {
    Function(Function),
}

/// An implementation block, optionally for a marker type.
#[derive(Clone, Debug, PartialEq, Eq)]
pub struct Impl {
    pub ty: TypeName,
    pub for_ty: Option<TypeName>,
    pub items: Vec<ImplItem>,
}

} // verus!
