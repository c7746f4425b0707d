//! Errors of the translation core.
//!
//! Every construct that the lowering does not yet handle is a named,
//! fatal error: translation of a batch either succeeds completely or
//! reports the first unsupported construct it meets.
use vstd::prelude::*;

verus! {

/// A source construct that the lowering recognizes but does not translate.
#[derive(Clone, Copy, Debug, PartialEq, Eq)]
pub enum UnsupportedConstruct {
    /// A top-level (free) enum definition.
    ToplevelEnum,
    /// A top-level (free) struct definition.
    ToplevelStruct,
    /// A top-level (free) event definition.
    ToplevelEvent,
    /// A top-level (free) error definition.
    ToplevelError,
    /// A top-level (free) function definition.
    ToplevelFunction,
    /// A top-level (free) variable definition.
    ToplevelVariable,
    /// A top-level (free) type alias.
    ToplevelTypeDefinition,
    /// A top-level using-for directive.
    ToplevelUsing,
    /// An import whose specifier is not a plain filename.
    ImportPathSpecifier,
    /// A library definition.
    Library,
    /// A state variable marked immutable.
    ImmutableVariable,
    /// A variable declaration inside an interface.
    InterfaceVariable,
    /// A using-for directive inside an interface.
    InterfaceUsing,
}

/// An error of the translation core. Any error aborts the whole batch:
/// there is no partial-file or partial-definition success.
#[derive(Clone, Debug, PartialEq, Eq)]
pub enum Error {
    /// A construct that the lowering does not support.
    UnsupportedConstruct(UnsupportedConstruct),
    /// A queued path for which no parsed source unit was registered.
    MissingSourceUnit(String),
}

} // verus!
