//! Core of a source-to-source translator for smart contracts: it takes
//! already-parsed Solidity source units, orders them by their import
//! dependencies, and lowers each contract, interface or library definition
//! into the sections of a Sway module (ABI, storage, constants,
//! implementation blocks).
//!
//! Parsing the source text and rendering the built target tree are left to
//! the surrounding program; this crate holds the translation logic itself.
use vstd::prelude::*;

pub mod casing;
pub mod errors;
pub mod lowering;
pub mod project;
pub mod solidity;
pub mod sway;
pub mod table;
pub mod text;
pub mod translate;

verus! {

/// The invocation options: the source files named as translation entry
/// points.
pub struct Options {
    pub contract_files: Vec<String>,
}

} // verus!
