//! Symbol interning for grammars: every name that a rule tree refers to is
//! resolved to a numeric symbol, grouped by symbol class.
use vstd::prelude::*;

pub mod error;
pub mod grammars;
pub mod intern_symbols;
pub mod laws;
pub mod rules;

verus! {

} // verus!
