//! Parsed expressions and the folding of the constants in them.

pub mod expr;
pub mod fold;
pub mod fold_defined_laws;
pub mod fold_laws;
pub mod fold_spec;
pub mod meaning_laws;
pub mod meaning_type_laws;
pub mod operator_laws;
pub mod typechecker;
