//! What the constant folder and the code generator share.

pub mod environment;
pub mod error;
pub mod token;
pub mod types;
