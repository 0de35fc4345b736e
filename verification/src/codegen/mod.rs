//! Generation of x86-64 assembly.

pub mod ast;
pub mod call_laws;
pub mod codegen;
pub mod error_laws;
pub mod flow_laws;
pub mod frame_laws;
pub mod label_laws;
pub mod label_text;
pub mod machine;
pub mod memory_laws;
pub mod model;
pub mod progress_laws;
pub mod register;
pub mod register_laws;
pub mod run_laws;
pub mod saving_laws;
pub mod sequence_laws;
pub mod stack_laws;
pub mod statement_label_laws;
pub mod statement_laws;
pub mod statement_progress_laws;
pub mod statement_register_laws;
pub mod store_laws;
pub mod text;
pub mod value_laws;
