//! The compiler from the canonical syntax tree to bytecode.

pub mod assembly;
pub mod code_fits;
pub mod code_levels;
pub mod combinators;
pub mod draft;
pub mod expr;
pub mod expr_fits;
pub mod expr_levels;
pub mod flow_code;
pub mod free_vars;
pub mod iter_code;
pub mod levels;
pub mod list_code;
pub mod liveness;
pub mod lowering;
pub mod numeric;
pub mod patterns;
pub mod peephole;
pub mod pool;
pub mod program_fits;
pub mod program_levels;
pub mod queue;
pub mod soundness;
pub mod variant_code;

pub use assembly::{compile_program, compile_program_with, Passes};
pub use draft::CompileError;
