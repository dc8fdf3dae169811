//! Bytecode for the Lex language: the instruction set, the compiler from the
//! canonical syntax tree, the static analyses that run over compiled code, and
//! the virtual machine.

pub mod actor_table;
pub mod arena;
pub mod ast;
pub mod compiler;
pub mod conc_registry;
pub mod escape;
pub mod float_bits;
pub mod index_maps;
pub mod jit_hook;
pub mod json;
pub mod json_values;
pub mod meaning;
pub mod op;
pub mod op_encoding;
pub mod op_encoding_laws;
pub mod parser_bounds;
pub mod parser_laws;
pub mod parser_runtime;
pub mod program;
pub mod shape_registry;
pub mod site_index;
pub mod text;
pub mod value;
pub mod value_laws;
pub mod value_ops;
pub mod verify;
pub mod vm;

pub use arena::{analyze_program as analyze_arena, build_arena_index, ArenaReport, ArenaSite};
pub use compiler::compile_program;
pub use escape::{analyze_program as analyze_escapes, EscapeReport, EscapeSite, Policy, SiteKind};
pub use op::{Const, Op};
pub use program::{Function, Program};
pub use value::{MapKey, Value};
pub use verify::{verify_program, StackError};
pub use vm::{Vm, VmError, MAX_CALL_DEPTH};
