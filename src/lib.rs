//! Front end of an assembler for a stack-machine assembly language: source text
//! is turned into an abstract syntax tree, checked against the program and
//! module rules, and given a canonical binary encoding.
pub mod felt;
pub mod text;
pub mod procedure_id;
pub mod ast;
pub mod errors;
pub mod tokens;
pub mod parser;
pub mod assembler;
pub mod codec;

pub use assembler::{assert_program_output, parse_module, parse_program};
pub use ast::{Instruction, ModuleAst, Node, ProcedureAst, ProgramAst};
pub use errors::{DecodeError, DecodeErrorKind, ParseErrorKind, ParsingError};
pub use felt::{Felt, MODULUS};
pub use procedure_id::ProcedureId;
