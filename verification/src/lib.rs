//! A compiler for a small systems programming language, from source text to the
//! commands that build machine code, and an interpreter for it.
pub mod arguments;
pub mod arithmetic;
pub mod ast;
pub mod checking;
pub mod cli;
pub mod codegen;
pub mod compiled;
pub mod comptime;
pub mod deferral;
pub mod emission;
pub mod evaluation;
pub mod execution;
pub mod expansion;
pub mod faithfulness;
pub mod floats;
pub mod folding;
pub mod formatter;
pub mod grammar;
pub mod guards;
pub mod inference;
pub mod instances;
pub mod instructions;
pub mod integers;
pub mod interpreter;
pub mod laws;
pub mod lexer;
pub mod linking;
pub mod machine;
pub mod meaning;
pub mod memory;
pub mod mir;
pub mod modules;
pub mod names;
pub mod operands;
pub mod ops;
pub mod parser;
pub mod pipeline;
pub mod reading;
pub mod reformatting;
pub mod resolution;
pub mod semantic;
pub mod separation;
pub mod soundness;
pub mod source;
pub mod specialize;
pub mod text;
pub mod typed;
pub mod typed_eval;
pub mod typing;
pub mod visibility;
pub mod wiring;

pub use pipeline::{
    analyze_program, analyze_program_with_pointer_width, analyze_resolved_program, analyze_source,
    lex_source, lower_mir, lower_typed_mir, parse_source, FrontendError,
};
