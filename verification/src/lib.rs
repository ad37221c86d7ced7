//! An interpreter for a small stack language in the style of Aocla: a
//! lexer that reads program text into values, an evaluator that runs them
//! against a stack and an environment, and the text by which values are
//! shown.  Beside it stand the readers and interpreter of earlier stages of
//! the language (`ao2`, `ao3`, `demo`) and readers for the pieces of an
//! http URI (`uri`).
pub mod value;
pub mod lexer;
pub mod arith;
pub mod machine;
pub mod display;
pub mod laws;
pub mod output_laws;
pub mod word_laws;
pub mod ao3;
pub mod ao2;
pub mod uri;
pub mod demo;
pub mod editing;

pub use value::{AoKeyword, AoType, Fault};
pub use lexer::l_ao_all;
pub use machine::{call_interp, interp, interp_ao_type, run_program, Env};
