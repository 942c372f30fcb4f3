//! An interpreter for a Brainfuck-derived language extended with
//! user-defined functions, an auxiliary integer stack, and isolated-frame
//! function calls.
//!
//! The pipeline: source text is filtered by a [`reader::Reader`], parsed by
//! the [`dispatcher`] into a tree of [`operation::Operation`]s, rewritten by
//! the [`optimiser`], and executed against a growable tape
//! ([`array_handler::ArrayHandler`]), a function table
//! ([`function::FunctionHolder`]) and an auxiliary stack
//! ([`stack_handler::StackHandler`]).

pub mod array_handler;
pub mod cmd_handler;
pub mod compiler;
pub mod dispatcher;
pub mod exec_io;
pub mod function;
pub mod input_reader;
pub mod machine;
pub mod operation;
pub mod optimiser;
pub mod reader;
pub mod semantics;
pub mod stack_handler;
