//! A code generator: typed s-expressions in, a native object file out.
//!
//! Every function definition is lowered to a list of builder steps (see
//! `lower` and `translate`), the steps are replayed on Cranelift's function
//! builder (see `emit`), and the finished functions are collected in an object
//! module (see `generator`).
//!
//! What expressions mean is said apart from all that (see `meaning`), and so is what
//! steps do when they are run (see `machine`); that the one comes to the other is
//! proved of expressions (see `correct`) and of functions (see `whole`).

pub mod accept;
pub mod answers;
pub mod ast;
pub mod check;
pub mod clif;
pub mod clif_builder;
pub mod clif_module;
pub mod correct;
pub mod emit;
pub mod env;
pub mod exports;
pub mod faithful;
pub mod function;
pub mod generator;
pub mod generics;
pub mod ir;
pub mod laws;
pub mod linked;
pub mod lower;
pub mod machine;
pub mod mangle;
pub mod meaning;
pub mod module_log;
pub mod names;
pub mod numbers;
pub mod order;
pub mod places;
pub mod prefix;
pub mod protocol;
pub mod renaming;
pub mod repeat;
pub mod size;
pub mod spelled;
pub mod step;
pub mod tally;
pub mod text;
pub mod translatable;
pub mod translate;
pub mod typed;
pub mod whole;
