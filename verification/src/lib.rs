//! A small interpreted-language runtime: a reader that turns text into a
//! tree of tagged values, a printer that renders values back to text, a
//! chained-environment model backing closures and block scoping, and an
//! evaluator whose trampoline loop runs tail calls without growing the
//! host stack.
//!
//! Reading, printing and evaluation are all specified against
//! spec-level models (`ValV`, `EnvV`, the fueled interpreter
//! `eval_spec`) and the executable code is proved to match them.
pub mod env;
pub mod interp;
pub mod natives;
pub mod printer;
pub mod reader;
pub mod text;
pub mod types;
