//! A verified interpreter for a small Scheme-like expression language.
//!
//! The library models every value, the tokenizer, the evaluator, the
//! builtin operator table and the program runner mathematically, and each
//! executable function is proved to agree with its model.  Numbers are
//! IEEE 754 doubles carried as bit patterns; the rational operations and
//! the correctly rounded decimal conversions are delegated to
//! arbitrary-precision backends behind narrow trusted bindings, while
//! comparisons, sign operations, square roots and integer conversions are
//! implemented and verified here.
pub mod backend;
pub mod builtins;
pub mod env;
pub mod interp;
pub mod laws;
pub mod numeric;
pub mod numlit;
pub mod power;
pub mod render;
pub mod text;
pub mod tokenizer;
pub mod value;

pub use interp::RunFailure;
pub use interp::SchemeInterpreter;
pub use value::Builtin;
pub use value::SchemeValue;
