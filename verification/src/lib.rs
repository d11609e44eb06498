//! A small Lisp-like expression engine: a cons-cell value model with interned
//! symbols, a reader for s-expression text, and an evaluator for a fixed set
//! of special forms.

pub mod dual_map;
pub mod eval;
pub mod lexeme;
pub mod parser;
pub mod reading_laws;
pub mod render;
pub mod scan;
pub mod symbol;
pub mod table;
pub mod value;
