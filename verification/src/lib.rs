//! Front end for a small linear-programming language: an objective and a set
//! of linear constraints are tokenized, parsed into an arena syntax tree,
//! flattened into a symbol table of per-variable contributions, and finally
//! assembled into a dense tableau matrix for a downstream pivot solver.

pub mod ast;
pub mod simplex;
pub mod symbols;
pub mod syntax;
pub mod token_automata;
pub mod tokenizer;
pub mod tokens;
