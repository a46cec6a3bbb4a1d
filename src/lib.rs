//! Expansion of the `quick!` shorthand inside an `error_chain!`-style block.
//!
//! The input is a token tree (see [`tokens`]); the output is the same tree with
//! every shorthand entry of the `errors` block written out in canonical form,
//! wrapped in an invocation of `::error_chain::error_chain!`.
pub mod tokens;
pub mod literal;
pub mod quick;
pub mod parse;
pub mod rewrite;
pub mod emit;
pub mod laws;

pub use emit::error_chain_quick;
