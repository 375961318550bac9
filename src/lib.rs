//! A token-template expansion engine. Directives introduced by the sigil `$`
//! bind names, reference and index values, iterate collections and gate
//! blocks on the iteration's position; every other token is passed through
//! unchanged. `parse::evaluate` is the entry point, and its result is stated
//! exactly by `parse::sem_evaluate`.

pub mod token;
pub mod error;
pub mod cursor;
pub mod text;
pub mod env;
pub mod quotes;
pub mod action;
pub mod assign;
pub mod parse;
pub mod laws;
