//! Password policy rules with two verified subsystems at their core:
//! dictionary lookup over sorted word lists and ternary search trees, and a
//! scanner for runs of neighbouring keys or characters.
pub mod dictionary;
pub mod entropy;
pub mod hash;
pub mod password_generator;
pub mod rule;
pub mod text;
