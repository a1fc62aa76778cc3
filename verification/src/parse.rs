//! The parsed form of a source file, as the syntax stage hands it over, and
//! what that stage reports when it fails.

pub mod ast;
pub mod failure;
