//! Name resolution over parsed module trees.
//!
//! A root module is added in three passes over its tree: the first gives
//! every declared name a slot, the second resolves the re-exports, the third
//! resolves the imports and the bodies. What each pass does is defined on a
//! mathematical model of the root, and the passes are proved to do just that.

pub mod arena;
pub mod convert;
pub mod error;
pub mod exports;
pub mod format;
pub mod laws;
pub mod linked;
pub mod mirror;
pub mod model;
pub mod passes;
pub mod placement;
pub mod registry;
pub mod root;
pub mod tree;
