//! A local orchestration library for managing problem repositories and
//! turning each declared problem into a runnable, sandboxed service.
//!
//! The library owns the repository index (a persistent, unique-keyed map from
//! repository name to backend and cached problem list), resolves problem
//! queries against that index, turns a declarative per-problem manifest into a
//! fully path-resolved build description, and decides every container
//! lifecycle transition. File, network and container-runtime access is left to
//! the embedding binary, which hands plain values in and out.

use vstd::prelude::*;

pub mod backend;
pub mod codec;
pub mod docker;
mod error;
pub mod manifest;
pub mod name;
pub mod ops;
pub mod path;
pub mod problem;
pub mod repository;
pub mod strutil;
pub mod template;

pub use error::{SomaError, SomaResult};
pub use name::NameString;

verus! {

/// The tool version recorded in the identity labels of every image and
/// container this library's plans create.
pub const VERSION: &'static str = "0.1.0";

/// A sink for user-visible progress lines. The embedding binary implements
/// it over its terminal; the library never writes anywhere itself.
pub trait Printer {
    /// A position that `write_line_at` can later rewrite.
    type Handle;

    /// Reserves the current output position.
    fn get_current_handle(&mut self) -> Self::Handle;

    /// Rewrites the line at a reserved position.
    fn write_line_at(&mut self, handle: &Self::Handle, message: &str);

    /// Writes one line.
    fn write_line(&mut self, message: &str);
}

} // verus!
