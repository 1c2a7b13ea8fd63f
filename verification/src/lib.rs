//! Lowers a schema document describing an HTTP API into a typed intermediate
//! representation and renders it as three ReScript source artifacts: type
//! definitions, runtime validators, and client functions.
//!
//! The pipeline is total on well-formed input: a document either lowers to a
//! full intermediate representation or the run is aborted before any
//! artifact is produced, and rendering never fails once an IR exists.

pub mod closure;
pub mod codegen;
pub mod diagnostics;
pub mod document;
pub mod ir;
pub mod lower;
pub mod render;
pub mod sanitize;
pub mod text;
pub mod watch;
