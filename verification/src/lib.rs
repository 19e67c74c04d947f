//! FFI safe trait objects: the verified core of the `dyntable` library.
//!
//! The crate holds the memory layout type shared with foreign code, the
//! vtable marker traits, and the rules by which a `#[dyntable]` trait is
//! turned into a vtable: option handling, method validation, `dyn` bound
//! resolution into subtable graphs, and the layout of the generated vtable.

pub mod memory;
pub mod vtable;
pub mod text;
pub mod path;
pub mod bounds;
pub mod subtable;
pub mod method;
pub mod options;
pub mod dyntrait;
pub mod codegen;
pub mod types;
