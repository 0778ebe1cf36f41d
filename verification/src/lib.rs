//! A verified core of a user-space dynamic loader for the x86-64 System V ABI.
//!
//! Given a primary executable object and a search path, the loader resolves
//! shared-library dependencies, lays the objects out in a modeled address
//! space, arranges thread-local storage, builds a global symbol table,
//! applies eager relocations, and installs W^X page protections before
//! handing back the primary entry point.
//!
//! ELF parsing is delegated to the `goblin` crate behind a small set of
//! trusted wrappers; everything downstream of the parse - layout, TLS,
//! symbols, copying, relocation and protection - is verified.

pub mod defs;
pub mod parse;
pub mod image;
pub mod layout;
pub mod symbols;
pub mod reloc;
pub mod copy;
pub mod paths;
pub mod linker;
