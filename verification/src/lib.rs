//! A verified execution frame for a stack-based bytecode interpreter of a
//! dynamically-typed scripting language.
//!
//! The crate is organized around five components: the read-only code object
//! ([`bytecode`]), the runtime value model ([`value`]), the name-resolution
//! scope ([`scope`]), the host virtual machine capability ([`vm`]), and the
//! frame itself ([`frame`]) with its dispatch loop, block machine, and
//! exception unwinder.

pub mod bytecode;
pub mod value;
pub mod scope;
pub mod vm;
pub mod frame;
