//! The backend of a compiler for a small AWK-like language.
//!
//! - `lattice`: the three-valued static type lattice and its join.
//! - `ast`, `program`: the typed statement tree that the front end hands
//!   over, and the layout of BEGIN actions, main rules and END actions as
//!   one statement.
//! - `env`, `typing`: type analysis, a forward pass over the tree that
//!   fills every type slot, joining environments at branches and running
//!   loops twice.
//! - `vars`, `codegen`: one storage slot per distinct variable, and the
//!   lowering of the typed tree into one routine for a tagged-value stack
//!   machine, coercing only what is not statically a number.
//! - `depth`: the stack discipline of compiled code (statements leave the
//!   stack as they found it, no instruction reads below its start).
//! - `value`, `text`, `columns`, `machine`: the runtime value model (tagged
//!   values, truthiness, records and fields) and the machine that runs a
//!   routine, asking its host for the floating-point work.
//! - `args`: the command line.
pub mod lattice;
pub mod env;
pub mod ast;
pub mod program;
pub mod typing;
pub mod text;
pub mod columns;
pub mod value;
pub mod vars;
pub mod codegen;
pub mod depth;
pub mod machine;
pub mod args;
