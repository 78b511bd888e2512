//! An interpreter for the eight-symbol tape language: source text is parsed
//! into an instruction tree, the tree is rewritten by a peephole optimizer,
//! and the result is run against a sparse byte tape with in-memory input and
//! output streams.
//!
//! - [`command`]: the eight commands and their symbols.
//! - [`builder`]: from a stream of commands to a tree.
//! - [`tree`]: the tree and its mathematical model.
//! - [`machine`] and [`engine`]: the state of a run, as a value and as it is
//!   stored.
//! - [`semantics`] and [`execute`]: what running a tree means, and the
//!   interpreter that does it.
//! - [`rewrite`] and [`optimize`]: what the optimizer makes of a tree, and
//!   the optimizer.
//! - [`soundness`] and [`cutoff`]: the optimized tree runs as the tree does.
//! - [`normal`]: the shape of optimized trees, and the trees that the
//!   optimizer leaves alone.

pub mod builder;
pub mod command;
pub mod cutoff;
pub mod engine;
pub mod execute;
pub mod machine;
pub mod normal;
pub mod optimize;
pub mod rewrite;
pub mod semantics;
pub mod soundness;
pub mod tree;

pub use command::{commands, Command, SyntaxError};
pub use engine::Engine;
pub use machine::Machine;
pub use semantics::{Outcome, Status};
pub use tree::{OptimizedCommand, Tree};
