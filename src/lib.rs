//! Core logic of a small set of POSIX-style file utilities: permission mode
//! expressions, destination decisions for copy and move, planning of
//! recursive tree operations, and the argument shapes of the commands.

pub mod mode;
pub mod dest;
pub mod walk;
pub mod cli;
