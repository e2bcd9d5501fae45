//! An interactive shell over an OCFL repository: the verified core.
//!
//! The library holds what the shell decides: how a command line splits into
//! pipeline stages and words, what each built-in command asks of the repository
//! and what it answers, and how OCFL inventories and storage layouts map object
//! identifiers and logical paths to paths on disk.

pub mod interrupt;
pub mod shell;
pub mod text;
pub mod ocfl;
pub mod process;
pub mod steps;
