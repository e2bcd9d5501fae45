//! The repository operations that the shell's commands rely on.

use crate::interrupt::Interrupt;
use crate::ocfl::{Inventory, StorageConfig};
use vstd::prelude::*;

verus! {

/// What the shell asks of a repository. Paths are strings; errors are
/// messages. Implementations read the file system, so nothing is promised of
/// their answers: the shell's commands are verified for every answer.
pub trait OcflApi {
    /// The repository root.
    fn ocfl_root(&self) -> &String;

    /// The repository's storage layout.
    fn storage_config(&self) -> &StorageConfig;

    /// Whether `path` is the repository root.
    fn is_repository_root(&self, path: &String) -> Result<bool, String>;

    /// Whether `path` is an object root.
    fn is_object_root(&self, path: &String) -> Result<bool, String>;

    /// What the `versions` command prints for `path`.
    fn list_versions(&mut self, path: &String) -> Result<Vec<String>, String>;

    /// The inventories of all objects, stopping early when `interrupt` is raised.
    fn list_objects(&mut self, interrupt: &Interrupt) -> Result<Vec<Inventory>, String>;

    /// The inventory of the object rooted at `dir`.
    fn load_inventory(&mut self, dir: String) -> Result<Inventory, String>;

    /// The path, relative to the root, of the object with identifier `id`.
    fn path_for_id(&mut self, id: &str) -> String;

    /// The arguments for an outside command run in `path`, with a logical
    /// path resolved to its content path.
    fn modify_if_ocfl_path(&mut self, path: &String, args: Vec<String>) -> Result<
        Vec<String>,
        String,
    >;
}

} // verus!
