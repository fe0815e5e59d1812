use vstd::prelude::*;

verus! {

/// How a snapshot is written.
#[derive(Debug, Clone, Copy, PartialEq, Eq, Structural)]
pub struct SaveConfig {
    pub create_directories: bool,
    pub overwrite_existing: bool,
    pub pretty_print: bool,
}

impl Default for SaveConfig {
    fn default() -> (r: SaveConfig)
        ensures
            r.create_directories,
            !r.overwrite_existing,
            r.pretty_print,
    {
        SaveConfig { create_directories: true, overwrite_existing: false, pretty_print: true }
    }
}

/// Where snapshots are saved when no path is given.
#[derive(Debug)]
pub struct PersistenceManager {
    default_save_directory: String,
}

impl PersistenceManager {
    /// The directory used when none is given.
    pub closed spec fn directory(&self) -> Seq<char> {
        self.default_save_directory@
    }

    /// Creates a manager that saves under `saved_hypergraphs`.
    pub fn new() -> (r: PersistenceManager)
        ensures
            r.directory() == "saved_hypergraphs"@,
    {
        PersistenceManager::with_save_directory("saved_hypergraphs")
    }

    /// Creates a manager that saves under the given directory.
    pub fn with_save_directory(save_directory: &str) -> (r: PersistenceManager)
        ensures
            r.directory() == save_directory@,
    {
        PersistenceManager { default_save_directory: save_directory.to_owned() }
    }

    /// Returns the directory used when no path is given.
    pub fn default_save_directory(&self) -> (r: &str)
        ensures
            r@ == self.directory(),
    {
        self.default_save_directory.as_str()
    }

    /// Replaces the directory used when no path is given.
    pub fn set_default_save_directory(&mut self, directory: &str)
        ensures
            final(self).directory() == directory@,
    {
        self.default_save_directory = directory.to_owned();
    }
}

impl Default for PersistenceManager {
    fn default() -> (r: PersistenceManager)
        ensures
            r.directory() == "saved_hypergraphs"@,
    {
        PersistenceManager::new()
    }
}

} // verus!
