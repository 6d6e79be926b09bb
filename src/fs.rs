use vstd::prelude::*;

verus! {

/// How a file is created.
#[derive(Copy, Clone, Debug)]
pub struct CreateOptions {
    pub overwrite: bool,
    pub ignore_if_exists: bool,
}

impl Default for CreateOptions {
    /// Keep what exists: no overwrite, and no error where the file is there.
    fn default() -> (r: Self)
        ensures
            !r.overwrite,
            r.ignore_if_exists,
    {
        CreateOptions { overwrite: false, ignore_if_exists: true }
    }
}

/// The real file system.
#[derive(Debug, Clone)]
pub struct FileSystem;

impl FileSystem {
    pub fn new() -> (r: Self) {
        FileSystem
    }
}

/// A file or a directory, with what has been loaded of it.
pub enum FileSystemEntity {
    File { name: String, content: Option<String> },
    Directory { name: String, children: Option<Vec<FileSystemEntity>> },
}

impl FileSystemEntity {
    /// The entry's own name.
    pub fn name(&self) -> (r: &String)
        ensures
            *r == match self {
                FileSystemEntity::File { name, .. } => *name,
                FileSystemEntity::Directory { name, .. } => *name,
            },
    {
        match self {
            FileSystemEntity::File { name, .. } => name,
            FileSystemEntity::Directory { name, .. } => name,
        }
    }
}

} // verus!
