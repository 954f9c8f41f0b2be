//! Where the ledger is kept between sessions.

use std::path::PathBuf;
use vstd::prelude::*;

verus! {

/// `std::path::PathBuf`. Nothing is said of what it holds.
#[verifier::external_type_specification]
#[verifier::external_body]
pub struct ExPathBuf(PathBuf);

/// The place of the ledger file. Reading and writing the file is left to
/// the caller.
pub struct Storage {
    path: PathBuf,
}

impl Storage {
    /// The path of the ledger file.
    pub closed spec fn location(&self) -> PathBuf {
        self.path
    }

    /// The storage whose ledger file is `path`.
    pub fn at(path: PathBuf) -> (storage: Storage)
        ensures
            storage.location() == path,
    {
        Storage { path }
    }

    /// The path of the ledger file.
    pub fn path(&self) -> (path: &PathBuf)
        ensures
            *path == self.location(),
    {
        &self.path
    }
}

} // verus!
