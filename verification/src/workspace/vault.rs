//! The open folder and the file shown from it.
use std::path::PathBuf;
use vstd::prelude::*;

verus! {

/// A path of the file system, carried as it is.
#[verifier::external_type_specification]
#[verifier::external_body]
pub struct ExPathBuf(PathBuf);

/// The open folder, and the file of the active tab.
pub struct Vault {
    pub root_path: Option<PathBuf>,
    pub active_file: Option<PathBuf>,
}

impl Vault {
    pub fn new(root_path: Option<PathBuf>) -> (r: Self)
        ensures
            r.root_path == root_path,
            r.active_file is None,
    {
        Vault { root_path, active_file: None }
    }

    /// Opens another folder; no file of it is shown yet.
    pub fn set_root(&mut self, path: PathBuf)
        ensures
            final(self).root_path == Some(path),
            final(self).active_file is None,
    {
        self.root_path = Some(path);
        self.active_file = None;
    }
}

} // verus!
