//! Path construction for the manifest and script layout under the
//! dotfiles root. Locating the root itself (environment, home directory)
//! is the application's work; every function here builds from it.

use vstd::prelude::*;
use vstd::string::StringExecFns;

verus! {

/// Builds the well-known paths under the dotfiles root.
pub struct PathHelper;

impl PathHelper {
    /// The directory holding the per-manager manifest files.
    pub fn packages_dir(root: &str) -> (r: String)
        ensures
            r@ == root@ + "/packages"@,
    {
        let mut s = root.to_owned();
        s.append("/packages");
        s
    }

    /// The base manifest file of one manager.
    pub fn package_file(root: &str, manager: &str) -> (r: String)
        ensures
            r@ == root@ + "/packages/"@ + manager@ + ".txt"@,
    {
        let mut s = root.to_owned();
        s.append("/packages/");
        s.append(manager);
        s.append(".txt");
        s
    }

    /// The local-override manifest file of one manager.
    pub fn package_local_file(root: &str, manager: &str) -> (r: String)
        ensures
            r@ == root@ + "/packages/"@ + manager@ + ".local.txt"@,
    {
        let mut s = root.to_owned();
        s.append("/packages/");
        s.append(manager);
        s.append(".local.txt");
        s
    }

    /// The directory holding the maintenance scripts.
    pub fn scripts_dir(root: &str) -> (r: String)
        ensures
            r@ == root@ + "/scripts"@,
    {
        let mut s = root.to_owned();
        s.append("/scripts");
        s
    }

    /// The package synchronisation script.
    pub fn package_sync_script(root: &str) -> (r: String)
        ensures
            r@ == root@ + "/scripts/package-sync.sh"@,
    {
        let mut s = root.to_owned();
        s.append("/scripts/package-sync.sh");
        s
    }
}

} // verus!
