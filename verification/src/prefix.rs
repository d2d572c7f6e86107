//! The place of an installation and of its metadata.

use vstd::prelude::*;
use vstd::string::*;

verus! {

/// The directory, relative to the prefix, that holds the installation's
/// metadata.
pub open spec fn manifest_dir() -> Seq<char> {
    "lib/rustlib"@
}

/// `dir` and `rel` joined by a slash.
pub open spec fn joined(dir: Seq<char>, rel: Seq<char>) -> Seq<char> {
    dir + seq!['/'] + rel
}

/// The path, relative to the prefix, of the metadata file called `name`.
pub open spec fn rel_manifest_path(name: Seq<char>) -> Seq<char> {
    joined(manifest_dir(), name)
}

/// `dir` and `rel` joined by a slash.
pub fn join_path(dir: &str, rel: &str) -> (path: String)
    ensures
        path@ == joined(dir@, rel@),
{
    proof {
        reveal_strlit("/");
        assert("/"@ =~= seq!['/']);
    }
    let mut path = dir.to_owned();
    path.append("/");
    path.append(rel);
    path
}

/// The root directory of one installation.
#[derive(Debug)]
pub struct InstallPrefix {
    path: String,
}

impl View for InstallPrefix {
    type V = Seq<char>;

    closed spec fn view(&self) -> Seq<char> {
        self.path@
    }
}

impl Clone for InstallPrefix {
    fn clone(&self) -> (copy: InstallPrefix)
        ensures
            copy@ == self@,
    {
        InstallPrefix { path: self.path.clone() }
    }
}

impl InstallPrefix {
    /// The installation rooted at `path`.
    pub fn from(path: String) -> (prefix: InstallPrefix)
        ensures
            prefix@ == path@,
    {
        InstallPrefix { path }
    }

    /// The root directory.
    pub fn path(&self) -> (path: &String)
        ensures
            path@ == self@,
    {
        &self.path
    }

    /// The place on disk of a path that is relative to the prefix.
    pub fn abs_path(&self, rel: &str) -> (path: String)
        ensures
            path@ == joined(self@, rel@),
    {
        join_path(self.path.as_str(), rel)
    }

    /// The path, relative to the prefix, of the metadata file called `name`.
    pub fn rel_manifest_file(&self, name: &str) -> (path: String)
        ensures
            path@ == rel_manifest_path(name@),
    {
        join_path("lib/rustlib", name)
    }

    /// The place on disk of the metadata file called `name`.
    pub fn manifest_file(&self, name: &str) -> (path: String)
        ensures
            path@ == joined(self@, rel_manifest_path(name@)),
    {
        let rel = self.rel_manifest_file(name);
        self.abs_path(rel.as_str())
    }
}

} // verus!
