//! The install prefix and the places of the metadata below it.

use vstd::prelude::*;
use vstd::string::*;
use crate::path::{InstallPath, relative};
use crate::text::copy_of;

verus! {

/// An absolute path, as the contracts see it: the root of the prefix and the
/// path below it.
pub struct AbsView {
    pub root: Seq<char>,
    pub below: Seq<Seq<char>>,
}

/// A path at or below the root of an install prefix.
///
/// The root is kept as the host wrote it and is never taken apart here.
#[derive(Debug, PartialEq, Eq)]
pub struct AbsPath {
    pub root: String,
    pub below: InstallPath,
}

impl View for AbsPath {
    type V = AbsView;

    open spec fn view(&self) -> AbsView {
        AbsView { root: self.root@, below: self.below@ }
    }
}

impl Clone for AbsPath {
    fn clone(&self) -> (copy: Self)
        ensures
            copy@ == self@,
    {
        AbsPath { root: copy_of(self.root.as_str()), below: self.below.clone() }
    }
}

/// The directory below the prefix that holds the metadata.
pub open spec fn metadata_dir() -> Seq<Seq<char>> {
    seq!["lib"@, "rustlib"@]
}

/// The file that lists the installed components.
pub open spec fn components_name() -> Seq<char> {
    "components"@
}

/// The file that holds the version of the metadata format.
pub open spec fn version_name() -> Seq<char> {
    "version"@
}

/// The version of the metadata format that this crate reads and writes.
pub open spec fn installer_version() -> Seq<char> {
    "3"@
}

/// The name of the manifest of the component `name`.
pub open spec fn manifest_name(name: Seq<char>) -> Seq<char> {
    "manifest-"@ + name
}

/// The name of the file that lists the installed components.
pub fn components_file_name() -> (name: String)
    ensures
        name@ == components_name(),
{
    String::from_str("components")
}

/// The name of the file that holds the version of the metadata format.
pub fn version_file_name() -> (name: String)
    ensures
        name@ == version_name(),
{
    String::from_str("version")
}

/// The version of the metadata format that this crate reads and writes.
pub fn supported_version() -> (version: String)
    ensures
        version@ == installer_version(),
{
    String::from_str("3")
}

/// The root directory of one installed toolchain.
#[derive(Debug, PartialEq, Eq)]
pub struct InstallPrefix {
    root: String,
}

impl Clone for InstallPrefix {
    fn clone(&self) -> (copy: Self)
        ensures
            copy.root() == self.root(),
    {
        InstallPrefix { root: copy_of(self.root.as_str()) }
    }
}

impl InstallPrefix {
    /// The root, as the host wrote it.
    pub closed spec fn root(&self) -> Seq<char> {
        self.root@
    }

    /// The prefix rooted at `root`.
    pub fn from(root: &str) -> (prefix: Self)
        ensures
            prefix.root() == root@,
    {
        InstallPrefix { root: copy_of(root) }
    }

    /// The root, as the host wrote it.
    pub fn path(&self) -> (root: String)
        ensures
            root@ == self.root(),
    {
        copy_of(self.root.as_str())
    }

    /// The metadata directory, relative to the prefix.
    pub fn metadata_root(&self) -> (dir: InstallPath)
        ensures
            dir@ == metadata_dir(),
            relative(dir@),
    {
        let dir = InstallPath::new().child("lib").child("rustlib");
        proof {
            reveal_strlit("lib");
            assert(dir@ == metadata_dir());
            assert(dir@[0].len() == 3);
        }
        dir
    }

    /// The place of the metadata file `name`, relative to the prefix.
    pub fn rel_manifest_file(&self, name: &str) -> (file: InstallPath)
        ensures
            file@ == metadata_dir().push(name@),
            relative(file@),
    {
        let file = self.metadata_root().child(name);
        proof {
            reveal_strlit("lib");
            assert(file@[0] == metadata_dir()[0]);
            assert(file@[0].len() == 3);
        }
        file
    }

    /// The absolute place of the metadata file `name`.
    pub fn manifest_file(&self, name: &str) -> (file: AbsPath)
        ensures
            file@ == (AbsView { root: self.root(), below: metadata_dir().push(name@) }),
    {
        let rel = self.rel_manifest_file(name);
        self.abs_path(rel)
    }

    /// The absolute place of `rel`, which must be relative.
    pub fn abs_path(&self, rel: InstallPath) -> (abs: AbsPath)
        requires
            relative(rel@),
        ensures
            abs@ == (AbsView { root: self.root(), below: rel@ }),
    {
        AbsPath { root: copy_of(self.root.as_str()), below: rel }
    }
}

} // verus!
