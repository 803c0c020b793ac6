//! The read-only context of every operation: where the target directory
//! lies, and which home directory the manifest's relative paths resolve
//! against.

use vstd::prelude::*;

use crate::error::Error;
use crate::paths::{FsPath, PathV};

verus! {

/// The bytes of the manifest document's file name inside the target
/// directory, `dotfiles.toml`.
pub open spec fn manifest_name() -> Seq<u8> {
    seq![100u8, 111u8, 116u8, 102u8, 105u8, 108u8, 101u8, 115u8, 46u8, 116u8, 111u8, 109u8, 108u8]
}

/// The bytes of the content store's directory name inside the target
/// directory, `contents`.
pub open spec fn contents_name() -> Seq<u8> {
    seq![99u8, 111u8, 110u8, 116u8, 101u8, 110u8, 116u8, 115u8]
}

/// The operation context: the target directory holding manifest and content
/// store, and an optional home-directory override.
#[derive(Debug)]
pub struct Config {
    pub target: FsPath,
    pub home: Option<FsPath>,
}

impl Config {
    /// The configured home directory, if any.
    pub open spec fn home_v(&self) -> Option<PathV> {
        match self.home {
            Some(h) => Some(h@),
            None => None,
        }
    }

    /// The path of the manifest document.
    pub open spec fn dotfiles_v(&self) -> PathV {
        self.target@.child(manifest_name())
    }

    /// The path of the content store.
    pub open spec fn contents_v(&self) -> PathV {
        self.target@.child(contents_name())
    }

    /// A usable context: the target is absolute, and so is the home
    /// directory where one is set.
    pub open spec fn wf(&self) -> bool {
        self.target@.absolute && (match self.home_v() {
            Some(h) => h.absolute,
            None => true,
        })
    }

    /// Assemble a context from its two paths.
    pub fn new(target: FsPath, home: Option<FsPath>) -> (r: Config)
        ensures
            r.target@ == target@,
            r.home_v() == (match home {
                Some(h) => Some(h@),
                None => None::<PathV>,
            }),
    {
        Config { target, home }
    }

    /// The home directory every relative path resolves against.  The
    /// caller detects the platform's home directory and stores it here
    /// before operations run; without one, nothing can be resolved.
    pub fn get_home(&self) -> (r: Result<FsPath, Error>)
        ensures
            (match self.home_v() {
                Some(h) => r matches Ok(p) && p@ == h,
                None => r matches Err(e) && e == Error::NoHomeDirectory,
            }),
    {
        match &self.home {
            Some(h) => Ok(h.clone()),
            None => Err(Error::NoHomeDirectory),
        }
    }

    /// The path of the manifest document inside the target directory.
    pub fn dotfiles(&self) -> (r: FsPath)
        ensures
            r@ == self.dotfiles_v(),
    {
        let mut name: Vec<u8> = Vec::new();
        name.push(100u8);
        name.push(111u8);
        name.push(116u8);
        name.push(102u8);
        name.push(105u8);
        name.push(108u8);
        name.push(101u8);
        name.push(115u8);
        name.push(46u8);
        name.push(116u8);
        name.push(111u8);
        name.push(109u8);
        name.push(108u8);
        proof {
            assert(name@ =~= manifest_name());
        }
        self.target.child(name)
    }

    /// The path of the content store inside the target directory.
    pub fn contents(&self) -> (r: FsPath)
        ensures
            r@ == self.contents_v(),
    {
        let mut name: Vec<u8> = Vec::new();
        name.push(99u8);
        name.push(111u8);
        name.push(110u8);
        name.push(116u8);
        name.push(101u8);
        name.push(110u8);
        name.push(116u8);
        name.push(115u8);
        proof {
            assert(name@ =~= contents_name());
        }
        self.target.child(name)
    }
}

} // verus!
