//! The container's view of the file system: guest paths are resolved
//! against the working directory and mapped under the container's root on
//! the host, which they may not leave.
use vstd::prelude::*;
use crate::path::SLASH;
use crate::sentry::error::{Error, IoErrorKind, Result};
use crate::sentry::hostpath::{
    is_absolute, push_path, strip_root, path_starts_with, push_path_bytes, strip_root_bytes, starts_with,
};

verus! {

/// The file system of the container: the working directory (a guest path)
/// and the host directory that is the guest's `/`.
#[derive(Debug)]
pub struct Fs {
    cwd: Vec<u8>,
    root: Vec<u8>,
}

/// The guest path that `user_path` names from the working directory `cwd`:
/// a relative path is appended to `cwd`, an absolute one to `/`.
pub open spec fn guest_path(cwd: Seq<u8>, user_path: Seq<u8>) -> Seq<u8> {
    if !is_absolute(user_path) {
        push_path(cwd, user_path)
    } else {
        push_path(seq![SLASH], user_path)
    }
}

/// The host path that `user_path` names, before symbolic links and `..`
/// are resolved: the guest path made relative to `/`, appended to the root.
pub open spec fn host_path_of(root: Seq<u8>, cwd: Seq<u8>, user_path: Seq<u8>) -> Seq<u8> {
    push_path(root, strip_root(guest_path(cwd, user_path)))
}

impl Fs {
    /// The working directory.
    pub closed spec fn cwd_view(&self) -> Seq<u8> {
        self.cwd@
    }

    /// The host directory that is the guest's root.
    pub closed spec fn root_view(&self) -> Seq<u8> {
        self.root@
    }

    /// The working directory is absolute.
    pub open spec fn wf(&self) -> bool {
        is_absolute(self.cwd_view())
    }

    /// The file system of a container whose root is the host directory
    /// `root` (already resolved, as `canonicalize` gives it); the working
    /// directory is `/`.
    pub fn new(root: Vec<u8>) -> (fs: Fs)
        ensures
            fs.wf(),
            fs.cwd_view() == seq![SLASH],
            fs.root_view() == root@,
    {
        let mut cwd: Vec<u8> = Vec::new();
        cwd.push(SLASH);
        assert(cwd@ =~= seq![SLASH]);
        Fs { cwd: cwd, root: root }
    }

    /// The host directory that is the guest's root.
    pub fn root(&self) -> (r: &Vec<u8>)
        ensures
            r@ == self.root_view(),
    {
        &self.root
    }

    /// The host path that `user_path` names (see `host_path_of`), still to
    /// be resolved on the host.
    pub fn host_path(&self, user_path: &[u8]) -> (r: Vec<u8>)
        requires
            self.wf(),
        ensures
            r@ == host_path_of(self.root_view(), self.cwd_view(), user_path@),
    {
        let guest = if !(user_path.len() > 0 && user_path[0] == SLASH) {
            push_path_bytes(self.cwd.as_slice(), user_path)
        } else {
            let mut slash: Vec<u8> = Vec::new();
            slash.push(SLASH);
            assert(slash@ =~= seq![SLASH]);
            push_path_bytes(slash.as_slice(), user_path)
        };
        proof {
            assert(is_absolute(guest@));
        }
        let rel = strip_root_bytes(guest.as_slice());
        push_path_bytes(self.root.as_slice(), rel.as_slice())
    }

    /// Accepts a resolved host path only if it lies under the root,
    /// component by component; refuses it as not found otherwise.
    pub fn confine(&self, resolved: Vec<u8>) -> (r: Result<Vec<u8>>)
        ensures
            path_starts_with(resolved@, self.root_view()) ==> (r matches Ok(p) && p@ == resolved@),
            !path_starts_with(resolved@, self.root_view()) ==> r == Err::<Vec<u8>, Error>(Error::IoError(IoErrorKind::NotFound)),
    {
        if !starts_with(resolved.as_slice(), self.root.as_slice()) {
            Err(Error::IoError(IoErrorKind::NotFound))
        } else {
            Ok(resolved)
        }
    }
}

} // verus!
