//! The tasks (processes) that run inside the container.
use vstd::prelude::*;
use std::collections::BTreeMap;
use crate::path::{
    SLASH, split_slash, walk, views, join_stack, splits_after_first_byte, all_normal,
    split_path, walk_pieces, copy_stack, push_joined, lemma_walk_normal, lemma_split_slash_shape,
};
use crate::kmod::error::{Error, KernelResult, einval};

verus! {

/// An open file of a task: the directory entry it refers to (`None` when
/// it is the host's own file) and the position in it.
#[derive(Debug, Clone, Copy, PartialEq, Eq, Structural)]
pub struct File {
    pub dentry: Option<usize>,
    pub pos: u64,
}

/// A task: its process id, its working directory inside the container (as
/// the list of its components) and its open files by descriptor.
#[derive(Debug)]
pub struct Task {
    pub pid: i32,
    pub cwd: Vec<Vec<u8>>,
    pub files: BTreeMap<i32, File>,
}

/// The working directory `cwd` as a path: `/` for the root, else
/// `/c1/c2/.../cn`.
pub open spec fn cwd_string(cwd: Seq<Seq<u8>>) -> Seq<u8> {
    if cwd.len() == 0 {
        seq![SLASH]
    } else {
        join_stack(cwd)
    }
}

/// The working directory and the outcome of `chdir(path)` from `cwd`: an
/// absolute path starts from the root, a relative one from `cwd`; the
/// pieces are then resolved in order (see `walk`).
pub open spec fn chdir_result(cwd: Seq<Seq<u8>>, path: Seq<u8>) -> (Seq<Seq<u8>>, bool) {
    let start = if path.len() > 0 && path[0] == SLASH { Seq::<Seq<u8>>::empty() } else { cwd };
    walk((start, true), split_slash(path))
}

impl Task {
    /// The working directory as a list of components.
    pub open spec fn cwd_view(&self) -> Seq<Seq<u8>> {
        views(self.cwd@)
    }

    /// A task with the root as working directory and no open file.
    pub fn new(pid: i32) -> (t: Task)
        ensures
            t.pid == pid,
            t.cwd_view() == Seq::<Seq<u8>>::empty(),
            all_normal(t.cwd_view()),
            t.files@ == Map::<i32, File>::empty(),
    {
        let t = Task { pid: pid, cwd: Vec::new(), files: BTreeMap::new() };
        assert(t.cwd_view() =~= Seq::<Seq<u8>>::empty());
        t
    }

    /// A task for the process `pid` that starts where this one is: with its
    /// working directory and its open files.
    pub fn clone(&self, pid: i32) -> (t: Task)
        ensures
            t.pid == pid,
            t.cwd_view() == self.cwd_view(),
            t.files@ == self.files@,
    {
        Task { pid: pid, cwd: copy_stack(&self.cwd), files: self.files.clone() }
    }

    /// Records `fd` as open on `dentry`, at position 0.
    pub fn open_file(&mut self, fd: i32, dentry: Option<usize>)
        ensures
            final(self).pid == old(self).pid,
            final(self).cwd_view() == old(self).cwd_view(),
            final(self).files@ == old(self).files@.insert(fd, File { dentry: dentry, pos: 0 }),
    {
        self.files.insert(fd, File { dentry: dentry, pos: 0 });
    }

    /// Appends the working directory, as a path, to `ret`.
    pub fn get_cwd(&self, ret: &mut Vec<u8>)
        ensures
            final(ret)@ == old(ret)@ + cwd_string(self.cwd_view()),
    {
        if self.cwd.len() == 0 {
            ret.push(SLASH);
            assert(ret@ =~= old(ret)@ + seq![SLASH]);
        } else {
            push_joined(ret, &self.cwd);
        }
    }

    /// Changes the working directory to `path`, absolute or relative to the
    /// current one. An empty path, or a `..` above the root, is refused with
    /// `EINVAL`; in the second case the components resolved before the
    /// failing `..` stay in effect.
    pub fn chdir(&mut self, path: &[u8]) -> (r: KernelResult<()>)
        requires
            splits_after_first_byte(path@),
        ensures
            final(self).pid == old(self).pid,
            final(self).files@ == old(self).files@,
            path@.len() == 0 ==> r == Err::<(), Error>(einval()) && final(self).cwd_view() == old(self).cwd_view(),
            path@.len() > 0 ==> {
                let res = chdir_result(old(self).cwd_view(), path@);
                &&& final(self).cwd_view() == res.0
                &&& res.1 ==> r == Ok::<(), Error>(())
                &&& !res.1 ==> r == Err::<(), Error>(einval())
            },
            all_normal(old(self).cwd_view()) ==> all_normal(final(self).cwd_view()),
    {
        if path.len() == 0 {
            return Err(Error::invalid());
        }
        proof {
            if all_normal(old(self).cwd_view()) {
                lemma_chdir_keeps_normal(old(self).cwd_view(), path@);
            }
        }
        if path[0] == SLASH {
            self.cwd.clear();
            assert(self.cwd_view() =~= Seq::<Seq<u8>>::empty());
        }
        let pieces = split_path(path);
        let ok = walk_pieces(&mut self.cwd, &pieces);
        if ok {
            Ok(())
        } else {
            Err(Error::invalid())
        }
    }
}

/// A task's working directory stays made of normal components under
/// `chdir`, whatever the path.
pub proof fn lemma_chdir_keeps_normal(cwd: Seq<Seq<u8>>, path: Seq<u8>)
    requires
        all_normal(cwd),
    ensures
        all_normal(chdir_result(cwd, path).0),
{
    lemma_split_slash_shape(path);
    let start = if path.len() > 0 && path[0] == SLASH { Seq::<Seq<u8>>::empty() } else { cwd };
    lemma_walk_normal((start, true), split_slash(path));
}

} // verus!
