//! The container's kernel: its root on the host, its task table, the task
//! that is running a system call, and the translation of the paths that a
//! task names into paths on the host.
use vstd::prelude::*;
use std::collections::BTreeMap;
use crate::path::{
    SLASH, split_slash, walk, views, join_stack, splits_after_first_byte, all_normal,
    split_path, walk_pieces, copy_stack, copy_bytes, push_joined, bytes_eq,
    lemma_split_slash_shape, lemma_walk_normal,
};
use crate::kmod::error::{Error, KernelResult, einval};
use crate::kmod::fs::{DEntry, DentryTable};
use crate::kmod::task::{Task, File, cwd_string, chdir_result, lemma_chdir_keeps_normal};

verus! {

/// The longest path, in bytes, that is read from a task.
pub const PATH_MAX: usize = 200;

/// What a guest path names on the host: a host path, or an entry of the
/// container's own file tree.
#[derive(Debug)]
pub enum Path {
    Host(Vec<u8>),
    Mapped(usize),
}

/// The mathematical form of a [`Path`].
pub enum PathView {
    Host(Seq<u8>),
    Mapped(usize),
}

impl View for Path {
    type V = PathView;

    open spec fn view(&self) -> PathView {
        match self {
            Path::Host(h) => PathView::Host(h@),
            Path::Mapped(id) => PathView::Mapped(*id),
        }
    }
}

/// The task that is running the current system call: none, the one that
/// the task table holds under a process id, or one that has left the table
/// since it became current (it stays current until another one does).
#[derive(Debug)]
enum CurrentTask {
    Idle,
    InTable(i32),
    Detached(Task),
}

/// The kernel of a container.
#[derive(Debug)]
pub struct Kernel {
    /// The host directory that is the guest's `/`.
    rootpath: Vec<u8>,
    /// The roots of the container's own file tree, by name (each name at
    /// most once).
    fs_map: Vec<(Vec<u8>, usize)>,
    /// The entries of the container's own file tree.
    dentries: DentryTable,
    /// The task table, by process id.
    tasks: BTreeMap<i32, Task>,
    /// The task that is running the current system call.
    current: CurrentTask,
}

/// The first entry of `m` named `name`.
pub open spec fn first_key_match(m: Seq<(Seq<u8>, usize)>, name: Seq<u8>) -> Option<usize>
    decreases m.len(),
{
    if m.len() == 0 {
        None
    } else if m[0].0 == name {
        Some(m[0].1)
    } else {
        first_key_match(m.drop_first(), name)
    }
}

/// The first of the entries `kids` named `name`.
pub open spec fn first_named_child(entries: Seq<DEntry>, kids: Seq<usize>, name: Seq<u8>) -> Option<usize>
    decreases kids.len(),
{
    if kids.len() == 0 {
        None
    } else if entries[kids[0] as int].name@ == name {
        Some(kids[0])
    } else {
        first_named_child(entries, kids.drop_first(), name)
    }
}

/// The entry reached from `id` by following, in order, the children named
/// `names`.
pub open spec fn walk_tree(entries: Seq<DEntry>, id: usize, names: Seq<Seq<u8>>) -> Option<usize>
    decreases names.len(),
{
    if names.len() == 0 {
        Some(id)
    } else {
        match walk_tree(entries, id, names.drop_last()) {
            None => None,
            Some(cur) => first_named_child(entries, entries[cur as int].child@, names.last()),
        }
    }
}

/// The entry of the container's file tree that the components `names` name:
/// the first is looked up among the tree's roots, the others among the
/// children.
pub open spec fn lookup_in(roots: Seq<(Seq<u8>, usize)>, entries: Seq<DEntry>, names: Seq<Seq<u8>>) -> Option<usize> {
    match first_key_match(roots, names[0]) {
        None => None,
        Some(id) => walk_tree(entries, id, names.drop_first()),
    }
}

/// The components of an absolute guest path, and whether they resolve.
pub open spec fn absolute_stack(g: Seq<u8>) -> (Seq<Seq<u8>>, bool) {
    walk((Seq::<Seq<u8>>::empty(), true), split_slash(g))
}

/// Whether translating `g` would index the empty component list: an absolute
/// path that resolves to the root itself.
pub open spec fn names_container_root(g: Seq<u8>) -> bool {
    &&& g.len() > 0
    &&& g[0] == SLASH
    &&& absolute_stack(g).1
    &&& absolute_stack(g).0.len() == 0
}

/// `k` is `o` with a fresh task (root working directory, no open file)
/// under `pid` in its table; a current task that `o` held under `pid`
/// stays current, outside the table.
pub open spec fn task_added(o: Kernel, k: Kernel, pid: i32) -> bool {
    &&& k.root() == o.root()
    &&& k.fs_view() == o.fs_view()
    &&& k.task_map().dom() == o.task_map().dom().insert(pid)
    &&& k.task_map()[pid].pid == pid
    &&& k.task_map()[pid].cwd_view() == Seq::<Seq<u8>>::empty()
    &&& k.task_map()[pid].files@ == Map::<i32, File>::empty()
    &&& forall|q: i32| q != pid && #[trigger] o.task_map().contains_key(q) ==> k.task_map()[q] == o.task_map()[q]
    &&& k.current_task() == o.current_task()
    &&& k.current_link() == (if o.current_link() == Some(pid) { None } else { o.current_link() })
}

/// `k` is `o` without the task under `pid`; a current task that `o` held
/// under `pid` stays current, outside the table.
pub open spec fn task_removed(o: Kernel, k: Kernel, pid: i32) -> bool {
    &&& k.root() == o.root()
    &&& k.fs_view() == o.fs_view()
    &&& k.task_map() == o.task_map().remove(pid)
    &&& k.current_task() == o.current_task()
    &&& k.current_link() == (if o.current_link() == Some(pid) { None } else { o.current_link() })
}

/// `k` is a kernel rooted at `root`, with no task and an empty file tree.
pub open spec fn fresh_kernel(k: Kernel, root: Seq<u8>) -> bool {
    &&& k.wf()
    &&& k.root() == root
    &&& k.task_map() == Map::<i32, Task>::empty()
    &&& k.current_task() is None
    &&& k.current_link() is None
    &&& forall|names: Seq<Seq<u8>>| #[trigger] k.mapped_lookup(names) is None
}

impl Kernel {
    /// The host directory that is the container's root.
    pub closed spec fn root(&self) -> Seq<u8> {
        self.rootpath@
    }

    /// The task table.
    pub closed spec fn task_map(&self) -> Map<i32, Task> {
        self.tasks@
    }

    /// The process id under which the table holds the current task, if it
    /// does.
    pub closed spec fn current_link(&self) -> Option<i32> {
        match self.current {
            CurrentTask::InTable(p) => Some(p),
            _ => None,
        }
    }

    /// The current task, if any.
    pub closed spec fn current_task(&self) -> Option<Task> {
        match self.current {
            CurrentTask::Idle => None,
            CurrentTask::InTable(p) => Some(self.tasks@[p]),
            CurrentTask::Detached(t) => Some(t),
        }
    }

    /// The container's own file tree: its roots by name, and its entries.
    pub closed spec fn fs_view(&self) -> (Seq<(Seq<u8>, usize)>, Seq<DEntry>) {
        (self.fs_map@.map_values(|e: (Vec<u8>, usize)| (e.0@, e.1)), self.dentries@)
    }

    /// The entry of the container's file tree that `names` leads to.
    pub open spec fn mapped_lookup(&self, names: Seq<Seq<u8>>) -> Option<usize> {
        lookup_in(self.fs_view().0, self.fs_view().1, names)
    }

    /// The working directory of the current task, if any.
    pub open spec fn current_cwd(&self) -> Option<Seq<Seq<u8>>> {
        match self.current_task() {
            None => None,
            Some(t) => Some(t.cwd_view()),
        }
    }

    /// The internal consistency of the kernel: the current task's link
    /// names a task of the table, every working directory is made of normal
    /// components, the file tree refers only to its own entries, and no two
    /// of its roots share a name.
    pub closed spec fn wf(&self) -> bool {
        &&& self.dentries.wf()
        &&& forall|k: int| 0 <= k < self.fs_map@.len() ==> #[trigger] self.fs_map@[k].1 < self.dentries@.len()
        &&& forall|i: int, j: int| #![trigger self.fs_map@[i], self.fs_map@[j]]
            0 <= i < j < self.fs_map@.len() ==> self.fs_map@[i].0@ != self.fs_map@[j].0@
        &&& self.current matches CurrentTask::InTable(p) ==> self.tasks@.contains_key(p)
        &&& forall|p: i32| #[trigger] self.tasks@.contains_key(p) ==> all_normal(self.tasks@[p].cwd_view())
        &&& self.current matches CurrentTask::Detached(t) ==> all_normal(t.cwd_view())
    }

    /// What translating the guest path `g` gives: an empty path is refused;
    /// an absolute one is resolved from the root and looked up in the
    /// container's file tree first; a relative one is resolved from the
    /// current task's working directory (refused without a current task).
    /// A `..` above the root is refused. Host paths are the root followed
    /// by `/c` for each resolved component `c`.
    pub open spec fn translate(&self, g: Seq<u8>) -> Result<PathView, Error> {
        if g.len() == 0 {
            Err(einval())
        } else if g[0] == SLASH {
            let st = absolute_stack(g);
            if !st.1 {
                Err(einval())
            } else {
                match self.mapped_lookup(st.0) {
                    Some(id) => Ok(PathView::Mapped(id)),
                    None => Ok(PathView::Host(self.root() + join_stack(st.0))),
                }
            }
        } else {
            match self.current_cwd() {
                None => Err(einval()),
                Some(cwd) => {
                    let st = walk((cwd, true), split_slash(g));
                    if !st.1 {
                        Err(einval())
                    } else {
                        Ok(PathView::Host(self.root() + join_stack(st.0)))
                    }
                }
            }
        }
    }

    /// What a well-formed kernel keeps: the current task under a link and the
    /// table agree, working directories are made of normal components, and
    /// no two roots of the file tree share a name.
    pub proof fn lemma_current_linked(&self)
        requires
            self.wf(),
        ensures
            self.current_link() matches Some(p) ==> self.task_map().contains_key(p)
                && self.current_task() == Some(self.task_map()[p]),
            self.current_link() is None ==> (self.current_task() matches Some(t) ==> all_normal(t.cwd_view())),
            forall|p: i32| #[trigger] self.task_map().contains_key(p) ==> all_normal(self.task_map()[p].cwd_view()),
            forall|i: int, j: int| #![trigger self.fs_view().0[i], self.fs_view().0[j]]
                0 <= i < j < self.fs_view().0.len() ==> self.fs_view().0[i].0 != self.fs_view().0[j].0,
    {
        assert forall|i: int, j: int| #![trigger self.fs_view().0[i], self.fs_view().0[j]]
            0 <= i < j < self.fs_view().0.len() implies self.fs_view().0[i].0 != self.fs_view().0[j].0 by {
            assert(self.fs_view().0[i].0 == self.fs_map@[i].0@);
            assert(self.fs_view().0[j].0 == self.fs_map@[j].0@);
        }
    }

    /// A kernel for a container rooted at `host_path`, with no task.
    pub fn new(host_path: Vec<u8>) -> (r: KernelResult<Kernel>)
        ensures
            r matches Ok(k) && fresh_kernel(k, host_path@),
    {
        let k = Kernel {
            rootpath: host_path,
            fs_map: Vec::new(),
            dentries: DentryTable::new(),
            tasks: BTreeMap::new(),
            current: CurrentTask::Idle,
        };
        assert(k.fs_view().0 =~= Seq::<(Seq<u8>, usize)>::empty());
        Ok(k)
    }

    /// Puts a fresh task (root working directory, no open file) into the
    /// table under `pid`, in place of any task it held there. A current
    /// task that the table held under `pid` stays current, outside the table.
    pub fn add_task(&mut self, pid: i32) -> (r: KernelResult<()>)
        requires
            old(self).wf(),
        ensures
            r == Ok::<(), Error>(()),
            final(self).wf(),
            task_added(*old(self), *final(self), pid),
    {
        let t = Task::new(pid);
        let displaced = self.tasks.insert(pid, t);
        self.detach_if_current(pid, displaced);
        Ok(())
    }

    /// After the table's task under `pid` was replaced or removed (the old
    /// one being `displaced`), keeps a current task that was linked to it.
    fn detach_if_current(&mut self, pid: i32, displaced: Option<Task>)
        requires
            old(self).current matches CurrentTask::InTable(p) && p == pid ==> displaced is Some,
            displaced matches Some(d) ==> all_normal(d.cwd_view()),
        ensures
            final(self).rootpath == old(self).rootpath,
            final(self).fs_map == old(self).fs_map,
            final(self).dentries == old(self).dentries,
            final(self).tasks == old(self).tasks,
            match old(self).current {
                CurrentTask::InTable(p) => if p == pid {
                    final(self).current == CurrentTask::Detached(displaced.unwrap())
                } else {
                    final(self).current == old(self).current
                },
                _ => final(self).current == old(self).current,
            },
    {
        let linked = match self.current {
            CurrentTask::InTable(p) => p == pid,
            _ => false,
        };
        if linked {
            match displaced {
                Some(d) => {
                    self.current = CurrentTask::Detached(d);
                },
                None => {},
            }
        }
    }

    /// Puts into the table under `pid` a copy of the task that the table
    /// holds under `fpid` (same working directory and open files); does
    /// nothing for `pid` 0. A current task that the table held under `pid`
    /// stays current, outside the table.
    pub fn clone_task(&mut self, pid: i32, fpid: i32) -> (r: KernelResult<()>)
        requires
            old(self).wf(),
            pid != 0 ==> old(self).task_map().contains_key(fpid),
        ensures
            r == Ok::<(), Error>(()),
            final(self).wf(),
            final(self).root() == old(self).root(),
            final(self).fs_view() == old(self).fs_view(),
            pid == 0 ==> final(self).task_map() == old(self).task_map()
                && final(self).current_task() == old(self).current_task()
                && final(self).current_link() == old(self).current_link(),
            pid != 0 ==> {
                &&& final(self).task_map().dom() == old(self).task_map().dom().insert(pid)
                &&& final(self).task_map()[pid].pid == pid
                &&& final(self).task_map()[pid].cwd_view() == old(self).task_map()[fpid].cwd_view()
                &&& final(self).task_map()[pid].files@ == old(self).task_map()[fpid].files@
                &&& forall|q: i32| q != pid && #[trigger] old(self).task_map().contains_key(q)
                    ==> final(self).task_map()[q] == old(self).task_map()[q]
                &&& final(self).current_task() == old(self).current_task()
                &&& final(self).current_link() == (if old(self).current_link() == Some(pid) { None } else { old(self).current_link() })
            },
    {
        if pid != 0 {
            let t = match self.tasks.get(&fpid) {
                Some(parent) => parent.clone(pid),
                None => {
                    assert(false);
                    Task::new(pid)
                },
            };
            let displaced = self.tasks.insert(pid, t);
            self.detach_if_current(pid, displaced);
        }
        Ok(())
    }

    /// Whether the table holds a task under `pid`.
    pub fn contains(&self, pid: i32) -> (b: bool)
        ensures
            b == self.task_map().contains_key(pid),
    {
        self.tasks.contains_key(&pid)
    }

    /// Takes the task under `pid` out of the table. A current task that the
    /// table held under `pid` stays current, outside the table.
    pub fn remove_task(&mut self, pid: i32) -> (r: KernelResult<()>)
        requires
            old(self).wf(),
        ensures
            r == Ok::<(), Error>(()),
            final(self).wf(),
            task_removed(*old(self), *final(self), pid),
    {
        let displaced = self.tasks.remove(&pid);
        self.detach_if_current(pid, displaced);
        Ok(())
    }

    /// Makes the task under `pid` the current one, if the table holds one;
    /// says whether it did.
    pub fn try_set_current(&mut self, pid: i32) -> (b: bool)
        requires
            old(self).wf(),
        ensures
            b == old(self).task_map().contains_key(pid),
            final(self).wf(),
            final(self).root() == old(self).root(),
            final(self).fs_view() == old(self).fs_view(),
            final(self).task_map() == old(self).task_map(),
            b ==> final(self).current_link() == Some(pid) && final(self).current_task() == Some(old(self).task_map()[pid]),
            !b ==> final(self).current_link() == old(self).current_link() && final(self).current_task() == old(self).current_task(),
    {
        if self.tasks.contains_key(&pid) {
            self.current = CurrentTask::InTable(pid);
            true
        } else {
            false
        }
    }

    /// The current task, if any.
    fn current_ref(&self) -> (r: Option<&Task>)
        requires
            self.wf(),
        ensures
            r matches Some(t) ==> self.current_task() == Some(*t),
            r is None ==> self.current_task() is None,
    {
        match &self.current {
            CurrentTask::Idle => None,
            CurrentTask::InTable(p) => self.tasks.get(p),
            CurrentTask::Detached(t) => Some(t),
        }
    }

    /// The working directory of the current task, as the path that
    /// `getcwd` hands back: empty without a current task.
    pub fn getcwd(&self) -> (r: Vec<u8>)
        requires
            self.wf(),
        ensures
            r@ == match self.current_cwd() {
                None => Seq::<u8>::empty(),
                Some(cwd) => cwd_string(cwd),
            },
    {
        let mut path: Vec<u8> = Vec::new();
        match self.current_ref() {
            Some(t) => {
                t.get_cwd(&mut path);
                assert(path@ =~= cwd_string(t.cwd_view()));
            },
            None => {},
        }
        path
    }

    /// The host path of the component list `stack`: the root followed by
    /// `/c` for each component `c`.
    pub fn guest_to_host_with_stack(&self, stack: &Vec<Vec<u8>>) -> (r: KernelResult<Path>)
        ensures
            r matches Ok(p) && p@ == PathView::Host(self.root() + join_stack(views(stack@))),
    {
        let mut ret = copy_bytes(self.rootpath.as_slice());
        push_joined(&mut ret, stack);
        Ok(Path::Host(ret))
    }

    /// Resolves the pieces of `guest_path` onto `stack` (see `walk`);
    /// refuses a `..` above the root with `EINVAL`.
    pub fn build_stack(&self, guest_path: &[u8], stack: &mut Vec<Vec<u8>>) -> (r: KernelResult<()>)
        ensures
            views(final(stack)@) == walk((views(old(stack)@), true), split_slash(guest_path@)).0,
            walk((views(old(stack)@), true), split_slash(guest_path@)).1 ==> r == Ok::<(), Error>(()),
            !walk((views(old(stack)@), true), split_slash(guest_path@)).1 ==> r == Err::<(), Error>(einval()),
    {
        let pieces = split_path(guest_path);
        if walk_pieces(stack, &pieces) {
            Ok(())
        } else {
            Err(Error::invalid())
        }
    }

    /// The first root of the file tree named `name`.
    fn fs_map_get(&self, name: &[u8]) -> (r: Option<usize>)
        requires
            self.wf(),
        ensures
            r == first_key_match(self.fs_view().0, name@),
            r matches Some(id) ==> id < self.fs_view().1.len(),
    {
        let ghost m = self.fs_view().0;
        let mut i: usize = 0;
        assert(m.subrange(0, m.len() as int) =~= m);
        while i < self.fs_map.len()
            invariant
                self.wf(),
                m == self.fs_view().0,
                m.len() == self.fs_map@.len(),
                i <= m.len(),
                first_key_match(m, name@) == first_key_match(m.subrange(i as int, m.len() as int), name@),
            decreases self.fs_map.len() - i,
        {
            let ghost rest = m.subrange(i as int, m.len() as int);
            assert(rest[0] == m[i as int]);
            assert(rest.drop_first() =~= m.subrange(i + 1, m.len() as int));
            if bytes_eq(self.fs_map[i].0.as_slice(), name) {
                return Some(self.fs_map[i].1);
            }
            i = i + 1;
        }
        assert(m.subrange(i as int, m.len() as int) =~= Seq::<(Seq<u8>, usize)>::empty());
        None
    }

    /// The first child of the entry `id` named `name`.
    fn find_child(&self, id: usize, name: &[u8]) -> (r: Option<usize>)
        requires
            self.wf(),
            id < self.fs_view().1.len(),
        ensures
            r == first_named_child(self.fs_view().1, self.fs_view().1[id as int].child@, name@),
            r matches Some(c) ==> c < self.fs_view().1.len(),
    {
        let ghost entries = self.fs_view().1;
        let d = self.dentries.get(id);
        let ghost kids = d.child@;
        let mut i: usize = 0;
        assert(kids.subrange(0, kids.len() as int) =~= kids);
        while i < d.child.len()
            invariant
                entries == self.fs_view().1,
                self.dentries.wf(),
                *d == entries[id as int],
                id < entries.len(),
                kids == d.child@,
                i <= kids.len(),
                first_named_child(entries, kids, name@) == first_named_child(entries, kids.subrange(i as int, kids.len() as int), name@),
            decreases d.child.len() - i,
        {
            let ghost rest = kids.subrange(i as int, kids.len() as int);
            assert(rest[0] == kids[i as int]);
            assert(rest.drop_first() =~= kids.subrange(i + 1, kids.len() as int));
            let c = d.child[i];
            assert(c < entries.len());
            if bytes_eq(self.dentries.get(c).name.as_slice(), name) {
                return Some(c);
            }
            i = i + 1;
        }
        assert(kids.subrange(i as int, kids.len() as int) =~= Seq::<usize>::empty());
        None
    }

    fn path_convert(&self, guest_path: &[u8], relative: bool) -> (r: KernelResult<Path>)
        requires
            self.wf(),
            !relative ==> !(absolute_stack(guest_path@).1 && absolute_stack(guest_path@).0.len() == 0),
        ensures
            relative ==> match self.current_cwd() {
                None => r == Err::<Path, Error>(einval()),
                Some(cwd) => {
                    let st = walk((cwd, true), split_slash(guest_path@));
                    &&& !st.1 ==> r == Err::<Path, Error>(einval())
                    &&& st.1 ==> (r matches Ok(p) && p@ == PathView::Host(self.root() + join_stack(st.0)))
                },
            },
            !relative ==> {
                let st = absolute_stack(guest_path@);
                &&& !st.1 ==> r == Err::<Path, Error>(einval())
                &&& st.1 ==> (r matches Ok(p) && p@ == match self.mapped_lookup(st.0) {
                    Some(id) => PathView::Mapped(id),
                    None => PathView::Host(self.root() + join_stack(st.0)),
                })
            },
    {
        let mut stack: Vec<Vec<u8>> = Vec::new();
        if relative {
            match self.current_ref() {
                Some(t) => {
                    stack = copy_stack(&t.cwd);
                    self.build_stack(guest_path, &mut stack)?;
                    self.guest_to_host_with_stack(&stack)
                },
                None => Err(Error::invalid()),
            }
        } else {
            assert(views(stack@) =~= Seq::<Seq<u8>>::empty());
            self.build_stack(guest_path, &mut stack)?;
            let ghost names = views(stack@);
            let ghost entries = self.fs_view().1;
            match self.fs_map_get(stack[0].as_slice()) {
                Some(root_id) => {
                    let mut tmp = root_id;
                    let mut found = true;
                    let mut k: usize = 1;
                    assert(names.drop_first().subrange(0, 0) =~= Seq::<Seq<u8>>::empty());
                    while found && k < stack.len()
                        invariant
                            self.wf(),
                            entries == self.fs_view().1,
                            names == views(stack@),
                            names.len() > 0,
                            1 <= k <= names.len(),
                            tmp < entries.len(),
                            found ==> walk_tree(entries, root_id, names.drop_first().subrange(0, k - 1)) == Some(tmp),
                            !found ==> walk_tree(entries, root_id, names.drop_first()) is None,
                        decreases stack.len() - k + (if found { 1int } else { 0int }),
                    {
                        let ghost prefix = names.drop_first().subrange(0, k as int);
                        assert(prefix.drop_last() =~= names.drop_first().subrange(0, k - 1));
                        assert(prefix.last() == stack@[k as int]@);
                        match self.find_child(tmp, stack[k].as_slice()) {
                            Some(next) => {
                                tmp = next;
                                k = k + 1;
                            },
                            None => {
                                found = false;
                                proof {
                                    lemma_walk_tree_stuck(entries, root_id, names.drop_first(), k as int);
                                }
                            },
                        }
                    }
                    if found {
                        proof {
                            assert(names.drop_first().subrange(0, names.len() - 1) =~= names.drop_first());
                        }
                        return Ok(Path::Mapped(tmp));
                    }
                },
                None => {},
            }
            self.guest_to_host_with_stack(&stack)
        }
    }

    /// Translates the path `guest_path` that a task names into what it
    /// names on the host (see `translate`).
    pub fn guest_to_host(&self, guest_path: &[u8]) -> (r: KernelResult<Path>)
        requires
            self.wf(),
            splits_after_first_byte(guest_path@),
            !names_container_root(guest_path@),
        ensures
            match self.translate(guest_path@) {
                Ok(v) => r matches Ok(p) && p@ == v,
                Err(e) => r == Err::<Path, Error>(e),
            },
    {
        if guest_path.len() == 0 {
            Err(Error::invalid())
        } else if guest_path[0] == SLASH {
            self.path_convert(guest_path, false)
        } else {
            self.path_convert(guest_path, true)
        }
    }

    /// The host path of the current task's working directory; `EINVAL`
    /// without a current task. The argument is not consulted.
    pub fn relative_to_absolute(&self, guest_path: &[u8]) -> (r: KernelResult<Path>)
        requires
            self.wf(),
        ensures
            match self.current_cwd() {
                None => r == Err::<Path, Error>(einval()),
                Some(cwd) => r matches Ok(p) && p@ == PathView::Host(self.root() + join_stack(cwd)),
            },
    {
        match self.current_ref() {
            Some(t) => {
                let stack = copy_stack(&t.cwd);
                self.guest_to_host_with_stack(&stack)
            },
            None => Err(Error::invalid()),
        }
    }

    /// Applies `Task::chdir(path)` to the current task, if any, ignoring
    /// its outcome.
    fn current_chdir(&mut self, path: &[u8])
        requires
            old(self).wf(),
            splits_after_first_byte(path@),
            path@.len() > 0,
        ensures
            final(self).wf(),
            final(self).root() == old(self).root(),
            final(self).fs_view() == old(self).fs_view(),
            final(self).current_link() == old(self).current_link(),
            old(self).current_task() is None ==> final(self).current_task() is None
                && final(self).task_map() == old(self).task_map(),
            old(self).current_task() matches Some(t) ==> final(self).current_task() matches Some(nt) && {
                &&& nt.pid == t.pid
                &&& nt.files@ == t.files@
                &&& nt.cwd_view() == chdir_result(t.cwd_view(), path@).0
            },
            old(self).current_link() matches Some(p) ==> final(self).task_map() == old(self).task_map().insert(p, final(self).current_task().unwrap()),
            old(self).current_link() is None ==> final(self).task_map() == old(self).task_map(),
    {
        let mut cur = CurrentTask::Idle;
        std::mem::swap(&mut cur, &mut self.current);
        match cur {
            CurrentTask::Idle => {
                self.current = CurrentTask::Idle;
            },
            CurrentTask::InTable(pid) => {
                match self.tasks.remove(&pid) {
                    Some(mut t) => {
                        let _ = t.chdir(path);
                        proof {
                            lemma_chdir_keeps_normal(old(self).tasks@[pid].cwd_view(), path@);
                        }
                        self.tasks.insert(pid, t);
                    },
                    None => {},
                }
                self.current = CurrentTask::InTable(pid);
                proof {
                    assert forall|p: i32| #[trigger] self.tasks@.contains_key(p) implies all_normal(self.tasks@[p].cwd_view()) by {
                        if p != pid {
                            assert(old(self).tasks@.contains_key(p));
                        }
                    }
                }
            },
            CurrentTask::Detached(mut t) => {
                let _ = t.chdir(path);
                proof {
                    lemma_chdir_keeps_normal(old(self).current_task().unwrap().cwd_view(), path@);
                }
                self.current = CurrentTask::Detached(t);
            },
        }
    }

    /// The NUL-terminated host path for a system call on the guest path
    /// `filename` (see `host_c_path`): an entry of the container's own file
    /// tree has none and is refused with `EINVAL`.
    fn c_path(&self, filename: &[u8]) -> (r: KernelResult<Vec<u8>>)
        requires
            self.wf(),
            splits_after_first_byte(filename@),
            !names_container_root(filename@),
        ensures
            match host_c_path(*self, filename@) {
                Ok(h) => r matches Ok(v) && v@ == h,
                Err(e) => r == Err::<Vec<u8>, Error>(e),
            },
    {
        match self.guest_to_host(filename)? {
            Path::Host(mut h) => {
                h.push(0u8);
                Ok(h)
            },
            Path::Mapped(_) => Err(Error::invalid()),
        }
    }

    /// The NUL-terminated host path that `open` is called with for the
    /// guest path `filename` (see `host_c_path`).
    pub fn open(&self, filename: &[u8]) -> (r: KernelResult<Vec<u8>>)
        requires
            self.wf(),
            splits_after_first_byte(filename@),
            !names_container_root(filename@),
        ensures
            match host_c_path(*self, filename@) {
                Ok(h) => r matches Ok(v) && v@ == h,
                Err(e) => r == Err::<Vec<u8>, Error>(e),
            },
    {
        self.c_path(filename)
    }

    /// The NUL-terminated host path that `execve` is called with for the
    /// guest path `filename` (see `host_c_path`).
    pub fn execve(&self, filename: &[u8]) -> (r: KernelResult<Vec<u8>>)
        requires
            self.wf(),
            splits_after_first_byte(filename@),
            !names_container_root(filename@),
        ensures
            match host_c_path(*self, filename@) {
                Ok(h) => r matches Ok(v) && v@ == h,
                Err(e) => r == Err::<Vec<u8>, Error>(e),
            },
    {
        self.c_path(filename)
    }

    /// The NUL-terminated host path that `stat` is called with for the
    /// guest path `filename` (see `host_c_path`).
    pub fn stat(&self, filename: &[u8]) -> (r: KernelResult<Vec<u8>>)
        requires
            self.wf(),
            splits_after_first_byte(filename@),
            !names_container_root(filename@),
        ensures
            match host_c_path(*self, filename@) {
                Ok(h) => r matches Ok(v) && v@ == h,
                Err(e) => r == Err::<Vec<u8>, Error>(e),
            },
    {
        self.c_path(filename)
    }

    /// The NUL-terminated host path that `lstat` is called with for the
    /// guest path `filename` (see `host_c_path`).
    pub fn lstat(&self, filename: &[u8]) -> (r: KernelResult<Vec<u8>>)
        requires
            self.wf(),
            splits_after_first_byte(filename@),
            !names_container_root(filename@),
        ensures
            match host_c_path(*self, filename@) {
                Ok(h) => r matches Ok(v) && v@ == h,
                Err(e) => r == Err::<Vec<u8>, Error>(e),
            },
    {
        self.c_path(filename)
    }

    /// `chdir` for the current task: translates `filename` (see
    /// `guest_to_host`) and, when that succeeds, changes the current task's
    /// working directory to it (whatever the outcome of that step) and
    /// hands back the translated path; on failure nothing changes.
    pub fn chdir(&mut self, filename: &[u8]) -> (r: KernelResult<Path>)
        requires
            old(self).wf(),
            splits_after_first_byte(filename@),
            !names_container_root(filename@),
        ensures
            final(self).wf(),
            final(self).root() == old(self).root(),
            final(self).fs_view() == old(self).fs_view(),
            final(self).current_link() == old(self).current_link(),
            match old(self).translate(filename@) {
                Err(e) => r == Err::<Path, Error>(e)
                    && final(self).task_map() == old(self).task_map()
                    && final(self).current_task() == old(self).current_task(),
                Ok(v) => r matches Ok(p) && p@ == v && {
                    &&& old(self).current_task() is None ==> final(self).current_task() is None
                        && final(self).task_map() == old(self).task_map()
                    &&& old(self).current_task() matches Some(t) ==> final(self).current_task() matches Some(nt) && {
                        &&& nt.pid == t.pid
                        &&& nt.files@ == t.files@
                        &&& nt.cwd_view() == chdir_result(t.cwd_view(), filename@).0
                    }
                    &&& old(self).current_link() matches Some(p) ==> final(self).task_map() == old(self).task_map().insert(p, final(self).current_task().unwrap())
                    &&& old(self).current_link() is None ==> final(self).task_map() == old(self).task_map()
                },
            },
    {
        let abs = self.guest_to_host(filename)?;
        self.current_chdir(filename);
        Ok(abs)
    }
}

/// The NUL-terminated host path that `translate` gives for `g`, when it
/// gives a host path.
pub open spec fn host_c_path(k: Kernel, g: Seq<u8>) -> Result<Seq<u8>, Error> {
    match k.translate(g) {
        Err(e) => Err(e),
        Ok(PathView::Host(h)) => Ok(h.push(0u8)),
        Ok(PathView::Mapped(_)) => Err(einval()),
    }
}

/// Whether `guest_path` may be handed to `guest_to_host`: its first byte
/// can be sliced off, and it does not resolve to the container's root
/// itself.
pub fn translatable(guest_path: &[u8]) -> (b: bool)
    ensures
        b == (splits_after_first_byte(guest_path@) && !names_container_root(guest_path@)),
{
    if guest_path.len() > 1 && 0x80u8 <= guest_path[1] && guest_path[1] < 0xC0u8 {
        return false;
    }
    if guest_path.len() > 0 && guest_path[0] == SLASH {
        let mut stack: Vec<Vec<u8>> = Vec::new();
        let pieces = split_path(guest_path);
        assert(views(stack@) =~= Seq::<Seq<u8>>::empty());
        if walk_pieces(&mut stack, &pieces) && stack.len() == 0 {
            return false;
        }
    }
    true
}

/// Confinement: whatever guest path a task names, a host path that it is
/// translated to is the container's root followed by components that are
/// all normal (no `..`, `.`, empty piece or separator in any of them), so
/// it lies under the root.
pub proof fn lemma_translate_confined(k: Kernel, g: Seq<u8>)
    requires
        k.wf(),
    ensures
        k.translate(g) matches Ok(PathView::Host(h)) ==> exists|st: Seq<Seq<u8>>|
            all_normal(st) && h == k.root() + join_stack(st),
{
    lemma_split_slash_shape(g);
    k.lemma_current_linked();
    if g.len() > 0 && g[0] == SLASH {
        let st = absolute_stack(g);
        lemma_walk_normal((Seq::<Seq<u8>>::empty(), true), split_slash(g));
        if st.1 && k.mapped_lookup(st.0) is None {
            assert(all_normal(st.0) && k.translate(g) == Ok::<PathView, Error>(PathView::Host(k.root() + join_stack(st.0))));
        }
    } else if g.len() > 0 {
        match k.current_cwd() {
            None => {},
            Some(cwd) => {
                assert(all_normal(cwd));
                let st = walk((cwd, true), split_slash(g));
                lemma_walk_normal((cwd, true), split_slash(g));
                if st.1 {
                    assert(all_normal(st.0) && k.translate(g) == Ok::<PathView, Error>(PathView::Host(k.root() + join_stack(st.0))));
                }
            },
        }
    }
}

/// If following the names gets stuck at some point, it stays stuck.
proof fn lemma_walk_tree_stuck(entries: Seq<DEntry>, id: usize, names: Seq<Seq<u8>>, k: int)
    requires
        1 <= k <= names.len(),
        walk_tree(entries, id, names.subrange(0, k)) is None,
    ensures
        walk_tree(entries, id, names) is None,
    decreases names.len() - k,
{
    if k < names.len() {
        let next = names.subrange(0, k + 1);
        assert(next.drop_last() =~= names.subrange(0, k));
        lemma_walk_tree_stuck(entries, id, names, k + 1);
    } else {
        assert(names.subrange(0, k) =~= names);
    }
}

} // verus!
