//! A small model of the virtual file system: inodes and directory entries.
//!
//! Directory entries are shared objects that refer to their parent and
//! children; here they live in a table and refer to each other by index.
use vstd::prelude::*;
use crate::path::copy_bytes;

verus! {

/// An inode: number, mode and owner.
#[derive(Debug, Clone, Copy, PartialEq, Eq, Structural)]
pub struct INode {
    pub ino: u64,
    pub mode: u64,
    pub uid: u64,
    pub gid: u64,
}

/// A directory entry: its name, its inode, its parent (if any) and its
/// children, all entries of the same table.
#[derive(Debug)]
pub struct DEntry {
    pub name: Vec<u8>,
    pub inode: INode,
    pub parent: Option<usize>,
    pub child: Vec<usize>,
}

impl DEntry {
    /// A fresh entry without children.
    pub fn new(name: Vec<u8>, parent: Option<usize>, ino: u64, mode: u64, uid: u64, gid: u64) -> (d: DEntry)
        ensures
            d.name@ == name@,
            d.inode == (INode { ino, mode, uid, gid }),
            d.parent == parent,
            d.child@.len() == 0,
    {
        DEntry { name, inode: INode { ino, mode, uid, gid }, parent, child: Vec::new() }
    }
}

/// The table that holds the directory entries; an entry is known by its
/// index.
#[derive(Debug)]
pub struct DentryTable {
    entries: Vec<DEntry>,
}

impl DentryTable {
    /// The entries, in order of creation.
    pub closed spec fn view(&self) -> Seq<DEntry> {
        self.entries@
    }

    /// Every parent and child reference names an entry of the table.
    pub open spec fn wf(&self) -> bool {
        forall|i: int|
            0 <= i < self@.len() ==> {
                &&& (#[trigger] self@[i]).parent matches Some(p) ==> p < self@.len()
                &&& forall|j: int| 0 <= j < self@[i].child@.len() ==> #[trigger] self@[i].child@[j] < self@.len()
            }
    }

    /// An empty table.
    pub fn new() -> (t: DentryTable)
        ensures
            t@.len() == 0,
            t.wf(),
    {
        DentryTable { entries: Vec::new() }
    }

    /// The number of entries.
    pub fn len(&self) -> (n: usize)
        ensures
            n == self@.len(),
    {
        self.entries.len()
    }

    /// The entry `id`.
    pub fn get(&self, id: usize) -> (d: &DEntry)
        requires
            id < self@.len(),
        ensures
            *d == self@[id as int],
    {
        &self.entries[id]
    }

    /// Adds `d` to the table and returns its index.
    pub fn insert(&mut self, d: DEntry) -> (id: usize)
        requires
            old(self).wf(),
            d.parent matches Some(p) ==> p < old(self)@.len(),
            forall|j: int| 0 <= j < d.child@.len() ==> #[trigger] d.child@[j] < old(self)@.len(),
        ensures
            final(self).wf(),
            id == old(self)@.len(),
            final(self)@ == old(self)@.push(d),
    {
        let id = self.entries.len();
        self.entries.push(d);
        proof {
            assert forall|i: int| 0 <= i < self@.len() implies {
                &&& (#[trigger] self@[i]).parent matches Some(p) ==> p < self@.len()
                &&& forall|j: int| 0 <= j < self@[i].child@.len() ==> #[trigger] self@[i].child@[j] < self@.len()
            } by {
                if i < id {
                    assert(self@[i] == old(self)@[i]);
                }
            }
        }
        id
    }

    /// Appends the index `kid` to the children of the entry `id`.
    fn add_child_index(&mut self, id: usize, kid: usize)
        requires
            id < old(self)@.len(),
        ensures
            final(self)@.len() == old(self)@.len(),
            final(self)@[id as int].name@ == old(self)@[id as int].name@,
            final(self)@[id as int].inode == old(self)@[id as int].inode,
            final(self)@[id as int].parent == old(self)@[id as int].parent,
            final(self)@[id as int].child@ == old(self)@[id as int].child@.push(kid),
            forall|i: int| 0 <= i < old(self)@.len() && i != id ==> final(self)@[i] == old(self)@[i],
    {
        let old_entry = &self.entries[id];
        let mut kids: Vec<usize> = Vec::new();
        let mut k: usize = 0;
        while k < old_entry.child.len()
            invariant
                k <= old_entry.child@.len(),
                kids@ == old_entry.child@.subrange(0, k as int),
            decreases old_entry.child.len() - k,
        {
            kids.push(old_entry.child[k]);
            k = k + 1;
            assert(kids@ =~= old_entry.child@.subrange(0, k as int));
        }
        assert(old_entry.child@.subrange(0, old_entry.child@.len() as int) =~= old_entry.child@);
        kids.push(kid);
        let updated = DEntry {
            name: copy_bytes(old_entry.name.as_slice()),
            inode: old_entry.inode,
            parent: old_entry.parent,
            child: kids,
        };
        self.entries.set(id, updated);
    }
}

/// Creates an entry named `name` with the given inode data as the newest
/// child of `parent`.
#[allow(non_snake_case)]
pub fn createChild(table: &mut DentryTable, name: Vec<u8>, parent: usize, ino: u64, mode: u64, uid: u64, gid: u64)
    requires
        old(table).wf(),
        parent < old(table)@.len(),
    ensures
        final(table).wf(),
        final(table)@.len() == old(table)@.len() + 1,
        final(table)@.last().name@ == name@,
        final(table)@.last().inode == (INode { ino, mode, uid, gid }),
        final(table)@.last().parent == Some(parent),
        final(table)@.last().child@.len() == 0,
        final(table)@[parent as int].name@ == old(table)@[parent as int].name@,
        final(table)@[parent as int].inode == old(table)@[parent as int].inode,
        final(table)@[parent as int].parent == old(table)@[parent as int].parent,
        final(table)@[parent as int].child@ == old(table)@[parent as int].child@.push(
            old(table)@.len() as usize,
        ),
        forall|i: int| 0 <= i < old(table)@.len() && i != parent ==> final(table)@[i] == old(table)@[i],
{
    let d = DEntry::new(name, Some(parent), ino, mode, uid, gid);
    let id = table.insert(d);
    table.add_child_index(parent, id);
    proof {
        assert forall|i: int| 0 <= i < table@.len() implies {
            &&& (#[trigger] table@[i]).parent matches Some(p) ==> p < table@.len()
            &&& forall|j: int| 0 <= j < table@[i].child@.len() ==> #[trigger] table@[i].child@[j] < table@.len()
        } by {
            if i == parent {
                assert forall|j: int| 0 <= j < table@[i].child@.len() implies #[trigger] table@[i].child@[j] < table@.len() by {
                    if j < old(table)@[i].child@.len() {
                        assert(table@[i].child@[j] == old(table)@[i].child@[j]);
                    }
                }
            }
        }
    }
}

} // verus!
