//! Properties of the kernel module that span several operations.
use vstd::prelude::*;
use crate::path::{
    SLASH, split_slash, walk, all_normal, lemma_split_concat, lemma_walk_append,
    lemma_walk_failed, lemma_walk_join, lemma_join_starts_with_slash,
};
use crate::kmod::kernel::{Kernel, PathView, absolute_stack, task_added, task_removed};
use crate::kmod::task::{chdir_result, cwd_string};

verus! {

/// Changing directory to `p` and then to the relative path `q` ends where
/// changing directory to `p/q` does; if the first step fails, the joined
/// path fails at the same point.
pub proof fn law_chdir_compose(cwd: Seq<Seq<u8>>, p: Seq<u8>, q: Seq<u8>)
    requires
        p.len() > 0,
        !(q.len() > 0 && q[0] == SLASH),
    ensures
        ({
            let first = chdir_result(cwd, p);
            chdir_result(cwd, p.push(SLASH) + q) == if first.1 { chdir_result(first.0, q) } else { first }
        }),
{
    let start = if p[0] == SLASH { Seq::<Seq<u8>>::empty() } else { cwd };
    let joined = p.push(SLASH) + q;
    assert(joined[0] == p[0]);
    lemma_split_concat(p, q);
    lemma_walk_append((start, true), split_slash(p), split_slash(q));
    let first = chdir_result(cwd, p);
    if !first.1 {
        lemma_walk_failed(first, split_slash(q));
    }
}

/// Changing directory to an absolute path ends in the same place, and with
/// the same outcome, whatever the working directory was.
pub proof fn law_chdir_absolute_ignores_cwd(cwd1: Seq<Seq<u8>>, cwd2: Seq<Seq<u8>>, p: Seq<u8>)
    requires
        p.len() > 0,
        p[0] == SLASH,
    ensures
        chdir_result(cwd1, p) == chdir_result(cwd2, p),
{
}

/// The path that `getcwd` writes for a working directory leads `chdir`
/// back to that very directory, with success, whatever the working
/// directory it starts from.
pub proof fn law_getcwd_chdir_roundtrip(cwd: Seq<Seq<u8>>, from: Seq<Seq<u8>>)
    requires
        all_normal(cwd),
    ensures
        chdir_result(from, cwd_string(cwd)) == (cwd, true),
{
    let e = Seq::<Seq<u8>>::empty();
    if cwd.len() == 0 {
        let p = seq![SLASH];
        assert(Seq::<u8>::empty().push(SLASH) + Seq::<u8>::empty() =~= p);
        lemma_split_concat(Seq::<u8>::empty(), Seq::<u8>::empty());
        lemma_walk_join(e, e);
        lemma_walk_append((e, true), split_slash(Seq::<u8>::empty()), split_slash(Seq::<u8>::empty()));
        assert(e + e =~= e);
        assert(cwd =~= e);
    } else {
        lemma_join_starts_with_slash(cwd);
        lemma_walk_join(e, cwd);
        assert(e + cwd =~= cwd);
    }
}

/// From a working directory `cwd`, a relative path leads where the absolute
/// path made of `cwd`'s own path (as `getcwd` writes it), a separator and
/// that relative path leads, from any working directory.
pub proof fn law_chdir_relative_as_absolute(cwd: Seq<Seq<u8>>, from: Seq<Seq<u8>>, q: Seq<u8>)
    requires
        all_normal(cwd),
        !(q.len() > 0 && q[0] == SLASH),
    ensures
        chdir_result(cwd, q) == chdir_result(from, cwd_string(cwd).push(SLASH) + q),
{
    lemma_absolute_form(cwd, q);
}

/// The absolute form of a relative path from `cwd` is absolute, and resolves
/// from the root as the relative path does from `cwd`.
proof fn lemma_absolute_form(cwd: Seq<Seq<u8>>, q: Seq<u8>)
    requires
        all_normal(cwd),
    ensures
        ({
            let a = cwd_string(cwd).push(SLASH) + q;
            &&& a.len() > 0
            &&& a[0] == SLASH
            &&& absolute_stack(a) == walk((cwd, true), split_slash(q))
        }),
{
    let e = Seq::<Seq<u8>>::empty();
    let c = cwd_string(cwd);
    let a = c.push(SLASH) + q;
    law_getcwd_chdir_roundtrip(cwd, e);
    if cwd.len() > 0 {
        lemma_join_starts_with_slash(cwd);
    }
    assert(c[0] == SLASH);
    assert(a[0] == c.push(SLASH)[0]);
    lemma_split_concat(c, q);
    lemma_walk_append((e, true), split_slash(c), split_slash(q));
}

/// For the current task, a relative path is translated as the absolute path
/// made of its working directory's path (as `getcwd` writes it), a
/// separator and that relative path is, except where the latter names an
/// entry of the container's own file tree.
pub proof fn law_relative_translate_as_absolute(k: Kernel, cwd: Seq<Seq<u8>>, g: Seq<u8>)
    requires
        k.wf(),
        k.current_cwd() == Some(cwd),
        g.len() > 0,
        g[0] != SLASH,
    ensures
        ({
            let a = cwd_string(cwd).push(SLASH) + g;
            k.translate(a) matches Ok(PathView::Mapped(_)) || k.translate(g) == k.translate(a)
        }),
{
    k.lemma_current_linked();
    assert(all_normal(cwd));
    lemma_absolute_form(cwd, g);
}

/// After a task is added under `pid`, the table holds it.
pub proof fn law_added_task_present(o: Kernel, k: Kernel, pid: i32)
    requires
        task_added(o, k, pid),
    ensures
        k.task_map().contains_key(pid),
        k.task_map()[pid].pid == pid,
{
    assert(k.task_map().dom().contains(pid));
}

/// After the task under `pid` is removed, the table holds none there.
pub proof fn law_removed_task_absent(o: Kernel, k: Kernel, pid: i32)
    requires
        task_removed(o, k, pid),
    ensures
        !k.task_map().contains_key(pid),
{
}

/// Adding a task under a process id the table did not hold and removing it
/// again leaves the table and the current task as they were.
pub proof fn law_add_then_remove(o: Kernel, k1: Kernel, k2: Kernel, pid: i32)
    requires
        !o.task_map().contains_key(pid),
        task_added(o, k1, pid),
        task_removed(k1, k2, pid),
    ensures
        k2.task_map() == o.task_map(),
        k2.current_task() == o.current_task(),
        k2.root() == o.root(),
{
    assert(k2.task_map() =~= o.task_map());
}

} // verus!
