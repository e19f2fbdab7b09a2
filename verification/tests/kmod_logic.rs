use rvisor::kmod::error::{Error, EINVAL};
use rvisor::kmod::task::Task;
use rvisor::kmod::kernel::{Kernel, Path, PATH_MAX, translatable};
use rvisor::kmod::container::Container;
use rvisor::kmod::iodev::{IoctlCmd, IoDeviceFile};
use rvisor::kmod::syscall::return_result;
use rvisor::kmod::fs::{DEntry, DentryTable, INode, createChild};

fn v(s: &str) -> Vec<u8> {
    s.as_bytes().to_vec()
}

fn cwd_of(t: &Task) -> Vec<u8> {
    let mut r = Vec::new();
    t.get_cwd(&mut r);
    r
}

fn host(r: Result<Path, Error>) -> Vec<u8> {
    match r {
        Ok(Path::Host(h)) => h,
        other => panic!("expected a host path, got {:?}", other),
    }
}

#[test]
fn errors_carry_negated_errno() {
    assert_eq!(Error::invalid().errno, -EINVAL);
    assert_eq!(Error::invalid().to_kernel_errno(), -22);
    assert_eq!(Error::from_kernel_errno(-14).errno, -14);
    assert_eq!(PATH_MAX, 200);
}

#[test]
fn task_chdir_absolute_and_relative() {
    let mut t = Task::new(7);
    assert_eq!(cwd_of(&t), v("/"));
    assert_eq!(t.chdir(b"/a/b"), Ok(()));
    assert_eq!(t.cwd, vec![v("a"), v("b")]);
    assert_eq!(t.chdir(b"../c/./"), Ok(()));
    assert_eq!(cwd_of(&t), v("/a/c"));
    assert_eq!(t.chdir(b"/"), Ok(()));
    assert_eq!(cwd_of(&t), v("/"));
    assert_eq!(t.pid, 7);
}

#[test]
fn task_chdir_refusals() {
    let mut t = Task::new(1);
    t.chdir(b"/x").unwrap();
    assert_eq!(t.chdir(b""), Err(Error::invalid()));
    assert_eq!(t.cwd, vec![v("x")]);
    // the pieces before the failing `..` stay in effect
    assert_eq!(t.chdir(b"y/../../.."), Err(Error::invalid()));
    assert_eq!(t.cwd, Vec::<Vec<u8>>::new());
    t.chdir(b"/x").unwrap();
    assert_eq!(t.chdir(b"/.."), Err(Error::invalid()));
    assert_eq!(cwd_of(&t), v("/"));
}

#[test]
fn task_get_cwd_appends() {
    let mut t = Task::new(1);
    t.chdir(b"/usr/lib").unwrap();
    let mut out = v("cwd=");
    t.get_cwd(&mut out);
    assert_eq!(out, v("cwd=/usr/lib"));
}

#[test]
fn task_clone_and_open_file() {
    let mut t = Task::new(3);
    t.chdir(b"/srv").unwrap();
    t.open_file(4, Some(0));
    let c = t.clone(9);
    assert_eq!(c.pid, 9);
    assert_eq!(c.cwd, vec![v("srv")]);
    assert_eq!(c.files.get(&4).unwrap().pos, 0);
    assert_eq!(c.files.get(&4).unwrap().dentry, Some(0));
}

#[test]
fn law_chdir_compose_example() {
    let mut a = Task::new(1);
    a.chdir(b"/usr/share").unwrap();
    a.chdir(b"../lib/x").unwrap();
    let mut b = Task::new(1);
    b.chdir(b"/usr/share/../lib/x").unwrap();
    assert_eq!(a.cwd, b.cwd);
}

#[test]
fn kernel_task_table() {
    let mut k = match Kernel::new(v("/var/guest")) {
        Ok(k) => k,
        Err(_) => panic!(),
    };
    assert!(!k.contains(5));
    k.add_task(5).unwrap();
    assert!(k.contains(5));
    assert!(!k.try_set_current(6));
    assert!(k.try_set_current(5));
    k.clone_task(8, 5).unwrap();
    assert!(k.contains(8));
    k.clone_task(0, 99).unwrap();
    assert!(!k.contains(0));
    k.remove_task(5).unwrap();
    assert!(!k.contains(5));
    assert!(k.contains(8));
}

fn err_of(r: Result<Path, Error>) -> Option<Error> {
    match r {
        Ok(_) => None,
        Err(e) => Some(e),
    }
}

#[test]
fn kernel_translates_paths() {
    let mut k = Kernel::new(v("/var/guest")).unwrap();
    assert_eq!(host(k.guest_to_host(b"/a/./b/../c")), v("/var/guest/a/c"));
    assert_eq!(host(k.guest_to_host(b"//etc//passwd/")), v("/var/guest/etc/passwd"));
    assert_eq!(err_of(k.guest_to_host(b"")), Some(Error::invalid()));
    assert_eq!(err_of(k.guest_to_host(b"/../etc")), Some(Error::invalid()));
    // relative paths need a current task
    assert_eq!(err_of(k.guest_to_host(b"etc")), Some(Error::invalid()));
    assert_eq!(err_of(k.relative_to_absolute(b"etc")), Some(Error::invalid()));
    k.add_task(10).unwrap();
    assert!(k.try_set_current(10));
    assert_eq!(host(k.guest_to_host(b"etc")), v("/var/guest/etc"));
    assert_eq!(host(k.chdir(b"/home/u")), v("/var/guest/home/u"));
    assert_eq!(k.getcwd(), v("/home/u"));
    assert_eq!(host(k.guest_to_host(b"../w/x")), v("/var/guest/home/w/x"));
    assert_eq!(host(k.relative_to_absolute(b"ignored")), v("/var/guest/home/u"));
    assert_eq!(err_of(k.guest_to_host(b"../../..")), Some(Error::invalid()));
}

#[test]
fn kernel_chdir_failure_changes_nothing() {
    let mut k = Kernel::new(v("/r")).unwrap();
    k.add_task(1).unwrap();
    k.try_set_current(1);
    k.chdir(b"/a").unwrap();
    assert_eq!(err_of(k.chdir(b"../../b")), Some(Error::invalid()));
    assert_eq!(k.getcwd(), v("/a"));
}

#[test]
fn kernel_getcwd_without_current_is_empty() {
    let k = Kernel::new(v("/r")).unwrap();
    assert_eq!(k.getcwd(), Vec::<u8>::new());
}

#[test]
fn kernel_build_stack_and_with_stack() {
    let k = Kernel::new(v("/r")).unwrap();
    let mut stack = vec![v("a")];
    assert_eq!(k.build_stack(b"b/../c", &mut stack), Ok(()));
    assert_eq!(stack, vec![v("a"), v("c")]);
    assert_eq!(host(k.guest_to_host_with_stack(&stack)), v("/r/a/c"));
    let mut s2: Vec<Vec<u8>> = Vec::new();
    assert_eq!(k.build_stack(b"..", &mut s2), Err(Error::invalid()));
}

#[test]
fn current_task_outlives_its_table_entry() {
    let mut k = Kernel::new(v("/r")).unwrap();
    k.add_task(1).unwrap();
    assert!(k.try_set_current(1));
    k.chdir(b"/a").unwrap();
    k.remove_task(1).unwrap();
    assert!(!k.contains(1));
    // the current task is still the one that was removed
    assert_eq!(k.getcwd(), v("/a"));
    k.add_task(1).unwrap();
    k.chdir(b"/b").unwrap();
    assert_eq!(k.getcwd(), v("/b"));
    // the task now in the table is the fresh one
    assert!(k.try_set_current(1));
    assert_eq!(k.getcwd(), v("/"));
}

#[test]
fn re_adding_the_current_pid_detaches_it() {
    let mut k = Kernel::new(v("/r")).unwrap();
    k.add_task(2).unwrap();
    k.try_set_current(2);
    k.chdir(b"/d").unwrap();
    k.add_task(2).unwrap();
    assert_eq!(k.getcwd(), v("/d"));
    k.try_set_current(2);
    assert_eq!(k.getcwd(), v("/"));
}

#[test]
fn clone_task_copies_the_parent() {
    let mut k = Kernel::new(v("/r")).unwrap();
    k.add_task(1).unwrap();
    k.try_set_current(1);
    k.chdir(b"/p/q").unwrap();
    k.clone_task(2, 1).unwrap();
    assert!(k.try_set_current(2));
    assert_eq!(k.getcwd(), v("/p/q"));
}

#[test]
fn law_add_then_remove_example() {
    let mut k = Kernel::new(v("/r")).unwrap();
    k.add_task(1).unwrap();
    k.add_task(4).unwrap();
    k.remove_task(4).unwrap();
    assert!(k.contains(1));
    assert!(!k.contains(4));
}

#[test]
fn container_commands() {
    let mut c = Container::new();
    assert!(!c.contains(1));
    assert!(!c.try_set_current(1));
    c.init(v("/guest")).unwrap();
    c.add_task(1).unwrap();
    assert!(c.contains(1));
    assert!(c.try_set_current(1));
    assert_eq!(c.runk(|k: &Kernel| k.getcwd()), Some(v("/")));
    c.remove_task(1).unwrap();
    assert!(!c.contains(1));
    assert!(c.runk_mut().is_some());
    assert!(Container::new().runk(|k: &Kernel| k.contains(1)).is_none());
}

#[test]
fn ioctl_protocol() {
    assert_eq!(IoctlCmd::try_from(0), Ok(IoctlCmd::Create));
    assert_eq!(IoctlCmd::try_from(1), Ok(IoctlCmd::AddProc));
    assert_eq!(IoctlCmd::try_from(2), Ok(IoctlCmd::Remove));
    assert_eq!(IoctlCmd::try_from(3), Err(Error::invalid()));
    let dev = IoDeviceFile::open().unwrap();
    let mut c = Container::new();
    assert_eq!(dev.ioctl(&mut c, 9, 0, Ok(Vec::new())), Err(Error::invalid()));
    assert!(c.kernel.is_none());
    assert_eq!(dev.ioctl(&mut c, 0, 0, Err(Error::from_kernel_errno(-14))), Err(Error::from_kernel_errno(-14)));
    assert!(c.kernel.is_none());
    assert_eq!(dev.ioctl(&mut c, 0, 0x1000, Ok(v("/srv/box"))), Ok(0));
    assert_eq!(dev.ioctl(&mut c, 1, 42, Ok(Vec::new())), Ok(0));
    assert!(c.contains(42));
    assert_eq!(dev.ioctl(&mut c, 2, 42, Ok(Vec::new())), Ok(0));
    assert!(!c.contains(42));
    // the argument is taken as a 32-bit process id
    assert_eq!(dev.ioctl(&mut c, 1, 0x1_0000_0007, Ok(Vec::new())), Ok(0));
    assert!(c.contains(7));
}

#[test]
fn syscall_return_values() {
    assert_eq!(return_result(Ok(3)), 3);
    assert_eq!(return_result(Err(Error::invalid())), -22);
}

#[test]
fn dentry_tree() {
    let mut t = DentryTable::new();
    let root = t.insert(DEntry::new(v("etc"), None, 1, 0o755, 0, 0));
    assert_eq!(root, 0);
    createChild(&mut t, v("passwd"), root, 2, 0o644, 0, 0);
    createChild(&mut t, v("hosts"), root, 3, 0o644, 0, 0);
    assert_eq!(t.len(), 3);
    assert_eq!(t.get(0).child, vec![1, 2]);
    assert_eq!(t.get(2).name, v("hosts"));
    assert_eq!(t.get(2).parent, Some(0));
    assert_eq!(t.get(1).inode, INode { ino: 2, mode: 0o644, uid: 0, gid: 0 });
}

#[test]
fn host_paths_for_system_calls() {
    let mut k = Kernel::new(v("/jail")).unwrap();
    assert_eq!(k.open(b"/etc/hosts"), Ok(v("/jail/etc/hosts\0")));
    assert_eq!(k.execve(b"/bin/sh"), Ok(v("/jail/bin/sh\0")));
    assert_eq!(k.stat(b"/a/../b"), Ok(v("/jail/b\0")));
    assert_eq!(k.lstat(b"/.."), Err(Error::invalid()));
    assert_eq!(k.open(b"rel"), Err(Error::invalid()));
    k.add_task(3).unwrap();
    k.try_set_current(3);
    assert_eq!(k.open(b"rel"), Ok(v("/jail/rel\0")));
}

#[test]
fn translatable_paths() {
    assert!(translatable(b"/etc"));
    assert!(translatable(b"x"));
    assert!(translatable(b""));
    assert!(translatable(b"/.."));
    assert!(!translatable(b"/"));
    assert!(!translatable(b"/a/.."));
    assert!(!translatable(&[0xC3, 0xA9, b'/']));
}

#[test]
fn getcwd_path_leads_chdir_back() {
    let mut t = Task::new(3);
    t.chdir(b"/usr/local/./lib/../bin").unwrap();
    let s = cwd_of(&t);
    assert_eq!(s, v("/usr/local/bin"));
    let mut u = Task::new(4);
    u.chdir(b"/tmp/x").unwrap();
    assert_eq!(u.chdir(&s), Ok(()));
    assert_eq!(u.cwd, t.cwd);
    let root = Task::new(5);
    let s = cwd_of(&root);
    assert_eq!(s, v("/"));
    assert_eq!(u.chdir(&s), Ok(()));
    assert_eq!(u.cwd, root.cwd);
}

#[test]
fn relative_chdir_as_absolute() {
    let mut t = Task::new(1);
    t.chdir(b"/a/b").unwrap();
    let mut u = Task::new(2);
    u.chdir(b"/elsewhere").unwrap();
    assert_eq!(t.chdir(b"../c/d"), Ok(()));
    assert_eq!(u.chdir(b"/a/b/../c/d"), Ok(()));
    assert_eq!(t.cwd, u.cwd);
    // from the root, the path that getcwd writes is `/`
    let mut r = Task::new(3);
    assert_eq!(r.chdir(b"x/y"), Ok(()));
    assert_eq!(u.chdir(b"//x/y"), Ok(()));
    assert_eq!(r.cwd, u.cwd);
}

#[test]
fn relative_path_translates_as_absolute() {
    let mut k = Kernel::new(v("/var/guest")).unwrap();
    k.add_task(10).unwrap();
    assert!(k.try_set_current(10));
    assert_eq!(host(k.chdir(b"/home/u")), v("/var/guest/home/u"));
    assert_eq!(host(k.guest_to_host(b"docs/../x")), host(k.guest_to_host(b"/home/u/docs/../x")));
    assert_eq!(host(k.guest_to_host(b"docs/../x")), v("/var/guest/home/u/x"));
    assert_eq!(host(k.guest_to_host(b"../../etc")), host(k.guest_to_host(b"/home/u/../../etc")));
    assert_eq!(err_of(k.guest_to_host(b"../../../etc")), Some(Error::invalid()));
    assert_eq!(err_of(k.guest_to_host(b"/home/u/../../../etc")), Some(Error::invalid()));
}
