use rvisor::sentry::word::{convert_word_to_bytes, convert_bytes_to_word};
use rvisor::sentry::memory::{
    read_string_step, read_string_words, path_from_bytes, data_words, last_data_word, PATH_MAX,
};
use rvisor::sentry::error::{Error, IoErrorKind};
use rvisor::sentry::registers::{Registers, SysReg, UserRegs};
use rvisor::sentry::syscall::{Syscall, EnterAction, enter_action};
use rvisor::sentry::ptrace::{event_loop_step, WaitEvent, TraceAction, SIGTRAP};
use rvisor::sentry::fs::Fs;
use rvisor::sentry::kernel::{Kernel, Task};
use rvisor::sentry::hostpath::{path_components, starts_with, push_path_bytes, strip_root_bytes};

fn v(s: &str) -> Vec<u8> {
    s.as_bytes().to_vec()
}

fn regs_with(sp: u64) -> UserRegs {
    UserRegs {
        r15: 0, r14: 0, r13: 0, r12: 0, rbp: 0, rbx: 0, r11: 0, r10: 0, r9: 0, r8: 0,
        rax: 0, rcx: 0, rdx: 3, rsi: 2, rdi: 1, orig_rax: 257, rip: 0, cs: 0, eflags: 0,
        rsp: sp, ss: 0, fs_base: 0, gs_base: 0, ds: 0, es: 0, fs: 0, gs: 0,
    }
}

#[test]
fn words_and_bytes() {
    assert_eq!(convert_word_to_bytes(0x0807_0605_0403_0201), [1, 2, 3, 4, 5, 6, 7, 8]);
    assert_eq!(convert_bytes_to_word([1, 2, 3, 4, 5, 6, 7, 8]), 0x0807_0605_0403_0201);
    assert_eq!(convert_bytes_to_word(convert_word_to_bytes(u64::MAX)), u64::MAX);
    assert_eq!(convert_word_to_bytes(0), [0; 8]);
}

#[test]
fn reading_strings_word_by_word() {
    let mut bytes = Vec::new();
    assert!(!read_string_step(&mut bytes, u64::from_le_bytes(*b"/tmp/fil")));
    assert_eq!(bytes, v("/tmp/fil"));
    assert!(read_string_step(&mut bytes, u64::from_le_bytes(*b"e\0xxxxxx")));
    assert_eq!(bytes, v("/tmp/file"));
    let mut empty = Vec::new();
    assert!(read_string_step(&mut empty, 0));
    assert_eq!(empty, Vec::<u8>::new());
    assert_eq!(read_string_words(4096), 512);
    assert_eq!(read_string_words(20), 2);
}

#[test]
fn path_length_limit() {
    assert_eq!(PATH_MAX, 4096);
    assert_eq!(path_from_bytes(v("/etc")), Ok(v("/etc")));
    assert_eq!(path_from_bytes(vec![b'a'; 4096]), Err(Error::IoError(IoErrorKind::InvalidData)));
    assert_eq!(path_from_bytes(vec![b'a'; 4095]).map(|p| p.len()), Ok(4095));
}

#[test]
fn words_that_write_a_string() {
    // "abcdefg" and its zero fill exactly one word; the word after it is kept
    assert_eq!(data_words(b"abcdefg"), vec![u64::from_le_bytes(*b"abcdefg\0")]);
    assert_eq!(last_data_word(b"abcdefg", 0x1122_3344_5566_7788), 0x1122_3344_5566_7788);
    // "/tmp/file": one whole word, then "e\0" over the old word
    assert_eq!(data_words(b"/tmp/file"), vec![u64::from_le_bytes(*b"/tmp/fil")]);
    assert_eq!(last_data_word(b"/tmp/file", u64::MAX), u64::from_le_bytes([b'e', 0, 0xff, 0xff, 0xff, 0xff, 0xff, 0xff]));
    assert_eq!(data_words(b""), Vec::<u64>::new());
    assert_eq!(last_data_word(b"", u64::MAX), 0xffff_ffff_ffff_ff00);
}

#[test]
fn law_read_after_write_example() {
    let data = b"/home/guest/some/longer/path";
    let mut words = data_words(data);
    words.push(last_data_word(data, 0xdead_beef_dead_beef));
    let mut bytes = Vec::new();
    let mut done = false;
    for w in words {
        if read_string_step(&mut bytes, w) {
            done = true;
            break;
        }
    }
    assert!(done);
    assert_eq!(bytes, data.to_vec());
}

#[test]
fn registers_get_and_change() {
    let mut r = Registers::new(33, regs_with(0x7000));
    assert_eq!(r.pid(), 33);
    assert_eq!(r.get(SysReg::Num), 257);
    assert_eq!(r.get(SysReg::Arg1), 1);
    assert_eq!(r.get(SysReg::Arg2), 2);
    assert_eq!(r.get(SysReg::Arg3), 3);
    assert_eq!(r.get(SysReg::Sp), 0x7000);
    r.chreg(SysReg::Arg2, 0);
    assert_eq!(r.get(SysReg::Arg2), 0);
    assert_eq!(r.user_regs().rsi, 0);
    assert_eq!(r.user_regs().rdi, 1);
}

#[test]
fn alloc_mem_keeps_the_red_zone() {
    let mut r = Registers::new(1, regs_with(0x1000));
    // the stack pointer has not moved: 16 bytes plus the red zone
    assert_eq!(r.alloc_mem(16), Ok(0x1000 - 144));
    assert_eq!(r.get(SysReg::Sp), 0x1000 - 144);
    // now it has: just the size
    assert_eq!(r.alloc_mem(16), Ok(0x1000 - 160));
    assert_eq!(r.alloc_mem(-16), Ok(0x1000 - 144));
}

#[test]
fn alloc_mem_refuses_leaving_the_address_space() {
    let mut r = Registers::new(1, regs_with(100));
    assert_eq!(r.alloc_mem(0), Err(Error::IoError(IoErrorKind::InvalidData)));
    assert_eq!(r.get(SysReg::Sp), 100);
    let mut high = Registers::new(1, regs_with(u64::MAX - 10));
    high.alloc_mem(0).unwrap();
    assert_eq!(high.alloc_mem(-200), Err(Error::IoError(IoErrorKind::InvalidData)));
}

#[test]
fn syscall_numbers() {
    assert_eq!(Syscall::from_u64(257), Some(Syscall::Openat));
    assert_eq!(Syscall::from_u64(0), Some(Syscall::Read));
    assert_eq!(Syscall::from_u64(231), Some(Syscall::ExitGroup));
    assert_eq!(Syscall::from_u64(89), Some(Syscall::Readlink));
    assert_eq!(Syscall::from_u64(7), None);
    assert_eq!(Syscall::from_u64(400), None);
}

#[test]
fn event_loop_decisions() {
    let mut entering = true;
    assert_eq!(event_loop_step(&mut entering, WaitEvent::PtraceSyscall(4)), TraceAction::EnterSyscall(4));
    assert!(!entering);
    assert_eq!(event_loop_step(&mut entering, WaitEvent::Stopped(4, 19)), TraceAction::Restart(4));
    assert!(!entering);
    assert_eq!(event_loop_step(&mut entering, WaitEvent::PtraceSyscall(4)), TraceAction::ExitSyscall(4));
    assert!(entering);
    assert_eq!(event_loop_step(&mut entering, WaitEvent::PtraceEvent(4, SIGTRAP, 3)), TraceAction::Restart(4));
    assert_eq!(event_loop_step(&mut entering, WaitEvent::PtraceEvent(4, 11, 3)), TraceAction::Unhandled);
    assert_eq!(event_loop_step(&mut entering, WaitEvent::Exited(4, 0)), TraceAction::Finish);
    assert_eq!(event_loop_step(&mut entering, WaitEvent::Other), TraceAction::Unhandled);
    assert!(entering);
}

#[test]
fn path_operations_of_std() {
    assert_eq!(push_path_bytes(b"/a", b"b"), v("/a/b"));
    assert_eq!(push_path_bytes(b"/a/", b"b"), v("/a/b"));
    assert_eq!(push_path_bytes(b"/a", b"/b"), v("/b"));
    assert_eq!(push_path_bytes(b"/a", b""), v("/a/"));
    assert_eq!(push_path_bytes(b"", b"b"), v("b"));
    assert_eq!(strip_root_bytes(b"/./src/."), v("src"));
    assert_eq!(strip_root_bytes(b"//a//b//"), v("a//b"));
    assert_eq!(strip_root_bytes(b"/../x"), v("../x"));
    assert_eq!(strip_root_bytes(b"/"), v(""));
    assert_eq!(path_components(b"./a/../b/"), vec![v("."), v("a"), v(".."), v("b")]);
    assert_eq!(path_components(b"/usr//lib/./x"), vec![v("/"), v("usr"), v("lib"), v("x")]);
    assert_eq!(path_components(b"a/./b"), vec![v("a"), v("b")]);
    assert!(starts_with(b"/home/guest/src", b"/home/guest"));
    assert!(starts_with(b"/home/guest", b"/home/guest/"));
    assert!(!starts_with(b"/home/guestx", b"/home/guest"));
    assert!(!starts_with(b"/home", b"/home/guest"));
}

#[test]
fn translate_path_scenario() {
    let fs = Fs::new(v("/home/guest"));
    assert_eq!(fs.root(), &v("/home/guest"));
    assert_eq!(fs.host_path(b"/"), v("/home/guest/"));
    assert_eq!(fs.host_path(b"./src"), v("/home/guest/src"));
    assert_eq!(fs.host_path(b"/src"), v("/home/guest/src"));
    assert_eq!(fs.host_path(b"/.."), v("/home/guest/.."));
    // what the host resolves those to is then confined to the root
    assert_eq!(fs.confine(v("/home/guest")), Ok(v("/home/guest")));
    assert_eq!(fs.confine(v("/home/guest/src")), Ok(v("/home/guest/src")));
    assert_eq!(fs.confine(v("/home")), Err(Error::IoError(IoErrorKind::NotFound)));
    assert_eq!(fs.confine(v("/home/guest2")), Err(Error::IoError(IoErrorKind::NotFound)));
}

#[test]
fn sentry_kernel_tasks() {
    let mut k = Kernel::new(Fs::new(v("/g")));
    let t = Task::new(12);
    assert_eq!(t.pid(), 12);
    k.create_task(t);
    assert_eq!(k.fs().root(), &v("/g"));
}

#[test]
fn enter_actions_by_number() {
    assert_eq!(enter_action(257), EnterAction::RedirectOpenat);
    assert_eq!(enter_action(0), EnterAction::Pass);
    assert_eq!(enter_action(2), EnterAction::Pass);
    assert_eq!(enter_action(231), EnterAction::Pass);
    assert_eq!(enter_action(7), EnterAction::Unknown);
    assert_eq!(enter_action(1000), EnterAction::Unknown);
}

#[test]
fn openat_enter_redirects_or_refuses() {
    let k = Kernel::new(Fs::new(v("/home/guest")));
    let mut regs = Registers::new(9, regs_with(0x7000));
    // a resolved path under the root is handed back; registers unchanged
    assert_eq!(k.openat_enter(&mut regs, Some(v("/home/guest/src/a.rs"))), Some(v("/home/guest/src/a.rs")));
    assert_eq!(regs.get(SysReg::Arg2), 2);
    assert_eq!(regs.user_regs(), regs_with(0x7000));
    assert_eq!(k.openat_enter(&mut regs, Some(v("/home/guest"))), Some(v("/home/guest")));
    // outside the root, component by component: the argument is zeroed
    assert_eq!(k.openat_enter(&mut regs, Some(v("/home/guestx/a"))), None);
    assert_eq!(regs.get(SysReg::Arg2), 0);
    assert_eq!(regs.get(SysReg::Arg1), 1);
    assert_eq!(regs.get(SysReg::Sp), 0x7000);
    assert_eq!(regs.pid(), 9);
    // a path that could not be resolved on the host: zeroed too
    let mut regs = Registers::new(9, regs_with(0x7000));
    assert_eq!(k.openat_enter(&mut regs, None), None);
    assert_eq!(regs.get(SysReg::Arg2), 0);
    assert_eq!(regs.get(SysReg::Arg3), 3);
}
