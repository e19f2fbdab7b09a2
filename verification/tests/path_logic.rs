use rvisor::path::{split_path, walk_pieces, bytes_eq, copy_bytes, append_bytes, push_joined, copy_stack, copy_range};

fn v(s: &str) -> Vec<u8> {
    s.as_bytes().to_vec()
}

#[test]
fn split_keeps_empty_pieces() {
    assert_eq!(split_path(b"/a//b/"), vec![v(""), v("a"), v(""), v("b"), v("")]);
    assert_eq!(split_path(b""), vec![v("")]);
    assert_eq!(split_path(b"abc"), vec![v("abc")]);
}

#[test]
fn walk_resolves_pieces() {
    let mut stack: Vec<Vec<u8>> = Vec::new();
    assert!(walk_pieces(&mut stack, &vec![v("a"), v("b"), v(".."), v("."), v(""), v("c")]));
    assert_eq!(stack, vec![v("a"), v("c")]);
}

#[test]
fn walk_stops_at_dotdot_above_root() {
    let mut stack = vec![v("x")];
    assert!(!walk_pieces(&mut stack, &vec![v(".."), v(".."), v("y")]));
    assert_eq!(stack, Vec::<Vec<u8>>::new());
}

#[test]
fn byte_helpers() {
    assert!(bytes_eq(b"abc", b"abc"));
    assert!(!bytes_eq(b"abc", b"abd"));
    assert!(!bytes_eq(b"ab", b"abc"));
    assert_eq!(copy_bytes(b"xyz"), v("xyz"));
    assert_eq!(copy_range(b"hello", 1, 4), v("ell"));
    let mut d = v("ab");
    append_bytes(&mut d, b"cd");
    assert_eq!(d, v("abcd"));
    let mut out = v("/root");
    push_joined(&mut out, &vec![v("a"), v("b")]);
    assert_eq!(out, v("/root/a/b"));
    let mut out2 = v("/root");
    push_joined(&mut out2, &Vec::new());
    assert_eq!(out2, v("/root"));
    assert_eq!(copy_stack(&vec![v("a"), v("bc")]), vec![v("a"), v("bc")]);
}
