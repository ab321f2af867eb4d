use lib::cstr::{c_str_compare, c_strcpy, c_strlen, Q_strncpyz};

#[test]
fn strlen_stops_at_nul() {
    assert_eq!(c_strlen(b"abc\0def\0"), 3);
    assert_eq!(c_strlen(b"\0"), 0);
}

#[test]
fn strlen_without_nul_is_length() {
    assert_eq!(c_strlen(b"abcd"), 4);
    assert_eq!(c_strlen(b""), 0);
}

#[test]
fn compare_equal_and_ordered() {
    assert_eq!(c_str_compare(b"map\0", b"map\0"), 0);
    assert_eq!(c_str_compare(b"map\0xyz", b"map\0abc"), 0);
    assert!(c_str_compare(b"abc\0", b"abd\0") < 0);
    assert!(c_str_compare(b"abd\0", b"abc\0") > 0);
    assert!(c_str_compare(b"ab\0", b"abc\0") < 0);
    assert!(c_str_compare(b"abc\0", b"ab\0") > 0);
}

#[test]
fn strcpy_copies_through_nul() {
    let mut dest = vec![b'x'; 8];
    c_strcpy(&mut dest, b"hey\0zz");
    assert_eq!(dest, vec![b'h', b'e', b'y', 0, b'x', b'x', b'x', b'x']);
}

#[test]
fn strncpyz_truncates_and_terminates() {
    let mut dest = vec![b'x'; 6];
    Q_strncpyz(&mut dest, b"abcdefgh\0", 4);
    assert_eq!(dest, vec![b'a', b'b', b'c', 0, b'x', b'x']);
    let mut dest2 = vec![b'x'; 6];
    Q_strncpyz(&mut dest2, b"ab\0", 6);
    assert_eq!(dest2, vec![b'a', b'b', 0, b'x', b'x', b'x']);
}
