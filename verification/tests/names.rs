use p9::name::{bytes_equal, find_nul, strip_padding, P9String, MAX_STRING_LEN};
use p9::Error;

#[test]
fn padded_cstrings() {
    assert_eq!(strip_padding(b".\0\0\0\0\0\0\0"), b".");
    assert_eq!(strip_padding(b"..\0\0\0\0\0\0"), b"..");
    assert_eq!(strip_padding(b"normal cstring\0"), b"normal cstring");
    assert_eq!(strip_padding(b"\0\0\0\0"), b"");
    assert_eq!(strip_padding(b"interior\0nul bytes\0\0\0"), b"interior");
}

#[test]
fn strip_padding_keeps_bytes_before_first_terminator() {
    assert_eq!(strip_padding(b"abc\0\0\0"), b"abc");
    assert_eq!(strip_padding(b"a\0b\0c\0"), b"a");
    let field = [0x2fu8, 0xff, 0x01, 0x00, 0x41];
    assert_eq!(strip_padding(&field), &[0x2fu8, 0xff, 0x01][..]);
}

#[test]
fn find_nul_reports_first_position() {
    assert_eq!(find_nul(b"abc\0\0\0"), Some(3));
    assert_eq!(find_nul(b"\0"), Some(0));
    assert_eq!(find_nul(b"ab\0cd\0"), Some(2));
}

#[test]
fn find_nul_reports_missing_terminator() {
    assert_eq!(find_nul(b"no nul bytes in string"), None);
    assert_eq!(find_nul(b""), None);
}

#[test]
fn string_holds_its_bytes() {
    let s = P9String::new(b"hello").unwrap();
    assert_eq!(s.as_bytes(), b"hello");
    assert_eq!(s.len(), 5);
    let e = P9String::empty();
    assert_eq!(e.as_bytes(), b"");
    assert_eq!(e.len(), 0);
}

#[test]
fn string_of_greatest_length_is_accepted() {
    let bytes = vec![b'a'; MAX_STRING_LEN];
    let s = P9String::new(&bytes).unwrap();
    assert_eq!(s.len(), 65535);
}

#[test]
fn string_too_long_is_refused() {
    let bytes = vec![b'a'; MAX_STRING_LEN + 1];
    assert_eq!(P9String::new(&bytes), Err(Error::NameTooLong));
}

#[test]
fn string_with_nul_is_refused() {
    assert_eq!(P9String::new(b"ab\0cd"), Err(Error::IoError));
    assert_eq!(P9String::new(b"\0"), Err(Error::IoError));
}

#[test]
fn string_too_long_wins_over_nul() {
    let mut bytes = vec![b'a'; MAX_STRING_LEN + 1];
    bytes[3] = 0;
    assert_eq!(P9String::new(&bytes), Err(Error::NameTooLong));
}

#[test]
fn string_duplicate_and_comparison() {
    let a = P9String::new(b"name").unwrap();
    let b = a.duplicate();
    let c = P9String::new(b"other").unwrap();
    assert!(a.same_as(&b));
    assert!(!a.same_as(&c));
    assert_eq!(a, b);
    assert_eq!(a.clone(), a);
}

#[test]
fn bytes_equal_compares_byte_for_byte() {
    assert!(bytes_equal(b"abc", b"abc"));
    assert!(!bytes_equal(b"abc", b"abd"));
    assert!(!bytes_equal(b"abc", b"ab"));
    assert!(bytes_equal(b"", b""));
}
