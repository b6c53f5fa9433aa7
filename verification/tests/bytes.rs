use internship::bytes::{bytes_eq, bytes_lt, mismatch};
use internship::order::compare;
use std::cmp::Ordering;

#[test]
fn mismatch_is_the_first_place_of_difference() {
    assert_eq!(mismatch(b"", b""), 0);
    assert_eq!(mismatch(b"", b"abc"), 0);
    assert_eq!(mismatch(b"abc", b""), 0);
    assert_eq!(mismatch(b"abc", b"abc"), 3);
    assert_eq!(mismatch(b"abc", b"abd"), 2);
    assert_eq!(mismatch(b"abc", b"abcd"), 3);
    assert_eq!(mismatch(b"abcd", b"abc"), 3);
    assert_eq!(mismatch(b"xbc", b"abc"), 0);
}

#[test]
fn bytes_eq_compares_every_byte() {
    assert!(bytes_eq(b"", b""));
    assert!(bytes_eq(b"abc", b"abc"));
    assert!(!bytes_eq(b"abc", b"abd"));
    assert!(!bytes_eq(b"abc", b"ab"));
    assert!(!bytes_eq(b"ab", b"abc"));
    assert!(!bytes_eq(b"", b"\0"));
}

#[test]
fn bytes_lt_is_the_lexicographic_order() {
    assert!(!bytes_lt(b"", b""));
    assert!(bytes_lt(b"", b"a"));
    assert!(!bytes_lt(b"a", b""));
    assert!(bytes_lt(b"abc", b"abd"));
    assert!(!bytes_lt(b"abd", b"abc"));
    assert!(bytes_lt(b"ab", b"abc"));
    assert!(!bytes_lt(b"abc", b"ab"));
    assert!(!bytes_lt(b"abc", b"abc"));
    assert!(bytes_lt(b"a\xff", b"b"));
    assert!(bytes_lt(b"\x7f", b"\x80"));
}

#[test]
fn compare_agrees_with_the_order_of_slices() {
    let samples: [&[u8]; 8] = [b"", b"a", b"ab", b"abc", b"abd", b"b", b"\x80", b"\xff\x00"];
    for a in samples {
        for b in samples {
            assert_eq!(compare(a, b), a.cmp(b));
            assert_eq!(bytes_lt(a, b), a < b);
            assert_eq!(bytes_eq(a, b), a == b);
        }
    }
    assert_eq!(compare(b"ab", b"abc"), Ordering::Less);
    assert_eq!(compare(b"abd", b"abc"), Ordering::Greater);
    assert_eq!(compare(b"abc", b"abc"), Ordering::Equal);
}
