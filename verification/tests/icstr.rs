use internship::icstr::{check_c_string, find_nul};
use internship::{ICStr, NulError, Pool};
use std::cmp::Ordering;
use std::collections::hash_map::DefaultHasher;
use std::hash::Hasher;

const LONG: &[u8] = b"a C string that is long enough to be pooled\0";

#[test]
fn find_nul_finds_the_first() {
    assert_eq!(find_nul(b""), None);
    assert_eq!(find_nul(b"abc"), None);
    assert_eq!(find_nul(b"\0"), Some(0));
    assert_eq!(find_nul(b"abc\0"), Some(3));
    assert_eq!(find_nul(b"a\0c\0"), Some(1));
}

#[test]
fn check_c_string_wants_one_nul_at_the_end() {
    assert_eq!(check_c_string(LONG), Ok(()));
    assert_eq!(check_c_string(b"abc\0"), Ok(()));
    assert_eq!(check_c_string(b"\0"), Ok(()));
    assert_eq!(check_c_string(b""), Err(NulError::NotNulTerminated));
    assert_eq!(check_c_string(b"abc"), Err(NulError::NotNulTerminated));
    assert_eq!(check_c_string(b"a\0c\0"), Err(NulError::InteriorNul { position: 1 }));
    assert_eq!(check_c_string(b"\0\0"), Err(NulError::InteriorNul { position: 0 }));
    assert_eq!(check_c_string(b"abc\0d"), Err(NulError::InteriorNul { position: 3 }));
}

#[test]
fn icstr_gives_back_its_bytes() {
    let mut pool = Pool::new();
    let a = ICStr::new(&mut pool, LONG).unwrap();
    let b = ICStr::new(&mut pool, b"abc\0").unwrap();
    let c = ICStr::new(&mut pool, b"\0").unwrap();
    assert_eq!(a.as_bytes_with_nul(), LONG);
    assert_eq!(a.as_bytes(), &LONG[..LONG.len() - 1]);
    assert_eq!(b.as_bytes_with_nul(), b"abc\0");
    assert_eq!(b.as_bytes(), b"abc");
    assert_eq!(c.as_bytes_with_nul(), b"\0");
    assert_eq!(c.as_bytes(), b"");
    assert_eq!(pool.len(), 1);
    assert_eq!(pool.holder_count(LONG), 2);
}

#[test]
fn icstr_counts_the_terminator_at_the_limit() {
    let mut pool = Pool::new();
    let at_limit = ICStr::new(&mut pool, b"fourteen bytes\0").unwrap();
    assert_eq!(at_limit.as_bytes_with_nul().len(), 15);
    assert!(!at_limit.as_handle().pooled());
    assert_eq!(pool.len(), 0);
    let over = ICStr::new(&mut pool, b"fifteen bytes..\0").unwrap();
    assert_eq!(over.as_bytes_with_nul().len(), 16);
    assert!(over.as_handle().pooled());
    assert_eq!(pool.len(), 1);
}

#[test]
fn icstr_refuses_what_is_no_c_string() {
    let mut pool = Pool::new();
    let mut interior = LONG.to_vec();
    interior[5] = 0;
    assert_eq!(ICStr::new(&mut pool, &interior).err(), Some(NulError::InteriorNul { position: 5 }));
    assert_eq!(
        ICStr::new(&mut pool, &LONG[..LONG.len() - 1]).err(),
        Some(NulError::NotNulTerminated)
    );
    assert_eq!(ICStr::new(&mut pool, b"").err(), Some(NulError::NotNulTerminated));
    assert_eq!(ICStr::new(&mut pool, b"a\0b").err(), Some(NulError::InteriorNul { position: 1 }));
    assert_eq!(pool.len(), 0);
}

#[test]
fn to_ibytes_with_nul_shares_the_buffer() {
    let mut pool = Pool::new();
    let string = ICStr::new(&mut pool, LONG).unwrap();
    let bytes = string.to_ibytes_with_nul(&mut pool);
    assert_eq!(bytes.as_bytes(), LONG);
    assert!(bytes.as_handle().same_buffer(string.as_handle()));
    assert_eq!(pool.len(), 1);
    assert_eq!(pool.holder_count(LONG), 3);
    string.release(&mut pool);
    bytes.release(&mut pool);
    assert!(pool.is_empty());
}

#[test]
fn to_istr_shares_the_buffer_with_its_terminator() {
    let mut pool = Pool::new();
    let string = ICStr::new(&mut pool, LONG).unwrap();
    let text = string.to_istr(&mut pool).unwrap();
    assert_eq!(text.as_bytes(), LONG);
    assert_eq!(text.as_str(), std::str::from_utf8(LONG).unwrap());
    assert!(text.as_handle().same_buffer(string.as_handle()));
    assert_eq!(pool.len(), 1);
    assert_eq!(pool.holder_count(LONG), 3);

    let short = ICStr::new(&mut pool, b"abc\0").unwrap();
    assert_eq!(short.to_istr(&mut pool).unwrap().as_str(), "abc\0");
    assert_eq!(pool.len(), 1);
}

#[test]
fn to_istr_refuses_what_is_no_text() {
    let mut pool = Pool::new();
    let mut invalid = LONG.to_vec();
    invalid[7] = 0xff;
    let string = ICStr::new(&mut pool, &invalid).unwrap();
    let error = string.to_istr(&mut pool).err().unwrap();
    assert_eq!(error.valid_up_to(), 7);
    assert_eq!(pool.holder_count(&invalid), 2);
    assert_eq!(pool.len(), 1);
    let short = ICStr::new(&mut pool, b"\xff\0").unwrap();
    assert!(short.to_istr(&mut pool).is_err());
}

#[test]
fn icstr_share_and_release() {
    let mut pool = Pool::new();
    let a = ICStr::new(&mut pool, LONG).unwrap();
    let b = a.share(&mut pool);
    assert_eq!(b.as_bytes_with_nul(), LONG);
    assert!(a.as_handle().same_buffer(b.as_handle()));
    assert_eq!(pool.holder_count(LONG), 3);
    a.release(&mut pool);
    assert_eq!(pool.len(), 1);
    b.release(&mut pool);
    assert_eq!(pool.len(), 0);
}

#[test]
fn icstr_compare_by_content() {
    let mut pool = Pool::new();
    let a = ICStr::new(&mut pool, LONG).unwrap();
    let b = ICStr::new(&mut pool, LONG).unwrap();
    let c = ICStr::new(&mut pool, b"a C string\0").unwrap();
    let d = ICStr::new(&mut pool, b"b\0").unwrap();
    assert!(a == b);
    assert!(a != c);
    assert!(c < a);
    assert!(a < d);
    assert_eq!(a.partial_cmp(&b), Some(Ordering::Equal));
    assert_eq!(a.partial_cmp(&c), Some(Ordering::Greater));
}

#[test]
fn icstr_hash_like_their_bytes_with_the_terminator() {
    let mut pool = Pool::new();
    let a = ICStr::new(&mut pool, LONG).unwrap();
    let mut state = DefaultHasher::new();
    a.hash(&mut state);
    let mut plain = DefaultHasher::new();
    plain.write(LONG);
    assert_eq!(state.finish(), plain.finish());
}

#[test]
fn the_default_icstr_is_the_terminator_alone() {
    let string = ICStr::default();
    assert_eq!(string.as_bytes_with_nul(), b"\0");
    assert_eq!(string.as_bytes(), b"");
    assert!(!string.as_handle().pooled());
}
