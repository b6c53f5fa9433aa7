use internship::{IBytes, Pool};
use std::borrow::Borrow;
use std::cmp::Ordering;
use std::collections::hash_map::DefaultHasher;
use std::hash::Hasher;

#[test]
fn ibytes_gives_back_its_bytes() {
    let mut pool = Pool::new();
    let long: Vec<u8> = (0..=255u8).collect();
    let a = IBytes::new(&mut pool, &long);
    let b = IBytes::new(&mut pool, b"\x00\xff");
    let c = IBytes::new(&mut pool, b"");
    assert_eq!(a.as_bytes(), &long[..]);
    assert_eq!(b.as_bytes(), b"\x00\xff");
    assert_eq!(c.as_bytes(), b"");
    assert_eq!(pool.len(), 1);
}

#[test]
fn ibytes_of_one_content_share_one_buffer() {
    let mut pool = Pool::new();
    let long = [7u8; 64];
    let a = IBytes::new(&mut pool, &long);
    let b = IBytes::new(&mut pool, &long);
    assert!(a.as_handle().same_buffer(b.as_handle()));
    assert_eq!(pool.len(), 1);
    assert_eq!(pool.holder_count(&long), 3);
    let c = a.share(&mut pool);
    assert_eq!(pool.holder_count(&long), 4);
    assert!(c.as_handle().same_buffer(a.as_handle()));
    a.release(&mut pool);
    b.release(&mut pool);
    assert_eq!(pool.len(), 1);
    assert_eq!(c.as_bytes(), &long[..]);
    c.release(&mut pool);
    assert_eq!(pool.len(), 0);
}

#[test]
fn ibytes_from_handle_keeps_the_handle() {
    let mut pool = Pool::new();
    let long = [7u8; 64];
    let handle = internship::Handle::new(&mut pool, &long);
    let bytes = IBytes::from_handle(handle);
    assert_eq!(bytes.as_bytes(), &long[..]);
    assert_eq!(pool.holder_count(&long), 2);
    bytes.release(&mut pool);
    assert!(pool.is_empty());
}

#[test]
fn ibytes_compare_by_content() {
    let mut pool = Pool::new();
    let a = IBytes::new(&mut pool, &[1u8; 20]);
    let b = IBytes::new(&mut pool, &[1u8; 20]);
    let c = IBytes::new(&mut pool, &[1u8; 21]);
    let d = IBytes::new(&mut pool, &[2u8; 3]);
    assert!(a == b);
    assert!(a != c);
    assert!(a < c);
    assert!(c < d);
    assert_eq!(a.partial_cmp(&b), Some(Ordering::Equal));
    assert_eq!(d.partial_cmp(&a), Some(Ordering::Greater));
}

#[test]
fn ibytes_compare_with_plain_bytes() {
    let mut pool = Pool::new();
    let long = [1u8; 20];
    let a = IBytes::new(&mut pool, &long);
    let s = IBytes::new(&mut pool, b"abc");
    assert!(a == long[..]);
    assert!(a == &long[..]);
    assert!(a == long.to_vec());
    assert!(a != long[..19]);
    assert!(a != &long[..19]);
    assert!(a != vec![1u8; 21]);
    assert!(s == b"abc"[..]);
    assert!(s != b"abd"[..]);
    assert!(s == b"abc".to_vec());
}

#[test]
fn ibytes_hash_like_their_handles() {
    let mut pool = Pool::new();
    let long = [1u8; 20];
    let a = IBytes::new(&mut pool, &long);
    let b = IBytes::new(&mut pool, &long);
    let mut first = DefaultHasher::new();
    a.hash(&mut first);
    let mut second = DefaultHasher::new();
    b.hash(&mut second);
    let mut plain = DefaultHasher::new();
    plain.write(&long);
    assert_eq!(first.finish(), second.finish());
    assert_eq!(first.finish(), plain.finish());
}

#[test]
fn ibytes_deref_and_index_like_a_slice() {
    let mut pool = Pool::new();
    let long: Vec<u8> = (0..40u8).collect();
    let a = IBytes::new(&mut pool, &long);
    assert_eq!(a.len(), 40);
    assert_eq!(a.first(), Some(&0));
    assert_eq!(&*a, &long[..]);
    assert_eq!(&a[3..7], &[3, 4, 5, 6]);
    assert_eq!(&a[7..7], &[] as &[u8]);
    assert_eq!(&a[38..], &[38, 39]);
    assert_eq!(&a[40..], &[] as &[u8]);
    assert_eq!(&a[..2], &[0, 1]);
    assert_eq!(&a[..], &long[..]);
    let as_ref: &[u8] = a.as_ref();
    assert_eq!(as_ref, &long[..]);
    let borrowed: &[u8] = a.borrow();
    assert_eq!(borrowed, &long[..]);
}

#[test]
fn the_default_ibytes_is_empty() {
    let bytes = IBytes::default();
    assert_eq!(bytes.as_bytes(), b"");
    assert!(!bytes.as_handle().pooled());
}
