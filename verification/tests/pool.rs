use internship::pool::hash_key;
use internship::Pool;

fn long(byte: u8) -> Vec<u8> {
    vec![byte; 40]
}

#[test]
fn new_pool_is_empty() {
    let pool = Pool::new();
    assert_eq!(pool.len(), 0);
    assert!(pool.is_empty());
    assert!(!pool.contains(b"anything at all, long or short"));
    assert_eq!(pool.holder_count(b"anything at all, long or short"), 0);
}

#[test]
fn first_request_stores_a_copy_held_twice() {
    let mut pool = Pool::new();
    let content = long(b'a');
    let buffer = pool.get_or_insert(&content);
    assert_eq!(buffer.as_bytes(), &content[..]);
    assert_eq!(pool.len(), 1);
    assert!(!pool.is_empty());
    assert!(pool.contains(&content));
    assert_eq!(pool.holder_count(&content), 2);
    assert_eq!(buffer.id_number(), 0);
    pool.release(buffer);
}

#[test]
fn second_request_is_answered_with_the_stored_buffer() {
    let mut pool = Pool::new();
    let content = long(b'a');
    let first = pool.get_or_insert(&content);
    let second = pool.get_or_insert(&content.clone());
    assert!(std::rc::Rc::ptr_eq(&first, &second));
    assert_eq!(first.id_number(), second.id_number());
    assert_eq!(pool.len(), 1);
    assert_eq!(pool.holder_count(&content), 3);
    pool.release(first);
    pool.release(second);
}

#[test]
fn the_stored_copy_does_not_alias_the_request() {
    let mut pool = Pool::new();
    let mut content = long(b'a');
    let buffer = pool.get_or_insert(&content);
    content[0] = b'b';
    assert_eq!(buffer.as_bytes(), &long(b'a')[..]);
    assert!(pool.contains(&long(b'a')));
    assert!(!pool.contains(&content));
    pool.release(buffer);
}

#[test]
fn distinct_contents_get_distinct_buffers() {
    let mut pool = Pool::new();
    let a = pool.get_or_insert(&long(b'a'));
    let b = pool.get_or_insert(&long(b'b'));
    assert_eq!(pool.len(), 2);
    assert_eq!(a.id_number(), 0);
    assert_eq!(b.id_number(), 1);
    assert!(!std::rc::Rc::ptr_eq(&a, &b));
    assert_eq!(pool.holder_count(&long(b'a')), 2);
    assert_eq!(pool.holder_count(&long(b'b')), 2);
    pool.release(a);
    assert_eq!(pool.len(), 1);
    assert!(!pool.contains(&long(b'a')));
    assert!(pool.contains(&long(b'b')));
    pool.release(b);
    assert_eq!(pool.len(), 0);
}

#[test]
fn the_pool_takes_content_of_any_length() {
    let mut pool = Pool::new();
    let empty = pool.get_or_insert(b"");
    let short = pool.get_or_insert(b"foo");
    assert_eq!(empty.as_bytes(), b"");
    assert_eq!(short.as_bytes(), b"foo");
    assert_eq!(pool.len(), 2);
    pool.release(empty);
    pool.release(short);
    assert!(pool.is_empty());
}

#[test]
fn share_adds_a_holder_and_no_buffer() {
    let mut pool = Pool::new();
    let content = long(b'a');
    let first = pool.get_or_insert(&content);
    let second = pool.share(&first);
    assert!(std::rc::Rc::ptr_eq(&first, &second));
    assert_eq!(pool.len(), 1);
    assert_eq!(pool.holder_count(&content), 3);
    pool.release(first);
    assert_eq!(pool.holder_count(&content), 2);
    pool.release(second);
    assert_eq!(pool.holder_count(&content), 0);
}

#[test]
fn release_counts_down_and_drops_the_buffer_with_its_last_handle() {
    let mut pool = Pool::new();
    let content = long(b'a');
    let first = pool.get_or_insert(&content);
    let second = pool.get_or_insert(&content);
    let third = pool.get_or_insert(&content);
    assert_eq!(pool.holder_count(&content), 4);
    pool.release(second);
    assert_eq!(pool.holder_count(&content), 3);
    assert_eq!(pool.len(), 1);
    pool.release(first);
    assert_eq!(pool.holder_count(&content), 2);
    assert_eq!(pool.len(), 1);
    pool.release(third);
    assert_eq!(pool.holder_count(&content), 0);
    assert_eq!(pool.len(), 0);
    assert!(!pool.contains(&content));
}

#[test]
fn a_content_stored_again_gets_a_new_buffer() {
    let mut pool = Pool::new();
    let content = long(b'a');
    let first = pool.get_or_insert(&content);
    let first_id = first.id_number();
    pool.release(first);
    assert_eq!(pool.len(), 0);
    let second = pool.get_or_insert(&content);
    assert_ne!(second.id_number(), first_id);
    assert_eq!(second.id_number(), 1);
    assert_eq!(pool.holder_count(&content), 2);
    pool.release(second);
}

#[test]
fn a_buffer_of_another_pool_changes_nothing() {
    let mut here = Pool::new();
    let mut there = Pool::new();
    let content = long(b'a');
    let mine = here.get_or_insert(&content);
    let theirs = there.get_or_insert(&long(b'b'));
    let other = there.get_or_insert(&content);
    assert_eq!(mine.id_number(), 0);
    assert_eq!(theirs.id_number(), 0);
    assert_eq!(other.id_number(), 1);

    // Same identity, other content.
    let shared = here.share(&theirs);
    assert_eq!(here.len(), 1);
    assert_eq!(here.holder_count(&content), 2);
    assert!(!here.contains(&long(b'b')));
    here.release(shared);
    assert_eq!(here.holder_count(&content), 2);

    // Same content, other identity.
    let shared = here.share(&other);
    assert_eq!(here.holder_count(&content), 2);
    here.release(shared);
    assert_eq!(here.holder_count(&content), 2);
    assert_eq!(here.len(), 1);

    here.release(mine);
    there.release(theirs);
    there.release(other);
    assert!(here.is_empty());
    assert!(there.is_empty());
}

#[test]
fn a_buffer_that_was_dropped_cannot_be_released_again() {
    let mut pool = Pool::new();
    let content = long(b'a');
    let first = pool.get_or_insert(&content);
    let stale = std::rc::Rc::clone(&first);
    pool.release(first);
    let second = pool.get_or_insert(&content);
    pool.release(stale);
    assert_eq!(pool.holder_count(&content), 2);
    pool.release(second);
    assert!(pool.is_empty());
}

#[test]
fn a_fresh_pool_has_room() {
    let mut pool = Pool::new();
    let content = long(b'a');
    assert!(pool.has_room(&content));
    let buffer = pool.get_or_insert(&content);
    assert!(pool.has_room(&content));
    assert!(pool.has_room(&long(b'b')));
    pool.release(buffer);
}

#[test]
fn many_contents_come_and_go() {
    let mut pool = Pool::new();
    let mut held = Vec::new();
    for n in 0..500u32 {
        let content = format!("content number {:08} of the many", n).into_bytes();
        held.push(pool.get_or_insert(&content));
    }
    assert_eq!(pool.len(), 500);
    for n in 0..500u32 {
        let content = format!("content number {:08} of the many", n).into_bytes();
        assert!(pool.contains(&content));
        assert_eq!(pool.holder_count(&content), 2);
        let again = pool.get_or_insert(&content);
        assert_eq!(again.id_number(), n as usize);
        assert!(std::rc::Rc::ptr_eq(&again, &held[n as usize]));
        pool.release(again);
    }
    assert_eq!(pool.len(), 500);
    let mut left = 500;
    for buffer in held {
        pool.release(buffer);
        left -= 1;
        assert_eq!(pool.len(), left);
    }
    assert!(pool.is_empty());
}

#[test]
fn the_key_of_a_content_depends_on_its_bytes_alone() {
    let a = long(b'a');
    assert_eq!(hash_key(&a), hash_key(&a.clone()));
    assert_ne!(hash_key(&a), hash_key(&long(b'b')));
    assert_ne!(hash_key(b""), hash_key(b"\0"));
}
