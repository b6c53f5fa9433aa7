//! The pool: one shared buffer per stored content, with a count of its
//! holders.

use crate::bytes::bytes_eq;
use crate::model::{BufferState, PoolModel};
use std::collections::hash_map::DefaultHasher;
use std::collections::HashMap;
use std::hash::Hasher;
use std::rc::Rc;
use vstd::prelude::*;
use vstd::slice::slice_to_vec;
use vstd::std_specs::hash::DefaultHasherAdditionalSpecFns;

verus! {

/// The key under which a pool files a content: the hash of its bytes.
pub open spec fn key_of(content: Seq<u8>) -> u64 {
    DefaultHasher::spec_finish(seq![content])
}

/// The key of `content`.
pub fn hash_key(content: &[u8]) -> (key: u64)
    ensures
        key == key_of(content@),
{
    let mut hasher = DefaultHasher::new();
    hasher.write(content);
    assert(hasher@ =~= seq![content@]);
    hasher.finish()
}

/// One stored copy of a content. The pool and every handle of the content
/// share it.
#[derive(Debug)]
pub struct Buffer {
    id: usize,
    key: u64,
    bytes: Vec<u8>,
}

impl View for Buffer {
    type V = Seq<u8>;

    closed spec fn view(&self) -> Seq<u8> {
        self.bytes@
    }
}

impl Buffer {
    #[verifier::type_invariant]
    spec fn keyed(self) -> bool {
        self.key == key_of(self.bytes@)
    }

    /// The identity that the pool gave this buffer.
    pub closed spec fn id(&self) -> nat {
        self.id as nat
    }

    /// The stored bytes.
    pub fn as_bytes(&self) -> (bytes: &[u8])
        ensures
            bytes@ == self@,
    {
        self.bytes.as_slice()
    }

    /// The identity that the pool gave this buffer.
    pub fn id_number(&self) -> (id: usize)
        ensures
            id == self.id(),
    {
        self.id
    }

    /// The key of the stored bytes. The buffer keeps it, so that it costs
    /// no look at the bytes.
    pub fn key(&self) -> (key: u64)
        ensures
            key == key_of(self@),
    {
        proof {
            use_type_invariant(self);
        }
        self.key
    }
}

/// A second reference to the allocation behind `buffer`, made by
/// `Rc::clone`: it points to the same value, and nothing is copied.
#[verifier::external_body]
fn share_allocation(buffer: &Rc<Buffer>) -> (shared: Rc<Buffer>)
    ensures
        shared == *buffer,
{
    Rc::clone(buffer)
}

/// Whether two references point to one allocation, as `Rc::ptr_eq` tells.
/// Two references to one allocation see the same value; two allocations may
/// hold equal values, so a `false` says nothing.
#[verifier::external_body]
pub(crate) fn same_allocation(a: &Rc<Buffer>, b: &Rc<Buffer>) -> (same: bool)
    ensures
        same ==> *a == *b,
{
    Rc::ptr_eq(a, b)
}

#[derive(Debug)]
struct Entry {
    buffer: Rc<Buffer>,
    holders: usize,
}

/// A pool of shared buffers. The buffers are filed under the keys of their
/// contents, so that a content is found among the few that share its key.
#[derive(Debug)]
pub struct Pool {
    buckets: HashMap<u64, Vec<Entry>>,
    next_id: usize,
    count: usize,
}

spec fn state_of(entry: Entry) -> BufferState {
    BufferState { id: entry.buffer.id as nat, holders: entry.holders as nat }
}

spec fn stored_in(entries: Seq<Entry>, content: Seq<u8>) -> bool {
    exists|i: int| 0 <= i < entries.len() && (#[trigger] entries[i]).buffer@ == content
}

spec fn index_in(entries: Seq<Entry>, content: Seq<u8>) -> int {
    choose|i: int| 0 <= i < entries.len() && (#[trigger] entries[i]).buffer@ == content
}

/// What the entries filed under one key store.
spec fn bucket_model(entries: Seq<Entry>) -> Map<Seq<u8>, BufferState> {
    Map::new(
        |c: Seq<u8>| stored_in(entries, c),
        |c: Seq<u8>| state_of(entries[index_in(entries, c)]),
    )
}

/// The entries hold contents with the key `key`, and no content twice.
spec fn filed(entries: Seq<Entry>, key: u64) -> bool {
    &&& forall|i: int| 0 <= i < entries.len() ==> key_of((#[trigger] entries[i]).buffer@) == key
    &&& forall|i: int, j: int|
        #![trigger entries[i], entries[j]]
        0 <= i < entries.len() && 0 <= j < entries.len() && i != j ==> entries[i].buffer@
            != entries[j].buffer@
}

/// The entries filed under `key`.
spec fn entries_at(buckets: Map<u64, Vec<Entry>>, key: u64) -> Seq<Entry> {
    if buckets.contains_key(key) {
        buckets[key]@
    } else {
        Seq::empty()
    }
}

/// What the buckets store: for each content what the bucket of its key
/// stores for it.
spec fn stored(buckets: Map<u64, Vec<Entry>>) -> Map<Seq<u8>, BufferState> {
    Map::new(
        |c: Seq<u8>| bucket_model(entries_at(buckets, key_of(c))).contains_key(c),
        |c: Seq<u8>| bucket_model(entries_at(buckets, key_of(c)))[c],
    )
}

/// Every bucket holds contents of its key, none twice, and is not empty.
spec fn well_filed(buckets: Map<u64, Vec<Entry>>) -> bool {
    forall|key: u64| #[trigger]
        buckets.contains_key(key) ==> filed(buckets[key]@, key) && buckets[key]@.len() > 0
}

/// A bucket stores for each content what the entry with that content
/// holds, and nothing else.
proof fn lemma_bucket_model(entries: Seq<Entry>, key: u64)
    requires
        filed(entries, key),
    ensures
        forall|i: int|
            0 <= i < entries.len() ==> bucket_model(entries).contains_key(
                (#[trigger] entries[i]).buffer@,
            ) && bucket_model(entries)[entries[i].buffer@] == state_of(entries[i]),
        forall|c: Seq<u8>|
            bucket_model(entries).contains_key(c) ==> 0 <= index_in(entries, c) < entries.len()
                && entries[index_in(entries, c)].buffer@ == c && key_of(c) == key,
{
    assert forall|i: int| 0 <= i < entries.len() implies bucket_model(entries).contains_key(
        (#[trigger] entries[i]).buffer@,
    ) && bucket_model(entries)[entries[i].buffer@] == state_of(entries[i]) by {
        let c = entries[i].buffer@;
        assert(stored_in(entries, c));
        let j = index_in(entries, c);
        assert(entries[j].buffer@ == c);
        assert(j == i);
    }
}

/// An entry with a new content adds that content to the bucket.
proof fn lemma_push(entries: Seq<Entry>, key: u64, entry: Entry)
    requires
        filed(entries, key),
        !stored_in(entries, entry.buffer@),
        key_of(entry.buffer@) == key,
    ensures
        filed(entries.push(entry), key),
        bucket_model(entries.push(entry)) == bucket_model(entries).insert(
            entry.buffer@,
            state_of(entry),
        ),
{
    let after = entries.push(entry);
    assert forall|i: int, j: int|
        #![trigger after[i], after[j]]
        0 <= i < after.len() && 0 <= j < after.len() && i != j implies after[i].buffer@
            != after[j].buffer@ by {
        if i < entries.len() && j < entries.len() {
            assert(after[i] == entries[i] && after[j] == entries[j]);
        } else if i < entries.len() {
            assert(after[i] == entries[i]);
        } else {
            assert(after[j] == entries[j]);
        }
    }
    assert forall|i: int| 0 <= i < after.len() implies key_of((#[trigger] after[i]).buffer@)
        == key by {
        if i < entries.len() {
            assert(after[i] == entries[i]);
        }
    }
    lemma_bucket_model(entries, key);
    lemma_bucket_model(after, key);
    let expected = bucket_model(entries).insert(entry.buffer@, state_of(entry));
    assert forall|c: Seq<u8>| bucket_model(after).contains_key(c) implies expected.contains_key(c)
        && bucket_model(after)[c] == expected[c] by {
        let i = index_in(after, c);
        if i < entries.len() {
            assert(after[i] == entries[i]);
        }
    }
    assert forall|c: Seq<u8>| expected.contains_key(c) implies bucket_model(after).contains_key(
        c,
    ) by {
        if c == entry.buffer@ {
            assert(after[entries.len() as int] == entry);
        } else {
            let i = index_in(entries, c);
            assert(after[i] == entries[i]);
        }
    }
    assert(bucket_model(after) =~= expected);
}

/// An entry that changes its holder count changes that count in the bucket.
proof fn lemma_update(entries: Seq<Entry>, key: u64, at: int, entry: Entry)
    requires
        filed(entries, key),
        0 <= at < entries.len(),
        entry.buffer == entries[at].buffer,
    ensures
        filed(entries.update(at, entry), key),
        bucket_model(entries.update(at, entry)) == bucket_model(entries).insert(
            entry.buffer@,
            state_of(entry),
        ),
{
    let after = entries.update(at, entry);
    assert forall|i: int, j: int|
        #![trigger after[i], after[j]]
        0 <= i < after.len() && 0 <= j < after.len() && i != j implies after[i].buffer@
            != after[j].buffer@ by {
        assert(after[i].buffer == entries[i].buffer && after[j].buffer == entries[j].buffer);
    }
    assert forall|i: int| 0 <= i < after.len() implies key_of((#[trigger] after[i]).buffer@)
        == key by {
        assert(after[i].buffer == entries[i].buffer);
    }
    lemma_bucket_model(entries, key);
    lemma_bucket_model(after, key);
    let expected = bucket_model(entries).insert(entry.buffer@, state_of(entry));
    assert forall|c: Seq<u8>| bucket_model(after).contains_key(c) implies expected.contains_key(c)
        && bucket_model(after)[c] == expected[c] by {
        let i = index_in(after, c);
        assert(after[i].buffer == entries[i].buffer);
    }
    assert forall|c: Seq<u8>| expected.contains_key(c) implies bucket_model(after).contains_key(
        c,
    ) by {
        if c == entry.buffer@ {
            assert(after[at] == entry);
        } else {
            let i = index_in(entries, c);
            assert(after[i].buffer == entries[i].buffer);
        }
    }
    assert(bucket_model(after) =~= expected);
}

/// An entry that leaves, with the last entry taking its place, takes its
/// content out of the bucket.
proof fn lemma_swap_remove(entries: Seq<Entry>, key: u64, at: int)
    requires
        filed(entries, key),
        0 <= at < entries.len(),
    ensures
        filed(entries.update(at, entries.last()).drop_last(), key),
        bucket_model(entries.update(at, entries.last()).drop_last()) == bucket_model(
            entries,
        ).remove(entries[at].buffer@),
{
    let after = entries.update(at, entries.last()).drop_last();
    let last = entries.len() - 1;
    // Where each entry that stays came from.
    let origin = |i: int|
        if i == at {
            last
        } else {
            i
        };
    assert forall|i: int| 0 <= i < after.len() implies #[trigger] after[i] == entries[origin(
        i,
    )] by {}
    assert forall|i: int, j: int|
        #![trigger after[i], after[j]]
        0 <= i < after.len() && 0 <= j < after.len() && i != j implies after[i].buffer@
            != after[j].buffer@ by {
        assert(after[i] == entries[origin(i)] && after[j] == entries[origin(j)]);
    }
    assert forall|i: int| 0 <= i < after.len() implies key_of((#[trigger] after[i]).buffer@)
        == key by {
        assert(after[i] == entries[origin(i)]);
    }
    lemma_bucket_model(entries, key);
    lemma_bucket_model(after, key);
    let expected = bucket_model(entries).remove(entries[at].buffer@);
    assert forall|c: Seq<u8>| bucket_model(after).contains_key(c) implies expected.contains_key(c)
        && bucket_model(after)[c] == expected[c] by {
        let i = index_in(after, c);
        assert(after[i] == entries[origin(i)]);
    }
    assert forall|c: Seq<u8>| expected.contains_key(c) implies bucket_model(after).contains_key(
        c,
    ) by {
        let i = index_in(entries, c);
        if i == last {
            assert(after[at] == entries[i]);
        } else {
            assert(after[i] == entries[i]);
        }
    }
    assert(bucket_model(after) =~= expected);
}

/// A pool whose bucket for one key stores one content more, or one content
/// with another state, stores just that more or otherwise.
proof fn lemma_bucket_gained(
    before: Map<u64, Vec<Entry>>,
    after: Map<u64, Vec<Entry>>,
    content: Seq<u8>,
    state: BufferState,
)
    requires
        forall|key: u64|
            key != key_of(content) ==> #[trigger] entries_at(after, key) == entries_at(
                before,
                key,
            ),
        bucket_model(entries_at(after, key_of(content))) == bucket_model(
            entries_at(before, key_of(content)),
        ).insert(content, state),
    ensures
        stored(after) == stored(before).insert(content, state),
{
    let expected = stored(before).insert(content, state);
    assert forall|c: Seq<u8>| #[trigger]
        expected.contains_key(c) == stored(after).contains_key(c) && (expected.contains_key(c)
            ==> expected[c] == stored(after)[c]) by {
        if key_of(c) != key_of(content) {
            assert(entries_at(after, key_of(c)) == entries_at(before, key_of(c)));
        }
    }
    assert(stored(after) =~= expected);
}

/// A pool whose bucket for one key stores one content less stores just
/// that less.
proof fn lemma_bucket_lost(
    before: Map<u64, Vec<Entry>>,
    after: Map<u64, Vec<Entry>>,
    content: Seq<u8>,
)
    requires
        forall|key: u64|
            key != key_of(content) ==> #[trigger] entries_at(after, key) == entries_at(
                before,
                key,
            ),
        bucket_model(entries_at(after, key_of(content))) == bucket_model(
            entries_at(before, key_of(content)),
        ).remove(content),
    ensures
        stored(after) == stored(before).remove(content),
{
    let expected = stored(before).remove(content);
    assert forall|c: Seq<u8>| #[trigger]
        expected.contains_key(c) == stored(after).contains_key(c) && (expected.contains_key(c)
            ==> expected[c] == stored(after)[c]) by {
        if key_of(c) != key_of(content) {
            assert(entries_at(after, key_of(c)) == entries_at(before, key_of(c)));
        }
    }
    assert(stored(after) =~= expected);
}

/// A pool whose buckets all hold what they held stores what it stored.
proof fn lemma_buckets_kept(before: Map<u64, Vec<Entry>>, after: Map<u64, Vec<Entry>>)
    requires
        forall|key: u64| #[trigger] entries_at(after, key) == entries_at(before, key),
    ensures
        stored(after) == stored(before),
{
    assert forall|c: Seq<u8>| #[trigger]
        stored(before).contains_key(c) == stored(after).contains_key(c) && (stored(
            before,
        ).contains_key(c) ==> stored(before)[c] == stored(after)[c]) by {
        assert(entries_at(after, key_of(c)) == entries_at(before, key_of(c)));
    }
    assert(stored(after) =~= stored(before));
}

impl View for Pool {
    type V = PoolModel;

    closed spec fn view(&self) -> PoolModel {
        PoolModel { buffers: stored(self.buckets@), next_id: self.next_id as nat }
    }
}

/// Whether two buffers hold the same bytes. Two references to one
/// allocation do, and are told apart from the rest without reading a byte.
fn same_content(a: &Rc<Buffer>, b: &Rc<Buffer>) -> (same: bool)
    ensures
        same == (a@ == b@),
{
    same_allocation(a, b) || bytes_eq(a.as_bytes(), b.as_bytes())
}

/// The place of the entry with `content` in a bucket, if there is one.
fn find(bucket: &Vec<Entry>, content: &[u8]) -> (found: Option<usize>)
    ensures
        match found {
            Some(i) => i < bucket@.len() && bucket@[i as int].buffer@ == content@,
            None => !stored_in(bucket@, content@),
        },
{
    let mut i: usize = 0;
    while i < bucket.len()
        invariant
            i <= bucket@.len(),
            forall|j: int| 0 <= j < i ==> (#[trigger] bucket@[j]).buffer@ != content@,
        decreases bucket@.len() - i,
    {
        if bytes_eq(bucket[i].buffer.as_bytes(), content) {
            return Some(i);
        }
        i += 1;
    }
    None
}

/// The place of the entry with the content of `buffer` in a bucket, if
/// there is one.
fn find_buffer(bucket: &Vec<Entry>, buffer: &Rc<Buffer>) -> (found: Option<usize>)
    ensures
        match found {
            Some(i) => i < bucket@.len() && bucket@[i as int].buffer@ == buffer@,
            None => !stored_in(bucket@, buffer@),
        },
{
    let mut i: usize = 0;
    while i < bucket.len()
        invariant
            i <= bucket@.len(),
            forall|j: int| 0 <= j < i ==> (#[trigger] bucket@[j]).buffer@ != buffer@,
        decreases bucket@.len() - i,
    {
        if same_content(&bucket[i].buffer, buffer) {
            return Some(i);
        }
        i += 1;
    }
    None
}

impl Pool {
    /// The invariant of the representation. A well-formed pool has a
    /// well-formed model.
    pub closed spec fn wf(&self) -> bool {
        &&& well_filed(self.buckets@)
        &&& self@.wf()
        &&& self.count == self@.len()
        &&& self.count <= self.next_id
    }

    /// Whether the pool can answer a request for `content`: the holder
    /// count of its buffer, or the identity of a new one, must fit the
    /// machine's integers.
    pub open spec fn has_room_for(&self, content: Seq<u8>) -> bool {
        if self@.contains(content) {
            self@.holders(content) < usize::MAX
        } else {
            self@.next_id < usize::MAX
        }
    }

    /// A well-formed pool has a well-formed model, within the machine's
    /// integers.
    pub proof fn lemma_wf(&self)
        requires
            self.wf(),
        ensures
            self@.wf(),
            self@.len() <= self@.next_id <= usize::MAX,
            forall|c: Seq<u8>| self@.holders(c) <= usize::MAX,
    {
        assert forall|c: Seq<u8>| self@.holders(c) <= usize::MAX by {
            if self@.contains(c) {
                let entries = entries_at(self.buckets@, key_of(c));
                assert(entries[index_in(entries, c)].holders <= usize::MAX);
            }
        }
    }

    /// A pool that stores nothing.
    pub fn new() -> (pool: Pool)
        ensures
            pool.wf(),
            pool@ == PoolModel::empty(),
    {
        let pool = Pool { buckets: HashMap::new(), next_id: 0, count: 0 };
        assert(pool@.buffers =~= Map::empty());
        pool
    }

    /// The number of stored buffers.
    pub fn len(&self) -> (n: usize)
        requires
            self.wf(),
        ensures
            n == self@.len(),
    {
        self.count
    }

    /// Whether the pool stores nothing.
    pub fn is_empty(&self) -> (empty: bool)
        requires
            self.wf(),
        ensures
            empty == (self@.len() == 0),
    {
        self.count == 0
    }

    /// The entry that stores `content`, if there is one.
    fn lookup(&self, content: &[u8]) -> (found: Option<&Entry>)
        requires
            self.wf(),
        ensures
            match found {
                Some(entry) => self@.contains(content@) && self@.buffers[content@] == state_of(
                    *entry,
                ),
                None => !self@.contains(content@),
            },
    {
        let key = hash_key(content);
        match self.buckets.get(&key) {
            Some(bucket) => {
                proof {
                    lemma_bucket_model(bucket@, key);
                }
                match find(bucket, content) {
                    Some(i) => Some(&bucket[i]),
                    None => None,
                }
            },
            None => None,
        }
    }

    /// Whether a buffer is stored for `content`.
    pub fn contains(&self, content: &[u8]) -> (stored: bool)
        requires
            self.wf(),
        ensures
            stored == self@.contains(content@),
    {
        self.lookup(content).is_some()
    }

    /// The holder count of the buffer stored for `content`, the pool's own
    /// reference included; zero when there is none.
    pub fn holder_count(&self, content: &[u8]) -> (holders: usize)
        requires
            self.wf(),
        ensures
            holders == self@.holders(content@),
    {
        match self.lookup(content) {
            Some(entry) => entry.holders,
            None => 0,
        }
    }

    /// Whether the pool can answer a request for `content`.
    pub fn has_room(&self, content: &[u8]) -> (room: bool)
        requires
            self.wf(),
        ensures
            room == self.has_room_for(content@),
    {
        match self.lookup(content) {
            Some(entry) => entry.holders < usize::MAX,
            None => self.next_id < usize::MAX,
        }
    }

    /// Takes the bucket of `key` out of the pool.
    fn take_bucket(&mut self, key: u64) -> (bucket: Vec<Entry>)
        ensures
            bucket@ == entries_at(old(self).buckets@, key),
            final(self).buckets@ == old(self).buckets@.remove(key),
            final(self).next_id == old(self).next_id,
            final(self).count == old(self).count,
    {
        match self.buckets.remove(&key) {
            Some(bucket) => bucket,
            None => Vec::new(),
        }
    }

    /// Puts the bucket of `key` back, unless it is empty.
    fn put_bucket(&mut self, key: u64, bucket: Vec<Entry>)
        requires
            well_filed(old(self).buckets@),
            !old(self).buckets@.contains_key(key),
            filed(bucket@, key),
        ensures
            well_filed(final(self).buckets@),
            entries_at(final(self).buckets@, key) == bucket@,
            forall|other: u64|
                other != key ==> #[trigger] entries_at(final(self).buckets@, other) == entries_at(
                    old(self).buckets@,
                    other,
                ),
            final(self).next_id == old(self).next_id,
            final(self).count == old(self).count,
    {
        if bucket.len() > 0 {
            self.buckets.insert(key, bucket);
        }
    }

    /// The shared buffer for `content`. A stored buffer with these bytes is
    /// shared again and gains a holder. Otherwise the bytes are copied into
    /// a new buffer, which the pool stores; it is held by the pool and by
    /// the caller.
    pub fn get_or_insert(&mut self, content: &[u8]) -> (buffer: Rc<Buffer>)
        requires
            old(self).wf(),
            old(self).has_room_for(content@),
        ensures
            final(self).wf(),
            final(self)@ == old(self)@.interned(content@),
            buffer@ == content@,
            buffer.id() == old(self)@.id_for(content@),
    {
        let key = hash_key(content);
        let ghost before = self.buckets@;
        let mut bucket = self.take_bucket(key);
        let ghost taken = bucket@;
        proof {
            lemma_bucket_model(taken, key);
            crate::model::lemma_interned(old(self)@, content@);
        }
        let buffer = match find(&bucket, content) {
            Some(i) => {
                bucket[i].holders += 1;
                proof {
                    assert(bucket@ =~= taken.update(i as int, bucket@[i as int]));
                    lemma_update(taken, key, i as int, bucket@[i as int]);
                }
                share_allocation(&bucket[i].buffer)
            },
            None => {
                let bytes = slice_to_vec(content);
                let buffer = Rc::new(Buffer { id: self.next_id, key, bytes });
                let shared = share_allocation(&buffer);
                let entry = Entry { buffer, holders: 2 };
                proof {
                    lemma_push(taken, key, entry);
                }
                bucket.push(entry);
                self.next_id += 1;
                self.count += 1;
                shared
            },
        };
        let ghost state = BufferState {
            id: old(self)@.id_for(content@),
            holders: if old(self)@.contains(content@) {
                old(self)@.holders(content@) + 1
            } else {
                2
            },
        };
        assert(bucket_model(bucket@) == bucket_model(taken).insert(content@, state));
        self.put_bucket(key, bucket);
        proof {
            lemma_bucket_gained(before, self.buckets@, content@, state);
        }
        buffer
    }

    /// One more reference to `buffer`, for a holder that is duplicated.
    /// Where the pool stores the buffer, it gains a holder. Nothing is
    /// copied and no buffer is added.
    pub fn share(&mut self, buffer: &Rc<Buffer>) -> (shared: Rc<Buffer>)
        requires
            old(self).wf(),
            old(self)@.holds(buffer@, buffer.id()) ==> old(self)@.holders(buffer@) < usize::MAX,
        ensures
            final(self).wf(),
            final(self)@ == old(self)@.shared(buffer@, buffer.id()),
            shared == *buffer,
    {
        let key = buffer.key();
        let ghost before = self.buckets@;
        let mut bucket = self.take_bucket(key);
        let ghost taken = bucket@;
        proof {
            lemma_bucket_model(taken, key);
            crate::model::lemma_shared(old(self)@, buffer@, buffer.id());
        }
        let mut held = false;
        match find_buffer(&bucket, buffer) {
            Some(i) => {
                if bucket[i].buffer.id == buffer.id {
                    bucket[i].holders += 1;
                    held = true;
                    proof {
                        assert(bucket@ =~= taken.update(i as int, bucket@[i as int]));
                        lemma_update(taken, key, i as int, bucket@[i as int]);
                    }
                }
            },
            None => {},
        }
        assert(held == old(self)@.holds(buffer@, buffer.id()));
        self.put_bucket(key, bucket);
        proof {
            if held {
                let state = BufferState {
                    id: buffer.id(),
                    holders: old(self)@.holders(buffer@) + 1,
                };
                lemma_bucket_gained(before, self.buckets@, buffer@, state);
            } else {
                lemma_buckets_kept(before, self.buckets@);
            }
        }
        share_allocation(buffer)
    }

    /// Takes back the reference of a holder that goes away. Where the pool
    /// stores the buffer, it loses a holder, and the pool drops it once no
    /// handle is left.
    pub fn release(&mut self, buffer: Rc<Buffer>)
        requires
            old(self).wf(),
        ensures
            final(self).wf(),
            final(self)@ == old(self)@.released(buffer@, buffer.id()),
    {
        let key = buffer.key();
        let ghost before = self.buckets@;
        let mut bucket = self.take_bucket(key);
        let ghost taken = bucket@;
        proof {
            lemma_bucket_model(taken, key);
            crate::model::lemma_released(old(self)@, buffer@, buffer.id());
        }
        let mut held = false;
        let mut removed = false;
        match find_buffer(&bucket, &buffer) {
            Some(i) => {
                if bucket[i].buffer.id == buffer.id {
                    held = true;
                    bucket[i].holders -= 1;
                    let ghost lowered = bucket@;
                    proof {
                        assert(lowered =~= taken.update(i as int, lowered[i as int]));
                        lemma_update(taken, key, i as int, lowered[i as int]);
                    }
                    removed = Pool::remove_if_unreferenced(&mut bucket, i, Ghost(key));
                    if removed {
                        self.count -= 1;
                        assert(bucket_model(bucket@) =~= bucket_model(taken).remove(buffer@));
                    }
                }
            },
            None => {},
        }
        assert(held == old(self)@.holds(buffer@, buffer.id()));
        self.put_bucket(key, bucket);
        proof {
            if removed {
                lemma_bucket_lost(before, self.buckets@, buffer@);
            } else if held {
                let state = BufferState {
                    id: buffer.id(),
                    holders: (old(self)@.holders(buffer@) - 1) as nat,
                };
                lemma_bucket_gained(before, self.buckets@, buffer@, state);
            } else {
                lemma_buckets_kept(before, self.buckets@);
            }
        }
    }

    /// Drops the entry at `at` from its bucket if only the pool still holds
    /// its buffer, and tells whether it did. This is the one moment at which
    /// a stored buffer may be without a handle: right after its last handle
    /// gave its reference back.
    fn remove_if_unreferenced(
        bucket: &mut Vec<Entry>,
        at: usize,
        Ghost(key): Ghost<u64>,
    ) -> (removed: bool)
        requires
            filed(old(bucket)@, key),
            at < old(bucket)@.len(),
        ensures
            removed == (old(bucket)@[at as int].holders < 2),
            filed(final(bucket)@, key),
            bucket_model(final(bucket)@) == (if removed {
                bucket_model(old(bucket)@).remove(old(bucket)@[at as int].buffer@)
            } else {
                bucket_model(old(bucket)@)
            }),
    {
        if bucket[at].holders < 2 {
            proof {
                lemma_swap_remove(bucket@, key, at as int);
            }
            bucket.swap_remove(at);
            true
        } else {
            false
        }
    }
}

} // verus!
