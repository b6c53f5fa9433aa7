//! Interned byte strings.

use crate::bytes::bytes_eq;
use crate::handle::Handle;
use crate::order::lex_order;
use crate::pool::Pool;
use std::borrow::Borrow;
use std::cmp::Ordering;
use std::collections::hash_map::DefaultHasher;
use std::ops::Deref;
use std::ops::Index;
use vstd::prelude::*;
use vstd::std_specs::cmp::{PartialEqSpecImpl, PartialOrdSpecImpl};

verus! {

/// An interned byte string: an immutable `[u8]` of which a pool stores one
/// copy, however many values hold it.
#[derive(Debug)]
pub struct IBytes(Handle);

impl View for IBytes {
    type V = Seq<u8>;

    open spec fn view(&self) -> Seq<u8> {
        self.handle()@
    }
}

impl IBytes {
    /// The handle that holds the bytes.
    pub closed spec fn handle(&self) -> Handle {
        self.0
    }

    /// Interns `src`.
    pub fn new(pool: &mut Pool, src: &[u8]) -> (bytes: IBytes)
        requires
            old(pool).wf(),
            Handle::has_room(old(pool), src@),
        ensures
            final(pool).wf(),
            bytes@ == src@,
            bytes.handle().buffer_id() == Handle::buffer_for(old(pool)@, src@),
            final(pool)@ == Handle::pool_after_new(old(pool)@, src@),
    {
        IBytes(Handle::new(pool, src))
    }

    /// The bytes of `handle` as a byte string. The handle keeps its hold on
    /// its buffer.
    pub fn from_handle(handle: Handle) -> (bytes: IBytes)
        ensures
            bytes.handle() == handle,
    {
        IBytes(handle)
    }

    /// The bytes.
    pub fn as_bytes(&self) -> (bytes: &[u8])
        ensures
            bytes@ == self@,
    {
        self.0.as_bytes()
    }

    /// The handle that holds the bytes, with its hold on the buffer.
    pub fn into_handle(self) -> (handle: Handle)
        ensures
            handle == self.handle(),
    {
        self.0
    }

    /// The handle that holds the bytes.
    pub fn as_handle(&self) -> (handle: &Handle)
        ensures
            *handle == self.handle(),
    {
        &self.0
    }

    /// A second value of the same bytes, which shares their buffer.
    pub fn share(&self, pool: &mut Pool) -> (bytes: IBytes)
        requires
            old(pool).wf(),
            self.handle().can_share(old(pool)),
        ensures
            final(pool).wf(),
            bytes@ == self@,
            bytes.handle().buffer_id() == self.handle().buffer_id(),
            final(pool)@ == self.handle().pool_after_share(old(pool)@),
    {
        IBytes(self.0.share(pool))
    }

    /// Gives the value up, and with it its hold on the buffer.
    pub fn release(self, pool: &mut Pool)
        requires
            old(pool).wf(),
        ensures
            final(pool).wf(),
            final(pool)@ == self.handle().pool_after_release(old(pool)@),
    {
        self.0.release(pool)
    }

    /// Feeds the bytes to `state`, as one write.
    pub fn hash(&self, state: &mut DefaultHasher)
        ensures
            final(state)@ == self.handle().hashed(old(state)@),
    {
        self.0.hash(state)
    }
}

impl PartialEq for IBytes {
    fn eq(&self, other: &IBytes) -> (equal: bool) {
        self.0 == other.0
    }
}

impl PartialEqSpecImpl for IBytes {
    open spec fn obeys_eq_spec() -> bool {
        true
    }

    open spec fn eq_spec(&self, other: &IBytes) -> bool {
        self@ == other@
    }
}

impl Eq for IBytes {

}

impl PartialOrd for IBytes {
    fn partial_cmp(&self, other: &IBytes) -> (order: Option<Ordering>) {
        self.0.partial_cmp(&other.0)
    }
}

impl PartialOrdSpecImpl for IBytes {
    open spec fn obeys_partial_cmp_spec() -> bool {
        true
    }

    open spec fn partial_cmp_spec(&self, other: &IBytes) -> Option<Ordering> {
        Some(lex_order(self@, other@))
    }
}

impl Default for IBytes {
    /// The empty byte string.
    fn default() -> (bytes: IBytes)
        ensures
            bytes@ == Seq::<u8>::empty(),
            bytes.handle().is_inline(),
    {
        IBytes(Handle::default())
    }
}

impl PartialEq<[u8]> for IBytes {
    fn eq(&self, other: &[u8]) -> (equal: bool) {
        bytes_eq(self.as_bytes(), other)
    }
}

impl PartialEqSpecImpl<[u8]> for IBytes {
    open spec fn obeys_eq_spec() -> bool {
        true
    }

    open spec fn eq_spec(&self, other: &[u8]) -> bool {
        self@ == other@
    }
}

impl<'a> PartialEq<&'a [u8]> for IBytes {
    fn eq(&self, other: &&'a [u8]) -> (equal: bool) {
        bytes_eq(self.as_bytes(), *other)
    }
}

impl<'a> PartialEqSpecImpl<&'a [u8]> for IBytes {
    open spec fn obeys_eq_spec() -> bool {
        true
    }

    open spec fn eq_spec(&self, other: &&'a [u8]) -> bool {
        self@ == other@
    }
}

impl PartialEq<Vec<u8>> for IBytes {
    fn eq(&self, other: &Vec<u8>) -> (equal: bool) {
        bytes_eq(self.as_bytes(), other.as_slice())
    }
}

impl PartialEqSpecImpl<Vec<u8>> for IBytes {
    open spec fn obeys_eq_spec() -> bool {
        true
    }

    open spec fn eq_spec(&self, other: &Vec<u8>) -> bool {
        self@ == other@
    }
}

impl Deref for IBytes {
    type Target = [u8];

    fn deref(&self) -> (bytes: &[u8])
        ensures
            bytes@ == self@,
    {
        self.as_bytes()
    }
}

impl AsRef<[u8]> for IBytes {
    fn as_ref(&self) -> (bytes: &[u8])
        ensures
            bytes@ == self@,
    {
        self.as_bytes()
    }
}

impl Borrow<[u8]> for IBytes {
    fn borrow(&self) -> (bytes: &[u8])
        ensures
            ({
                let bytes: &[u8] = bytes;
                bytes@ == self@
            }),
    {
        self.as_bytes()
    }
}

impl Index<std::ops::Range<usize>> for IBytes {
    type Output = [u8];

    /// The bytes from `index.start` up to `index.end`.
    fn index(&self, index: std::ops::Range<usize>) -> (bytes: &[u8])
        ensures
            bytes@ == self@.subrange(index.start as int, index.end as int),
    {
        let all = self.as_bytes();
        &all[index.start..index.end]
    }
}

impl vstd::std_specs::core::IndexSpecImpl<std::ops::Range<usize>> for IBytes {
    open spec fn index_req(&self, index: &std::ops::Range<usize>) -> bool {
        index.start <= index.end <= self@.len()
    }
}

impl Index<std::ops::RangeFrom<usize>> for IBytes {
    type Output = [u8];

    /// The bytes from `index.start` on.
    fn index(&self, index: std::ops::RangeFrom<usize>) -> (bytes: &[u8])
        ensures
            bytes@ == self@.subrange(index.start as int, self@.len() as int),
    {
        let all = self.as_bytes();
        &all[index.start..all.len()]
    }
}

impl vstd::std_specs::core::IndexSpecImpl<std::ops::RangeFrom<usize>> for IBytes {
    open spec fn index_req(&self, index: &std::ops::RangeFrom<usize>) -> bool {
        index.start <= self@.len()
    }
}

impl Index<std::ops::RangeTo<usize>> for IBytes {
    type Output = [u8];

    /// The bytes up to `index.end`.
    fn index(&self, index: std::ops::RangeTo<usize>) -> (bytes: &[u8])
        ensures
            bytes@ == self@.subrange(0, index.end as int),
    {
        let all = self.as_bytes();
        &all[0..index.end]
    }
}

impl vstd::std_specs::core::IndexSpecImpl<std::ops::RangeTo<usize>> for IBytes {
    open spec fn index_req(&self, index: &std::ops::RangeTo<usize>) -> bool {
        index.end <= self@.len()
    }
}

impl Index<std::ops::RangeFull> for IBytes {
    type Output = [u8];

    /// All the bytes.
    fn index(&self, index: std::ops::RangeFull) -> (bytes: &[u8])
        ensures
            bytes@ == self@,
    {
        self.as_bytes()
    }
}

impl vstd::std_specs::core::IndexSpecImpl<std::ops::RangeFull> for IBytes {
    open spec fn index_req(&self, index: &std::ops::RangeFull) -> bool {
        true
    }
}

} // verus!
