//! The handle: an immutable byte string that is either stored inside the
//! handle itself or shared through a pool.

use crate::bytes::bytes_eq;
use crate::model::PoolModel;
use crate::order::{compare, lex_order};
use crate::pool::{hash_key, key_of, same_allocation, Buffer, Pool};
use std::cmp::Ordering;
use std::collections::hash_map::DefaultHasher;
use std::hash::Hasher;
use std::rc::Rc;
use vstd::prelude::*;
use vstd::std_specs::cmp::{PartialEqSpec, PartialOrdSpec};
use vstd::std_specs::hash::DefaultHasherAdditionalSpecFns;

verus! {

/// The longest content that a handle stores in itself. Longer content is
/// pooled, shorter content never is: no content has both forms.
pub const INLINE_LIMIT: usize = 15;

#[derive(Debug)]
enum Repr {
    Inline { len: u8, bytes: [u8; INLINE_LIMIT] },
    Pooled { buffer: Rc<Buffer> },
}

/// An immutable byte string. Content of up to [`INLINE_LIMIT`] bytes lives
/// in the handle; longer content lives in a buffer that the handle shares
/// with its pool and with every other handle of the same content.
///
/// A pooled handle counts as one holder of its buffer from [`Handle::new`]
/// or [`Handle::share`] until [`Handle::release`].
#[derive(Debug)]
pub struct Handle {
    repr: Repr,
}

impl View for Handle {
    type V = Seq<u8>;

    closed spec fn view(&self) -> Seq<u8> {
        match self.repr {
            Repr::Inline { len, bytes } => bytes@.subrange(0, len as int),
            Repr::Pooled { buffer } => buffer@,
        }
    }
}

impl Handle {
    #[verifier::type_invariant]
    spec fn fits(self) -> bool {
        match self.repr {
            Repr::Inline { len, bytes } => len <= INLINE_LIMIT,
            Repr::Pooled { buffer } => buffer@.len() > INLINE_LIMIT,
        }
    }

    /// The identity of the buffer that the handle shares; none for content
    /// stored in the handle.
    pub closed spec fn buffer_id(&self) -> Option<nat> {
        match self.repr {
            Repr::Inline { len, bytes } => None,
            Repr::Pooled { buffer } => Some(buffer.id()),
        }
    }

    /// Whether the content is stored in the handle.
    pub open spec fn is_inline(&self) -> bool {
        self.buffer_id() is None
    }

    /// Whether the content is stored in a shared buffer.
    pub open spec fn is_pooled(&self) -> bool {
        self.buffer_id() is Some
    }

    /// Whether `pool` can take a handle for `content`: content that is
    /// pooled needs room in the pool.
    pub open spec fn has_room(pool: &Pool, content: Seq<u8>) -> bool {
        content.len() > INLINE_LIMIT ==> pool.has_room_for(content)
    }

    /// The buffer of a handle that is made for `content` in `pool`: none for
    /// short content, and for long content the buffer that the pool answers
    /// with.
    pub open spec fn buffer_for(pool: PoolModel, content: Seq<u8>) -> Option<nat> {
        if content.len() <= INLINE_LIMIT {
            None
        } else {
            Some(pool.id_for(content))
        }
    }

    /// The pool after a handle for `content` was made: short content leaves
    /// it alone, long content is requested from it.
    pub open spec fn pool_after_new(pool: PoolModel, content: Seq<u8>) -> PoolModel {
        if content.len() <= INLINE_LIMIT {
            pool
        } else {
            pool.interned(content)
        }
    }

    /// Whether `pool` can take a second handle like this one.
    pub open spec fn can_share(&self, pool: &Pool) -> bool {
        self.is_pooled() && pool@.holds(self@, self.buffer_id().unwrap()) ==> pool@.holders(self@)
            < usize::MAX
    }

    /// The pool after this handle was duplicated.
    pub open spec fn pool_after_share(&self, pool: PoolModel) -> PoolModel {
        match self.buffer_id() {
            Some(id) => pool.shared(self@, id),
            None => pool,
        }
    }

    /// The pool after this handle was given up.
    pub open spec fn pool_after_release(&self, pool: PoolModel) -> PoolModel {
        match self.buffer_id() {
            Some(id) => pool.released(self@, id),
            None => pool,
        }
    }

    /// The state of a hasher in state `state` after [`Handle::hash`]: the
    /// content is the one thing written.
    pub open spec fn hashed(&self, state: Seq<Seq<u8>>) -> Seq<Seq<u8>> {
        state.push(self@)
    }

    /// A handle for `content`. Content within [`INLINE_LIMIT`] is copied
    /// into the handle and the pool is not touched. Longer content is
    /// requested from the pool, which answers with the one buffer that it
    /// stores for it.
    pub fn new(pool: &mut Pool, content: &[u8]) -> (handle: Handle)
        requires
            old(pool).wf(),
            Handle::has_room(old(pool), content@),
        ensures
            final(pool).wf(),
            handle@ == content@,
            handle.buffer_id() == Handle::buffer_for(old(pool)@, content@),
            final(pool)@ == Handle::pool_after_new(old(pool)@, content@),
    {
        if content.len() <= INLINE_LIMIT {
            Handle::inline(content)
        } else {
            Handle { repr: Repr::Pooled { buffer: pool.get_or_insert(content) } }
        }
    }

    /// A handle that stores `content` in itself.
    pub(crate) fn inline(content: &[u8]) -> (handle: Handle)
        requires
            content@.len() <= INLINE_LIMIT,
        ensures
            handle@ == content@,
            handle.is_inline(),
    {
        let mut bytes = [0u8;INLINE_LIMIT];
        let mut i: usize = 0;
        while i < content.len()
            invariant
                i <= content@.len() <= INLINE_LIMIT,
                forall|j: int| 0 <= j < i ==> bytes@[j] == content@[j],
            decreases content@.len() - i,
        {
            bytes[i] = content[i];
            i += 1;
        }
        let handle = Handle { repr: Repr::Inline { len: content.len() as u8, bytes } };
        assert(handle@ =~= content@);
        handle
    }

    /// The content.
    pub fn as_bytes(&self) -> (bytes: &[u8])
        ensures
            bytes@ == self@,
    {
        proof {
            use_type_invariant(self);
        }
        match &self.repr {
            Repr::Inline { len, bytes } => {
                let n = *len as usize;
                &bytes.as_slice()[0..n]
            },
            Repr::Pooled { buffer } => buffer.as_bytes(),
        }
    }

    /// The number of bytes of the content.
    pub fn len(&self) -> (n: usize)
        ensures
            n == self@.len(),
    {
        self.as_bytes().len()
    }

    /// Whether the content has no bytes.
    pub fn is_empty(&self) -> (empty: bool)
        ensures
            empty == (self@.len() == 0),
    {
        self.len() == 0
    }

    /// Whether the content is stored in a shared buffer: it is exactly when
    /// it is longer than [`INLINE_LIMIT`].
    pub fn pooled(&self) -> (pooled: bool)
        ensures
            pooled == self.is_pooled(),
            pooled == (self@.len() > INLINE_LIMIT),
    {
        proof {
            use_type_invariant(self);
        }
        match &self.repr {
            Repr::Inline { len, bytes } => false,
            Repr::Pooled { buffer } => true,
        }
    }

    /// The identity of the buffer that the handle shares; none for content
    /// stored in the handle.
    pub fn buffer_number(&self) -> (id: Option<usize>)
        ensures
            match id {
                Some(id) => self.buffer_id() == Some(id as nat),
                None => self.buffer_id() is None,
            },
    {
        match &self.repr {
            Repr::Inline { len, bytes } => None,
            Repr::Pooled { buffer } => Some(buffer.id_number()),
        }
    }

    /// Whether `pool` can take a handle for `content`.
    pub fn room_for(pool: &Pool, content: &[u8]) -> (room: bool)
        requires
            pool.wf(),
        ensures
            room == Handle::has_room(pool, content@),
    {
        content.len() <= INLINE_LIMIT || pool.has_room(content)
    }

    /// Whether `pool` can take a second handle like this one.
    pub fn shareable(&self, pool: &Pool) -> (room: bool)
        requires
            pool.wf(),
        ensures
            room ==> self.can_share(pool),
            room == (self.is_pooled() ==> pool@.holders(self@) < usize::MAX),
    {
        match &self.repr {
            Repr::Inline { len, bytes } => true,
            Repr::Pooled { buffer } => pool.holder_count(buffer.as_bytes()) < usize::MAX,
        }
    }

    /// A second handle of the same content. Inline content is copied. A
    /// pooled handle shares its buffer once more, so that the buffer gains a
    /// holder: no content is copied and no buffer is made.
    pub fn share(&self, pool: &mut Pool) -> (handle: Handle)
        requires
            old(pool).wf(),
            self.can_share(old(pool)),
        ensures
            final(pool).wf(),
            handle@ == self@,
            handle.buffer_id() == self.buffer_id(),
            final(pool)@ == self.pool_after_share(old(pool)@),
    {
        proof {
            use_type_invariant(self);
        }
        match &self.repr {
            Repr::Inline { len, bytes } => Handle {
                repr: Repr::Inline { len: *len, bytes: *bytes },
            },
            Repr::Pooled { buffer } => Handle { repr: Repr::Pooled { buffer: pool.share(buffer) } },
        }
    }

    /// Gives the handle up. A pooled handle stops holding its buffer, and
    /// the pool drops the buffer when this was its last handle.
    pub fn release(self, pool: &mut Pool)
        requires
            old(pool).wf(),
        ensures
            final(pool).wf(),
            final(pool)@ == self.pool_after_release(old(pool)@),
    {
        match self.repr {
            Repr::Inline { len, bytes } => {},
            Repr::Pooled { buffer } => pool.release(buffer),
        }
    }

    /// Whether both handles share one buffer. Handles that do are pooled
    /// and have the same content; handles of equal content that do not are
    /// inline, or belong to different pools.
    pub fn same_buffer(&self, other: &Handle) -> (same: bool)
        ensures
            same ==> self@ == other@ && self.buffer_id() == other.buffer_id(),
            same ==> self.is_pooled() && other.is_pooled(),
    {
        match (&self.repr, &other.repr) {
            (Repr::Pooled { buffer: a }, Repr::Pooled { buffer: b }) => same_allocation(a, b),
            _ => false,
        }
    }

    /// The key of the content: a hash of its bytes, the same for equal
    /// contents. A pooled handle has it from its buffer and does not read
    /// the bytes again.
    pub fn key(&self) -> (key: u64)
        ensures
            key == key_of(self@),
    {
        match &self.repr {
            Repr::Inline { len, bytes } => hash_key(self.as_bytes()),
            Repr::Pooled { buffer } => buffer.key(),
        }
    }

    /// Feeds the content to `state`, as one write. Handles of equal content
    /// leave equal hashers in equal states, whether inline or pooled.
    pub fn hash(&self, state: &mut DefaultHasher)
        ensures
            final(state)@ == self.hashed(old(state)@),
    {
        state.write(self.as_bytes());
    }

    /// How the content stands to the content of `other` in lexicographic
    /// order.
    pub fn cmp(&self, other: &Handle) -> (order: Ordering)
        ensures
            order == lex_order(self@, other@),
    {
        if self.same_buffer(other) {
            Ordering::Equal
        } else {
            compare(self.as_bytes(), other.as_bytes())
        }
    }
}

impl PartialEq for Handle {
    /// Handles are equal when their contents are. Two handles of one buffer
    /// are found equal without a look at the bytes.
    fn eq(&self, other: &Handle) -> (equal: bool) {
        self.same_buffer(other) || bytes_eq(self.as_bytes(), other.as_bytes())
    }
}

impl vstd::std_specs::cmp::PartialEqSpecImpl for Handle {
    open spec fn obeys_eq_spec() -> bool {
        true
    }

    open spec fn eq_spec(&self, other: &Handle) -> bool {
        self@ == other@
    }
}

impl Eq for Handle {

}

impl PartialOrd for Handle {
    /// Handles are ordered as their contents are, byte by byte.
    fn partial_cmp(&self, other: &Handle) -> (order: Option<Ordering>) {
        Some(self.cmp(other))
    }
}

impl vstd::std_specs::cmp::PartialOrdSpecImpl for Handle {
    open spec fn obeys_partial_cmp_spec() -> bool {
        true
    }

    open spec fn partial_cmp_spec(&self, other: &Handle) -> Option<Ordering> {
        Some(lex_order(self@, other@))
    }
}

impl Default for Handle {
    /// The handle of the empty content, which is inline.
    fn default() -> (handle: Handle)
        ensures
            handle@ == Seq::<u8>::empty(),
            handle.is_inline(),
    {
        let handle = Handle { repr: Repr::Inline { len: 0, bytes: [0u8;INLINE_LIMIT] } };
        assert(handle@ =~= Seq::<u8>::empty());
        handle
    }
}

/// The threshold parts the two forms. Content within [`INLINE_LIMIT`] never
/// touches the pool; longer content always does: the pool then stores a
/// buffer for it, and differs from the pool before.
pub proof fn lemma_threshold(pool: PoolModel, content: Seq<u8>)
    ensures
        content.len() <= INLINE_LIMIT ==> Handle::pool_after_new(pool, content) == pool,
        content.len() > INLINE_LIMIT ==> Handle::pool_after_new(pool, content) != pool
            && Handle::pool_after_new(pool, content).contains(content),
{
    if content.len() > INLINE_LIMIT {
        let after = pool.interned(content);
        assert(after.buffers.contains_key(content));
        if pool.contains(content) {
            assert(after.buffers[content].holders != pool.buffers[content].holders);
        }
    }
}

/// Handles of one pooled content share one buffer. While the pool stores
/// the buffer of a handle, a handle that is made for the same content, and
/// so has the buffer that the pool answers with, has that same buffer.
pub proof fn lemma_one_buffer(pool: PoolModel, first: Handle, second: Handle)
    requires
        pool.wf(),
        first@.len() > INLINE_LIMIT,
        first.is_pooled(),
        pool.holds(first@, first.buffer_id().unwrap()),
        second@ == first@,
        second.buffer_id() == Handle::buffer_for(pool, second@),
    ensures
        second.buffer_id() == first.buffer_id(),
        Handle::pool_after_new(pool, second@).len() == pool.len(),
{
    crate::model::lemma_one_buffer_per_content(pool, first@, first.buffer_id().unwrap());
}

/// Handles are equal exactly when their contents are, whatever their forms.
pub proof fn lemma_equal_handles(a: Handle, b: Handle, x: Seq<u8>, y: Seq<u8>)
    requires
        a@ == x,
        b@ == y,
    ensures
        a.eq_spec(&b) <==> x == y,
        a.eq_spec(&b) <==> a.partial_cmp_spec(&b) == Some(Ordering::Equal),
{
    crate::bytes::lemma_trichotomy(x, y);
}

/// Equal handles hash alike: they have the same key, and they leave a
/// hasher in the same state, which gives the same hash.
pub proof fn lemma_equal_handles_hash_alike(a: Handle, b: Handle, state: Seq<Seq<u8>>)
    requires
        a.eq_spec(&b),
    ensures
        key_of(a@) == key_of(b@),
        a.hashed(state) == b.hashed(state),
        DefaultHasher::spec_finish(a.hashed(state)) == DefaultHasher::spec_finish(
            b.hashed(state),
        ),
{
}

/// A handle gives back the content it was made from: whatever
/// [`Handle::as_bytes`] returns for a handle of `content` is `content`.
pub proof fn lemma_round_trip(handle: Handle, content: Seq<u8>, bytes: &[u8])
    requires
        handle@ == content,
        call_ensures(Handle::as_bytes, (&handle,), bytes),
    ensures
        bytes@ == content,
{
}

} // verus!
