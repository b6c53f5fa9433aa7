//! The pool as a mathematical object.
//!
//! A pool maps each stored content to the one shared buffer that holds it.
//! Of a buffer the model records its identity and its holder count: the
//! pool's own reference plus one for every handle that shares the buffer.
//! The executable pool refines this model; the theorems at the end of this
//! file are what the model guarantees to every user of a pool.

use vstd::prelude::*;

verus! {

/// What a pool records of one shared buffer.
pub struct BufferState {
    /// The identity of the buffer. No two buffers of one pool share it, not
    /// even a buffer and one that was evicted before.
    pub id: nat,
    /// How many references the buffer has, the pool's own included.
    pub holders: nat,
}

/// The state of a pool.
pub struct PoolModel {
    /// The buffer stored for each content.
    pub buffers: Map<Seq<u8>, BufferState>,
    /// The identity that the next new buffer gets.
    pub next_id: nat,
}

impl PoolModel {
    /// The pool that stores nothing.
    pub open spec fn empty() -> PoolModel {
        PoolModel { buffers: Map::empty(), next_id: 0 }
    }

    /// A stored buffer is held by the pool and by at least one handle, its
    /// identity was handed out before, and no other content shares it.
    pub open spec fn wf(self) -> bool {
        &&& self.buffers.dom().finite()
        &&& forall|c: Seq<u8>| #[trigger]
            self.buffers.contains_key(c) ==> self.buffers[c].holders >= 2 && self.buffers[c].id
                < self.next_id
        &&& forall|c: Seq<u8>, d: Seq<u8>|
            #![trigger self.buffers[c], self.buffers[d]]
            self.buffers.contains_key(c) && self.buffers.contains_key(d) && self.buffers[c].id
                == self.buffers[d].id ==> c == d
    }

    /// The number of stored buffers.
    pub open spec fn len(self) -> nat {
        self.buffers.dom().len()
    }

    /// Whether a buffer is stored for `content`.
    pub open spec fn contains(self, content: Seq<u8>) -> bool {
        self.buffers.contains_key(content)
    }

    /// The holder count of the buffer stored for `content`; zero when there
    /// is none.
    pub open spec fn holders(self, content: Seq<u8>) -> nat {
        if self.contains(content) {
            self.buffers[content].holders
        } else {
            0
        }
    }

    /// Whether the buffer stored for `content` is the one named `id`.
    pub open spec fn holds(self, content: Seq<u8>, id: nat) -> bool {
        self.contains(content) && self.buffers[content].id == id
    }

    /// The identity of the buffer that a request for `content` is answered
    /// with: the stored buffer's, or a new one.
    pub open spec fn id_for(self, content: Seq<u8>) -> nat {
        if self.contains(content) {
            self.buffers[content].id
        } else {
            self.next_id
        }
    }

    /// The pool with the holder count of `content`'s buffer changed.
    pub open spec fn with_holders(self, content: Seq<u8>, holders: nat) -> PoolModel {
        PoolModel {
            buffers: self.buffers.insert(
                content,
                BufferState { id: self.buffers[content].id, holders },
            ),
            next_id: self.next_id,
        }
    }

    /// The pool after a request for `content`: a stored buffer gains a
    /// holder; otherwise a new buffer is stored, held by the pool and by the
    /// one who asked.
    pub open spec fn interned(self, content: Seq<u8>) -> PoolModel {
        if self.contains(content) {
            self.with_holders(content, self.buffers[content].holders + 1)
        } else {
            PoolModel {
                buffers: self.buffers.insert(content, BufferState { id: self.next_id, holders: 2 }),
                next_id: self.next_id + 1,
            }
        }
    }

    /// The pool after a holder of buffer `id` with `content` was duplicated.
    /// A buffer that the pool does not store leaves it unchanged.
    pub open spec fn shared(self, content: Seq<u8>, id: nat) -> PoolModel {
        if self.holds(content, id) {
            self.with_holders(content, self.buffers[content].holders + 1)
        } else {
            self
        }
    }

    /// The pool after a holder of buffer `id` with `content` went away. The
    /// buffer loses a holder, and leaves the pool with its last handle. A
    /// buffer that the pool does not store leaves it unchanged.
    pub open spec fn released(self, content: Seq<u8>, id: nat) -> PoolModel {
        if self.holds(content, id) {
            if self.buffers[content].holders > 2 {
                self.with_holders(content, (self.buffers[content].holders - 1) as nat)
            } else {
                PoolModel { buffers: self.buffers.remove(content), next_id: self.next_id }
            }
        } else {
            self
        }
    }

    /// The pool after `n` holders of buffer `id` with `content` went away,
    /// one after the other.
    pub open spec fn released_times(self, content: Seq<u8>, id: nat, n: nat) -> PoolModel
        decreases n,
    {
        if n == 0 {
            self
        } else {
            self.released(content, id).released_times(content, id, (n - 1) as nat)
        }
    }
}

/// What can happen to a pool.
pub enum PoolOp {
    /// A request for a content.
    Intern { content: Seq<u8> },
    /// A holder of the buffer `id` with `content` is duplicated.
    Share { content: Seq<u8>, id: nat },
    /// A holder of the buffer `id` with `content` goes away.
    Release { content: Seq<u8>, id: nat },
}

impl PoolModel {
    /// The pool after `op`.
    pub open spec fn step(self, op: PoolOp) -> PoolModel {
        match op {
            PoolOp::Intern { content } => self.interned(content),
            PoolOp::Share { content, id } => self.shared(content, id),
            PoolOp::Release { content, id } => self.released(content, id),
        }
    }

    /// The pool after `ops`, one after the other.
    pub open spec fn run(self, ops: Seq<PoolOp>) -> PoolModel
        decreases ops.len(),
    {
        if ops.len() == 0 {
            self
        } else {
            self.step(ops[0]).run(ops.drop_first())
        }
    }
}

/// The empty pool is well formed and stores nothing.
pub proof fn lemma_empty_pool()
    ensures
        PoolModel::empty().wf(),
        PoolModel::empty().len() == 0,
        forall|c: Seq<u8>| !PoolModel::empty().contains(c),
{
}

/// A request keeps the pool well formed, is answered with a buffer that the
/// pool then stores for the content, and leaves every other content as it
/// was.
pub proof fn lemma_interned(m: PoolModel, x: Seq<u8>)
    requires
        m.wf(),
    ensures
        m.interned(x).wf(),
        m.interned(x).holds(x, m.id_for(x)),
        m.interned(x).holders(x) == (if m.contains(x) {
            m.holders(x) + 1
        } else {
            2
        }),
        m.interned(x).len() == (if m.contains(x) {
            m.len()
        } else {
            m.len() + 1
        }),
        forall|c: Seq<u8>|
            c != x ==> m.interned(x).contains(c) == m.contains(c) && m.interned(x).holders(c)
                == m.holders(c) && m.interned(x).id_for(c) == (if m.contains(c) {
                m.id_for(c)
            } else {
                m.interned(x).next_id
            }),
{
    let after = m.interned(x);
    if m.contains(x) {
        assert(after.buffers.dom() =~= m.buffers.dom());
    }
    assert forall|c: Seq<u8>, d: Seq<u8>|
        after.buffers.contains_key(c) && after.buffers.contains_key(d) && after.buffers[c].id
            == after.buffers[d].id implies c == d by {
        if c != x && d != x {
            assert(m.buffers.contains_key(c) && m.buffers.contains_key(d));
        } else if c != x {
            assert(m.buffers.contains_key(c));
        } else if d != x {
            assert(m.buffers.contains_key(d));
        }
    }
}

/// Duplicating a holder keeps the pool well formed. Where the pool stores
/// the buffer, it gains one holder and nothing else changes: no buffer is
/// added, and the content keeps its buffer.
pub proof fn lemma_shared(m: PoolModel, x: Seq<u8>, id: nat)
    requires
        m.wf(),
    ensures
        m.shared(x, id).wf(),
        m.shared(x, id).len() == m.len(),
        m.shared(x, id).next_id == m.next_id,
        m.shared(x, id).buffers.dom() == m.buffers.dom(),
        m.holds(x, id) ==> m.shared(x, id).holds(x, id) && m.shared(x, id).holders(x)
            == m.holders(x) + 1,
        !m.holds(x, id) ==> m.shared(x, id) == m,
        forall|c: Seq<u8>|
            c != x ==> m.shared(x, id).holders(c) == m.holders(c) && m.shared(x, id).id_for(c)
                == m.id_for(c),
{
    let after = m.shared(x, id);
    assert(after.buffers.dom() =~= m.buffers.dom());
    assert forall|c: Seq<u8>, d: Seq<u8>|
        after.buffers.contains_key(c) && after.buffers.contains_key(d) && after.buffers[c].id
            == after.buffers[d].id implies c == d by {
        assert(m.buffers.contains_key(c) && m.buffers.contains_key(d));
        assert(after.buffers[c].id == m.buffers[c].id);
        assert(after.buffers[d].id == m.buffers[d].id);
    }
}

/// Releasing a holder keeps the pool well formed. Where the pool stores the
/// buffer, it loses one holder while another handle remains, and leaves the
/// pool when the last handle goes. Every other content stays as it was.
pub proof fn lemma_released(m: PoolModel, x: Seq<u8>, id: nat)
    requires
        m.wf(),
    ensures
        m.released(x, id).wf(),
        m.released(x, id).next_id == m.next_id,
        m.holds(x, id) && m.holders(x) > 2 ==> m.released(x, id).holds(x, id) && m.released(
            x,
            id,
        ).holders(x) == m.holders(x) - 1 && m.released(x, id).len() == m.len(),
        m.holds(x, id) && m.holders(x) == 2 ==> !m.released(x, id).contains(x) && m.released(
            x,
            id,
        ).len() == m.len() - 1,
        !m.holds(x, id) ==> m.released(x, id) == m,
        forall|c: Seq<u8>|
            c != x ==> m.released(x, id).contains(c) == m.contains(c) && m.released(
                x,
                id,
            ).holders(c) == m.holders(c) && m.released(x, id).id_for(c) == m.id_for(c),
{
    let after = m.released(x, id);
    if m.holds(x, id) {
        assert(m.buffers.contains_key(x));
        if m.buffers[x].holders > 2 {
            assert(after.buffers.dom() =~= m.buffers.dom());
        }
    }
    assert forall|c: Seq<u8>, d: Seq<u8>|
        after.buffers.contains_key(c) && after.buffers.contains_key(d) && after.buffers[c].id
            == after.buffers[d].id implies c == d by {
        assert(m.buffers.contains_key(c) && m.buffers.contains_key(d));
        assert(after.buffers[c].id == m.buffers[c].id);
        assert(after.buffers[d].id == m.buffers[d].id);
    }
}

/// One buffer per content. While the pool stores a buffer for a content,
/// every request for that content is answered with this buffer: the pool
/// adds none, and the buffer gains a holder.
pub proof fn lemma_one_buffer_per_content(m: PoolModel, x: Seq<u8>, id: nat)
    requires
        m.wf(),
        m.holds(x, id),
    ensures
        m.id_for(x) == id,
        m.interned(x).holds(x, id),
        m.interned(x).len() == m.len(),
        m.interned(x).holders(x) == m.holders(x) + 1,
        m.interned(x).next_id == m.next_id,
{
    lemma_interned(m, x);
}

/// Two requests for one content, the second made while the answer to the
/// first is still held, are answered with the same buffer, which then has
/// one holder more.
pub proof fn lemma_two_requests_share(m: PoolModel, x: Seq<u8>)
    requires
        m.wf(),
    ensures
        m.interned(x).id_for(x) == m.id_for(x),
        m.interned(x).interned(x).len() == m.interned(x).len(),
        m.interned(x).interned(x).holders(x) == m.interned(x).holders(x) + 1,
        m.interned(x).interned(x).holders(x) >= 3,
{
    lemma_interned(m, x);
    lemma_interned(m.interned(x), x);
}

/// A stored buffer stays the buffer of its content whatever is requested
/// or duplicated, and whatever is released but its own last handle.
pub proof fn lemma_buffer_stays(m: PoolModel, x: Seq<u8>, id: nat, y: Seq<u8>, other: nat)
    requires
        m.wf(),
        m.holds(x, id),
    ensures
        m.interned(y).holds(x, id),
        m.shared(y, other).holds(x, id),
        !(y == x && other == id && m.holders(x) == 2) ==> m.released(y, other).holds(x, id),
{
    lemma_interned(m, y);
    lemma_shared(m, y, other);
    lemma_released(m, y, other);
}

/// Releasing holders of a stored buffer one after the other lowers its
/// holder count by one each time while a handle remains. With the last
/// handle the buffer leaves the pool, which stays without it however many
/// more releases follow.
pub proof fn lemma_released_times(m: PoolModel, x: Seq<u8>, id: nat, n: nat)
    requires
        m.wf(),
        m.holds(x, id),
    ensures
        m.released_times(x, id, n).wf(),
        m.released_times(x, id, n).next_id == m.next_id,
        n + 1 < m.holders(x) ==> m.released_times(x, id, n).holds(x, id) && m.released_times(
            x,
            id,
            n,
        ).holders(x) == m.holders(x) - n && m.released_times(x, id, n).len() == m.len(),
        n + 1 >= m.holders(x) ==> !m.released_times(x, id, n).contains(x) && m.released_times(
            x,
            id,
            n,
        ).len() == m.len() - 1,
        forall|c: Seq<u8>|
            c != x ==> m.released_times(x, id, n).contains(c) == m.contains(c)
                && m.released_times(x, id, n).holders(c) == m.holders(c) && m.released_times(
                x,
                id,
                n,
            ).id_for(c) == m.id_for(c),
    decreases n,
{
    if n > 0 {
        let next = m.released(x, id);
        lemma_released(m, x, id);
        if next.holds(x, id) {
            lemma_released_times(next, x, id, (n - 1) as nat);
        } else {
            lemma_released_unheld(next, x, id, (n - 1) as nat);
        }
    }
}

/// Releases of a buffer that the pool does not store change nothing.
pub proof fn lemma_released_unheld(m: PoolModel, x: Seq<u8>, id: nat, n: nat)
    requires
        !m.holds(x, id),
    ensures
        m.released_times(x, id, n) == m,
    decreases n,
{
    if n > 0 {
        lemma_released_unheld(m, x, id, (n - 1) as nat);
    }
}

/// Cleanup by holder count. Once every handle of a stored buffer was
/// released, the pool stores nothing for its content, and the next request
/// for the content is answered with a new buffer, unlike any that was
/// stored before.
pub proof fn lemma_cleanup(m: PoolModel, x: Seq<u8>, id: nat)
    requires
        m.wf(),
        m.holds(x, id),
    ensures
        ({
            let handles = (m.holders(x) - 1) as nat;
            let after = m.released_times(x, id, handles);
            &&& after.wf()
            &&& !after.contains(x)
            &&& after.len() == m.len() - 1
            &&& after.id_for(x) != id
            &&& after.interned(x).holders(x) == 2
            &&& forall|c: Seq<u8>| #[trigger] m.contains(c) ==> m.buffers[c].id != after.id_for(x)
        }),
{
    let handles = (m.holders(x) - 1) as nat;
    lemma_released_times(m, x, id, handles);
    lemma_interned(m.released_times(x, id, handles), x);
}

/// Whatever happens to a well-formed pool, in whatever order, it stays well
/// formed: at all times every stored buffer is held by the pool and by a
/// handle, and no identity names two buffers. Identities are never handed
/// out again.
pub proof fn lemma_run(m: PoolModel, ops: Seq<PoolOp>)
    requires
        m.wf(),
    ensures
        m.run(ops).wf(),
        m.run(ops).next_id >= m.next_id,
        forall|c: Seq<u8>| #[trigger]
            m.run(ops).contains(c) ==> m.run(ops).holders(c) >= 2 && (m.run(ops).buffers[c].id
                >= m.next_id || m.holds(c, m.run(ops).buffers[c].id)),
    decreases ops.len(),
{
    if ops.len() > 0 {
        let next = m.step(ops[0]);
        match ops[0] {
            PoolOp::Intern { content } => lemma_interned(m, content),
            PoolOp::Share { content, id } => lemma_shared(m, content, id),
            PoolOp::Release { content, id } => lemma_released(m, content, id),
        }
        lemma_run(next, ops.drop_first());
        assert forall|c: Seq<u8>| #[trigger] m.run(ops).contains(c) implies m.run(
            ops,
        ).buffers[c].id >= m.next_id || m.holds(c, m.run(ops).buffers[c].id) by {
            let id = m.run(ops).buffers[c].id;
            if id < m.next_id {
                assert(next.holds(c, id));
                assert(next.buffers.contains_key(c));
                assert(m.buffers.contains_key(c));
            }
        }
    }
}

} // verus!
