//! Interned C strings.

use crate::handle::Handle;
use crate::ibytes::IBytes;
use crate::istr::IStr;
use crate::order::lex_order;
use crate::pool::Pool;
use std::cmp::Ordering;
use std::collections::hash_map::DefaultHasher;
use std::str::Utf8Error;
use vstd::prelude::*;
use vstd::std_specs::cmp::{PartialEqSpecImpl, PartialOrdSpecImpl};
use vstd::utf8::valid_utf8;

verus! {

/// Why a byte string is no C string.
#[derive(Clone, Copy, Debug, PartialEq, Eq, Structural)]
pub enum NulError {
    /// A NUL byte stands at `position`, before the last byte.
    InteriorNul { position: usize },
    /// The byte string holds no NUL byte.
    NotNulTerminated,
}

/// Whether `bytes` is a C string with its terminator: the last byte is NUL
/// and no other byte is.
pub open spec fn is_c_string(bytes: Seq<u8>) -> bool {
    &&& bytes.len() > 0
    &&& bytes.last() == 0
    &&& forall|i: int| 0 <= i < bytes.len() - 1 ==> bytes[i] != 0
}

/// Whether `at` is the place of the first NUL byte of `bytes`.
pub open spec fn first_nul(bytes: Seq<u8>, at: int) -> bool {
    &&& 0 <= at < bytes.len()
    &&& bytes[at] == 0
    &&& forall|i: int| 0 <= i < at ==> bytes[i] != 0
}

/// What is wrong with `bytes` as a C string, if anything: a NUL byte before
/// the last byte, at its first place, or no NUL byte at all.
pub open spec fn nul_error(bytes: Seq<u8>) -> Option<NulError> {
    if exists|at: int| first_nul(bytes, at) {
        let at = choose|at: int| first_nul(bytes, at);
        if at + 1 == bytes.len() {
            None
        } else {
            Some(NulError::InteriorNul { position: at as usize })
        }
    } else {
        Some(NulError::NotNulTerminated)
    }
}

/// A byte string is a C string exactly when nothing is wrong with it.
pub proof fn lemma_nul_error(bytes: Seq<u8>)
    ensures
        is_c_string(bytes) <==> nul_error(bytes) is None,
{
    if is_c_string(bytes) {
        assert(first_nul(bytes, bytes.len() - 1));
        let at = choose|at: int| first_nul(bytes, at);
        assert(at + 1 == bytes.len());
    }
}

/// The place of the first NUL byte of `bytes`, if there is one.
pub fn find_nul(bytes: &[u8]) -> (found: Option<usize>)
    ensures
        match found {
            Some(at) => first_nul(bytes@, at as int),
            None => forall|i: int| 0 <= i < bytes@.len() ==> bytes@[i] != 0,
        },
{
    let mut i: usize = 0;
    while i < bytes.len()
        invariant
            i <= bytes@.len(),
            forall|j: int| 0 <= j < i ==> bytes@[j] != 0,
        decreases bytes@.len() - i,
    {
        if bytes[i] == 0 {
            return Some(i);
        }
        i += 1;
    }
    None
}

/// Checks that `bytes` is a C string with its terminator.
pub fn check_c_string(bytes: &[u8]) -> (checked: Result<(), NulError>)
    ensures
        checked is Ok <==> is_c_string(bytes@),
        checked matches Err(error) ==> nul_error(bytes@) == Some(error),
{
    proof {
        lemma_nul_error(bytes@);
    }
    match find_nul(bytes) {
        Some(at) => {
            proof {
                let chosen = choose|k: int| first_nul(bytes@, k);
                assert(chosen == at) by {
                    if chosen < at {
                        assert(bytes@[chosen] != 0);
                    } else if at < chosen {
                        assert(bytes@[at as int] != 0);
                    }
                }
            }
            if at == bytes.len() - 1 {
                Ok(())
            } else {
                Err(NulError::InteriorNul { position: at })
            }
        },
        None => Err(NulError::NotNulTerminated),
    }
}

/// An interned C string: an immutable NUL-terminated byte string of which a
/// pool stores one copy, terminator included, however many values hold it.
#[derive(Debug)]
pub struct ICStr(Handle);

impl View for ICStr {
    type V = Seq<u8>;

    /// The bytes before the terminator.
    open spec fn view(&self) -> Seq<u8> {
        self.bytes_with_nul().drop_last()
    }
}

impl ICStr {
    #[verifier::type_invariant]
    spec fn terminated(self) -> bool {
        is_c_string(self.0@)
    }

    /// The handle that holds the bytes, terminator included.
    pub closed spec fn handle(&self) -> Handle {
        self.0
    }

    /// The bytes with the terminator.
    pub open spec fn bytes_with_nul(&self) -> Seq<u8> {
        self.handle()@
    }

    /// Interns `src`, a C string with its terminator. A byte string that is
    /// none is refused, and the pool is left as it was.
    pub fn new(pool: &mut Pool, src: &[u8]) -> (string: Result<ICStr, NulError>)
        requires
            old(pool).wf(),
            is_c_string(src@) ==> Handle::has_room(old(pool), src@),
        ensures
            final(pool).wf(),
            string is Ok <==> is_c_string(src@),
            match string {
                Ok(string) => {
                    &&& string.bytes_with_nul() == src@
                    &&& string.handle().buffer_id() == Handle::buffer_for(old(pool)@, src@)
                    &&& final(pool)@ == Handle::pool_after_new(old(pool)@, src@)
                },
                Err(error) => nul_error(src@) == Some(error) && final(pool)@ == old(pool)@,
            },
    {
        match check_c_string(src) {
            Ok(()) => Ok(ICStr(Handle::new(pool, src))),
            Err(error) => Err(error),
        }
    }

    /// The bytes without the terminator.
    pub fn as_bytes(&self) -> (bytes: &[u8])
        ensures
            bytes@ == self@,
    {
        proof {
            use_type_invariant(self);
        }
        let with_nul = self.0.as_bytes();
        let length = with_nul.len();
        &with_nul[0..length - 1]
    }

    /// The bytes with the terminator.
    pub fn as_bytes_with_nul(&self) -> (bytes: &[u8])
        ensures
            bytes@ == self.bytes_with_nul(),
            is_c_string(bytes@),
    {
        proof {
            use_type_invariant(self);
        }
        self.0.as_bytes()
    }

    /// The handle that holds the bytes, terminator included, with its hold
    /// on the buffer.
    pub fn into_handle(self) -> (handle: Handle)
        ensures
            handle == self.handle(),
    {
        self.0
    }

    /// The handle that holds the bytes, terminator included.
    pub fn as_handle(&self) -> (handle: &Handle)
        ensures
            *handle == self.handle(),
    {
        &self.0
    }

    /// The bytes with the terminator as an interned byte string, which
    /// shares their buffer.
    pub fn to_ibytes_with_nul(&self, pool: &mut Pool) -> (bytes: IBytes)
        requires
            old(pool).wf(),
            self.handle().can_share(old(pool)),
        ensures
            final(pool).wf(),
            bytes@ == self.bytes_with_nul(),
            bytes.handle().buffer_id() == self.handle().buffer_id(),
            final(pool)@ == self.handle().pool_after_share(old(pool)@),
    {
        IBytes::from_handle(self.0.share(pool))
    }

    /// The C string as interned text, if its bytes before the terminator
    /// are valid UTF-8. The text shares the buffer, and so ends with the
    /// terminator. Otherwise the pool is left as it was.
    pub fn to_istr(&self, pool: &mut Pool) -> (text: Result<IStr, Utf8Error>)
        requires
            old(pool).wf(),
            valid_utf8(self@) ==> self.handle().can_share(old(pool)),
        ensures
            final(pool).wf(),
            text is Ok <==> valid_utf8(self@),
            match text {
                Ok(text) => {
                    &&& text.bytes() == self.bytes_with_nul()
                    &&& text.handle().buffer_id() == self.handle().buffer_id()
                    &&& final(pool)@ == self.handle().pool_after_share(old(pool)@)
                },
                Err(_) => final(pool)@ == old(pool)@,
            },
    {
        proof {
            use_type_invariant(self);
        }
        match core::str::from_utf8(self.as_bytes()) {
            Ok(_) => {
                proof {
                    lemma_terminator_is_text();
                    vstd::utf8::valid_utf8_concat(self@, seq![0u8]);
                    assert(self@ + seq![0u8] =~= self.bytes_with_nul());
                }
                Ok(IStr::from_valid(self.0.share(pool)))
            },
            Err(error) => Err(error),
        }
    }

    /// A second value of the same C string, which shares its buffer.
    pub fn share(&self, pool: &mut Pool) -> (string: ICStr)
        requires
            old(pool).wf(),
            self.handle().can_share(old(pool)),
        ensures
            final(pool).wf(),
            string@ == self@,
            string.bytes_with_nul() == self.bytes_with_nul(),
            string.handle().buffer_id() == self.handle().buffer_id(),
            final(pool)@ == self.handle().pool_after_share(old(pool)@),
    {
        proof {
            use_type_invariant(self);
        }
        ICStr(self.0.share(pool))
    }

    /// Gives the value up, and with it its hold on the buffer.
    pub fn release(self, pool: &mut Pool)
        requires
            old(pool).wf(),
        ensures
            final(pool).wf(),
            final(pool)@ == self.handle().pool_after_release(old(pool)@),
    {
        self.0.release(pool)
    }

    /// Feeds the bytes with the terminator to `state`, as one write.
    pub fn hash(&self, state: &mut DefaultHasher)
        ensures
            final(state)@ == self.handle().hashed(old(state)@),
    {
        self.0.hash(state)
    }
}

/// A single NUL byte is valid UTF-8.
proof fn lemma_terminator_is_text()
    ensures
        valid_utf8(seq![0u8]),
{
    reveal_with_fuel(valid_utf8, 2);
    assert(0u8 & 0x7f == 0) by (bit_vector);
    assert(vstd::utf8::pop_first_scalar(seq![0u8]).len() == 0);
}

impl PartialEq for ICStr {
    fn eq(&self, other: &ICStr) -> (equal: bool) {
        self.0 == other.0
    }
}

impl PartialEqSpecImpl for ICStr {
    open spec fn obeys_eq_spec() -> bool {
        true
    }

    open spec fn eq_spec(&self, other: &ICStr) -> bool {
        self.bytes_with_nul() == other.bytes_with_nul()
    }
}

impl Eq for ICStr {

}

impl PartialOrd for ICStr {
    fn partial_cmp(&self, other: &ICStr) -> (order: Option<Ordering>) {
        self.0.partial_cmp(&other.0)
    }
}

impl PartialOrdSpecImpl for ICStr {
    open spec fn obeys_partial_cmp_spec() -> bool {
        true
    }

    open spec fn partial_cmp_spec(&self, other: &ICStr) -> Option<Ordering> {
        Some(lex_order(self.bytes_with_nul(), other.bytes_with_nul()))
    }
}

impl Default for ICStr {
    /// The empty C string: the terminator alone.
    fn default() -> (string: ICStr)
        ensures
            string.bytes_with_nul() == seq![0u8],
            string.handle().is_inline(),
    {
        let terminator = [0u8];
        let handle = Handle::inline(terminator.as_slice());
        assert(handle@ =~= seq![0u8]);
        ICStr(handle)
    }
}

} // verus!
