//! Interned text.

use crate::bytes::bytes_eq;
use crate::handle::Handle;
use crate::ibytes::IBytes;
use crate::order::lex_order;
use crate::pool::Pool;
use std::borrow::Borrow;
use std::borrow::Cow;
use std::cmp::Ordering;
use std::collections::hash_map::DefaultHasher;
use std::ops::Deref;
use std::ops::Index;
use std::str::Utf8Error;
use vstd::prelude::*;
use vstd::std_specs::cmp::{PartialEqSpecImpl, PartialOrdSpecImpl};
use vstd::string::StringSliceAdditionalSpecFns;
use vstd::utf8::{decode_utf8, encode_utf8, is_char_boundary, valid_utf8};

verus! {

/// Two texts in UTF-8, one after the other, are the UTF-8 of the two texts
/// one after the other.
pub proof fn lemma_decode_concat(first: Seq<u8>, second: Seq<u8>)
    requires
        valid_utf8(first),
        valid_utf8(second),
    ensures
        valid_utf8(first + second),
        decode_utf8(first + second) == decode_utf8(first) + decode_utf8(second),
{
    let both = first + second;
    let at = first.len() as int;
    vstd::utf8::valid_utf8_concat(first, second);
    if second.len() == 0 {
        vstd::utf8::is_char_boundary_start_end_of_seq(both);
    } else {
        vstd::utf8::is_char_boundary_start_end_of_seq(second);
        vstd::utf8::is_char_boundary_iff_not_is_continuation_byte(second, 0);
        vstd::utf8::is_char_boundary_iff_not_is_continuation_byte(both, at);
    }
    vstd::utf8::decode_utf8_split(both, at);
    assert(both.subrange(0, at) =~= first);
    assert(both.subrange(at, both.len() as int) =~= second);
}

/// The bytes between two character boundaries of a text in UTF-8 are a
/// text in UTF-8.
pub proof fn lemma_valid_between(bytes: Seq<u8>, start: int, end: int)
    requires
        valid_utf8(bytes),
        0 <= start <= end <= bytes.len(),
        is_char_boundary(bytes, start),
        is_char_boundary(bytes, end),
    ensures
        valid_utf8(bytes.subrange(start, end)),
{
    vstd::utf8::valid_utf8_split(bytes, start);
    let tail = bytes.subrange(start, bytes.len() as int);
    if end < bytes.len() {
        vstd::utf8::is_char_boundary_iff_not_is_continuation_byte(bytes, end);
        vstd::utf8::is_char_boundary_iff_not_is_continuation_byte(tail, end - start);
    } else {
        vstd::utf8::is_char_boundary_start_end_of_seq(tail);
    }
    vstd::utf8::valid_utf8_split(tail, end - start);
    assert(tail.subrange(0, end - start) =~= bytes.subrange(start, end));
}

/// Texts are equal exactly when their UTF-8 is.
pub proof fn lemma_same_text(first: Seq<u8>, second: Seq<u8>)
    requires
        valid_utf8(first),
        valid_utf8(second),
    ensures
        decode_utf8(first) == decode_utf8(second) <==> first == second,
{
    vstd::utf8::decode_utf8_encode_utf8(first);
    vstd::utf8::decode_utf8_encode_utf8(second);
}

/// An interned string: an immutable `str` of which a pool stores one copy,
/// however many values hold it.
#[derive(Debug)]
pub struct IStr(Handle);

impl View for IStr {
    type V = Seq<char>;

    open spec fn view(&self) -> Seq<char> {
        decode_utf8(self.bytes())
    }
}

impl IStr {
    #[verifier::type_invariant]
    spec fn is_text(self) -> bool {
        valid_utf8(self.0@)
    }

    /// The handle that holds the text.
    pub closed spec fn handle(&self) -> Handle {
        self.0
    }

    /// The text in UTF-8.
    pub open spec fn bytes(&self) -> Seq<u8> {
        self.handle()@
    }

    /// Interns `src`.
    pub fn new(pool: &mut Pool, src: &str) -> (text: IStr)
        requires
            old(pool).wf(),
            Handle::has_room(old(pool), src.spec_bytes()),
        ensures
            final(pool).wf(),
            text@ == src@,
            text.bytes() == src.spec_bytes(),
            text.handle().buffer_id() == Handle::buffer_for(old(pool)@, src.spec_bytes()),
            final(pool)@ == Handle::pool_after_new(old(pool)@, src.spec_bytes()),
    {
        broadcast use vstd::utf8::encode_utf8_valid_utf8, vstd::utf8::encode_utf8_decode_utf8;

        IStr(Handle::new(pool, src.as_bytes()))
    }

    /// Interns `src` if it is valid UTF-8. Otherwise the pool is left as it
    /// was.
    pub fn from_utf8(pool: &mut Pool, src: &[u8]) -> (text: Result<IStr, Utf8Error>)
        requires
            old(pool).wf(),
            valid_utf8(src@) ==> Handle::has_room(old(pool), src@),
        ensures
            final(pool).wf(),
            text is Ok <==> valid_utf8(src@),
            match text {
                Ok(text) => {
                    &&& text.bytes() == src@
                    &&& text.handle().buffer_id() == Handle::buffer_for(old(pool)@, src@)
                    &&& final(pool)@ == Handle::pool_after_new(old(pool)@, src@)
                },
                Err(_) => final(pool)@ == old(pool)@,
            },
    {
        match core::str::from_utf8(src) {
            Ok(valid) => Ok(IStr::new(pool, valid)),
            Err(error) => Err(error),
        }
    }

    /// The content of `handle` as text. The handle keeps its hold on its
    /// buffer.
    pub(crate) fn from_valid(handle: Handle) -> (text: IStr)
        requires
            valid_utf8(handle@),
        ensures
            text.handle() == handle,
    {
        IStr(handle)
    }

    /// The text.
    pub fn as_str(&self) -> (text: &str)
        ensures
            text@ == self@,
            text.spec_bytes() == self.bytes(),
    {
        broadcast use vstd::utf8::encode_utf8_decode_utf8;

        proof {
            use_type_invariant(self);
        }
        match core::str::from_utf8(self.0.as_bytes()) {
            Ok(text) => text,
            Err(_) => {
                assert(false);
                ""
            },
        }
    }

    /// Whether the text can be cut from byte `start` up to byte `end`: both
    /// lie in the text, in this order, on character boundaries.
    pub open spec fn can_slice(&self, start: int, end: int) -> bool {
        &&& 0 <= start <= end <= self.bytes().len()
        &&& is_char_boundary(self.bytes(), start)
        &&& is_char_boundary(self.bytes(), end)
    }

    /// The part of the text from byte `start` up to byte `end`.
    pub fn slice(&self, start: usize, end: usize) -> (text: &str)
        requires
            self.can_slice(start as int, end as int),
        ensures
            text.spec_bytes() == self.bytes().subrange(start as int, end as int),
            text@ == decode_utf8(self.bytes().subrange(start as int, end as int)),
    {
        broadcast use vstd::utf8::encode_utf8_decode_utf8;

        proof {
            use_type_invariant(self);
            lemma_valid_between(self.bytes(), start as int, end as int);
        }
        let all = self.0.as_bytes();
        match core::str::from_utf8(&all[start..end]) {
            Ok(text) => text,
            Err(_) => {
                assert(false);
                ""
            },
        }
    }

    /// The text in UTF-8.
    pub fn as_bytes(&self) -> (bytes: &[u8])
        ensures
            bytes@ == self.bytes(),
    {
        self.0.as_bytes()
    }

    /// The handle that holds the text, with its hold on the buffer.
    pub fn into_handle(self) -> (handle: Handle)
        ensures
            handle == self.handle(),
    {
        self.0
    }

    /// The handle that holds the text.
    pub fn as_handle(&self) -> (handle: &Handle)
        ensures
            *handle == self.handle(),
    {
        &self.0
    }

    /// The text as an interned byte string, which shares its buffer.
    pub fn to_ibytes(&self, pool: &mut Pool) -> (bytes: IBytes)
        requires
            old(pool).wf(),
            self.handle().can_share(old(pool)),
        ensures
            final(pool).wf(),
            bytes@ == self.bytes(),
            bytes.handle().buffer_id() == self.handle().buffer_id(),
            final(pool)@ == self.handle().pool_after_share(old(pool)@),
    {
        IBytes::from_handle(self.0.share(pool))
    }

    /// This text followed by `other`, interned. The sum is made while this
    /// value still holds its buffer, and then this value is given up: a sum
    /// that equals this text keeps the buffer in the pool.
    pub fn add(self, pool: &mut Pool, other: &str) -> (sum: IStr)
        requires
            old(pool).wf(),
            Handle::has_room(old(pool), self.bytes() + other.spec_bytes()),
        ensures
            final(pool).wf(),
            sum@ == self@ + other@,
            sum.bytes() == self.bytes() + other.spec_bytes(),
            sum.handle().buffer_id() == Handle::buffer_for(old(pool)@, sum.bytes()),
            final(pool)@ == self.handle().pool_after_release(
                Handle::pool_after_new(old(pool)@, sum.bytes()),
            ),
    {
        broadcast use vstd::utf8::encode_utf8_valid_utf8, vstd::utf8::encode_utf8_decode_utf8;

        proof {
            use_type_invariant(&self);
            lemma_decode_concat(self.bytes(), other.spec_bytes());
        }
        let mut buf: Vec<u8> = Vec::new();
        buf.extend_from_slice(self.0.as_bytes());
        buf.extend_from_slice(other.as_bytes());
        assert(buf@ =~= self.bytes() + other.spec_bytes());
        let sum = IStr(Handle::new(pool, buf.as_slice()));
        self.0.release(pool);
        sum
    }

    /// A second value of the same text, which shares its buffer.
    pub fn share(&self, pool: &mut Pool) -> (text: IStr)
        requires
            old(pool).wf(),
            self.handle().can_share(old(pool)),
        ensures
            final(pool).wf(),
            text@ == self@,
            text.bytes() == self.bytes(),
            text.handle().buffer_id() == self.handle().buffer_id(),
            final(pool)@ == self.handle().pool_after_share(old(pool)@),
    {
        proof {
            use_type_invariant(self);
        }
        IStr(self.0.share(pool))
    }

    /// Gives the value up, and with it its hold on the buffer.
    pub fn release(self, pool: &mut Pool)
        requires
            old(pool).wf(),
        ensures
            final(pool).wf(),
            final(pool)@ == self.handle().pool_after_release(old(pool)@),
    {
        self.0.release(pool)
    }

    /// Feeds the text to `state`, as one write of its bytes.
    pub fn hash(&self, state: &mut DefaultHasher)
        ensures
            final(state)@ == self.handle().hashed(old(state)@),
    {
        self.0.hash(state)
    }
}

impl PartialEq for IStr {
    fn eq(&self, other: &IStr) -> (equal: bool) {
        self.0 == other.0
    }
}

impl PartialEqSpecImpl for IStr {
    open spec fn obeys_eq_spec() -> bool {
        true
    }

    open spec fn eq_spec(&self, other: &IStr) -> bool {
        self.bytes() == other.bytes()
    }
}

impl Eq for IStr {

}

impl PartialOrd for IStr {
    /// Texts are ordered as their UTF-8 is, byte by byte, which is the
    /// order of `str`.
    fn partial_cmp(&self, other: &IStr) -> (order: Option<Ordering>) {
        self.0.partial_cmp(&other.0)
    }
}

impl PartialOrdSpecImpl for IStr {
    open spec fn obeys_partial_cmp_spec() -> bool {
        true
    }

    open spec fn partial_cmp_spec(&self, other: &IStr) -> Option<Ordering> {
        Some(lex_order(self.bytes(), other.bytes()))
    }
}

impl Default for IStr {
    /// The empty text.
    fn default() -> (text: IStr)
        ensures
            text@ == Seq::<char>::empty(),
            text.bytes() == Seq::<u8>::empty(),
            text.handle().is_inline(),
    {
        IStr(Handle::default())
    }
}

impl PartialEq<str> for IStr {
    fn eq(&self, other: &str) -> (equal: bool) {
        bytes_eq(self.as_bytes(), other.as_bytes())
    }
}

impl PartialEqSpecImpl<str> for IStr {
    open spec fn obeys_eq_spec() -> bool {
        true
    }

    open spec fn eq_spec(&self, other: &str) -> bool {
        self.bytes() == encode_utf8(other@)
    }
}

impl<'a> PartialEq<&'a str> for IStr {
    fn eq(&self, other: &&'a str) -> (equal: bool) {
        bytes_eq(self.as_bytes(), other.as_bytes())
    }
}

impl<'a> PartialEqSpecImpl<&'a str> for IStr {
    open spec fn obeys_eq_spec() -> bool {
        true
    }

    open spec fn eq_spec(&self, other: &&'a str) -> bool {
        self.bytes() == encode_utf8(other@)
    }
}

impl PartialEq<String> for IStr {
    fn eq(&self, other: &String) -> (equal: bool) {
        bytes_eq(self.as_bytes(), other.as_str().as_bytes())
    }
}

impl PartialEqSpecImpl<String> for IStr {
    open spec fn obeys_eq_spec() -> bool {
        true
    }

    open spec fn eq_spec(&self, other: &String) -> bool {
        self.bytes() == encode_utf8(other@)
    }
}

impl<'a> PartialEq<Cow<'a, str>> for IStr {
    fn eq(&self, other: &Cow<'a, str>) -> (equal: bool) {
        match other {
            Cow::Borrowed(text) => bytes_eq(self.as_bytes(), text.as_bytes()),
            Cow::Owned(text) => bytes_eq(self.as_bytes(), text.as_str().as_bytes()),
        }
    }
}

impl<'a> PartialEqSpecImpl<Cow<'a, str>> for IStr {
    open spec fn obeys_eq_spec() -> bool {
        true
    }

    open spec fn eq_spec(&self, other: &Cow<'a, str>) -> bool {
        self.bytes() == encode_utf8(other@)
    }
}

impl Deref for IStr {
    type Target = str;

    fn deref(&self) -> (text: &str)
        ensures
            text@ == self@,
            text.spec_bytes() == self.bytes(),
    {
        self.as_str()
    }
}

impl AsRef<str> for IStr {
    fn as_ref(&self) -> (text: &str)
        ensures
            ({
                let text: &str = text;
                text@ == self@ && text.spec_bytes() == self.bytes()
            }),
    {
        self.as_str()
    }
}

impl AsRef<[u8]> for IStr {
    fn as_ref(&self) -> (bytes: &[u8])
        ensures
            ({
                let bytes: &[u8] = bytes;
                bytes@ == self.bytes()
            }),
    {
        self.as_bytes()
    }
}

impl Borrow<str> for IStr {
    fn borrow(&self) -> (text: &str)
        ensures
            ({
                let text: &str = text;
                text@ == self@ && text.spec_bytes() == self.bytes()
            }),
    {
        self.as_str()
    }
}

impl Index<std::ops::Range<usize>> for IStr {
    type Output = str;

    /// The text from byte `index.start` up to byte `index.end`.
    fn index(&self, index: std::ops::Range<usize>) -> (text: &str)
        ensures
            text.spec_bytes() == self.bytes().subrange(index.start as int, index.end as int),
    {
        self.slice(index.start, index.end)
    }
}

impl vstd::std_specs::core::IndexSpecImpl<std::ops::Range<usize>> for IStr {
    open spec fn index_req(&self, index: &std::ops::Range<usize>) -> bool {
        self.can_slice(index.start as int, index.end as int)
    }
}

impl Index<std::ops::RangeFrom<usize>> for IStr {
    type Output = str;

    /// The text from byte `index.start` on.
    fn index(&self, index: std::ops::RangeFrom<usize>) -> (text: &str)
        ensures
            text.spec_bytes() == self.bytes().subrange(
                index.start as int,
                self.bytes().len() as int,
            ),
    {
        proof {
            use_type_invariant(self);
            vstd::utf8::is_char_boundary_start_end_of_seq(self.bytes());
        }
        self.slice(index.start, self.as_bytes().len())
    }
}

impl vstd::std_specs::core::IndexSpecImpl<std::ops::RangeFrom<usize>> for IStr {
    open spec fn index_req(&self, index: &std::ops::RangeFrom<usize>) -> bool {
        index.start <= self.bytes().len() && is_char_boundary(self.bytes(), index.start as int)
    }
}

impl Index<std::ops::RangeTo<usize>> for IStr {
    type Output = str;

    /// The text up to byte `index.end`.
    fn index(&self, index: std::ops::RangeTo<usize>) -> (text: &str)
        ensures
            text.spec_bytes() == self.bytes().subrange(0, index.end as int),
    {
        proof {
            use_type_invariant(self);
            vstd::utf8::is_char_boundary_start_end_of_seq(self.bytes());
        }
        self.slice(0, index.end)
    }
}

impl vstd::std_specs::core::IndexSpecImpl<std::ops::RangeTo<usize>> for IStr {
    open spec fn index_req(&self, index: &std::ops::RangeTo<usize>) -> bool {
        index.end <= self.bytes().len() && is_char_boundary(self.bytes(), index.end as int)
    }
}

impl Index<std::ops::RangeFull> for IStr {
    type Output = str;

    /// All the text.
    fn index(&self, index: std::ops::RangeFull) -> (text: &str)
        ensures
            text@ == self@,
            text.spec_bytes() == self.bytes(),
    {
        self.as_str()
    }
}

impl vstd::std_specs::core::IndexSpecImpl<std::ops::RangeFull> for IStr {
    open spec fn index_req(&self, index: &std::ops::RangeFull) -> bool {
        true
    }
}

} // verus!
