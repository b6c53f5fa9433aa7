//! Items of std that the library uses and vstd does not describe.

use std::str::Utf8Error;
use vstd::prelude::*;
use vstd::string::StringSliceAdditionalSpecFns;
use vstd::utf8::valid_utf8;

verus! {

/// The error of `std::str::from_utf8`. Nothing is claimed of what it holds.
#[verifier::external_type_specification]
#[verifier::external_body]
pub struct ExUtf8Error(Utf8Error);

/// `std::str::from_utf8` accepts exactly the byte strings that are valid
/// UTF-8, and hands back the same bytes as text.
pub assume_specification[ core::str::from_utf8 ](v: &[u8]) -> (text: Result<&str, Utf8Error>)
    ensures
        text is Ok <==> valid_utf8(v@),
        text matches Ok(s) ==> s.spec_bytes() == v@,
;

/// The range `start..` of std. Its one field is public, and the library
/// reads it; nothing else is claimed of the type.
#[verifier::external_type_specification]
#[verifier::reject_recursive_types(Idx)]
pub struct ExRangeFrom<Idx>(std::ops::RangeFrom<Idx>);

/// The range `..end` of std. Its one field is public, and the library reads
/// it; nothing else is claimed of the type.
#[verifier::external_type_specification]
#[verifier::reject_recursive_types(Idx)]
pub struct ExRangeTo<Idx>(std::ops::RangeTo<Idx>);

/// The range `..` of std, which holds nothing.
#[verifier::external_type_specification]
#[verifier::external_body]
pub struct ExRangeFull(std::ops::RangeFull);

} // verus!
