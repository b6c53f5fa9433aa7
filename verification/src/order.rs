//! The lexicographic order of byte strings as a three-way comparison.

use crate::bytes::{mismatch, precedes};
use std::cmp::Ordering;
use vstd::prelude::*;

verus! {

/// How `a` stands to `b` in lexicographic order.
pub open spec fn lex_order(a: Seq<u8>, b: Seq<u8>) -> Ordering {
    if a == b {
        Ordering::Equal
    } else if precedes(a, b) {
        Ordering::Less
    } else {
        Ordering::Greater
    }
}

/// Compares two byte slices in lexicographic order.
pub fn compare(a: &[u8], b: &[u8]) -> (order: Ordering)
    ensures
        order == lex_order(a@, b@),
{
    let k = mismatch(a, b);
    if k == a.len() {
        if k == b.len() {
            Ordering::Equal
        } else {
            Ordering::Less
        }
    } else if k == b.len() {
        Ordering::Greater
    } else if a[k] < b[k] {
        Ordering::Less
    } else {
        Ordering::Greater
    }
}

} // verus!
