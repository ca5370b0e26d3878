//! Comparing texts.

use vstd::prelude::*;
use vstd::utf8::{encode_utf8, encode_utf8_decode_utf8};

verus! {

/// Whether `left` and `right` are the same text.
///
/// The texts are compared byte by byte: two texts have the same bytes where
/// they have the same characters, and nowhere else.
pub fn same_text(left: &str, right: &str) -> (same: bool)
    ensures
        same == (left@ == right@),
{
    let left_bytes = left.as_bytes();
    let right_bytes = right.as_bytes();
    proof {
        encode_utf8_decode_utf8(left@);
        encode_utf8_decode_utf8(right@);
    }
    if left_bytes.len() != right_bytes.len() {
        return false;
    }
    let mut i: usize = 0;
    while i < left_bytes.len()
        invariant
            i <= left_bytes.len(),
            left_bytes.len() == right_bytes.len(),
            left_bytes@ == encode_utf8(left@),
            right_bytes@ == encode_utf8(right@),
            forall|k: int| 0 <= k < i ==> left_bytes@[k] == right_bytes@[k],
        decreases left_bytes.len() - i,
    {
        if left_bytes[i] != right_bytes[i] {
            return false;
        }
        i += 1;
    }
    assert(left_bytes@ =~= right_bytes@);
    true
}

} // verus!
