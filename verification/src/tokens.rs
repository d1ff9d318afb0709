//! Token estimation: a pure size-to-token heuristic of one token per four
//! bytes, rounded up.

use vstd::prelude::*;

verus! {

/// Estimated token count for a text of `n` bytes: `ceil(n / 4)`.
pub open spec fn spec_estimate_tokens(n: nat) -> nat {
    ((n + 3) / 4) as nat
}

/// Estimate the token count of a byte string: one token per four bytes,
/// rounded up. Total and deterministic; the empty string yields 0.
pub fn estimate_tokens(text: &Vec<u8>) -> (r: usize)
    ensures
        r == spec_estimate_tokens(text@.len()),
        4 * r >= text@.len(),
        text@.len() > 0 ==> 4 * (r - 1) < text@.len(),
{
    let len = text.len();
    let r = len / 4 + if len % 4 == 0 { 0 } else { 1 };
    assert(r == spec_estimate_tokens(len as nat));
    r
}

} // verus!
