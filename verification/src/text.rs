//! Text helpers shared by the other modules.

use vstd::prelude::*;
use vstd::utf8::*;

verus! {

/// Whether two string slices hold the same characters.
pub fn text_eq(a: &str, b: &str) -> (same: bool)
    ensures
        same == (a@ == b@),
{
    let x = a.as_bytes();
    let y = b.as_bytes();
    if x.len() != y.len() {
        return false;
    }
    let mut i: usize = 0;
    while i < x.len()
        invariant
            i <= x.len(),
            x.len() == y.len(),
            x@ == encode_utf8(a@),
            y@ == encode_utf8(b@),
            forall|j: int| 0 <= j < i ==> x@[j] == y@[j],
        decreases x.len() - i,
    {
        if x[i] != y[i] {
            return false;
        }
        i += 1;
    }
    proof {
        // Encoding is injective: decoding gives the characters back.
        assert(x@ =~= y@);
        encode_utf8_decode_utf8(a@);
        encode_utf8_decode_utf8(b@);
    }
    true
}

} // verus!
