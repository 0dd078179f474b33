use vstd::prelude::*;

use crate::error::CtlError;

verus! {

/// The 64-bit word whose low half is `lo` and whose high half is `hi`.
pub open spec fn join_limbs(lo: u32, hi: u32) -> int {
    hi as int * 0x1_0000_0000 + lo as int
}

/// A limb sequence can be packed when it holds a positive, even number of limbs.
pub open spec fn packable(len: nat) -> bool {
    len >= 2 && len % 2 == 0
}

/// Word `i` of the packing joins limb `2i` (low half) with limb `2i + 1` (high half).
pub open spec fn packed(limbs: Seq<u32>) -> Seq<int> {
    Seq::new(limbs.len() / 2, |i: int| join_limbs(limbs[2 * i], limbs[2 * i + 1]))
}

fn join(lo: u32, hi: u32) -> (r: u64)
    ensures
        r as int == join_limbs(lo, hi),
{
    let r: u64 = ((hi as u64) << 32u64) | (lo as u64);
    assert(((hi as u64) << 32u64) | (lo as u64) == (hi as u64) * 0x1_0000_0000u64 + (lo as u64))
        by (bit_vector)
        requires
            hi <= 0xffff_ffffu64,
            lo <= 0xffff_ffffu64,
    ;
    r
}

/// Packs 32-bit limbs pairwise into 64-bit words, the odd-indexed limb of each
/// pair becoming the high half.
pub fn u32_to_u64_reverse(vecu32: &[u32]) -> (r: Result<Vec<u64>, CtlError>)
    ensures
        r is Ok <==> packable(vecu32@.len()),
        r matches Ok(words) ==> words@.len() == vecu32@.len() / 2
            && forall|i: int| 0 <= i < words@.len() ==> words@[i] as int == #[trigger] packed(vecu32@)[i],
        r matches Err(e) ==> e == CtlError::InputPackingError,
{
    let n = vecu32.len();
    if n < 2 || n % 2 != 0 {
        return Err(CtlError::InputPackingError);
    }
    let mut vecu64: Vec<u64> = Vec::new();
    let mut i: usize = 0;
    while i < n
        invariant
            n == vecu32@.len(),
            n % 2 == 0,
            i % 2 == 0,
            i <= n,
            vecu64@.len() == i / 2,
            forall|k: int| 0 <= k < vecu64@.len() ==> vecu64@[k] as int == #[trigger] packed(vecu32@)[k],
        decreases n - i,
    {
        let w = join(vecu32[i], vecu32[i + 1]);
        vecu64.push(w);
        i = i + 2;
    }
    Ok(vecu64)
}

} // verus!
