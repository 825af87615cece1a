//! Small byte-buffer helpers shared by the codec and the block hasher.

use vstd::prelude::*;

verus! {

/// Appends every byte of `src` to `dst`, in order.
pub(crate) fn push_bytes(dst: &mut Vec<u8>, src: &[u8])
    ensures
        final(dst)@ == old(dst)@ + src@,
{
    let mut i: usize = 0;
    while i < src.len()
        invariant
            i <= src@.len(),
            dst@ == old(dst)@ + src@.subrange(0, i as int),
        decreases src@.len() - i,
    {
        let b = src[i];
        dst.push(b);
        i = i + 1;
        assert(old(dst)@ + src@.subrange(0, i - 1) + seq![src@[i - 1]] == old(dst)@ + src@.subrange(
            0,
            i as int,
        ));
    }
    assert(src@.subrange(0, src@.len() as int) == src@);
}

/// Compares two byte vectors by content.
pub(crate) fn bytes_eq(a: &Vec<u8>, b: &Vec<u8>) -> (r: bool)
    ensures
        r == (a@ == b@),
{
    let r = a == b;
    proof {
        if r {
            assert(a@ =~= b@);
        }
        if a@ == b@ {
            assert forall|i: int| 0 <= i < a@.len() implies a@[i] == b@[i] by {}
        }
    }
    r
}

} // verus!
