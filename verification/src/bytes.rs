//! Byte buffers: the few operations on them that the rest of the crate is
//! written with, each stated over sequences.

use vstd::prelude::*;

verus! {

/// `n` zero bytes.
pub open spec fn zeros(n: nat) -> Seq<u8> {
    Seq::new(n, |i: int| 0u8)
}

/// Whether every byte is zero.
pub open spec fn is_zero(s: Seq<u8>) -> bool {
    forall|i: int| 0 <= i < s.len() ==> s[i] == 0
}

/// `base` with the bytes from `at` on replaced by `patch`, as far as `patch`
/// reaches. Where `patch` reaches beyond the end of `base`, the result is
/// longer than `base`.
pub open spec fn overlay(base: Seq<u8>, at: int, patch: Seq<u8>) -> Seq<u8> {
    if at + patch.len() <= base.len() {
        base.subrange(0, at) + patch + base.subrange(at + patch.len(), base.len() as int)
    } else {
        base.subrange(0, at) + patch
    }
}

/// A copy of the bytes `from..to` of `src`.
pub fn copy_range(src: &[u8], from: usize, to: usize) -> (out: Vec<u8>)
    requires
        from <= to <= src@.len(),
    ensures
        out@ == src@.subrange(from as int, to as int),
{
    let mut out: Vec<u8> = Vec::new();
    let mut i: usize = from;
    while i < to
        invariant
            from <= i <= to <= src@.len(),
            out@ == src@.subrange(from as int, i as int),
        decreases to - i,
    {
        out.push(src[i]);
        i += 1;
        assert(out@ =~= src@.subrange(from as int, i as int));
    }
    out
}

/// Appends `src` to `dst`.
pub fn append(dst: &mut Vec<u8>, src: &[u8])
    ensures
        final(dst)@ == old(dst)@ + src@,
{
    let mut i: usize = 0;
    while i < src.len()
        invariant
            i <= src@.len(),
            dst@ == old(dst)@ + src@.subrange(0, i as int),
        decreases src@.len() - i,
    {
        dst.push(src[i]);
        i += 1;
        assert(dst@ =~= old(dst)@ + src@.subrange(0, i as int));
    }
    assert(src@.subrange(0, src@.len() as int) =~= src@);
}

/// Appends `n` zero bytes to `dst`.
pub fn append_zeros(dst: &mut Vec<u8>, n: usize)
    ensures
        final(dst)@ == old(dst)@ + zeros(n as nat),
{
    let mut i: usize = 0;
    while i < n
        invariant
            i <= n,
            dst@ == old(dst)@ + zeros(i as nat),
        decreases n - i,
    {
        dst.push(0u8);
        i += 1;
        assert(dst@ =~= old(dst)@ + zeros(i as nat));
    }
}

/// Whether the bytes `from..to` of `src` are all zero.
pub fn all_zero(src: &[u8], from: usize, to: usize) -> (b: bool)
    requires
        from <= to <= src@.len(),
    ensures
        b == is_zero(src@.subrange(from as int, to as int)),
{
    let mut i: usize = from;
    while i < to
        invariant
            from <= i <= to <= src@.len(),
            forall|j: int| from <= j < i ==> src@[j] == 0,
        decreases to - i,
    {
        if src[i] != 0 {
            assert(src@.subrange(from as int, to as int)[i - from] != 0);
            return false;
        }
        i += 1;
    }
    true
}

/// Writes `patch` over the bytes of `dst` from `at` on, and lengthens `dst`
/// where `patch` reaches beyond its end.
pub fn overwrite(dst: &mut Vec<u8>, at: usize, patch: &[u8])
    requires
        at <= old(dst)@.len(),
    ensures
        final(dst)@ == overlay(old(dst)@, at as int, patch@),
{
    let mut i: usize = 0;
    while i < patch.len()
        invariant
            i <= patch@.len(),
            at <= old(dst)@.len(),
            dst@ == overlay(old(dst)@, at as int, patch@.subrange(0, i as int)),
            dst@.len() >= at + i,
        decreases patch@.len() - i,
    {
        let len: usize = dst.len();
        if i < len - at {
            dst[at + i] = patch[i];
        } else {
            dst.push(patch[i]);
        }
        i += 1;
        assert(dst@ =~= overlay(old(dst)@, at as int, patch@.subrange(0, i as int)));
    }
    assert(patch@.subrange(0, patch@.len() as int) =~= patch@);
    assert(overlay(old(dst)@, at as int, patch@.subrange(0, 0)) =~= old(dst)@);
}

} // verus!
