//! Byte-buffer primitives: copy, fill and compare. The kernel exports
//! these over raw pointers for the C runtime; here they work on owned
//! buffers, element by element, exactly as the exported versions step.

use vstd::prelude::*;

verus! {

/// Copies the first `n` bytes of `src` over the first `n` bytes of `dst`.
pub fn memcpy(dst: &mut Vec<u8>, src: &Vec<u8>, n: usize)
    requires
        n <= old(dst)@.len(),
        n <= src@.len(),
    ensures
        final(dst)@.len() == old(dst)@.len(),
        forall|i: int|
            0 <= i < final(dst)@.len() ==> final(dst)@[i] == if i < n {
                src@[i]
            } else {
                old(dst)@[i]
            },
{
    let mut i: usize = 0;
    while i < n
        invariant
            i <= n,
            n <= dst@.len(),
            n <= src@.len(),
            dst@.len() == old(dst)@.len(),
            forall|j: int|
                0 <= j < dst@.len() ==> dst@[j] == if j < i {
                    src@[j]
                } else {
                    old(dst)@[j]
                },
        decreases n - i,
    {
        let b = src[i];
        dst[i] = b;
        i = i + 1;
    }
}

/// Fills the first `n` bytes of `dst` with `c`, truncated to a byte.
pub fn memset(dst: &mut Vec<u8>, c: i32, n: usize)
    requires
        n <= old(dst)@.len(),
    ensures
        final(dst)@.len() == old(dst)@.len(),
        forall|i: int|
            0 <= i < final(dst)@.len() ==> final(dst)@[i] == if i < n {
                c as u8
            } else {
                old(dst)@[i]
            },
{
    let mut i: usize = 0;
    #[verifier::truncate]
    let b: u8 = c as u8;
    while i < n
        invariant
            i <= n,
            n <= dst@.len(),
            dst@.len() == old(dst)@.len(),
            b == c as u8,
            forall|j: int|
                0 <= j < dst@.len() ==> dst@[j] == if j < i {
                    c as u8
                } else {
                    old(dst)@[j]
                },
        decreases n - i,
    {
        dst[i] = b;
        i = i + 1;
    }
}

/// Compares the first `n` bytes: zero when equal, one at the first
/// difference.
pub fn memcmp(s1: &Vec<u8>, s2: &Vec<u8>, n: usize) -> (r: i32)
    requires
        n <= s1@.len(),
        n <= s2@.len(),
    ensures
        (r == 0) <==> s1@.take(n as int) =~= s2@.take(n as int),
        r == 0 || r == 1,
{
    let mut i: usize = 0;
    while i < n
        invariant
            i <= n,
            n <= s1@.len(),
            n <= s2@.len(),
            forall|j: int| 0 <= j < i ==> s1@[j] == s2@[j],
        decreases n - i,
    {
        if s1[i] != s2[i] {
            proof {
                assert(s1@.take(n as int)[i as int] != s2@.take(n as int)[i as int]);
            }
            return 1;
        }
        i = i + 1;
    }
    proof {
        assert(s1@.take(n as int) =~= s2@.take(n as int));
    }
    0
}

} // verus!
