use vstd::prelude::*;

use vstd::string::StringSliceAdditionalSpecFns;

verus! {

/// The UTF-8 bytes of `s`, as labels and rule descriptors are passed.
pub fn str(s: &str) -> (r: Vec<u8>)
    ensures
        r@ == s.spec_bytes(),
{
    let bytes = s.as_bytes();
    let mut r: Vec<u8> = Vec::new();
    let mut i: usize = 0;
    while i < bytes.len()
        invariant
            0 <= i <= bytes@.len(),
            bytes@ == s.spec_bytes(),
            r@ == bytes@.take(i as int),
        decreases bytes@.len() - i,
    {
        r.push(bytes[i]);
        i = i + 1;
        assert(r@ =~= bytes@.take(i as int));
    }
    assert(bytes@.take(i as int) =~= bytes@);
    r
}

/// A webhook digest with every byte set to `c`; vary `c` for digests that
/// must differ.
pub fn hash64c(c: u8) -> (h: [u8; 32])
    ensures
        forall|i: int| 0 <= i < 32 ==> h@[i] == c,
{
    [c; 32]
}

/// The default webhook digest: every byte `b'0'`.
pub fn hash64() -> (h: [u8; 32])
    ensures
        forall|i: int| 0 <= i < 32 ==> h@[i] == 48u8,
{
    hash64c(48u8)
}

/// `n` copies of the byte `ch`, for length-boundary inputs.
pub fn str_repeat(ch: u8, n: usize) -> (r: Vec<u8>)
    ensures
        r@ == Seq::new(n as nat, |_i: int| ch),
{
    let mut r: Vec<u8> = Vec::new();
    let mut i: usize = 0;
    while i < n
        invariant
            0 <= i <= n,
            r@ == Seq::new(i as nat, |_j: int| ch),
        decreases n - i,
    {
        r.push(ch);
        i = i + 1;
        assert(r@ =~= Seq::new(i as nat, |_j: int| ch));
    }
    r
}

} // verus!
