use vstd::prelude::*;

verus! {

/// The `n` least significant bytes of `x`, least significant first.
pub open spec fn le_bytes(x: nat, n: nat) -> Seq<u8>
    decreases n,
{
    if n == 0 {
        Seq::empty()
    } else {
        seq![(x % 256) as u8] + le_bytes(x / 256, (n - 1) as nat)
    }
}

/// Little-endian encoding of `x` in `n` bytes.
pub fn encode_le(x: u128, n: usize) -> (r: Vec<u8>)
    ensures
        r@ == le_bytes(x as nat, n as nat),
        r@.len() == n,
{
    let mut out: Vec<u8> = Vec::new();
    let mut v: u128 = x;
    let mut i: usize = 0;
    while i < n
        invariant
            i <= n,
            out@.len() == i,
            out@ + le_bytes(v as nat, (n - i) as nat) == le_bytes(x as nat, n as nat),
        decreases n - i,
    {
        let ghost rest = le_bytes(v as nat / 256, (n - i - 1) as nat);
        assert(le_bytes(v as nat, (n - i) as nat) == seq![(v as nat % 256) as u8] + rest);
        out.push((v % 256) as u8);
        assert(out@ + rest == le_bytes(x as nat, n as nat)) by {
            assert(out@ == out@.drop_last().push((v as nat % 256) as u8));
            assert(out@.drop_last() + (seq![(v as nat % 256) as u8] + rest) =~= out@ + rest);
        }
        v = v / 256;
        i = i + 1;
    }
    assert(out@ + le_bytes(v as nat, 0) =~= out@);
    out
}

} // verus!
