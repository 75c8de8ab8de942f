use vstd::prelude::*;

verus! {

/// The eight little-endian bytes of a 64-bit integer.
pub open spec fn u64_le(n: u64) -> Seq<u8> {
    seq![
        (n & 0xFF) as u8,
        ((n >> 8) & 0xFF) as u8,
        ((n >> 16) & 0xFF) as u8,
        ((n >> 24) & 0xFF) as u8,
        ((n >> 32) & 0xFF) as u8,
        ((n >> 40) & 0xFF) as u8,
        ((n >> 48) & 0xFF) as u8,
        ((n >> 56) & 0xFF) as u8,
    ]
}

/// The 64-bit integer read from eight little-endian bytes.
pub open spec fn le_u64(b: Seq<u8>) -> u64
    recommends
        b.len() == 8,
{
    (b[0] as u64) | ((b[1] as u64) << 8) | ((b[2] as u64) << 16) | ((b[3] as u64) << 24)
        | ((b[4] as u64) << 32) | ((b[5] as u64) << 40) | ((b[6] as u64) << 48) | ((b[7] as u64)
        << 56)
}

/// Reading back the eight little-endian bytes of `n` yields `n` again.
pub proof fn lemma_le_u64_round_trip(n: u64)
    ensures
        le_u64(u64_le(n)) == n,
{
    assert(((n & 0xFF) as u8 as u64) | ((((n >> 8) & 0xFF) as u8 as u64) << 8) | ((((n >> 16)
        & 0xFF) as u8 as u64) << 16) | ((((n >> 24) & 0xFF) as u8 as u64) << 24) | ((((n >> 32)
        & 0xFF) as u8 as u64) << 32) | ((((n >> 40) & 0xFF) as u8 as u64) << 40) | ((((n >> 48)
        & 0xFF) as u8 as u64) << 48) | ((((n >> 56) & 0xFF) as u8 as u64) << 56) == n)
        by (bit_vector);
}

/// Appends the eight little-endian bytes of `n` to `out`.
pub fn push_u64_le(out: &mut Vec<u8>, n: u64)
    ensures
        final(out)@ == old(out)@ + u64_le(n),
{
    proof {
        assert((n & 0xFF) < 256 && ((n >> 8) & 0xFF) < 256 && ((n >> 16) & 0xFF) < 256 && ((n
            >> 24) & 0xFF) < 256 && ((n >> 32) & 0xFF) < 256 && ((n >> 40) & 0xFF) < 256 && ((n
            >> 48) & 0xFF) < 256 && ((n >> 56) & 0xFF) < 256) by (bit_vector);
    }
    out.push((n & 0xFF) as u8);
    out.push(((n >> 8) & 0xFF) as u8);
    out.push(((n >> 16) & 0xFF) as u8);
    out.push(((n >> 24) & 0xFF) as u8);
    out.push(((n >> 32) & 0xFF) as u8);
    out.push(((n >> 40) & 0xFF) as u8);
    out.push(((n >> 48) & 0xFF) as u8);
    out.push(((n >> 56) & 0xFF) as u8);
    assert(out@ =~= old(out)@ + u64_le(n));
}

/// Reads a 64-bit little-endian integer from `b` at position `i`.
pub fn read_u64_le(b: &Vec<u8>, i: usize) -> (r: u64)
    requires
        i + 8 <= b@.len(),
    ensures
        r == le_u64(b@.subrange(i as int, i as int + 8)),
{
    let n: usize = b.len();
    assert(i + 8 <= n);
    let r = (b[i] as u64) | ((b[i + 1] as u64) << 8u64) | ((b[i + 2] as u64) << 16u64) | ((b[i
        + 3] as u64) << 24u64) | ((b[i + 4] as u64) << 32u64) | ((b[i + 5] as u64) << 40u64) | ((b[i
        + 6] as u64) << 48u64) | ((b[i + 7] as u64) << 56u64);
    proof {
        let s = b@.subrange(i as int, i as int + 8);
        assert(s[0] == b@[i as int] && s[1] == b@[i as int + 1] && s[2] == b@[i as int + 2] && s[3]
            == b@[i as int + 3] && s[4] == b@[i as int + 4] && s[5] == b@[i as int + 5] && s[6]
            == b@[i as int + 6] && s[7] == b@[i as int + 7]);
    }
    r
}

} // verus!
