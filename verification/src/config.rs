use vstd::prelude::*;

verus! {

/// Difficulty bit-width a fresh chain's target is built from.
pub const DIFFICULTY: usize = 20;

/// Difficulty bit-width for an easy target.
pub const EASIEST_DIF: usize = 8;

/// Mempool capacity: `add_with_check` rejects beyond this many entries.
pub const POOL_SIZE_LIMIT: usize = 128;

/// Maximum number of transactions a mined block takes from the mempool.
pub const BLOCK_SIZE_LIMIT: usize = 16;

/// Nonce probes a single mining burst is allowed.
pub const MINING_STEP: u32 = 4096;

/// Byte `i` of the 32-byte target representing 2^(256 - n): the first `n / 8`
/// bytes are zero, the next byte is `0xff >> (n % 8)`, the rest are `0xff`.
pub open spec fn difficulty_byte(n: usize, i: int) -> u8 {
    if i < n as int / 8 {
        0u8
    } else if i == n as int / 8 {
        0xffu8 >> ((n % 8) as u8)
    } else {
        0xffu8
    }
}

/// The whole 32-byte target for bit-width `n`.
pub open spec fn difficulty_target(n: usize) -> Seq<u8> {
    Seq::new(32, |i: int| difficulty_byte(n, i))
}

/// Build the 32-byte array representing the integer 2^(256 - n), truncated to
/// 32 bytes big-endian. `n = 0` gives all `0xff`; `n = 256` gives all zero.
pub fn gen_difficulty_array(n: usize) -> (r: [u8; 32])
    requires
        n <= 256,
    ensures
        r@ == difficulty_target(n),
{
    let mut r = [0xffu8; 32];
    let zeros = n / 8;
    let shift = (n % 8) as u8;
    let mut i: usize = 0;
    while i < 32
        invariant
            i <= 32,
            n <= 256,
            zeros == n / 8,
            shift == (n % 8) as u8,
            forall|j: int| 0 <= j < i ==> r@[j] == difficulty_byte(n, j),
            forall|j: int| i <= j < 32 ==> r@[j] == 0xffu8,
        decreases 32 - i,
    {
        if i < zeros {
            r[i] = 0;
        } else if i == zeros {
            assert(shift < 8);
            r[i] = 0xffu8 >> shift;
        }
        i += 1;
    }
    proof {
        assert(r@ =~= difficulty_target(n));
    }
    r
}

} // verus!
