//! Small bit-level facts shared by the hardware models.

use vstd::prelude::*;

verus! {

/// Masking never exceeds the mask.
pub proof fn lemma_and_le_u8(x: u8, m: u8)
    ensures
        x & m <= m,
        x & m <= x,
{
    assert(x & m <= m && x & m <= x) by (bit_vector);
}

pub proof fn lemma_and_le_u16(x: u16, m: u16)
    ensures
        x & m <= m,
        x & m <= x,
{
    assert(x & m <= m && x & m <= x) by (bit_vector);
}

/// Bytes whose low nibble is clear (such as the CPU flag register) stay so
/// under `|`, `^`, and under `&` with any byte.
pub proof fn lemma_high_nibble(x: u8, y: u8)
    by (bit_vector)
    ensures
        x & 0x0F == 0 && y & 0x0F == 0 ==> (x | y) & 0x0F == 0,
        x & 0x0F == 0 && y & 0x0F == 0 ==> (x ^ y) & 0x0F == 0,
        x & 0x0F == 0 || y & 0x0F == 0 ==> (x & y) & 0x0F == 0,
        0x80u8 & 0x0F == 0 && 0x40u8 & 0x0F == 0 && 0x20u8 & 0x0F == 0 && 0x10u8 & 0x0F == 0,
        0u8 & 0x0F == 0 && 0x50u8 & 0x0F == 0,
{
}
} // verus!
