//! The per-region XOR keystream that hides every stored region of a container.
//!
//! Each region (the header, the compressed directory, each entry's block)
//! seeds its own keystream from its absolute offset in the container.

use vstd::prelude::*;
use vstd::wrapping::u32_specs;

verus! {

/// Base of every region's seed; the region's absolute offset is added to it.
pub const SEED_BASE: u32 = 0x1900_0000;

/// Multiplier of the keystream generator.
pub const LCG_MUL: u32 = 0x41C6_4E6D;

/// Increment of the keystream generator.
pub const LCG_INC: u32 = 12345;

/// One step of the generator: 32-bit wrapping multiply-add.
pub open spec fn lcg_step(seed: u32) -> u32 {
    u32_specs::wrapping_add(u32_specs::wrapping_mul(seed, LCG_MUL), LCG_INC)
}

/// The generator's state after `n` steps, for the region at `offs`.
pub open spec fn lcg_state(offs: u32, n: nat) -> u32
    decreases n,
{
    if n == 0 {
        u32_specs::wrapping_add(SEED_BASE, offs)
    } else {
        lcg_step(lcg_state(offs, (n - 1) as nat))
    }
}

/// The keystream byte that masks byte `i` of the region at `offs`: the high
/// byte of the state after `i + 1` steps.
pub open spec fn keystream_byte(offs: u32, i: nat) -> u8 {
    (lcg_state(offs, i + 1) >> 24u32) as u8
}

/// The region at `offs` with its keystream removed (or applied: it is the same).
pub open spec fn deobfuscated(offs: u32, data: Seq<u8>) -> Seq<u8> {
    Seq::new(data.len(), |i: int| data[i] ^ keystream_byte(offs, i as nat))
}

/// Removes the keystream of the region at absolute offset `offs`, in place.
pub fn decode(offs: u32, data: &mut Vec<u8>)
    ensures
        final(data)@ == deobfuscated(offs, old(data)@),
{
    let mut seed: u32 = SEED_BASE.wrapping_add(offs);
    let n: usize = data.len();
    let mut i: usize = 0;
    while i < n
        invariant
            n == old(data)@.len(),
            data@.len() == n,
            i <= n,
            seed == lcg_state(offs, i as nat),
            forall|j: int| 0 <= j < i ==> data@[j] == #[trigger] deobfuscated(offs, old(data)@)[j],
            forall|j: int| i <= j < n ==> data@[j] == old(data)@[j],
        decreases n - i,
    {
        seed = seed.wrapping_mul(LCG_MUL).wrapping_add(LCG_INC);
        let k: u8 = (seed >> 24u32) as u8;
        let b: u8 = data[i] ^ k;
        data.set(i, b);
        i = i + 1;
    }
    assert(data@ =~= deobfuscated(offs, old(data)@));
}

/// Removing the keystream twice with the same region offset gives back the
/// bytes it started from: the keystream depends on the offset alone, and XOR with
/// the same byte cancels.
pub proof fn lemma_deobfuscate_involution(offs: u32, data: Seq<u8>)
    ensures
        deobfuscated(offs, deobfuscated(offs, data)) == data,
{
    let once = deobfuscated(offs, data);
    let twice = deobfuscated(offs, once);
    assert forall|i: int| 0 <= i < data.len() implies twice[i] == data[i] by {
        let k = keystream_byte(offs, i as nat);
        let x = data[i];
        assert((x ^ k) ^ k == x) by (bit_vector);
    }
    assert(twice =~= data);
}

} // verus!
