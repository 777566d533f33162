//! The secondary cipher that some entries carry beneath the container's own
//! obfuscation: Blowfish (big-endian words) in ECB mode, keyed by bytes read
//! from the companion executable, after a fixed mask on the leading block.

use blowfish::cipher::BlockDecrypt;
use vstd::prelude::*;

verus! {

/// Absolute offset of the key material inside the companion executable.
pub const KEY_OFFSET: usize = 0x0039_8EE8;

/// Length of the key material.
pub const KEY_LEN: usize = 64;

/// Length of one cipher block.
pub const BLOCK_LEN: usize = 8;

/// Key material of the secondary cipher, read once from the companion
/// executable.
pub struct CipherKey {
    bytes: Vec<u8>,
}

impl View for CipherKey {
    type V = Seq<u8>;

    closed spec fn view(&self) -> Seq<u8> {
        self.bytes@
    }
}

impl CipherKey {
    #[verifier::type_invariant]
    spec fn inv(self) -> bool {
        self.bytes@.len() == KEY_LEN
    }

    /// Reads the key from the bytes of the companion executable. `None` when
    /// the executable ends before the key does.
    pub fn from_exe(exe: &[u8]) -> (r: Option<CipherKey>)
        ensures
            r is Some <==> KEY_OFFSET + KEY_LEN <= exe@.len(),
            r matches Some(k) ==> k@ == exe@.subrange(KEY_OFFSET as int, KEY_OFFSET + KEY_LEN),
    {
        if exe.len() < KEY_OFFSET + KEY_LEN {
            return None;
        }
        let mut bytes: Vec<u8> = Vec::new();
        let mut i: usize = KEY_OFFSET;
        while i < KEY_OFFSET + KEY_LEN
            invariant
                KEY_OFFSET <= i <= KEY_OFFSET + KEY_LEN,
                KEY_OFFSET + KEY_LEN <= exe@.len(),
                bytes@ == exe@.subrange(KEY_OFFSET as int, i as int),
            decreases KEY_OFFSET + KEY_LEN - i,
        {
            bytes.push(exe[i]);
            assert(exe@.subrange(KEY_OFFSET as int, i + 1) == exe@.subrange(
                KEY_OFFSET as int,
                i as int,
            ).push(exe@[i as int]));
            i = i + 1;
        }
        Some(CipherKey { bytes })
    }
}

/// The mask that was laid over the leading block before encryption.
pub open spec fn head_mask(i: int) -> u8 {
    if i == 0 {
        0x75
    } else if i == 1 {
        0xFA
    } else if i == 2 {
        0x29
    } else if i == 3 {
        0x95
    } else if i == 4 {
        0x05
    } else if i == 5 {
        0x4D
    } else if i == 6 {
        0x41
    } else {
        0x5F
    }
}

fn head_mask_at(i: usize) -> (r: u8)
    requires
        i < BLOCK_LEN,
    ensures
        r == head_mask(i as int),
{
    if i == 0 {
        0x75
    } else if i == 1 {
        0xFA
    } else if i == 2 {
        0x29
    } else if i == 3 {
        0x95
    } else if i == 4 {
        0x05
    } else if i == 5 {
        0x4D
    } else if i == 6 {
        0x41
    } else {
        0x5F
    }
}

/// The payload with the mask on its first eight bytes removed.
pub open spec fn unmasked(data: Seq<u8>) -> Seq<u8> {
    Seq::new(data.len(), |i: int| if i < BLOCK_LEN { data[i] ^ head_mask(i) } else { data[i] })
}

/// What one Blowfish block decryption makes of an 8-byte block under `key`.
pub uninterp spec fn blowfish_decrypt_block(key: Seq<u8>, block: Seq<u8>) -> Seq<u8>;

/// The first `n` blocks of `data`, each decrypted on its own.
pub open spec fn ecb_decrypt(key: Seq<u8>, data: Seq<u8>, n: nat) -> Seq<u8>
    decreases n,
{
    if n == 0 {
        Seq::empty()
    } else {
        ecb_decrypt(key, data, (n - 1) as nat) + blowfish_decrypt_block(
            key,
            data.subrange(BLOCK_LEN * (n - 1), BLOCK_LEN * n),
        )
    }
}

/// The plaintext of a protected payload, or `None` when its length is not a
/// whole number of blocks.
pub open spec fn decrypted_payload(key: Seq<u8>, data: Seq<u8>) -> Option<Seq<u8>> {
    if data.len() % BLOCK_LEN as nat != 0 {
        None
    } else {
        Some(ecb_decrypt(key, unmasked(data), data.len() / BLOCK_LEN as nat))
    }
}

/// Relies on `blowfish::Blowfish` (big-endian words): `bc_init_state` and
/// `bc_expand_key` build the standard key schedule, cycling through a key
/// of any non-empty length, and `BlockDecrypt::decrypt_block` decrypts one
/// 8-byte block in place.
#[verifier::external_body]
fn decrypt_block(key: &[u8], block: &[u8]) -> (r: Vec<u8>)
    requires
        key@.len() > 0,
        block@.len() == BLOCK_LEN,
    ensures
        r@ == blowfish_decrypt_block(key@, block@),
        r@.len() == BLOCK_LEN,
{
    let mut c = blowfish::Blowfish::bc_init_state();
    c.bc_expand_key(key);
    let mut b = blowfish::cipher::generic_array::GenericArray::clone_from_slice(block);
    c.decrypt_block(&mut b);
    b.to_vec()
}

/// Removes the secondary cipher from a payload: unmasks the leading block,
/// then decrypts every 8-byte block on its own. `None` when the payload is
/// not a whole number of blocks.
pub fn decrypt_payload(key: &CipherKey, data: &[u8]) -> (r: Option<Vec<u8>>)
    ensures
        match decrypted_payload(key@, data@) {
            Some(p) => r is Some && r->0@ == p,
            None => r is None,
        },
        r matches Some(p) ==> p@.len() == data@.len(),
{
    proof {
        use_type_invariant(key);
    }
    let n: usize = data.len();
    if n % BLOCK_LEN != 0 {
        return None;
    }
    let mut m: Vec<u8> = Vec::new();
    let mut i: usize = 0;
    while i < n
        invariant
            n == data@.len(),
            i <= n,
            m@ == unmasked(data@).take(i as int),
        decreases n - i,
    {
        let b: u8 = if i < BLOCK_LEN {
            data[i] ^ head_mask_at(i)
        } else {
            data[i]
        };
        m.push(b);
        assert(unmasked(data@).take(i + 1) == unmasked(data@).take(i as int).push(b));
        i = i + 1;
    }
    assert(m@ == unmasked(data@));
    let blocks: usize = n / BLOCK_LEN;
    let mut out: Vec<u8> = Vec::new();
    let mut k: usize = 0;
    while k < blocks
        invariant
            blocks == n / BLOCK_LEN,
            n % BLOCK_LEN == 0,
            m@ == unmasked(data@),
            m@.len() == n,
            key@.len() == KEY_LEN,
            k <= blocks,
            out@ == ecb_decrypt(key@, m@, k as nat),
            out@.len() == BLOCK_LEN * k,
        decreases blocks - k,
    {
        let start: usize = k * BLOCK_LEN;
        let blk = &m.as_slice()[start..start + BLOCK_LEN];
        let mut plain = decrypt_block(key.bytes.as_slice(), blk);
        out.append(&mut plain);
        k = k + 1;
    }
    Some(out)
}

} // verus!
