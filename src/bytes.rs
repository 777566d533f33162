//! Little-endian integers and NUL-terminated strings inside byte buffers.

use vstd::prelude::*;

verus! {

/// The unsigned 32-bit integer stored little-endian at `pos`.
pub open spec fn u32_le(s: Seq<u8>, pos: int) -> u32 {
    (s[pos] as int + s[pos + 1] as int * 0x100 + s[pos + 2] as int * 0x1_0000 + s[pos + 3] as int
        * 0x100_0000) as u32
}

/// Reads the little-endian `u32` that starts at `pos`.
pub fn get_u32_le(buf: &[u8], pos: usize) -> (r: u32)
    requires
        pos + 4 <= buf@.len(),
    ensures
        r == u32_le(buf@, pos as int),
{
    let b0 = buf[pos] as u32;
    let b1 = buf[pos + 1] as u32;
    let b2 = buf[pos + 2] as u32;
    let b3 = buf[pos + 3] as u32;
    b0 + b1 * 0x100 + b2 * 0x1_0000 + b3 * 0x100_0000
}

/// The index of the first NUL at or after `pos`, if any.
pub open spec fn nul_from(s: Seq<u8>, pos: int) -> Option<int>
    decreases s.len() - pos,
{
    if pos < 0 || pos >= s.len() {
        None
    } else if s[pos] == 0 {
        Some(pos)
    } else {
        nul_from(s, pos + 1)
    }
}

/// The bytes of the NUL-terminated string that starts at `pos`, without the
/// NUL; `None` when no NUL ends it before the buffer does.
pub open spec fn cstr_at(s: Seq<u8>, pos: int) -> Option<Seq<u8>> {
    match nul_from(s, pos) {
        Some(k) => Some(s.subrange(pos, k)),
        None => None,
    }
}

/// Each byte read as the character of the same code point.
pub open spec fn latin1(b: Seq<u8>) -> Seq<char> {
    b.map_values(|x: u8| x as char)
}

/// Relies on `String::push`: appends one character at the end.
#[verifier::external_body]
pub(crate) fn push_char(s: &mut String, c: char)
    ensures
        final(s)@ == old(s)@.push(c),
{
    s.push(c)
}

/// Reads the NUL-terminated string that starts at `pos`, one character per
/// byte. `None` when the buffer ends before a NUL does.
pub fn read_cstr(buf: &[u8], pos: usize) -> (r: Option<String>)
    ensures
        match cstr_at(buf@, pos as int) {
            Some(b) => r is Some && r->0@ == latin1(b),
            None => r is None,
        },
{
    if pos >= buf.len() {
        return None;
    }
    let mut s = String::new();
    let mut i: usize = pos;
    assert(latin1(buf@.subrange(pos as int, pos as int)) =~= s@);
    while i < buf.len()
        invariant
            pos <= i <= buf@.len(),
            nul_from(buf@, pos as int) == nul_from(buf@, i as int),
            s@ == latin1(buf@.subrange(pos as int, i as int)),
        decreases buf@.len() - i,
    {
        let b: u8 = buf[i];
        if b == 0 {
            return Some(s);
        }
        push_char(&mut s, b as char);
        assert(latin1(buf@.subrange(pos as int, i + 1)) =~= latin1(
            buf@.subrange(pos as int, i as int),
        ).push(b as char));
        i = i + 1;
    }
    None
}

} // verus!
