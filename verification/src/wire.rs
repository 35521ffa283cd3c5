//! The wire format's primitive encodings: multi-byte integers are written in
//! big-endian order, strings as a 32-bit byte length followed by UTF-8 bytes.

use vstd::prelude::*;
use vstd::utf8::encode_utf8;

verus! {

/// The four bytes of `v`, most significant first.
pub open spec fn u32_be_bytes(v: u32) -> Seq<u8> {
    seq![(v >> 24) as u8, (v >> 16) as u8, (v >> 8) as u8, v as u8]
}

/// The `u32` read from four bytes, most significant first.
pub open spec fn u32_of_be(s: Seq<u8>) -> u32
    recommends
        s.len() == 4,
{
    (((s[0] as u32) << 24) | ((s[1] as u32) << 16) | ((s[2] as u32) << 8) | (s[3] as u32)) as u32
}

/// Writing a `u32` and reading it back is the identity.
pub proof fn lemma_u32_be_inverse(v: u32)
    ensures
        u32_of_be(u32_be_bytes(v)) == v,
        u32_be_bytes(v).len() == 4,
{
    let b0 = (v >> 24) as u8;
    let b1 = (v >> 16) as u8;
    let b2 = (v >> 8) as u8;
    let b3 = v as u8;
    assert((((b0 as u32) << 24) | ((b1 as u32) << 16) | ((b2 as u32) << 8) | (b3 as u32)) as u32
        == v) by (bit_vector)
        requires
            b0 == (v >> 24) as u8,
            b1 == (v >> 16) as u8,
            b2 == (v >> 8) as u8,
            b3 == v as u8,
    ;
}

/// True when the UTF-8 encoding of `s` fits the 32-bit length prefix.
pub open spec fn str_len_fits(s: Seq<char>) -> bool {
    encode_utf8(s).len() < 0x1_0000_0000
}

/// A string on the wire: 32-bit byte length, then the UTF-8 bytes.
pub open spec fn enc_str(s: Seq<char>) -> Seq<u8>
    recommends
        str_len_fits(s),
{
    u32_be_bytes(encode_utf8(s).len() as u32) + encode_utf8(s)
}

} // verus!
