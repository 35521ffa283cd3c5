//! Serialization sink for the bytecode codec.

use vstd::prelude::*;
use vstd::utf8::encode_utf8;
use crate::wire::{u32_be_bytes, enc_str, str_len_fits};

verus! {

/// Accumulates the bytes of an encoded instruction stream.
pub struct ByteWriter {
    out: Vec<u8>,
}

impl ByteWriter {
    /// The bytes written so far.
    pub closed spec fn data(&self) -> Seq<u8> {
        self.out@
    }

    pub fn new() -> (w: ByteWriter)
        ensures
            w.data() == Seq::<u8>::empty(),
    {
        let w = ByteWriter { out: Vec::new() };
        proof {
            assert(w.data() =~= Seq::<u8>::empty());
        }
        w
    }

    pub fn write_byte(&mut self, byte: u8)
        ensures
            final(self).data() == old(self).data().push(byte),
    {
        self.out.push(byte);
    }

    pub fn write_bytes(&mut self, bytes: &Vec<u8>)
        ensures
            final(self).data() == old(self).data() + bytes@,
    {
        let n = bytes.len();
        let mut i: usize = 0;
        while i < n
            invariant
                i <= n,
                n == bytes@.len(),
                self.data() == old(self).data() + bytes@.subrange(0, i as int),
            decreases n - i,
        {
            self.out.push(bytes[i]);
            i = i + 1;
            proof {
                assert(old(self).data() + bytes@.subrange(0, i as int)
                    =~= (old(self).data() + bytes@.subrange(0, i - 1)).push(bytes@[i - 1]));
            }
        }
        proof {
            assert(bytes@.subrange(0, n as int) =~= bytes@);
        }
    }

    pub fn write_u32(&mut self, value: u32)
        ensures
            final(self).data() == old(self).data() + u32_be_bytes(value),
    {
        self.out.push(#[verifier::truncate] ((value >> 24) as u8));
        self.out.push(#[verifier::truncate] ((value >> 16) as u8));
        self.out.push(#[verifier::truncate] ((value >> 8) as u8));
        self.out.push(#[verifier::truncate] (value as u8));
        proof {
            assert(self.data() =~= old(self).data() + u32_be_bytes(value));
        }
    }

    pub fn write_i32(&mut self, value: i32)
        ensures
            final(self).data() == old(self).data() + u32_be_bytes(value as u32),
    {
        self.write_u32(#[verifier::truncate] (value as u32));
    }

    pub fn write_bool(&mut self, value: bool)
        ensures
            final(self).data() == old(self).data().push(if value { 1u8 } else { 0u8 }),
    {
        self.out.push(if value { 1 } else { 0 });
    }

    pub fn write_string(&mut self, value: &str)
        requires
            str_len_fits(value@),
        ensures
            final(self).data() == old(self).data() + enc_str(value@),
    {
        let bytes = value.as_bytes_vec();
        self.write_u32(bytes.len() as u32);
        self.write_bytes(&bytes);
        proof {
            assert(self.data() =~= old(self).data() + enc_str(value@));
        }
    }

    /// Hands out the accumulated byte stream.
    pub fn into_bytes(self) -> (r: Vec<u8>)
        ensures
            r@ == self.data(),
    {
        self.out
    }
}

} // verus!
