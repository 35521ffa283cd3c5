//! Deserialization source for the bytecode codec, with one saved position for
//! the decoder's lookahead.

use vstd::prelude::*;
use vstd::utf8::{valid_utf8, decode_utf8, encode_utf8, encode_utf8_decode_utf8};
use crate::wire::u32_of_be;

verus! {

/// Walks a byte stream from front to back.
pub struct ByteReader<'a> {
    source: &'a Vec<u8>,
    position: usize,
    saved: usize,
}

/// Relies on `String::from_utf8`: it returns `Ok` exactly on valid UTF-8, and
/// the returned string's bytes are the input bytes.
#[verifier::external_body]
pub(crate) fn string_from_utf8(bytes: Vec<u8>) -> (r: Option<String>)
    ensures
        r is Some <==> valid_utf8(bytes@),
        r matches Some(s) ==> encode_utf8(s@) == bytes@,
{
    String::from_utf8(bytes).ok()
}

impl<'a> ByteReader<'a> {
    /// The whole stream being read.
    pub closed spec fn data(&self) -> Seq<u8> {
        self.source@
    }

    /// How many bytes have been consumed.
    pub closed spec fn pos(&self) -> nat {
        self.position as nat
    }

    /// The position remembered by `save_position`.
    pub closed spec fn saved_pos(&self) -> nat {
        self.saved as nat
    }

    /// Positions never point past the end of the stream.
    pub open spec fn wf(&self) -> bool {
        self.pos() <= self.data().len() && self.saved_pos() <= self.data().len()
    }

    pub fn new(source: &'a Vec<u8>) -> (r: ByteReader<'a>)
        ensures
            r.wf(),
            r.data() == source@,
            r.pos() == 0,
            r.saved_pos() == 0,
    {
        ByteReader { source, position: 0, saved: 0 }
    }

    /// Remembers the current position so that lookahead can be undone.
    pub fn save_position(&mut self)
        requires
            old(self).wf(),
        ensures
            final(self).wf(),
            final(self).data() == old(self).data(),
            final(self).pos() == old(self).pos(),
            final(self).saved_pos() == old(self).pos(),
    {
        self.saved = self.position;
    }

    /// Rewinds to the position remembered by `save_position`.
    pub fn restore_position(&mut self)
        requires
            old(self).wf(),
        ensures
            final(self).wf(),
            final(self).data() == old(self).data(),
            final(self).pos() == old(self).saved_pos(),
            final(self).saved_pos() == old(self).saved_pos(),
    {
        self.position = self.saved;
    }

    pub fn read_byte(&mut self) -> (r: Option<u8>)
        requires
            old(self).wf(),
        ensures
            final(self).wf(),
            final(self).data() == old(self).data(),
            final(self).saved_pos() == old(self).saved_pos(),
            old(self).pos() + 1 <= old(self).data().len() ==> {
                &&& r == Some(old(self).data()[old(self).pos() as int])
                &&& final(self).pos() == old(self).pos() + 1
            },
            old(self).pos() + 1 > old(self).data().len() ==> {
                &&& r is None
                &&& final(self).pos() == old(self).pos()
            },
    {
        if self.position < self.source.len() {
            let byte = self.source[self.position];
            self.position = self.position + 1;
            Some(byte)
        } else {
            None
        }
    }

    pub fn read_bytes(&mut self, count: usize) -> (r: Option<Vec<u8>>)
        requires
            old(self).wf(),
        ensures
            final(self).wf(),
            final(self).data() == old(self).data(),
            final(self).saved_pos() == old(self).saved_pos(),
            old(self).pos() + count <= old(self).data().len() ==> {
                &&& r matches Some(v) && v@ == old(self).data().subrange(
                    old(self).pos() as int,
                    old(self).pos() + count,
                )
                &&& final(self).pos() == old(self).pos() + count
            },
            old(self).pos() + count > old(self).data().len() ==> {
                &&& r is None
                &&& final(self).pos() == old(self).pos()
            },
    {
        let n = self.source.len();
        if count <= n - self.position {
            let mut bytes: Vec<u8> = Vec::new();
            let start = self.position;
            let mut i: usize = 0;
            while i < count
                invariant
                    i <= count,
                    n == self.source@.len(),
                    start + count <= n,
                    self.position == start,
                    self.source@ == old(self).data(),
                    self.saved == old(self).saved_pos(),
                    bytes@ == self.source@.subrange(start as int, start + i),
                decreases count - i,
            {
                bytes.push(self.source[start + i]);
                i = i + 1;
                proof {
                    assert(self.source@.subrange(start as int, start + i)
                        =~= self.source@.subrange(start as int, start + i - 1).push(
                        self.source@[start + i - 1]));
                }
            }
            self.position = self.position + count;
            Some(bytes)
        } else {
            None
        }
    }

    pub fn read_u32(&mut self) -> (r: Option<u32>)
        requires
            old(self).wf(),
        ensures
            final(self).wf(),
            final(self).data() == old(self).data(),
            final(self).saved_pos() == old(self).saved_pos(),
            old(self).pos() + 4 <= old(self).data().len() ==> {
                &&& r == Some(u32_of_be(old(self).data().subrange(
                    old(self).pos() as int,
                    old(self).pos() as int + 4,
                )))
                &&& final(self).pos() == old(self).pos() + 4
            },
            old(self).pos() + 4 > old(self).data().len() ==> {
                &&& r is None
                &&& final(self).pos() == old(self).pos()
            },
    {
        let bytes = match self.read_bytes(4) {
            Some(b) => b,
            None => {
                return None;
            },
        };
        let v = ((bytes[0] as u32) << 24) | ((bytes[1] as u32) << 16) | ((bytes[2] as u32) << 8)
            | (bytes[3] as u32);
        Some(v)
    }

    pub fn read_i32(&mut self) -> (r: Option<i32>)
        requires
            old(self).wf(),
        ensures
            final(self).wf(),
            final(self).data() == old(self).data(),
            final(self).saved_pos() == old(self).saved_pos(),
            old(self).pos() + 4 <= old(self).data().len() ==> {
                &&& r == Some(u32_of_be(old(self).data().subrange(
                    old(self).pos() as int,
                    old(self).pos() as int + 4,
                )) as i32)
                &&& final(self).pos() == old(self).pos() + 4
            },
            old(self).pos() + 4 > old(self).data().len() ==> {
                &&& r is None
                &&& final(self).pos() == old(self).pos()
            },
    {
        match self.read_u32() {
            Some(v) => Some(#[verifier::truncate] (v as i32)),
            None => None,
        }
    }

    pub fn read_bool(&mut self) -> (r: Option<bool>)
        requires
            old(self).wf(),
        ensures
            final(self).wf(),
            final(self).data() == old(self).data(),
            final(self).saved_pos() == old(self).saved_pos(),
            old(self).pos() + 1 <= old(self).data().len() ==> {
                &&& r == Some(old(self).data()[old(self).pos() as int] != 0)
                &&& final(self).pos() == old(self).pos() + 1
            },
            old(self).pos() + 1 > old(self).data().len() ==> {
                &&& r is None
                &&& final(self).pos() == old(self).pos()
            },
    {
        match self.read_byte() {
            Some(b) => Some(b != 0),
            None => None,
        }
    }

    /// Reads a 32-bit byte length, that many bytes, and decodes them as UTF-8.
    pub fn read_string(&mut self) -> (r: Option<String>)
        requires
            old(self).wf(),
        ensures
            final(self).wf(),
            final(self).data() == old(self).data(),
            final(self).saved_pos() == old(self).saved_pos(),
            ({
                let d = old(self).data();
                let p = old(self).pos() as int;
                if p + 4 > d.len() {
                    r is None && final(self).pos() == p
                } else {
                    let l = u32_of_be(d.subrange(p, p + 4)) as int;
                    if p + 4 + l > d.len() {
                        r is None && final(self).pos() == p + 4
                    } else {
                        let body = d.subrange(p + 4, p + 4 + l);
                        if valid_utf8(body) {
                            &&& r matches Some(s) && s@ == decode_utf8(body)
                            &&& final(self).pos() == p + 4 + l
                        } else {
                            r is None && final(self).pos() == p + 4 + l
                        }
                    }
                }
            }),
    {
        let length = match self.read_u32() {
            Some(l) => l,
            None => {
                return None;
            },
        };
        let bytes = match self.read_bytes(length as usize) {
            Some(b) => b,
            None => {
                return None;
            },
        };
        let ghost body = bytes@;
        let s = string_from_utf8(bytes);
        proof {
            if valid_utf8(body) {
                broadcast use encode_utf8_decode_utf8;

                assert(s matches Some(t) ==> t@ == decode_utf8(body));
            }
        }
        s
    }
}

} // verus!
