//! Deserialization: reads opcodes and operands back into an instruction tree,
//! with one byte of lookahead for the optional `Else` and `Alias` tails.

use vstd::prelude::*;
use vstd::utf8::{valid_utf8, decode_utf8};
use crate::bytecode::{ByteCode, code_from};
use crate::byte_reader::{ByteReader, string_from_utf8};
use crate::instruction::{Instruction, Code, InstrV, inst_view, code_view, lemma_code_view_push};
use crate::wire::u32_of_be;

verus! {

/// Why a byte stream was rejected.
#[derive(Debug, Clone, Copy, PartialEq, Eq, Structural)]
pub enum DecodeError {
    /// A byte where an opcode was expected has no assignment.
    UnknownOpcode(u8),
    /// The stream ended inside an instruction's operands.
    Truncated,
    /// A string's bytes are not valid UTF-8.
    BadUtf8,
    /// An `Else` tail outside a conditional.
    StrayElse,
    /// An `Alias` tail outside a function import.
    StrayAlias,
}

/// Splits one byte off the front.
pub open spec fn take_u8(b: Seq<u8>) -> Option<(u8, Seq<u8>)> {
    if b.len() >= 1 {
        Some((b[0], b.drop_first()))
    } else {
        None
    }
}

/// Splits a big-endian `u32` off the front.
pub open spec fn take_u32(b: Seq<u8>) -> Option<(u32, Seq<u8>)> {
    if b.len() >= 4 {
        Some((u32_of_be(b.subrange(0, 4)), b.skip(4)))
    } else {
        None
    }
}

/// Splits a length-prefixed UTF-8 string off the front.
pub open spec fn take_str(b: Seq<u8>) -> Result<(Seq<char>, Seq<u8>), DecodeError> {
    match take_u32(b) {
        Option::None => Err(DecodeError::Truncated),
        Option::Some((l, r)) => {
            if l as int > r.len() {
                Err(DecodeError::Truncated)
            } else {
                let body = r.subrange(0, l as int);
                if valid_utf8(body) {
                    Ok((decode_utf8(body), r.skip(l as int)))
                } else {
                    Err(DecodeError::BadUtf8)
                }
            }
        },
    }
}

/// Decodes a `Call`'s operands: module, function, argument count.
pub open spec fn dec_call(r: Seq<u8>) -> Result<(InstrV, Seq<u8>), DecodeError> {
    match take_str(r) {
        Err(e) => Err(e),
        Ok((module, r1)) => match take_str(r1) {
            Err(e) => Err(e),
            Ok((function, r2)) => match take_u32(r2) {
                Option::None => Err(DecodeError::Truncated),
                Option::Some((param_count, r3)) => Ok(
                    (InstrV::Call { module, function, param_count }, r3),
                ),
            },
        },
    }
}

/// Decodes a `GetFunction`'s operands: a name and, after one byte of
/// lookahead, an optional alias.
pub open spec fn dec_getfn(r: Seq<u8>) -> Result<(InstrV, Seq<u8>), DecodeError> {
    match take_str(r) {
        Err(e) => Err(e),
        Ok((name, r1)) => {
            if r1.len() >= 1 && code_from(r1[0]) == Some(ByteCode::Alias) {
                match take_str(r1.drop_first()) {
                    Err(e) => Err(e),
                    Ok((alias, r2)) => Ok((InstrV::GetFunction { name, alias: Some(alias) }, r2)),
                }
            } else {
                Ok((InstrV::GetFunction { name, alias: Option::None }, r1))
            }
        },
    }
}

/// Decodes a `Then`'s framed then-arm and, after one byte of lookahead, an
/// optional framed else-arm.
pub open spec fn dec_then(b: Seq<u8>, r: Seq<u8>) -> Result<(InstrV, Seq<u8>), DecodeError>
    recommends
        r.len() < b.len(),
    decreases b.len(), 0int,
{
    match take_u32(r) {
        Option::None => Err(DecodeError::Truncated),
        Option::Some((l, r1)) => {
            if l as int > r1.len() || r1.len() >= b.len() {
                Err(DecodeError::Truncated)
            } else {
                match dec_code(r1.subrange(0, l as int)) {
                    Err(e) => Err(e),
                    Ok(then_block) => {
                        let r2 = r1.skip(l as int);
                        if r2.len() >= 1 && code_from(r2[0]) == Some(ByteCode::Else) {
                            match take_u32(r2.drop_first()) {
                                Option::None => Err(DecodeError::Truncated),
                                Option::Some((l2, r3)) => {
                                    if l2 as int > r3.len() || r3.len() >= b.len() {
                                        Err(DecodeError::Truncated)
                                    } else {
                                        match dec_code(r3.subrange(0, l2 as int)) {
                                            Err(e) => Err(e),
                                            Ok(else_block) => Ok(
                                                (
                                                    InstrV::Then { then_block, else_block },
                                                    r3.skip(l2 as int),
                                                ),
                                            ),
                                        }
                                    }
                                },
                            }
                        } else {
                            Ok((InstrV::Then { then_block, else_block: Seq::empty() }, r2))
                        }
                    },
                }
            }
        },
    }
}

/// Decodes a `Loop`'s framed body.
pub open spec fn dec_loop(b: Seq<u8>, r: Seq<u8>) -> Result<(InstrV, Seq<u8>), DecodeError>
    recommends
        r.len() < b.len(),
    decreases b.len(), 0int,
{
    match take_u32(r) {
        Option::None => Err(DecodeError::Truncated),
        Option::Some((l, r1)) => {
            if l as int > r1.len() || r1.len() >= b.len() {
                Err(DecodeError::Truncated)
            } else {
                match dec_code(r1.subrange(0, l as int)) {
                    Err(e) => Err(e),
                    Ok(block) => Ok((InstrV::Loop { block }, r1.skip(l as int))),
                }
            }
        },
    }
}

/// Decodes the first instruction of a non-empty stream and returns it with
/// the bytes that follow it.
pub open spec fn dec_one(b: Seq<u8>) -> Result<(InstrV, Seq<u8>), DecodeError>
    recommends
        b.len() >= 1,
    decreases b.len(), 1int,
{
    let r = b.drop_first();
    match code_from(b[0]) {
        Option::None => Err(DecodeError::UnknownOpcode(b[0])),
        Option::Some(op) => match op {
            ByteCode::Nop => Ok((InstrV::Nop, r)),
            ByteCode::Version => {
                if r.len() >= 3 {
                    Ok((InstrV::Version { major: r[0], minor: r[1], patch: r[2] }, r.skip(3)))
                } else {
                    Err(DecodeError::Truncated)
                }
            },
            ByteCode::Dump => Ok((InstrV::Dump, r)),
            ByteCode::Hi => Ok((InstrV::Hi, r)),
            ByteCode::Func => dec_framed(b, r, 0),
            ByteCode::Call => dec_call(r),
            ByteCode::PushConstString => match take_str(r) {
                Err(e) => Err(e),
                Ok((value, r1)) => Ok((InstrV::PushConstString { value }, r1)),
            },
            ByteCode::PushConstInteger => match take_u32(r) {
                Option::None => Err(DecodeError::Truncated),
                Option::Some((v, r1)) => Ok((InstrV::PushConstInteger { value: v as i32 }, r1)),
            },
            ByteCode::PushConstFloat => match take_u32(r) {
                Option::None => Err(DecodeError::Truncated),
                Option::Some((bits, r1)) => Ok((InstrV::PushConstFloat { bits }, r1)),
            },
            ByteCode::PushConstBoolean => match take_u8(r) {
                Option::None => Err(DecodeError::Truncated),
                Option::Some((v, r1)) => Ok((InstrV::PushConstBoolean { value: v != 0 }, r1)),
            },
            ByteCode::GetLocal => match take_u32(r) {
                Option::None => Err(DecodeError::Truncated),
                Option::Some((index, r1)) => Ok((InstrV::GetLocal { index }, r1)),
            },
            ByteCode::SetLocal => match take_u32(r) {
                Option::None => Err(DecodeError::Truncated),
                Option::Some((index, r1)) => Ok((InstrV::SetLocal { index }, r1)),
            },
            ByteCode::ReserveLocal => match take_u32(r) {
                Option::None => Err(DecodeError::Truncated),
                Option::Some((size, r1)) => Ok((InstrV::ReserveLocal { size }, r1)),
            },
            ByteCode::Allocate => match take_u32(r) {
                Option::None => Err(DecodeError::Truncated),
                Option::Some((fields, r1)) => Ok((InstrV::Allocate { fields }, r1)),
            },
            ByteCode::GetField => match take_u32(r) {
                Option::None => Err(DecodeError::Truncated),
                Option::Some((index, r1)) => Ok((InstrV::GetField { index }, r1)),
            },
            ByteCode::SetField => match take_u32(r) {
                Option::None => Err(DecodeError::Truncated),
                Option::Some((index, r1)) => Ok((InstrV::SetField { index }, r1)),
            },
            ByteCode::Pop => Ok((InstrV::Pop, r)),
            ByteCode::Dup => Ok((InstrV::Dup, r)),
            ByteCode::Add => Ok((InstrV::Add, r)),
            ByteCode::Sub => Ok((InstrV::Sub, r)),
            ByteCode::Mul => Ok((InstrV::Mul, r)),
            ByteCode::Div => Ok((InstrV::Div, r)),
            ByteCode::Inc => Ok((InstrV::Inc, r)),
            ByteCode::Dec => Ok((InstrV::Dec, r)),
            ByteCode::Eq => Ok((InstrV::Eq, r)),
            ByteCode::Ne => Ok((InstrV::Ne, r)),
            ByteCode::Lt => Ok((InstrV::Lt, r)),
            ByteCode::Le => Ok((InstrV::Le, r)),
            ByteCode::Gt => Ok((InstrV::Gt, r)),
            ByteCode::Ge => Ok((InstrV::Ge, r)),
            ByteCode::Module => dec_framed(b, r, 1),
            ByteCode::LoadModule => dec_framed(b, r, 2),
            ByteCode::GetFunction => dec_getfn(r),
            ByteCode::Alias => Err(DecodeError::StrayAlias),
            ByteCode::Return => Ok((InstrV::Return, r)),
            ByteCode::Then => dec_then(b, r),
            ByteCode::Else => Err(DecodeError::StrayElse),
            ByteCode::Loop => dec_loop(b, r),
            ByteCode::Break => Ok((InstrV::Break, r)),
            ByteCode::Continue => Ok((InstrV::Continue, r)),
        },
    }
}

/// Decodes the length-framed, named body shared by `Func`, `Module` and
/// `LoadModule`; `which` picks the constructor.
pub open spec fn dec_framed(b: Seq<u8>, r: Seq<u8>, which: int) -> Result<
    (InstrV, Seq<u8>),
    DecodeError,
>
    recommends
        r.len() < b.len(),
    decreases b.len(), 0int,
{
    match take_u32(r) {
        Option::None => Err(DecodeError::Truncated),
        Option::Some((l, r1)) => match take_str(r1) {
            Err(e) => Err(e),
            Ok((name, r2)) => {
                if l as int > r2.len() || r2.len() >= b.len() {
                    Err(DecodeError::Truncated)
                } else {
                    match dec_code(r2.subrange(0, l as int)) {
                        Err(e) => Err(e),
                        Ok(code) => {
                            let rest = r2.skip(l as int);
                            if which == 0 {
                                Ok((InstrV::Fn { name, code }, rest))
                            } else if which == 1 {
                                Ok((InstrV::Module { name, code }, rest))
                            } else {
                                Ok((InstrV::LoadModule { name, code }, rest))
                            }
                        },
                    }
                }
            },
        },
    }
}

/// Decodes a whole stream into an instruction sequence.
pub open spec fn dec_code(b: Seq<u8>) -> Result<Seq<InstrV>, DecodeError>
    decreases b.len(), 2int,
{
    if b.len() == 0 {
        Ok(Seq::empty())
    } else {
        match dec_one(b) {
            Err(e) => Err(e),
            Ok((m, rest)) => {
                if rest.len() < b.len() {
                    match dec_code(rest) {
                        Err(e) => Err(e),
                        Ok(ms) => Ok(seq![m] + ms),
                    }
                } else {
                    Err(DecodeError::Truncated)
                }
            },
        }
    }
}



/// Seq bookkeeping for walking a stream by position.
pub proof fn lemma_skip_parts(s: Seq<u8>, p: int, k: int)
    requires
        0 <= p,
        0 <= k,
        p + k <= s.len(),
    ensures
        s.skip(p).len() == s.len() - p,
        s.skip(p).subrange(0, k) == s.subrange(p, p + k),
        s.skip(p).skip(k) == s.skip(p + k),
        p < s.len() ==> s.skip(p).drop_first() == s.skip(p + 1),
        p < s.len() ==> s.skip(p)[0] == s[p],
{
    assert(s.skip(p).subrange(0, k) =~= s.subrange(p, p + k));
    assert(s.skip(p).skip(k) =~= s.skip(p + k));
    if p < s.len() {
        assert(s.skip(p).drop_first() =~= s.skip(p + 1));
    }
}

/// What a partially decoded stream still owes: the instructions read so far,
/// then whatever the rest decodes to.
pub open spec fn dec_combine(acc: Seq<Instruction>, rem: Seq<u8>) -> Result<
    Seq<InstrV>,
    DecodeError,
> {
    match dec_code(rem) {
        Ok(ms) => Ok(code_view(acc) + ms),
        Err(e) => Err(e),
    }
}

/// One decoded instruction moves from the remainder to the accumulator.
proof fn lemma_dec_step(acc: Seq<Instruction>, inst: Instruction, rem: Seq<u8>, rest: Seq<u8>)
    requires
        rem.len() >= 1,
        dec_one(rem) == Ok::<(InstrV, Seq<u8>), DecodeError>((inst_view(inst), rest)),
        rest.len() < rem.len(),
    ensures
        dec_combine(acc, rem) == dec_combine(acc.push(inst), rest),
{
    lemma_code_view_push(acc, inst);
    match dec_code(rest) {
        Ok(ms) => {
            assert(code_view(acc).push(inst_view(inst)) + ms =~= code_view(acc) + (seq![
                inst_view(inst),
            ] + ms));
        },
        Err(e) => {},
    }
}

/// A failed first instruction fails the whole stream.
proof fn lemma_dec_fail(acc: Seq<Instruction>, rem: Seq<u8>, e: DecodeError)
    requires
        rem.len() >= 1,
        dec_one(rem) == Err::<(InstrV, Seq<u8>), DecodeError>(e),
    ensures
        dec_combine(acc, rem) == Err::<Seq<InstrV>, DecodeError>(e),
{
}


/// Reads one length-prefixed string, reporting the same failure that
/// `take_str` assigns to the bytes at the current position.
fn read_str_step<'a>(reader: &mut ByteReader<'a>) -> (r: Result<String, DecodeError>)
    requires
        old(reader).wf(),
    ensures
        final(reader).wf(),
        final(reader).data() == old(reader).data(),
        final(reader).saved_pos() == old(reader).saved_pos(),
        final(reader).pos() >= old(reader).pos(),
        ({
            let t = old(reader).data().skip(old(reader).pos() as int);
            match r {
                Ok(s) => {
                    &&& take_str(t) == Ok::<(Seq<char>, Seq<u8>), DecodeError>(
                        (s@, final(reader).data().skip(final(reader).pos() as int)),
                    )
                    &&& final(reader).pos() >= old(reader).pos() + 4
                },
                Err(e) => take_str(t) == Err::<(Seq<char>, Seq<u8>), DecodeError>(e),
            }
        }),
{
    let ghost full = reader.data();
    let ghost p0 = reader.pos() as int;
    let ghost t = full.skip(p0);
    proof {
        lemma_skip_parts(full, p0, if full.len() - p0 >= 4 { 4int } else { 0int });
    }
    let length = match reader.read_u32() {
        Some(l) => l,
        None => {
            proof {
                assert(t.len() < 4);
            }
            return Err(DecodeError::Truncated);
        },
    };
    proof {
        assert(t.subrange(0, 4) == full.subrange(p0, p0 + 4));
        assert(take_u32(t) == Some::<(u32, Seq<u8>)>((length, t.skip(4))));
    }
    let ghost p1 = reader.pos() as int;
    let bytes = match reader.read_bytes(length as usize) {
        Some(b) => b,
        None => {
            proof {
                lemma_skip_parts(full, p0, 4);
                assert(t.skip(4) == full.skip(p1));
                assert(length as int > t.skip(4).len());
            }
            return Err(DecodeError::Truncated);
        },
    };
    proof {
        lemma_skip_parts(full, p0, 4);
        assert(t.skip(4) == full.skip(p1));
        lemma_skip_parts(full, p1, length as int);
        assert(bytes@ == t.skip(4).subrange(0, length as int));
        assert(t.skip(4).skip(length as int) == full.skip(p1 + length as int));
    }
    let ghost body = bytes@;
    match string_from_utf8(bytes) {
        Some(s) => {
            proof {
                broadcast use vstd::utf8::encode_utf8_decode_utf8;

                assert(s@ == decode_utf8(body));
            }
            Ok(s)
        },
        None => Err(DecodeError::BadUtf8),
    }
}


impl Instruction {
    /// Decodes a byte stream into an instruction sequence.
    #[verifier::rlimit(100)]
    pub fn from_bytecode(bytecode: &Vec<u8>) -> (r: Result<Code, DecodeError>)
        ensures
            ({
                let d = dec_code(bytecode@);
                match r {
                    Ok(c) => d == Ok::<Seq<InstrV>, DecodeError>(code_view(c@)),
                    Err(e) => d == Err::<Seq<InstrV>, DecodeError>(e),
                }
            }),
        decreases bytecode@.len(),
    {
        let ghost full = bytecode@;
        let mut code: Code = Vec::new();
        let mut reader = ByteReader::new(bytecode);
        proof {
            assert(full.skip(0) =~= full);
            assert(code_view(code@) =~= Seq::<InstrV>::empty());
        }
        loop
            invariant
                reader.wf(),
                reader.data() == full,
                full == bytecode@,
                dec_code(full) == dec_combine(code@, full.skip(reader.pos() as int)),
            decreases full.len() - reader.pos(),
        {
            let ghost acc0 = code@;
            let ghost pos0 = reader.pos() as int;
            let ghost rem = full.skip(pos0);
            let byte = match reader.read_byte() {
                Some(b) => b,
                None => {
                    proof {
                        assert(rem =~= Seq::<u8>::empty());
                        assert(code_view(code@) + Seq::<InstrV>::empty() =~= code_view(code@));
                    }
                    return Ok(code);
                },
            };
            proof {
                lemma_skip_parts(full, pos0, 1);
            }
            let ghost r1s = rem.drop_first();
            let op = match ByteCode::from_u8(byte) {
                Some(op) => op,
                None => {
                    proof {
                        lemma_dec_fail(acc0, rem, DecodeError::UnknownOpcode(byte));
                    }
                    return Err(DecodeError::UnknownOpcode(byte));
                },
            };
            let inst: Instruction = match op {
                ByteCode::Nop => Instruction::Nop,
                ByteCode::Dump => Instruction::Dump,
                ByteCode::Hi => Instruction::Hi,
                ByteCode::Pop => Instruction::Pop,
                ByteCode::Dup => Instruction::Dup,
                ByteCode::Add => Instruction::Add,
                ByteCode::Sub => Instruction::Sub,
                ByteCode::Mul => Instruction::Mul,
                ByteCode::Div => Instruction::Div,
                ByteCode::Inc => Instruction::Inc,
                ByteCode::Dec => Instruction::Dec,
                ByteCode::Eq => Instruction::Eq,
                ByteCode::Ne => Instruction::Ne,
                ByteCode::Lt => Instruction::Lt,
                ByteCode::Le => Instruction::Le,
                ByteCode::Gt => Instruction::Gt,
                ByteCode::Ge => Instruction::Ge,
                ByteCode::Return => Instruction::Return,
                ByteCode::Break => Instruction::Break,
                ByteCode::Continue => Instruction::Continue,
                ByteCode::Version => {
                    let major = match reader.read_byte() {
                        Some(b) => b,
                        None => {
                            proof {
                                lemma_dec_fail(acc0, rem, DecodeError::Truncated);
                            }
                            return Err(DecodeError::Truncated);
                        },
                    };
                    let minor = match reader.read_byte() {
                        Some(b) => b,
                        None => {
                            proof {
                                lemma_dec_fail(acc0, rem, DecodeError::Truncated);
                            }
                            return Err(DecodeError::Truncated);
                        },
                    };
                    let patch = match reader.read_byte() {
                        Some(b) => b,
                        None => {
                            proof {
                                lemma_dec_fail(acc0, rem, DecodeError::Truncated);
                            }
                            return Err(DecodeError::Truncated);
                        },
                    };
                    proof {
                        assert(r1s.len() >= 3);
                        assert(r1s[0] == full[pos0 + 1] && r1s[1] == full[pos0 + 2] && r1s[2]
                            == full[pos0 + 3]);
                        assert(r1s.skip(3) =~= full.skip(pos0 + 4));
                    }
                    Instruction::Version { major, minor, patch }
                },
                ByteCode::GetLocal
                | ByteCode::SetLocal
                | ByteCode::ReserveLocal
                | ByteCode::Allocate
                | ByteCode::GetField
                | ByteCode::SetField => {
                    let operand = match reader.read_u32() {
                        Some(v) => v,
                        None => {
                            proof {
                                assert(r1s.len() < 4);
                                lemma_dec_fail(acc0, rem, DecodeError::Truncated);
                            }
                            return Err(DecodeError::Truncated);
                        },
                    };
                    proof {
                        lemma_skip_parts(full, pos0 + 1, 4);
                        assert(r1s.subrange(0, 4) == full.subrange(pos0 + 1, pos0 + 5));
                        assert(r1s.skip(4) == full.skip(pos0 + 5));
                    }
                    match op {
                        ByteCode::GetLocal => Instruction::GetLocal { index: operand },
                        ByteCode::SetLocal => Instruction::SetLocal { index: operand },
                        ByteCode::ReserveLocal => Instruction::ReserveLocal { size: operand },
                        ByteCode::Allocate => Instruction::Allocate { fields: operand },
                        ByteCode::GetField => Instruction::GetField { index: operand },
                        _ => Instruction::SetField { index: operand },
                    }
                },
                ByteCode::PushConstInteger => {
                    let value = match reader.read_i32() {
                        Some(v) => v,
                        None => {
                            proof {
                                assert(r1s.len() < 4);
                                lemma_dec_fail(acc0, rem, DecodeError::Truncated);
                            }
                            return Err(DecodeError::Truncated);
                        },
                    };
                    proof {
                        lemma_skip_parts(full, pos0 + 1, 4);
                        assert(r1s.subrange(0, 4) == full.subrange(pos0 + 1, pos0 + 5));
                        assert(r1s.skip(4) == full.skip(pos0 + 5));
                    }
                    Instruction::PushConstInteger { value }
                },
                ByteCode::PushConstFloat => {
                    let bits = match reader.read_u32() {
                        Some(v) => v,
                        None => {
                            proof {
                                assert(r1s.len() < 4);
                                lemma_dec_fail(acc0, rem, DecodeError::Truncated);
                            }
                            return Err(DecodeError::Truncated);
                        },
                    };
                    proof {
                        lemma_skip_parts(full, pos0 + 1, 4);
                        assert(r1s.subrange(0, 4) == full.subrange(pos0 + 1, pos0 + 5));
                        assert(r1s.skip(4) == full.skip(pos0 + 5));
                    }
                    Instruction::PushConstFloat { bits }
                },
                ByteCode::PushConstBoolean => {
                    let value = match reader.read_bool() {
                        Some(v) => v,
                        None => {
                            proof {
                                assert(r1s.len() < 1);
                                lemma_dec_fail(acc0, rem, DecodeError::Truncated);
                            }
                            return Err(DecodeError::Truncated);
                        },
                    };
                    proof {
                        lemma_skip_parts(full, pos0 + 1, 1);
                        assert(r1s[0] == full[pos0 + 1]);
                        assert(r1s.drop_first() == full.skip(pos0 + 2));
                    }
                    Instruction::PushConstBoolean { value }
                },
                ByteCode::PushConstString => {
                    let value = match read_str_step(&mut reader) {
                        Ok(s) => s,
                        Err(e) => {
                            proof {
                                lemma_dec_fail(acc0, rem, e);
                            }
                            return Err(e);
                        },
                    };
                    Instruction::PushConstString { value }
                },
                ByteCode::Call => {
                    let module = match read_str_step(&mut reader) {
                        Ok(s) => s,
                        Err(e) => {
                            proof {
                                lemma_dec_fail(acc0, rem, e);
                            }
                            return Err(e);
                        },
                    };
                    let function = match read_str_step(&mut reader) {
                        Ok(s) => s,
                        Err(e) => {
                            proof {
                                lemma_dec_fail(acc0, rem, e);
                            }
                            return Err(e);
                        },
                    };
                    let ghost posP = reader.pos() as int;
                    let param_count = match reader.read_u32() {
                        Some(v) => v,
                        None => {
                            proof {
                                lemma_skip_parts(full, posP, 0);
                                lemma_dec_fail(acc0, rem, DecodeError::Truncated);
                            }
                            return Err(DecodeError::Truncated);
                        },
                    };
                    proof {
                        lemma_skip_parts(full, posP, 4);
                        assert(full.skip(posP).subrange(0, 4) == full.subrange(posP, posP + 4));
                        assert(full.skip(posP).skip(4) == full.skip(posP + 4));
                    }
                    Instruction::Call { module, function, param_count }
                },
                ByteCode::Func | ByteCode::Module | ByteCode::LoadModule => {
                    let length = match reader.read_u32() {
                        Some(v) => v,
                        None => {
                            proof {
                                assert(r1s.len() < 4);
                                lemma_dec_fail(acc0, rem, DecodeError::Truncated);
                            }
                            return Err(DecodeError::Truncated);
                        },
                    };
                    proof {
                        lemma_skip_parts(full, pos0 + 1, 4);
                        assert(r1s.subrange(0, 4) == full.subrange(pos0 + 1, pos0 + 5));
                        assert(r1s.skip(4) == full.skip(pos0 + 5));
                    }
                    let name = match read_str_step(&mut reader) {
                        Ok(s) => s,
                        Err(e) => {
                            proof {
                                lemma_dec_fail(acc0, rem, e);
                            }
                            return Err(e);
                        },
                    };
                    let ghost posB = reader.pos() as int;
                    let body = match reader.read_bytes(length as usize) {
                        Some(b) => b,
                        None => {
                            proof {
                                lemma_skip_parts(full, posB, 0);
                                lemma_dec_fail(acc0, rem, DecodeError::Truncated);
                            }
                            return Err(DecodeError::Truncated);
                        },
                    };
                    proof {
                        lemma_skip_parts(full, posB, length as int);
                        assert(full.skip(posB).subrange(0, length as int) == full.subrange(
                            posB,
                            posB + length as int,
                        ));
                        assert(body@ == full.skip(posB).subrange(0, length as int));
                        assert(full.skip(posB).skip(length as int) == full.skip(
                            posB + length as int,
                        ));
                        assert(body@.len() < bytecode@.len());
                    }
                    let sub = match Instruction::from_bytecode(&body) {
                        Ok(c) => c,
                        Err(e) => {
                            proof {
                                lemma_dec_fail(acc0, rem, e);
                            }
                            return Err(e);
                        },
                    };
                    match op {
                        ByteCode::Func => Instruction::Fn { name, code: sub },
                        ByteCode::Module => Instruction::Module { name, code: sub },
                        _ => Instruction::LoadModule { name, code: sub },
                    }
                },
                ByteCode::GetFunction => {
                    let name = match read_str_step(&mut reader) {
                        Ok(s) => s,
                        Err(e) => {
                            proof {
                                lemma_dec_fail(acc0, rem, e);
                            }
                            return Err(e);
                        },
                    };
                    let ghost posN = reader.pos() as int;
                    let ghost r2s = full.skip(posN);
                    reader.save_position();
                    let lookahead = reader.read_byte();
                    proof {
                        lemma_skip_parts(full, posN, 0);
                    }
                    let take_alias = match lookahead {
                        Some(b2) => match ByteCode::from_u8(b2) {
                            Some(ByteCode::Alias) => true,
                            _ => false,
                        },
                        None => false,
                    };
                    if take_alias {
                        proof {
                            assert(r2s[0] == full[posN]);
                            assert(r2s.drop_first() == full.skip(posN + 1));
                        }
                        let alias = match read_str_step(&mut reader) {
                            Ok(s) => s,
                            Err(e) => {
                                proof {
                                    lemma_dec_fail(acc0, rem, e);
                                }
                                return Err(e);
                            },
                        };
                        Instruction::GetFunction { name, alias: Some(alias) }
                    } else {
                        reader.restore_position();
                        proof {
                            if r2s.len() >= 1 {
                                assert(r2s[0] == full[posN]);
                            }
                        }
                        Instruction::GetFunction { name, alias: None }
                    }
                },
                ByteCode::Then => {
                    let length = match reader.read_u32() {
                        Some(v) => v,
                        None => {
                            proof {
                                assert(r1s.len() < 4);
                                lemma_dec_fail(acc0, rem, DecodeError::Truncated);
                            }
                            return Err(DecodeError::Truncated);
                        },
                    };
                    proof {
                        lemma_skip_parts(full, pos0 + 1, 4);
                        assert(r1s.subrange(0, 4) == full.subrange(pos0 + 1, pos0 + 5));
                        assert(r1s.skip(4) == full.skip(pos0 + 5));
                    }
                    let ghost posB = reader.pos() as int;
                    let then_bytes = match reader.read_bytes(length as usize) {
                        Some(b) => b,
                        None => {
                            proof {
                                lemma_skip_parts(full, posB, 0);
                                lemma_dec_fail(acc0, rem, DecodeError::Truncated);
                            }
                            return Err(DecodeError::Truncated);
                        },
                    };
                    proof {
                        lemma_skip_parts(full, posB, length as int);
                        assert(then_bytes@ == full.skip(posB).subrange(0, length as int));
                        assert(full.skip(posB).skip(length as int) == full.skip(
                            posB + length as int,
                        ));
                        assert(then_bytes@.len() < bytecode@.len());
                    }
                    let then_code = match Instruction::from_bytecode(&then_bytes) {
                        Ok(c) => c,
                        Err(e) => {
                            proof {
                                lemma_dec_fail(acc0, rem, e);
                            }
                            return Err(e);
                        },
                    };
                    let ghost posT = reader.pos() as int;
                    let ghost r3s = full.skip(posT);
                    reader.save_position();
                    let lookahead = reader.read_byte();
                    proof {
                        lemma_skip_parts(full, posT, 0);
                    }
                    let take_else = match lookahead {
                        Some(b2) => match ByteCode::from_u8(b2) {
                            Some(ByteCode::Else) => true,
                            _ => false,
                        },
                        None => false,
                    };
                    if take_else {
                        proof {
                            assert(r3s[0] == full[posT]);
                            assert(r3s.drop_first() == full.skip(posT + 1));
                        }
                        let length2 = match reader.read_u32() {
                            Some(v) => v,
                            None => {
                                proof {
                                    lemma_skip_parts(full, posT + 1, 0);
                                    lemma_dec_fail(acc0, rem, DecodeError::Truncated);
                                }
                                return Err(DecodeError::Truncated);
                            },
                        };
                        proof {
                            lemma_skip_parts(full, posT + 1, 4);
                            assert(full.skip(posT + 1).subrange(0, 4) == full.subrange(
                                posT + 1,
                                posT + 5,
                            ));
                            assert(full.skip(posT + 1).skip(4) == full.skip(posT + 5));
                        }
                        let ghost posE = reader.pos() as int;
                        let else_bytes = match reader.read_bytes(length2 as usize) {
                            Some(b) => b,
                            None => {
                                proof {
                                    lemma_skip_parts(full, posE, 0);
                                    lemma_dec_fail(acc0, rem, DecodeError::Truncated);
                                }
                                return Err(DecodeError::Truncated);
                            },
                        };
                        proof {
                            lemma_skip_parts(full, posE, length2 as int);
                            assert(else_bytes@ == full.skip(posE).subrange(0, length2 as int));
                            assert(full.skip(posE).skip(length2 as int) == full.skip(
                                posE + length2 as int,
                            ));
                            assert(else_bytes@.len() < bytecode@.len());
                        }
                        let else_code = match Instruction::from_bytecode(&else_bytes) {
                            Ok(c) => c,
                            Err(e) => {
                                proof {
                                    lemma_dec_fail(acc0, rem, e);
                                }
                                return Err(e);
                            },
                        };
                        Instruction::Then { then_block: then_code, else_block: else_code }
                    } else {
                        reader.restore_position();
                        proof {
                            if r3s.len() >= 1 {
                                assert(r3s[0] == full[posT]);
                            }
                            assert(code_view(Seq::<Instruction>::empty()) =~= Seq::<
                                InstrV,
                            >::empty());
                        }
                        Instruction::Then { then_block: then_code, else_block: Vec::new() }
                    }
                },
                ByteCode::Loop => {
                    let length = match reader.read_u32() {
                        Some(v) => v,
                        None => {
                            proof {
                                assert(r1s.len() < 4);
                                lemma_dec_fail(acc0, rem, DecodeError::Truncated);
                            }
                            return Err(DecodeError::Truncated);
                        },
                    };
                    proof {
                        lemma_skip_parts(full, pos0 + 1, 4);
                        assert(r1s.subrange(0, 4) == full.subrange(pos0 + 1, pos0 + 5));
                        assert(r1s.skip(4) == full.skip(pos0 + 5));
                    }
                    let ghost posB = reader.pos() as int;
                    let body = match reader.read_bytes(length as usize) {
                        Some(b) => b,
                        None => {
                            proof {
                                lemma_skip_parts(full, posB, 0);
                                lemma_dec_fail(acc0, rem, DecodeError::Truncated);
                            }
                            return Err(DecodeError::Truncated);
                        },
                    };
                    proof {
                        lemma_skip_parts(full, posB, length as int);
                        assert(body@ == full.skip(posB).subrange(0, length as int));
                        assert(full.skip(posB).skip(length as int) == full.skip(
                            posB + length as int,
                        ));
                        assert(body@.len() < bytecode@.len());
                    }
                    let block = match Instruction::from_bytecode(&body) {
                        Ok(c) => c,
                        Err(e) => {
                            proof {
                                lemma_dec_fail(acc0, rem, e);
                            }
                            return Err(e);
                        },
                    };
                    Instruction::Loop { block }
                },
                ByteCode::Alias => {
                    proof {
                        lemma_dec_fail(acc0, rem, DecodeError::StrayAlias);
                    }
                    return Err(DecodeError::StrayAlias);
                },
                ByteCode::Else => {
                    proof {
                        lemma_dec_fail(acc0, rem, DecodeError::StrayElse);
                    }
                    return Err(DecodeError::StrayElse);
                },
            };
            proof {
                assert(dec_one(rem) == Ok::<(InstrV, Seq<u8>), DecodeError>(
                    (inst_view(inst), full.skip(reader.pos() as int)),
                ));
                lemma_skip_parts(full, reader.pos() as int, 0);
                lemma_dec_step(acc0, inst, rem, full.skip(reader.pos() as int));
            }
            code.push(inst);
        }
    }
}

} // verus!
