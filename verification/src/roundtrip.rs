//! The codec round-trip law: decoding an encoded instruction tree yields the
//! tree back, structurally unchanged.

use vstd::prelude::*;
use vstd::utf8::{encode_utf8, encode_utf8_valid_utf8, encode_utf8_decode_utf8};
use crate::bytecode::{ByteCode, code_of, code_from};
use crate::decode::{dec_code, dec_one, dec_framed, dec_then, take_u32, take_str, DecodeError};
use crate::encode::{enc_inst, enc_code, inst_encodable, code_encodable};
use crate::instruction::{InstrV, inst_size, code_size};
use crate::wire::{u32_be_bytes, enc_str, str_len_fits, lemma_u32_be_inverse};

verus! {

proof fn lemma_inst_size_pos(m: InstrV)
    ensures
        inst_size(m) >= 2,
{
}

/// A byte other than the two tail bytes never reads back as `Else` or
/// `Alias`.
proof fn lemma_code_from_ne(x: u8)
    requires
        x != code_of(ByteCode::Else),
        x != code_of(ByteCode::Alias),
    ensures
        code_from(x) != Some(ByteCode::Else),
        code_from(x) != Some(ByteCode::Alias),
{
}

/// The bytes after an encoded instruction do not begin with a lookahead tail
/// byte.
pub open spec fn no_tail_start(t: Seq<u8>) -> bool {
    t.len() == 0 || (code_from(t[0]) != Some(ByteCode::Else) && code_from(t[0]) != Some(
        ByteCode::Alias,
    ))
}

/// An encoded instruction is never empty and never starts with the `Else` or
/// `Alias` tail bytes, so lookahead always stops at an instruction boundary.
proof fn lemma_enc_first(m: InstrV)
    ensures
        enc_inst(m).len() >= 1,
        enc_inst(m)[0] != code_of(ByteCode::Else),
        enc_inst(m)[0] != code_of(ByteCode::Alias),
{
}

/// Reading a `u32` off an encoding it prefixes gives it back.
proof fn lemma_take_u32_enc(v: u32, t: Seq<u8>)
    ensures
        take_u32(u32_be_bytes(v) + t) == Some::<(u32, Seq<u8>)>((v, t)),
{
    lemma_u32_be_inverse(v);
    let b = u32_be_bytes(v) + t;
    assert(b.subrange(0, 4) =~= u32_be_bytes(v));
    assert(b.skip(4) =~= t);
}

/// Reading a string off an encoding it prefixes gives it back.
proof fn lemma_take_str_enc(s: Seq<char>, t: Seq<u8>)
    requires
        str_len_fits(s),
    ensures
        take_str(enc_str(s) + t) == Ok::<(Seq<char>, Seq<u8>), DecodeError>((s, t)),
{
    broadcast use encode_utf8_valid_utf8, encode_utf8_decode_utf8;

    let bytes = encode_utf8(s);
    let l = bytes.len() as u32;
    assert(l as int == bytes.len());
    let b = enc_str(s) + t;
    assert(b =~= u32_be_bytes(l) + (bytes + t));
    lemma_take_u32_enc(l, bytes + t);
    assert((bytes + t).subrange(0, l as int) =~= bytes);
    assert((bytes + t).skip(l as int) =~= t);
}

/// A framed body preceded by its 32-bit length decodes back to its code.
proof fn lemma_block_body(code: Seq<InstrV>, t: Seq<u8>)
    requires
        code_encodable(code),
        enc_code(code).len() < 0x1_0000_0000,
    ensures
        ({
            let body = enc_code(code);
            let l = body.len() as u32;
            &&& l as int == body.len()
            &&& take_u32(u32_be_bytes(l) + (body + t)) == Some::<(u32, Seq<u8>)>((l, body + t))
            &&& (body + t).subrange(0, l as int) == body
            &&& (body + t).skip(l as int) == t
            &&& dec_code(body) == Ok::<Seq<InstrV>, DecodeError>(code)
        }),
    decreases code_size(code), 2int,
{
    let body = enc_code(code);
    let l = body.len() as u32;
    lemma_take_u32_enc(l, body + t);
    assert((body + t).subrange(0, l as int) =~= body);
    assert((body + t).skip(l as int) =~= t);
    lemma_dec_enc_code(code);
}

/// The pieces of a framed, named body: the length, the name, then the body,
/// each reading back to what was written.
proof fn lemma_framed_parts(name: Seq<char>, code: Seq<InstrV>, t: Seq<u8>)
    requires
        str_len_fits(name),
        code_encodable(code),
        enc_code(code).len() < 0x1_0000_0000,
    ensures
        ({
            let body = enc_code(code);
            let l = body.len() as u32;
            &&& l as int == body.len()
            &&& take_u32(u32_be_bytes(l) + (enc_str(name) + (body + t))) == Some::<
                (u32, Seq<u8>),
            >((l, enc_str(name) + (body + t)))
            &&& take_str(enc_str(name) + (body + t)) == Ok::<(Seq<char>, Seq<u8>), DecodeError>(
                (name, body + t),
            )
            &&& (body + t).subrange(0, l as int) == body
            &&& (body + t).skip(l as int) == t
            &&& dec_code(body) == Ok::<Seq<InstrV>, DecodeError>(code)
        }),
    decreases code_size(code), 3int,
{
    let body = enc_code(code);
    let l = body.len() as u32;
    lemma_block_body(code, t);
    lemma_take_u32_enc(l, enc_str(name) + (body + t));
    lemma_take_str_enc(name, body + t);
}

/// A framed, named body reads back through `dec_framed` to the constructor
/// that `which` picks.
#[verifier::rlimit(100)]
proof fn lemma_dec_framed_enc(b: Seq<u8>, name: Seq<char>, code: Seq<InstrV>, t: Seq<u8>, which: int)
    requires
        str_len_fits(name),
        code_encodable(code),
        enc_code(code).len() < 0x1_0000_0000,
        ({
            let body = enc_code(code);
            let r = u32_be_bytes(body.len() as u32) + (enc_str(name) + (body + t));
            r.len() < b.len()
        }),
    ensures
        ({
            let body = enc_code(code);
            let r = u32_be_bytes(body.len() as u32) + (enc_str(name) + (body + t));
            dec_framed(b, r, which) == Ok::<(InstrV, Seq<u8>), DecodeError>(
                (
                    if which == 0 {
                        InstrV::Fn { name, code }
                    } else if which == 1 {
                        InstrV::Module { name, code }
                    } else {
                        InstrV::LoadModule { name, code }
                    },
                    t,
                ),
            )
        }),
    decreases code_size(code), 4int,
{
    lemma_framed_parts(name, code, t);
}

/// The `Fn` case: a length, a name, then the body.
#[verifier::rlimit(100)]
proof fn lemma_dec_fn(m: InstrV, name: Seq<char>, code: Seq<InstrV>, t: Seq<u8>)
    requires
        inst_encodable(m),
        m == (InstrV::Fn { name, code }),
        no_tail_start(t),
    ensures
        dec_one(enc_inst(m) + t) == Ok::<(InstrV, Seq<u8>), DecodeError>((m, t)),
    decreases code_size(code), 5int,
{
    let b = enc_inst(m) + t;
    let body = enc_code(code);
    let l = body.len() as u32;
    let r = b.drop_first();
    assert(r =~= u32_be_bytes(l) + (enc_str(name) + (body + t)));
    lemma_dec_framed_enc(b, name, code, t, 0);
}

/// The `Module` case: a length, a name, then the body.
#[verifier::rlimit(100)]
proof fn lemma_dec_module(m: InstrV, name: Seq<char>, code: Seq<InstrV>, t: Seq<u8>)
    requires
        inst_encodable(m),
        m == (InstrV::Module { name, code }),
        no_tail_start(t),
    ensures
        dec_one(enc_inst(m) + t) == Ok::<(InstrV, Seq<u8>), DecodeError>((m, t)),
    decreases code_size(code), 5int,
{
    let b = enc_inst(m) + t;
    let body = enc_code(code);
    let l = body.len() as u32;
    let r = b.drop_first();
    assert(r =~= u32_be_bytes(l) + (enc_str(name) + (body + t)));
    lemma_dec_framed_enc(b, name, code, t, 1);
}

/// The `LoadModule` case: a length, a name, then the body.
#[verifier::rlimit(100)]
proof fn lemma_dec_loadmodule(m: InstrV, name: Seq<char>, code: Seq<InstrV>, t: Seq<u8>)
    requires
        inst_encodable(m),
        m == (InstrV::LoadModule { name, code }),
        no_tail_start(t),
    ensures
        dec_one(enc_inst(m) + t) == Ok::<(InstrV, Seq<u8>), DecodeError>((m, t)),
    decreases code_size(code), 5int,
{
    let b = enc_inst(m) + t;
    let body = enc_code(code);
    let l = body.len() as u32;
    let r = b.drop_first();
    assert(r =~= u32_be_bytes(l) + (enc_str(name) + (body + t)));
    lemma_dec_framed_enc(b, name, code, t, 2);
}

/// The conditional case without an else-arm.
#[verifier::rlimit(100)]
proof fn lemma_dec_then_plain(m: InstrV, then_block: Seq<InstrV>, t: Seq<u8>)
    requires
        inst_encodable(m),
        m == (InstrV::Then { then_block, else_block: Seq::<InstrV>::empty() }),
        no_tail_start(t),
    ensures
        dec_one(enc_inst(m) + t) == Ok::<(InstrV, Seq<u8>), DecodeError>((m, t)),
    decreases code_size(then_block), 4int,
{
    let b = enc_inst(m) + t;
    let r = b.drop_first();
    let tb = enc_code(then_block);
    let l = tb.len() as u32;
    lemma_block_body(then_block, t);
    assert(r =~= u32_be_bytes(l) + (tb + t));
}

/// A framed then-arm with an `Else` tail reads back through `dec_then`.
#[verifier::rlimit(100)]
proof fn lemma_dec_then_enc(b: Seq<u8>, then_block: Seq<InstrV>, else_block: Seq<InstrV>, t: Seq<
    u8,
>)
    requires
        code_encodable(then_block),
        enc_code(then_block).len() < 0x1_0000_0000,
        code_encodable(else_block),
        enc_code(else_block).len() < 0x1_0000_0000,
        else_block.len() > 0,
        ({
            let tb = enc_code(then_block);
            let eb = enc_code(else_block);
            let after = seq![code_of(ByteCode::Else)] + (u32_be_bytes(eb.len() as u32) + (eb + t));
            let r = u32_be_bytes(tb.len() as u32) + (tb + after);
            r.len() < b.len()
        }),
    ensures
        ({
            let tb = enc_code(then_block);
            let eb = enc_code(else_block);
            let after = seq![code_of(ByteCode::Else)] + (u32_be_bytes(eb.len() as u32) + (eb + t));
            let r = u32_be_bytes(tb.len() as u32) + (tb + after);
            dec_then(b, r) == Ok::<(InstrV, Seq<u8>), DecodeError>(
                (InstrV::Then { then_block, else_block }, t),
            )
        }),
    decreases code_size(then_block) + code_size(else_block), 3int,
{
    let tb = enc_code(then_block);
    let eb = enc_code(else_block);
    let after = seq![code_of(ByteCode::Else)] + (u32_be_bytes(eb.len() as u32) + (eb + t));
    lemma_block_body(then_block, after);
    assert(after[0] == code_of(ByteCode::Else));
    assert(after.drop_first() =~= u32_be_bytes(eb.len() as u32) + (eb + t));
    lemma_block_body(else_block, t);
}

/// The conditional case with an else-arm.
#[verifier::rlimit(100)]
proof fn lemma_dec_then_else(m: InstrV, then_block: Seq<InstrV>, else_block: Seq<InstrV>, t: Seq<
    u8,
>)
    requires
        inst_encodable(m),
        m == (InstrV::Then { then_block, else_block }),
        else_block.len() > 0,
        no_tail_start(t),
    ensures
        dec_one(enc_inst(m) + t) == Ok::<(InstrV, Seq<u8>), DecodeError>((m, t)),
    decreases code_size(then_block) + code_size(else_block), 4int,
{
    let b = enc_inst(m) + t;
    let r = b.drop_first();
    let tb = enc_code(then_block);
    let eb = enc_code(else_block);
    let after = seq![code_of(ByteCode::Else)] + (u32_be_bytes(eb.len() as u32) + (eb + t));
    assert(r =~= u32_be_bytes(tb.len() as u32) + (tb + after));
    lemma_dec_then_enc(b, then_block, else_block, t);
}

/// The conditional case: a framed then-arm, and an optional `Else` tail.
proof fn lemma_dec_then(m: InstrV, then_block: Seq<InstrV>, else_block: Seq<InstrV>, t: Seq<u8>)
    requires
        inst_encodable(m),
        m == (InstrV::Then { then_block, else_block }),
        no_tail_start(t),
    ensures
        dec_one(enc_inst(m) + t) == Ok::<(InstrV, Seq<u8>), DecodeError>((m, t)),
    decreases code_size(then_block) + code_size(else_block), 5int,
{
    if else_block.len() > 0 {
        lemma_dec_then_else(m, then_block, else_block, t);
    } else {
        assert(else_block =~= Seq::<InstrV>::empty());
        lemma_dec_then_plain(m, then_block, t);
    }
}

/// The loop case: a framed, unnamed body.
#[verifier::rlimit(100)]
proof fn lemma_dec_loop(m: InstrV, block: Seq<InstrV>, t: Seq<u8>)
    requires
        inst_encodable(m),
        m == (InstrV::Loop { block }),
        no_tail_start(t),
    ensures
        dec_one(enc_inst(m) + t) == Ok::<(InstrV, Seq<u8>), DecodeError>((m, t)),
    decreases code_size(block), 3int,
{
    let b = enc_inst(m) + t;
    let r = b.drop_first();
    let bb = enc_code(block);
    let l = bb.len() as u32;
    lemma_block_body(block, t);
    assert(r =~= u32_be_bytes(l) + (bb + t));
}

/// The function-import case, with its optional `Alias` tail.
#[verifier::rlimit(100)]
proof fn lemma_dec_getfn(m: InstrV, name: Seq<char>, alias: Option<Seq<char>>, t: Seq<u8>)
    requires
        inst_encodable(m),
        m == (InstrV::GetFunction { name, alias }),
        no_tail_start(t),
    ensures
        dec_one(enc_inst(m) + t) == Ok::<(InstrV, Seq<u8>), DecodeError>((m, t)),
{
    let b = enc_inst(m) + t;
    let r = b.drop_first();
    match alias {
        Some(a) => {
            assert(r =~= enc_str(name) + (seq![code_of(ByteCode::Alias)] + (enc_str(a) + t)));
            lemma_take_str_enc(name, seq![code_of(ByteCode::Alias)] + (enc_str(a) + t));
            let r1 = seq![code_of(ByteCode::Alias)] + (enc_str(a) + t);
            assert(r1[0] == code_of(ByteCode::Alias));
            assert(r1.drop_first() =~= enc_str(a) + t);
            lemma_take_str_enc(a, t);
        },
        None => {
            assert(r =~= enc_str(name) + t);
            lemma_take_str_enc(name, t);
        },
    }
}

/// The one-byte instructions: the opcode alone.
#[verifier::rlimit(100)]
proof fn lemma_dec_one_atom(m: InstrV, t: Seq<u8>)
    requires
        m is Nop || m is Dump || m is Hi || m is Pop || m is Dup || m is Add || m is Sub
            || m is Mul || m is Div || m is Inc || m is Dec || m is Eq || m is Ne || m is Lt
            || m is Le || m is Gt || m is Ge || m is Return || m is Break || m is Continue,
    ensures
        dec_one(enc_inst(m) + t) == Ok::<(InstrV, Seq<u8>), DecodeError>((m, t)),
{
    let b = enc_inst(m) + t;
    assert(b.drop_first() =~= t);
}

/// The instructions with one fixed-width operand.
#[verifier::rlimit(100)]
proof fn lemma_dec_one_fixed(m: InstrV, t: Seq<u8>)
    requires
        m is Version || m is GetLocal || m is SetLocal || m is ReserveLocal || m is Allocate
            || m is GetField || m is SetField || m is PushConstInteger || m is PushConstFloat
            || m is PushConstBoolean,
    ensures
        dec_one(enc_inst(m) + t) == Ok::<(InstrV, Seq<u8>), DecodeError>((m, t)),
{
    let b = enc_inst(m) + t;
    let r = b.drop_first();
    match m {
        InstrV::Version { major, minor, patch } => {
            assert(r =~= seq![major, minor, patch] + t);
            assert(r[0] == major && r[1] == minor && r[2] == patch);
            assert(r.skip(3) =~= t);
        },
        InstrV::PushConstInteger { value } => {
            assert(r =~= u32_be_bytes(value as u32) + t);
            lemma_take_u32_enc(value as u32, t);
            assert((value as u32) as i32 == value) by (bit_vector);
        },
        InstrV::PushConstFloat { bits } => {
            assert(r =~= u32_be_bytes(bits) + t);
            lemma_take_u32_enc(bits, t);
        },
        InstrV::PushConstBoolean { value } => {
            let byte: u8 = if value {
                1
            } else {
                0
            };
            assert(r =~= seq![byte] + t);
            assert(r[0] == byte);
            assert(r.drop_first() =~= t);
        },
        InstrV::GetLocal { index } => {
            assert(r =~= u32_be_bytes(index) + t);
            lemma_take_u32_enc(index, t);
        },
        InstrV::SetLocal { index } => {
            assert(r =~= u32_be_bytes(index) + t);
            lemma_take_u32_enc(index, t);
        },
        InstrV::ReserveLocal { size } => {
            assert(r =~= u32_be_bytes(size) + t);
            lemma_take_u32_enc(size, t);
        },
        InstrV::Allocate { fields } => {
            assert(r =~= u32_be_bytes(fields) + t);
            lemma_take_u32_enc(fields, t);
        },
        InstrV::GetField { index } => {
            assert(r =~= u32_be_bytes(index) + t);
            lemma_take_u32_enc(index, t);
        },
        InstrV::SetField { index } => {
            assert(r =~= u32_be_bytes(index) + t);
            lemma_take_u32_enc(index, t);
        },
        _ => {},
    }
}

/// The instructions whose operands are strings.
#[verifier::rlimit(100)]
proof fn lemma_dec_one_str(m: InstrV, t: Seq<u8>)
    requires
        inst_encodable(m),
        m is Call || m is PushConstString,
    ensures
        dec_one(enc_inst(m) + t) == Ok::<(InstrV, Seq<u8>), DecodeError>((m, t)),
{
    let b = enc_inst(m) + t;
    let r = b.drop_first();
    match m {
        InstrV::Call { module, function, param_count } => {
            assert(r =~= enc_str(module) + (enc_str(function) + (u32_be_bytes(param_count) + t)));
            lemma_take_str_enc(module, enc_str(function) + (u32_be_bytes(param_count) + t));
            lemma_take_str_enc(function, u32_be_bytes(param_count) + t);
            lemma_take_u32_enc(param_count, t);
        },
        InstrV::PushConstString { value } => {
            assert(r =~= enc_str(value) + t);
            lemma_take_str_enc(value, t);
        },
        _ => {},
    }
}

/// Decoding the encoding of one instruction consumes exactly that encoding,
/// provided what follows does not begin with a lookahead tail byte.
proof fn lemma_dec_one_enc(m: InstrV, t: Seq<u8>)
    requires
        inst_encodable(m),
        no_tail_start(t),
    ensures
        dec_one(enc_inst(m) + t) == Ok::<(InstrV, Seq<u8>), DecodeError>((m, t)),
    decreases inst_size(m), 0int,
{
    match m {
        InstrV::Fn { name, code } => {
            lemma_dec_fn(m, name, code, t);
        },
        InstrV::Module { name, code } => {
            lemma_dec_module(m, name, code, t);
        },
        InstrV::LoadModule { name, code } => {
            lemma_dec_loadmodule(m, name, code, t);
        },
        InstrV::GetFunction { name, alias } => {
            lemma_dec_getfn(m, name, alias, t);
        },
        InstrV::Then { then_block, else_block } => {
            lemma_dec_then(m, then_block, else_block, t);
        },
        InstrV::Loop { block } => {
            lemma_dec_loop(m, block, t);
        },
        InstrV::Call { .. } => {
            lemma_dec_one_str(m, t);
        },
        InstrV::PushConstString { .. } => {
            lemma_dec_one_str(m, t);
        },
        InstrV::Version { .. } | InstrV::PushConstInteger { .. } | InstrV::PushConstFloat { .. }
            | InstrV::PushConstBoolean { .. } | InstrV::GetLocal { .. } | InstrV::SetLocal {
            ..
        } | InstrV::ReserveLocal { .. } | InstrV::Allocate { .. } | InstrV::GetField { .. }
            | InstrV::SetField { .. } => {
            lemma_dec_one_fixed(m, t);
        },
        _ => {
            lemma_dec_one_atom(m, t);
        },
    }
}

/// Round-trip for instruction sequences: decoding an encoded sequence yields
/// the sequence back.
#[verifier::rlimit(100)]
pub proof fn lemma_dec_enc_code(ms: Seq<InstrV>)
    requires
        code_encodable(ms),
    ensures
        dec_code(enc_code(ms)) == Ok::<Seq<InstrV>, DecodeError>(ms),
    decreases code_size(ms), 1int,
{
    if ms.len() == 0 {
        assert(enc_code(ms).len() == 0);
        assert(ms =~= Seq::<InstrV>::empty());
    } else {
        let m0 = ms[0];
        let rest = ms.drop_first();
        let t = enc_code(rest);
        if rest.len() == 0 {
            assert(t.len() == 0);
        } else {
            lemma_enc_first(rest[0]);
            assert(t[0] == enc_inst(rest[0])[0]);
            lemma_code_from_ne(t[0]);
        }
        lemma_inst_size_pos(m0);
        lemma_dec_one_enc(m0, t);
        lemma_enc_first(m0);
        assert(enc_code(ms) == enc_inst(m0) + t);
        assert(t.len() < (enc_inst(m0) + t).len());
        lemma_dec_enc_code(rest);
        assert(seq![m0] + rest =~= ms);
    }
}

/// Round-trip (the codec law): an encodable instruction tree survives
/// `encode` followed by `decode` structurally unchanged.
pub proof fn lemma_decode_encode(ms: Seq<InstrV>)
    requires
        code_encodable(ms),
    ensures
        dec_code(enc_code(ms)) == Ok::<Seq<InstrV>, DecodeError>(ms),
{
    lemma_dec_enc_code(ms);
}

} // verus!
