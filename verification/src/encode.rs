//! Serialization: one byte of opcode, then the operands; compound bodies are
//! framed by a 32-bit byte length that precedes the name string.

use vstd::prelude::*;
use vstd::utf8::encode_utf8;
use crate::bytecode::{ByteCode, code_of};
use crate::byte_writer::ByteWriter;
use crate::instruction::{Instruction, Code, InstrV, inst_view, code_view, lemma_code_view};
use crate::wire::{u32_be_bytes, enc_str, str_len_fits};

verus! {

/// The bytes of one encoded instruction.
pub open spec fn enc_inst(m: InstrV) -> Seq<u8>
    decreases m,
{
    match m {
        InstrV::Nop => seq![code_of(ByteCode::Nop)],
        InstrV::Version { major, minor, patch } => seq![
            code_of(ByteCode::Version),
            major,
            minor,
            patch,
        ],
        InstrV::Dump => seq![code_of(ByteCode::Dump)],
        InstrV::Hi => seq![code_of(ByteCode::Hi)],
        InstrV::Fn { name, code } => seq![code_of(ByteCode::Func)] + u32_be_bytes(
            enc_code(code).len() as u32,
        ) + enc_str(name) + enc_code(code),
        InstrV::Call { module, function, param_count } => seq![code_of(ByteCode::Call)] + enc_str(
            module,
        ) + enc_str(function) + u32_be_bytes(param_count),
        InstrV::PushConstString { value } => seq![code_of(ByteCode::PushConstString)] + enc_str(
            value,
        ),
        InstrV::PushConstInteger { value } => seq![code_of(ByteCode::PushConstInteger)]
            + u32_be_bytes(value as u32),
        InstrV::PushConstFloat { bits } => seq![code_of(ByteCode::PushConstFloat)] + u32_be_bytes(
            bits,
        ),
        InstrV::PushConstBoolean { value } => seq![
            code_of(ByteCode::PushConstBoolean),
            if value {
                1u8
            } else {
                0u8
            },
        ],
        InstrV::GetLocal { index } => seq![code_of(ByteCode::GetLocal)] + u32_be_bytes(index),
        InstrV::SetLocal { index } => seq![code_of(ByteCode::SetLocal)] + u32_be_bytes(index),
        InstrV::ReserveLocal { size } => seq![code_of(ByteCode::ReserveLocal)] + u32_be_bytes(size),
        InstrV::Allocate { fields } => seq![code_of(ByteCode::Allocate)] + u32_be_bytes(fields),
        InstrV::GetField { index } => seq![code_of(ByteCode::GetField)] + u32_be_bytes(index),
        InstrV::SetField { index } => seq![code_of(ByteCode::SetField)] + u32_be_bytes(index),
        InstrV::Pop => seq![code_of(ByteCode::Pop)],
        InstrV::Dup => seq![code_of(ByteCode::Dup)],
        InstrV::Add => seq![code_of(ByteCode::Add)],
        InstrV::Sub => seq![code_of(ByteCode::Sub)],
        InstrV::Mul => seq![code_of(ByteCode::Mul)],
        InstrV::Div => seq![code_of(ByteCode::Div)],
        InstrV::Inc => seq![code_of(ByteCode::Inc)],
        InstrV::Dec => seq![code_of(ByteCode::Dec)],
        InstrV::Eq => seq![code_of(ByteCode::Eq)],
        InstrV::Ne => seq![code_of(ByteCode::Ne)],
        InstrV::Lt => seq![code_of(ByteCode::Lt)],
        InstrV::Le => seq![code_of(ByteCode::Le)],
        InstrV::Gt => seq![code_of(ByteCode::Gt)],
        InstrV::Ge => seq![code_of(ByteCode::Ge)],
        InstrV::Module { name, code } => seq![code_of(ByteCode::Module)] + u32_be_bytes(
            enc_code(code).len() as u32,
        ) + enc_str(name) + enc_code(code),
        InstrV::LoadModule { name, code } => seq![code_of(ByteCode::LoadModule)] + u32_be_bytes(
            enc_code(code).len() as u32,
        ) + enc_str(name) + enc_code(code),
        InstrV::GetFunction { name, alias } => seq![code_of(ByteCode::GetFunction)] + enc_str(name)
            + (match alias {
            Some(a) => seq![code_of(ByteCode::Alias)] + enc_str(a),
            None => Seq::empty(),
        }),
        InstrV::Return => seq![code_of(ByteCode::Return)],
        InstrV::Then { then_block, else_block } => seq![code_of(ByteCode::Then)] + u32_be_bytes(
            enc_code(then_block).len() as u32,
        ) + enc_code(then_block) + (if else_block.len() > 0 {
            seq![code_of(ByteCode::Else)] + u32_be_bytes(enc_code(else_block).len() as u32)
                + enc_code(else_block)
        } else {
            Seq::empty()
        }),
        InstrV::Loop { block } => seq![code_of(ByteCode::Loop)] + u32_be_bytes(
            enc_code(block).len() as u32,
        ) + enc_code(block),
        InstrV::Break => seq![code_of(ByteCode::Break)],
        InstrV::Continue => seq![code_of(ByteCode::Continue)],
    }
}

/// The bytes of an encoded instruction sequence: the concatenation of its
/// instructions' encodings.
pub open spec fn enc_code(s: Seq<InstrV>) -> Seq<u8>
    decreases s,
{
    if s.len() == 0 {
        Seq::empty()
    } else {
        enc_inst(s[0]) + enc_code(s.drop_first())
    }
}

/// True when every string's UTF-8 encoding and every compound body's byte
/// length fit the wire's 32-bit size fields.
pub open spec fn inst_encodable(m: InstrV) -> bool
    decreases m,
{
    match m {
        InstrV::Fn { name, code } => str_len_fits(name) && code_encodable(code) && enc_code(
            code,
        ).len() < 0x1_0000_0000,
        InstrV::Call { module, function, .. } => str_len_fits(module) && str_len_fits(function),
        InstrV::PushConstString { value } => str_len_fits(value),
        InstrV::Module { name, code } => str_len_fits(name) && code_encodable(code) && enc_code(
            code,
        ).len() < 0x1_0000_0000,
        InstrV::LoadModule { name, code } => str_len_fits(name) && code_encodable(code) && enc_code(
            code,
        ).len() < 0x1_0000_0000,
        InstrV::GetFunction { name, alias } => str_len_fits(name) && (match alias {
            Some(a) => str_len_fits(a),
            None => true,
        }),
        InstrV::Then { then_block, else_block } => code_encodable(then_block) && enc_code(
            then_block,
        ).len() < 0x1_0000_0000 && code_encodable(else_block) && enc_code(else_block).len()
            < 0x1_0000_0000,
        InstrV::Loop { block } => code_encodable(block) && enc_code(block).len() < 0x1_0000_0000,
        _ => true,
    }
}

/// `inst_encodable`, over a whole sequence.
pub open spec fn code_encodable(s: Seq<InstrV>) -> bool
    decreases s,
{
    if s.len() == 0 {
        true
    } else {
        inst_encodable(s[0]) && code_encodable(s.drop_first())
    }
}

/// `enc_code` distributes over concatenation.
pub proof fn lemma_enc_code_add(s: Seq<InstrV>, t: Seq<InstrV>)
    ensures
        enc_code(s + t) == enc_code(s) + enc_code(t),
    decreases s.len(),
{
    if s.len() == 0 {
        assert(s + t =~= t);
        assert(enc_code(s) + enc_code(t) =~= enc_code(t));
    } else {
        lemma_enc_code_add(s.drop_first(), t);
        assert((s + t).drop_first() =~= s.drop_first() + t);
        assert((s + t)[0] == s[0]);
        assert(enc_inst(s[0]) + (enc_code(s.drop_first()) + enc_code(t)) =~= (enc_inst(s[0])
            + enc_code(s.drop_first())) + enc_code(t));
    }
}

/// `enc_code` of one more instruction at the end.
pub proof fn lemma_enc_code_push(s: Seq<InstrV>, m: InstrV)
    ensures
        enc_code(s.push(m)) == enc_code(s) + enc_inst(m),
{
    lemma_enc_code_add(s, seq![m]);
    assert(s.push(m) =~= s + seq![m]);
    assert(seq![m].drop_first() =~= Seq::<InstrV>::empty());
    assert(enc_code(Seq::<InstrV>::empty()) == Seq::<u8>::empty());
    assert(seq![m][0] == m);
    assert(enc_code(seq![m]) == enc_inst(seq![m][0]) + enc_code(seq![m].drop_first()));
    assert(enc_code(seq![m]) =~= enc_inst(m));
}

/// `code_encodable` restricted to an element.
pub proof fn lemma_code_encodable_index(s: Seq<InstrV>, i: int)
    requires
        code_encodable(s),
        0 <= i < s.len(),
    ensures
        inst_encodable(s[i]),
    decreases i,
{
    if i > 0 {
        lemma_code_encodable_index(s.drop_first(), i - 1);
    }
}

impl Instruction {
    /// Encodes one instruction.
    pub fn to_bytes(&self) -> (r: Vec<u8>)
        requires
            inst_encodable(self@),
        ensures
            r@ == enc_inst(self@),
        decreases *self,
    {
        let mut writer = ByteWriter::new();
        match self {
            Instruction::Nop => writer.write_byte(ByteCode::Nop.to_u8()),
            Instruction::Version { major, minor, patch } => {
                writer.write_byte(ByteCode::Version.to_u8());
                writer.write_byte(*major);
                writer.write_byte(*minor);
                writer.write_byte(*patch);
            },
            Instruction::Dump => writer.write_byte(ByteCode::Dump.to_u8()),
            Instruction::Hi => writer.write_byte(ByteCode::Hi.to_u8()),
            Instruction::Fn { name, code } => {
                writer.write_byte(ByteCode::Func.to_u8());
                let code_bytes = Instruction::code_to_bytes(code);
                writer.write_u32(code_bytes.len() as u32);
                writer.write_string(name.as_str());
                writer.write_bytes(&code_bytes);
            },
            Instruction::Call { module, function, param_count } => {
                writer.write_byte(ByteCode::Call.to_u8());
                writer.write_string(module.as_str());
                writer.write_string(function.as_str());
                writer.write_u32(*param_count);
            },
            Instruction::PushConstString { value } => {
                writer.write_byte(ByteCode::PushConstString.to_u8());
                writer.write_string(value.as_str());
            },
            Instruction::PushConstInteger { value } => {
                writer.write_byte(ByteCode::PushConstInteger.to_u8());
                writer.write_i32(*value);
            },
            Instruction::PushConstFloat { bits } => {
                writer.write_byte(ByteCode::PushConstFloat.to_u8());
                writer.write_u32(*bits);
            },
            Instruction::PushConstBoolean { value } => {
                writer.write_byte(ByteCode::PushConstBoolean.to_u8());
                writer.write_bool(*value);
            },
            Instruction::GetLocal { index } => {
                writer.write_byte(ByteCode::GetLocal.to_u8());
                writer.write_u32(*index);
            },
            Instruction::SetLocal { index } => {
                writer.write_byte(ByteCode::SetLocal.to_u8());
                writer.write_u32(*index);
            },
            Instruction::ReserveLocal { size } => {
                writer.write_byte(ByteCode::ReserveLocal.to_u8());
                writer.write_u32(*size);
            },
            Instruction::Allocate { fields } => {
                writer.write_byte(ByteCode::Allocate.to_u8());
                writer.write_u32(*fields);
            },
            Instruction::GetField { index } => {
                writer.write_byte(ByteCode::GetField.to_u8());
                writer.write_u32(*index);
            },
            Instruction::SetField { index } => {
                writer.write_byte(ByteCode::SetField.to_u8());
                writer.write_u32(*index);
            },
            Instruction::Pop => writer.write_byte(ByteCode::Pop.to_u8()),
            Instruction::Dup => writer.write_byte(ByteCode::Dup.to_u8()),
            Instruction::Add => writer.write_byte(ByteCode::Add.to_u8()),
            Instruction::Sub => writer.write_byte(ByteCode::Sub.to_u8()),
            Instruction::Mul => writer.write_byte(ByteCode::Mul.to_u8()),
            Instruction::Div => writer.write_byte(ByteCode::Div.to_u8()),
            Instruction::Inc => writer.write_byte(ByteCode::Inc.to_u8()),
            Instruction::Dec => writer.write_byte(ByteCode::Dec.to_u8()),
            Instruction::Eq => writer.write_byte(ByteCode::Eq.to_u8()),
            Instruction::Ne => writer.write_byte(ByteCode::Ne.to_u8()),
            Instruction::Lt => writer.write_byte(ByteCode::Lt.to_u8()),
            Instruction::Le => writer.write_byte(ByteCode::Le.to_u8()),
            Instruction::Gt => writer.write_byte(ByteCode::Gt.to_u8()),
            Instruction::Ge => writer.write_byte(ByteCode::Ge.to_u8()),
            Instruction::Module { name, code } => {
                writer.write_byte(ByteCode::Module.to_u8());
                let code_bytes = Instruction::code_to_bytes(code);
                writer.write_u32(code_bytes.len() as u32);
                writer.write_string(name.as_str());
                writer.write_bytes(&code_bytes);
            },
            Instruction::LoadModule { name, code } => {
                writer.write_byte(ByteCode::LoadModule.to_u8());
                let code_bytes = Instruction::code_to_bytes(code);
                writer.write_u32(code_bytes.len() as u32);
                writer.write_string(name.as_str());
                writer.write_bytes(&code_bytes);
            },
            Instruction::GetFunction { name, alias } => {
                writer.write_byte(ByteCode::GetFunction.to_u8());
                writer.write_string(name.as_str());
                match alias {
                    Some(alias) => {
                        writer.write_byte(ByteCode::Alias.to_u8());
                        writer.write_string(alias.as_str());
                    },
                    None => {},
                }
            },
            Instruction::Return => writer.write_byte(ByteCode::Return.to_u8()),
            Instruction::Then { then_block, else_block } => {
                writer.write_byte(ByteCode::Then.to_u8());
                let block_bytes = Instruction::code_to_bytes(then_block);
                writer.write_u32(block_bytes.len() as u32);
                writer.write_bytes(&block_bytes);
                if else_block.len() > 0 {
                    writer.write_byte(ByteCode::Else.to_u8());
                    let block_bytes = Instruction::code_to_bytes(else_block);
                    writer.write_u32(block_bytes.len() as u32);
                    writer.write_bytes(&block_bytes);
                } else {
                    proof {
                        assert(code_view(else_block@).len() == 0) by {
                            lemma_code_view(else_block@);
                        }
                    }
                }
            },
            Instruction::Loop { block } => {
                writer.write_byte(ByteCode::Loop.to_u8());
                let block_bytes = Instruction::code_to_bytes(block);
                writer.write_u32(block_bytes.len() as u32);
                writer.write_bytes(&block_bytes);
            },
            Instruction::Break => writer.write_byte(ByteCode::Break.to_u8()),
            Instruction::Continue => writer.write_byte(ByteCode::Continue.to_u8()),
        }
        let r = writer.into_bytes();
        proof {
            assert(r@ =~= enc_inst(self@));
        }
        r
    }

    /// Encodes a sequence of instructions back to back.
    pub fn code_to_bytes(code: &Code) -> (r: Vec<u8>)
        requires
            code_encodable(code_view(code@)),
        ensures
            r@ == enc_code(code_view(code@)),
        decreases *code,
    {
        let mut writer = ByteWriter::new();
        let n = code.len();
        let mut i: usize = 0;
        proof {
            lemma_code_view(code@);
        }
        while i < n
            invariant
                i <= n,
                n == code@.len(),
                code_encodable(code_view(code@)),
                code_view(code@).len() == n,
                forall|j: int| 0 <= j < n ==> code_view(code@)[j] == inst_view(code@[j]),
                writer.data() == enc_code(code_view(code@).subrange(0, i as int)),
            decreases n - i,
        {
            proof {
                lemma_code_encodable_index(code_view(code@), i as int);
            }
            let bytes = code[i].to_bytes();
            writer.write_bytes(&bytes);
            i = i + 1;
            proof {
                let cv = code_view(code@);
                lemma_enc_code_push(cv.subrange(0, i - 1), cv[i - 1]);
                assert(cv.subrange(0, i as int) =~= cv.subrange(0, i - 1).push(cv[i - 1]));
            }
        }
        proof {
            assert(code_view(code@).subrange(0, n as int) =~= code_view(code@));
        }
        writer.into_bytes()
    }
}

} // verus!
