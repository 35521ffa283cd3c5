use stackvm::byte_writer::ByteWriter;
use stackvm::bytecode::ByteCode;
use stackvm::decode::DecodeError;
use stackvm::instruction::Instruction;

fn sample_program() -> Vec<Instruction> {
    vec![
        Instruction::Version { major: 0, minor: 1, patch: 0 },
        Instruction::Module {
            name: "m".to_string(),
            code: vec![Instruction::Fn {
                name: "f".to_string(),
                code: vec![
                    Instruction::PushConstInteger { value: 2 },
                    Instruction::PushConstInteger { value: 3 },
                    Instruction::Add,
                    Instruction::Then {
                        then_block: vec![Instruction::Return],
                        else_block: vec![],
                    },
                    Instruction::Then {
                        then_block: vec![Instruction::Nop],
                        else_block: vec![Instruction::PushConstBoolean { value: true }],
                    },
                    Instruction::Loop { block: vec![Instruction::Break, Instruction::Continue] },
                    Instruction::PushConstString { value: "hello".to_string() },
                    Instruction::PushConstFloat { bits: 0x4048F5C3 },
                    Instruction::Call {
                        module: "m".to_string(),
                        function: "f".to_string(),
                        param_count: 2,
                    },
                ],
            }],
        },
        Instruction::LoadModule {
            name: "lib".to_string(),
            code: vec![
                Instruction::GetFunction { name: "sym".to_string(), alias: None },
                Instruction::GetFunction {
                    name: "other".to_string(),
                    alias: Some("alias".to_string()),
                },
            ],
        },
    ]
}

#[test]
fn codec_round_trip_bytes() {
    let program = sample_program();
    let bytes = Instruction::code_to_bytes(&program);
    let decoded = Instruction::from_bytecode(&bytes).expect("decode failed");
    // Structural equality holds by the round-trip law; the byte streams of
    // both trees must therefore agree as well.
    let re_encoded = Instruction::code_to_bytes(&decoded);
    assert_eq!(bytes, re_encoded);
    assert_eq!(program.len(), decoded.len());
}

#[test]
fn codec_opcode_table_round_trip() {
    for byte in 0..=255u8 {
        if let Some(code) = ByteCode::from_u8(byte) {
            assert_eq!(code.to_u8(), byte);
        }
    }
    assert_eq!(ByteCode::from_u8(0x08), None);
    assert_eq!(ByteCode::from_u8(0xFF), None);
    assert_eq!(ByteCode::from_u8(0x17), Some(ByteCode::Version));
}

#[test]
fn decode_rejects_unknown_opcode() {
    let bytes = vec![0x08];
    assert!(matches!(Instruction::from_bytecode(&bytes), Err(DecodeError::UnknownOpcode(0x08))));
}

#[test]
fn decode_rejects_truncated_stream() {
    // A `Version` opcode with only two of its three operand bytes.
    let bytes = vec![0x17, 1, 2];
    assert!(matches!(Instruction::from_bytecode(&bytes), Err(DecodeError::Truncated)));
}

#[test]
fn decode_rejects_stray_else_and_alias() {
    assert!(matches!(Instruction::from_bytecode(&vec![0xFC]), Err(DecodeError::StrayElse)));
    assert!(matches!(Instruction::from_bytecode(&vec![0x1E]), Err(DecodeError::StrayAlias)));
}

#[test]
fn decode_rejects_bad_utf8() {
    // PushConstString with a one-byte body that is not valid UTF-8.
    let bytes = vec![0x40, 0, 0, 0, 1, 0xFF];
    assert!(matches!(Instruction::from_bytecode(&bytes), Err(DecodeError::BadUtf8)));
}

#[test]
fn writer_emits_big_endian() {
    let mut w = ByteWriter::new();
    w.write_u32(0x0102_0304);
    w.write_i32(-2);
    w.write_bool(true);
    w.write_string("ab");
    let bytes = w.into_bytes();
    assert_eq!(
        bytes,
        vec![1, 2, 3, 4, 0xFF, 0xFF, 0xFF, 0xFE, 1, 0, 0, 0, 2, b'a', b'b']
    );
}
