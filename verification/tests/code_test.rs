use monkey::code;

#[test]
fn test_to_bytes() {
    let bytes = code::Instruction::Constant(65534).to_bytes();
    assert_eq!(bytes, vec![0, 0xFF, 0xFE]);
}

fn all_instructions() -> Vec<code::Instruction> {
    vec![
        code::Instruction::Constant(0),
        code::Instruction::Constant(258),
        code::Instruction::Constant(65535),
        code::Instruction::Add,
        code::Instruction::Sub,
        code::Instruction::Pop,
        code::Instruction::Mul,
        code::Instruction::Div,
        code::Instruction::True,
        code::Instruction::False,
        code::Instruction::Equal,
        code::Instruction::NotEqual,
        code::Instruction::GreaterThan,
        code::Instruction::Minus,
        code::Instruction::Bang,
        code::Instruction::JumpFalse(7),
        code::Instruction::JumpFalse(65534),
        code::Instruction::Jump(0),
        code::Instruction::Jump(513),
    ]
}

#[test]
fn test_opcode_bytes_are_stable() {
    let opcodes: Vec<u8> = all_instructions().iter().map(|i| i.opcode_byte()).collect();
    assert_eq!(opcodes, vec![0, 0, 0, 1, 2, 3, 4, 5, 6, 7, 8, 9, 10, 11, 12, 13, 13, 14, 14]);
}

#[test]
fn test_codec_round_trip() {
    for instruction in all_instructions() {
        let bytes = instruction.to_bytes();
        let operand_size = match instruction {
            code::Instruction::Constant(_)
            | code::Instruction::JumpFalse(_)
            | code::Instruction::Jump(_) => 2,
            _ => 0,
        };
        assert_eq!(bytes.len(), 1 + operand_size);
        assert!(code::Instruction::legal_at(&bytes, 0));
        let mut cursor = 0;
        let decoded = code::Instruction::from_bytes(&bytes, &mut cursor);
        assert_eq!(decoded, Some(instruction));
        assert_eq!(cursor, bytes.len());
        assert_eq!(code::Instruction::from_bytes(&bytes, &mut cursor), None);
        assert_eq!(cursor, bytes.len());
    }
}

#[test]
fn test_operands_are_big_endian() {
    assert_eq!(code::Instruction::Constant(1).to_bytes(), vec![0, 0, 1]);
    assert_eq!(code::Instruction::Constant(256).to_bytes(), vec![0, 1, 0]);
    assert_eq!(code::Instruction::JumpFalse(0x1234).to_bytes(), vec![13, 0x12, 0x34]);
    assert_eq!(code::Instruction::Jump(0xABCD).to_bytes(), vec![14, 0xAB, 0xCD]);
    let bytes: Vec<u8> = vec![9, 9, 0x12, 0x34];
    let mut cursor = 2;
    assert_eq!(code::read_2_bytes(&bytes, &mut cursor), 0x1234);
    assert_eq!(cursor, 4);
}

#[test]
fn test_decoding_a_stream() {
    let bytes: Vec<u8> = vec![0, 0, 1, 1, 3, 14, 0, 0];
    let mut cursor = 0;
    let mut decoded = vec![];
    while code::Instruction::legal_at(&bytes, cursor) {
        match code::Instruction::from_bytes(&bytes, &mut cursor) {
            Some(instruction) => decoded.push(instruction),
            None => break,
        }
    }
    assert_eq!(
        decoded,
        vec![
            code::Instruction::Constant(1),
            code::Instruction::Add,
            code::Instruction::Pop,
            code::Instruction::Jump(0),
        ]
    );
}

#[test]
fn test_illegal_streams() {
    assert!(!code::Instruction::legal_at(&[15], 0));
    assert!(!code::Instruction::legal_at(&[255], 0));
    assert!(!code::Instruction::legal_at(&[0], 0));
    assert!(!code::Instruction::legal_at(&[0, 1], 0));
    assert!(!code::Instruction::legal_at(&[1, 13, 0], 1));
    assert!(code::Instruction::legal_at(&[0, 1, 2], 0));
    assert!(code::Instruction::legal_at(&[1], 1));
    assert!(code::Instruction::legal_at(&[1], 7));
    assert!(code::Instruction::legal_at(&[], 0));
}
