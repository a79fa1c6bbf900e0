use vstd::prelude::*;

verus! {

/// An instruction of the virtual machine. In the instruction stream it is one
/// opcode byte followed by its operand, if it has one, as two bytes with the
/// more significant first.
#[derive(Debug, PartialEq, Eq, Structural, Clone, Copy)]
pub enum Instruction {
    /// Push the constant at this index of the pool.
    Constant(u16),
    Add,
    Sub,
    Pop,
    Mul,
    Div,
    True,
    False,
    Equal,
    NotEqual,
    GreaterThan,
    Minus,
    Bang,
    /// Pop; jump to this byte offset where the value is `false`.
    JumpFalse(u16),
    /// Jump to this byte offset.
    Jump(u16),
}

/// What stands at a position of an instruction stream.
pub enum Decoded {
    /// The position is at or past the end of the stream.
    End,
    /// An unknown opcode, or an operand that the stream cuts short.
    Invalid,
    /// An instruction, and the position just behind it.
    Instruction(Instruction, int),
}

/// The number of operand bytes that follow an opcode.
pub open spec fn operand_width(opcode: u8) -> nat {
    if opcode == 0 || opcode == 13 || opcode == 14 {
        2
    } else {
        0
    }
}

/// The two bytes of a 16-bit operand, the more significant first.
pub open spec fn operand_bytes(operand: u16) -> Seq<u8> {
    seq![(operand / 256) as u8, (operand % 256) as u8]
}

/// The operand that two bytes spell, the first being the more significant.
pub open spec fn operand_value(high: u8, low: u8) -> u16 {
    (high as int * 256 + low as int) as u16
}

impl Instruction {
    /// The opcode of the instruction.
    pub open spec fn opcode(self) -> u8 {
        match self {
            Instruction::Constant(_) => 0,
            Instruction::Add => 1,
            Instruction::Sub => 2,
            Instruction::Pop => 3,
            Instruction::Mul => 4,
            Instruction::Div => 5,
            Instruction::True => 6,
            Instruction::False => 7,
            Instruction::Equal => 8,
            Instruction::NotEqual => 9,
            Instruction::GreaterThan => 10,
            Instruction::Minus => 11,
            Instruction::Bang => 12,
            Instruction::JumpFalse(_) => 13,
            Instruction::Jump(_) => 14,
        }
    }

    /// The bytes that encode the instruction.
    pub open spec fn encoding(self) -> Seq<u8> {
        match self {
            Instruction::Constant(operand) => seq![self.opcode()] + operand_bytes(operand),
            Instruction::JumpFalse(operand) => seq![self.opcode()] + operand_bytes(operand),
            Instruction::Jump(operand) => seq![self.opcode()] + operand_bytes(operand),
            _ => seq![self.opcode()],
        }
    }

    /// The instruction with the given opcode and operand, if the opcode is
    /// known. An opcode without operand ignores the operand.
    pub open spec fn with_opcode(opcode: u8, operand: u16) -> Option<Instruction> {
        if opcode == 0 {
            Some(Instruction::Constant(operand))
        } else if opcode == 1 {
            Some(Instruction::Add)
        } else if opcode == 2 {
            Some(Instruction::Sub)
        } else if opcode == 3 {
            Some(Instruction::Pop)
        } else if opcode == 4 {
            Some(Instruction::Mul)
        } else if opcode == 5 {
            Some(Instruction::Div)
        } else if opcode == 6 {
            Some(Instruction::True)
        } else if opcode == 7 {
            Some(Instruction::False)
        } else if opcode == 8 {
            Some(Instruction::Equal)
        } else if opcode == 9 {
            Some(Instruction::NotEqual)
        } else if opcode == 10 {
            Some(Instruction::GreaterThan)
        } else if opcode == 11 {
            Some(Instruction::Minus)
        } else if opcode == 12 {
            Some(Instruction::Bang)
        } else if opcode == 13 {
            Some(Instruction::JumpFalse(operand))
        } else if opcode == 14 {
            Some(Instruction::Jump(operand))
        } else {
            None
        }
    }

    /// What stands at position `at` of the stream `bytes`.
    pub open spec fn decode(bytes: Seq<u8>, at: int) -> Decoded {
        if at < 0 || at >= bytes.len() {
            Decoded::End
        } else if operand_width(bytes[at]) == 0 {
            match Instruction::with_opcode(bytes[at], 0) {
                Some(instruction) => Decoded::Instruction(instruction, at + 1),
                None => Decoded::Invalid,
            }
        } else if at + 2 >= bytes.len() {
            Decoded::Invalid
        } else {
            match Instruction::with_opcode(
                bytes[at],
                operand_value(bytes[at + 1], bytes[at + 2]),
            ) {
                Some(instruction) => Decoded::Instruction(instruction, at + 3),
                None => Decoded::Invalid,
            }
        }
    }

    /// The opcode byte of the instruction.
    pub fn opcode_byte(&self) -> (opcode: u8)
        ensures
            opcode == self.opcode(),
    {
        match self {
            Self::Constant(_) => 0,
            Self::Add => 1,
            Self::Sub => 2,
            Self::Pop => 3,
            Self::Mul => 4,
            Self::Div => 5,
            Self::True => 6,
            Self::False => 7,
            Self::Equal => 8,
            Self::NotEqual => 9,
            Self::GreaterThan => 10,
            Self::Minus => 11,
            Self::Bang => 12,
            Self::JumpFalse(_) => 13,
            Self::Jump(_) => 14,
        }
    }

    /// Encodes the instruction: the opcode byte, then the operand bytes.
    pub fn to_bytes(&self) -> (bytes: Vec<u8>)
        ensures
            bytes@ == self.encoding(),
            bytes.len() == 1 + operand_width(self.opcode()),
    {
        let mut result: Vec<u8> = Vec::new();
        result.push(self.opcode_byte());
        match self {
            Self::Constant(operand) | Self::JumpFalse(operand) | Self::Jump(operand) => {
                result.push((*operand / 256) as u8);
                result.push((*operand % 256) as u8);
            },
            _ => {},
        }
        assert(result@ =~= self.encoding());
        result
    }

    /// Whether the stream holds an instruction at the cursor, or ends there.
    pub fn legal_at(bytes: &[u8], cursor: usize) -> (legal: bool)
        ensures
            legal == !(Instruction::decode(bytes@, cursor as int) is Invalid),
    {
        if cursor >= bytes.len() {
            return true;
        }
        let opcode = bytes[cursor];
        if opcode == 0 || opcode == 13 || opcode == 14 {
            bytes.len() - cursor > 2
        } else {
            opcode <= 14
        }
    }

    /// Reads the instruction at the cursor and moves the cursor behind it.
    /// At the end of the stream there is none to read, and the cursor stays.
    pub fn from_bytes(bytes: &[u8], cursor: &mut usize) -> (instruction: Option<Self>)
        requires
            !(Instruction::decode(bytes@, *old(cursor) as int) is Invalid),
        ensures
            match Instruction::decode(bytes@, *old(cursor) as int) {
                Decoded::Instruction(decoded, next) => instruction == Some(decoded)
                    && *final(cursor) == next,
                _ => instruction is None && *final(cursor) == *old(cursor),
            },
    {
        if *cursor >= bytes.len() {
            return None;
        }
        let op_byte = bytes[*cursor];
        *cursor = *cursor + 1;
        if op_byte == 0 {
            Some(Self::Constant(read_2_bytes(bytes, cursor)))
        } else if op_byte == 1 {
            Some(Self::Add)
        } else if op_byte == 2 {
            Some(Self::Sub)
        } else if op_byte == 3 {
            Some(Self::Pop)
        } else if op_byte == 4 {
            Some(Self::Mul)
        } else if op_byte == 5 {
            Some(Self::Div)
        } else if op_byte == 6 {
            Some(Self::True)
        } else if op_byte == 7 {
            Some(Self::False)
        } else if op_byte == 8 {
            Some(Self::Equal)
        } else if op_byte == 9 {
            Some(Self::NotEqual)
        } else if op_byte == 10 {
            Some(Self::GreaterThan)
        } else if op_byte == 11 {
            Some(Self::Minus)
        } else if op_byte == 12 {
            Some(Self::Bang)
        } else if op_byte == 13 {
            Some(Self::JumpFalse(read_2_bytes(bytes, cursor)))
        } else {
            Some(Self::Jump(read_2_bytes(bytes, cursor)))
        }
    }

    /// Decoding undoes encoding: wherever the bytes of an instruction stand
    /// in a stream, that instruction is read there, and the position behind
    /// it is the position behind its bytes.
    pub proof fn lemma_decode_encoding(self, before: Seq<u8>, after: Seq<u8>)
        ensures
            Instruction::decode(before + self.encoding() + after, before.len() as int)
                == Decoded::Instruction(self, (before.len() + self.encoding().len()) as int),
            self.encoding().len() == 1 + operand_width(self.opcode()),
    {
        let stream = before + self.encoding() + after;
        let at = before.len() as int;
        assert(stream[at] == self.opcode());
        match self {
            Instruction::Constant(operand)
            | Instruction::JumpFalse(operand)
            | Instruction::Jump(operand) => {
                assert(stream[at + 1] == (operand / 256) as u8);
                assert(stream[at + 2] == (operand % 256) as u8);
                assert(operand_value((operand / 256) as u8, (operand % 256) as u8) == operand);
            },
            _ => {},
        }
    }

    /// The codec round trip: an instruction's encoding decodes to that
    /// instruction, and its length is one opcode byte and the operand bytes
    /// that the opcode declares.
    pub proof fn lemma_round_trip(self)
        ensures
            Instruction::decode(self.encoding(), 0) == Decoded::Instruction(
                self,
                self.encoding().len() as int,
            ),
            self.encoding().len() == 1 + operand_width(self.opcode()),
    {
        self.lemma_decode_encoding(Seq::empty(), Seq::empty());
        assert(Seq::<u8>::empty() + self.encoding() + Seq::<u8>::empty() =~= self.encoding());
    }
}

/// Reads a 16-bit operand at the cursor, the more significant byte first, and
/// moves the cursor behind it.
pub fn read_2_bytes(bytes: &[u8], cursor: &mut usize) -> (operand: u16)
    requires
        *old(cursor) + 2 <= bytes@.len(),
    ensures
        operand == operand_value(bytes@[*old(cursor) as int], bytes@[*old(cursor) + 1]),
        *final(cursor) == *old(cursor) + 2,
{
    let first = bytes[*cursor];
    let second = bytes[*cursor + 1];
    *cursor = *cursor + 2;
    (first as u16) * 256 + (second as u16)
}

} // verus!
