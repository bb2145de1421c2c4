use vstd::prelude::*;

verus! {

/// The instruction set: one opcode per byte value from `0x00` to `0x23`.
#[derive(Clone, Copy, Debug, PartialEq, Eq, Structural)]
pub enum ByteCode {
    Exit,
    Jmp,
    Jif,
    Call,
    Ret,
    Push,
    Putc,
    Puts,
    Def,
    Assign,
    Get,
    Load,
    Store,
    Swap,
    Rev,
    Pop,
    Label,
    Add,
    Sub,
    Mul,
    Div,
    Mod,
    ShR,
    ShL,
    RotR,
    RotL,
    And,
    Or,
    Not,
    Eq,
    Gt,
    Lt,
    Ge,
    Le,
    Len,
    Dup,
}

impl ByteCode {
    /// The byte that encodes the opcode.
    pub open spec fn byte(self) -> u8 {
        match self {
            ByteCode::Exit => 0x00,
            ByteCode::Jmp => 0x01,
            ByteCode::Jif => 0x02,
            ByteCode::Call => 0x03,
            ByteCode::Ret => 0x04,
            ByteCode::Push => 0x05,
            ByteCode::Putc => 0x06,
            ByteCode::Puts => 0x07,
            ByteCode::Def => 0x08,
            ByteCode::Assign => 0x09,
            ByteCode::Get => 0x0A,
            ByteCode::Load => 0x0B,
            ByteCode::Store => 0x0C,
            ByteCode::Swap => 0x0D,
            ByteCode::Rev => 0x0E,
            ByteCode::Pop => 0x0F,
            ByteCode::Label => 0x10,
            ByteCode::Add => 0x11,
            ByteCode::Sub => 0x12,
            ByteCode::Mul => 0x13,
            ByteCode::Div => 0x14,
            ByteCode::Mod => 0x15,
            ByteCode::ShR => 0x16,
            ByteCode::ShL => 0x17,
            ByteCode::RotR => 0x18,
            ByteCode::RotL => 0x19,
            ByteCode::And => 0x1A,
            ByteCode::Or => 0x1B,
            ByteCode::Not => 0x1C,
            ByteCode::Eq => 0x1D,
            ByteCode::Gt => 0x1E,
            ByteCode::Lt => 0x1F,
            ByteCode::Ge => 0x20,
            ByteCode::Le => 0x21,
            ByteCode::Len => 0x22,
            ByteCode::Dup => 0x23,
        }
    }

    /// The opcode that a byte encodes, if any.
    pub open spec fn decode(t: u8) -> Option<ByteCode> {
        if t == 0x00 {
            Some(ByteCode::Exit)
        } else if t == 0x01 {
            Some(ByteCode::Jmp)
        } else if t == 0x02 {
            Some(ByteCode::Jif)
        } else if t == 0x03 {
            Some(ByteCode::Call)
        } else if t == 0x04 {
            Some(ByteCode::Ret)
        } else if t == 0x05 {
            Some(ByteCode::Push)
        } else if t == 0x06 {
            Some(ByteCode::Putc)
        } else if t == 0x07 {
            Some(ByteCode::Puts)
        } else if t == 0x08 {
            Some(ByteCode::Def)
        } else if t == 0x09 {
            Some(ByteCode::Assign)
        } else if t == 0x0A {
            Some(ByteCode::Get)
        } else if t == 0x0B {
            Some(ByteCode::Load)
        } else if t == 0x0C {
            Some(ByteCode::Store)
        } else if t == 0x0D {
            Some(ByteCode::Swap)
        } else if t == 0x0E {
            Some(ByteCode::Rev)
        } else if t == 0x0F {
            Some(ByteCode::Pop)
        } else if t == 0x10 {
            Some(ByteCode::Label)
        } else if t == 0x11 {
            Some(ByteCode::Add)
        } else if t == 0x12 {
            Some(ByteCode::Sub)
        } else if t == 0x13 {
            Some(ByteCode::Mul)
        } else if t == 0x14 {
            Some(ByteCode::Div)
        } else if t == 0x15 {
            Some(ByteCode::Mod)
        } else if t == 0x16 {
            Some(ByteCode::ShR)
        } else if t == 0x17 {
            Some(ByteCode::ShL)
        } else if t == 0x18 {
            Some(ByteCode::RotR)
        } else if t == 0x19 {
            Some(ByteCode::RotL)
        } else if t == 0x1A {
            Some(ByteCode::And)
        } else if t == 0x1B {
            Some(ByteCode::Or)
        } else if t == 0x1C {
            Some(ByteCode::Not)
        } else if t == 0x1D {
            Some(ByteCode::Eq)
        } else if t == 0x1E {
            Some(ByteCode::Gt)
        } else if t == 0x1F {
            Some(ByteCode::Lt)
        } else if t == 0x20 {
            Some(ByteCode::Ge)
        } else if t == 0x21 {
            Some(ByteCode::Le)
        } else if t == 0x22 {
            Some(ByteCode::Len)
        } else if t == 0x23 {
            Some(ByteCode::Dup)
        } else {
            None
        }
    }

    /// Decodes an opcode byte.  A byte outside the instruction set is refused.
    pub fn try_from(t: u8) -> (r: Result<ByteCode, ()>)
        ensures
            r is Ok <==> t <= 0x23,
            match r {
                Ok(code) => Self::decode(t) == Some(code) && code.byte() == t,
                Err(_) => Self::decode(t) is None,
            },
    {
        match t {
            0x00 => Ok(ByteCode::Exit),
            0x01 => Ok(ByteCode::Jmp),
            0x02 => Ok(ByteCode::Jif),
            0x03 => Ok(ByteCode::Call),
            0x04 => Ok(ByteCode::Ret),
            0x05 => Ok(ByteCode::Push),
            0x06 => Ok(ByteCode::Putc),
            0x07 => Ok(ByteCode::Puts),
            0x08 => Ok(ByteCode::Def),
            0x09 => Ok(ByteCode::Assign),
            0x0A => Ok(ByteCode::Get),
            0x0B => Ok(ByteCode::Load),
            0x0C => Ok(ByteCode::Store),
            0x0D => Ok(ByteCode::Swap),
            0x0E => Ok(ByteCode::Rev),
            0x0F => Ok(ByteCode::Pop),
            0x10 => Ok(ByteCode::Label),
            0x11 => Ok(ByteCode::Add),
            0x12 => Ok(ByteCode::Sub),
            0x13 => Ok(ByteCode::Mul),
            0x14 => Ok(ByteCode::Div),
            0x15 => Ok(ByteCode::Mod),
            0x16 => Ok(ByteCode::ShR),
            0x17 => Ok(ByteCode::ShL),
            0x18 => Ok(ByteCode::RotR),
            0x19 => Ok(ByteCode::RotL),
            0x1A => Ok(ByteCode::And),
            0x1B => Ok(ByteCode::Or),
            0x1C => Ok(ByteCode::Not),
            0x1D => Ok(ByteCode::Eq),
            0x1E => Ok(ByteCode::Gt),
            0x1F => Ok(ByteCode::Lt),
            0x20 => Ok(ByteCode::Ge),
            0x21 => Ok(ByteCode::Le),
            0x22 => Ok(ByteCode::Len),
            0x23 => Ok(ByteCode::Dup),
            _ => Err(()),
        }
    }

    /// The byte that encodes the opcode.
    pub fn to_byte(self) -> (t: u8)
        ensures
            t == self.byte(),
            Self::decode(t) == Some(self),
    {
        match self {
            ByteCode::Exit => 0x00,
            ByteCode::Jmp => 0x01,
            ByteCode::Jif => 0x02,
            ByteCode::Call => 0x03,
            ByteCode::Ret => 0x04,
            ByteCode::Push => 0x05,
            ByteCode::Putc => 0x06,
            ByteCode::Puts => 0x07,
            ByteCode::Def => 0x08,
            ByteCode::Assign => 0x09,
            ByteCode::Get => 0x0A,
            ByteCode::Load => 0x0B,
            ByteCode::Store => 0x0C,
            ByteCode::Swap => 0x0D,
            ByteCode::Rev => 0x0E,
            ByteCode::Pop => 0x0F,
            ByteCode::Label => 0x10,
            ByteCode::Add => 0x11,
            ByteCode::Sub => 0x12,
            ByteCode::Mul => 0x13,
            ByteCode::Div => 0x14,
            ByteCode::Mod => 0x15,
            ByteCode::ShR => 0x16,
            ByteCode::ShL => 0x17,
            ByteCode::RotR => 0x18,
            ByteCode::RotL => 0x19,
            ByteCode::And => 0x1A,
            ByteCode::Or => 0x1B,
            ByteCode::Not => 0x1C,
            ByteCode::Eq => 0x1D,
            ByteCode::Gt => 0x1E,
            ByteCode::Lt => 0x1F,
            ByteCode::Ge => 0x20,
            ByteCode::Le => 0x21,
            ByteCode::Len => 0x22,
            ByteCode::Dup => 0x23,
        }
    }
}

/// Encoding and decoding are inverse to each other: every opcode is decoded
/// from its own byte, and a byte that decodes is the byte of its opcode.
pub proof fn lemma_decode_byte(code: ByteCode, t: u8)
    ensures
        ByteCode::decode(code.byte()) == Some(code),
        ByteCode::decode(t) is Some ==> ByteCode::decode(t)->0.byte() == t,
        ByteCode::decode(t) is Some <==> t <= 0x23,
{
}

} // verus!
