//! The opcode table: which code names which variant, and how the operands
//! of each variant are laid out behind the leading byte.
//!
//! Multi-byte operands are big-endian, whatever the byte order of the
//! container around them.

use crate::cmd::Cmd;
use crate::wire::{
    be_u16_bytes, be_u16_value, be_u32_bytes, be_u32_value, lemma_be_u16_bytes_of_value,
    lemma_be_u16_round_trip, lemma_be_u32_bytes_of_value, lemma_be_u32_round_trip,
};
use vstd::prelude::*;

verus! {

/// The largest code that names a variant. Every code up to it names one.
pub const MAX_CODE: u8 = 0x4D;

impl Cmd {
    /// The numeric code of the variant.
    pub open spec fn code(self) -> u8 {
        match self {
            Cmd::Nop => 0x00,
            Cmd::Unk1 => 0x01,
            Cmd::Begin { .. } => 0x02,
            Cmd::End => 0x03,
            Cmd::Jump { .. } => 0x04,
            Cmd::Jump5 { .. } => 0x05,
            Cmd::Return6 => 0x06,
            Cmd::Return7 => 0x07,
            Cmd::Return8 => 0x08,
            Cmd::Return9 => 0x09,
            Cmd::PushInt { .. } => 0x0A,
            Cmd::PushVar { .. } => 0x0B,
            Cmd::ErrorC => 0x0C,
            Cmd::PushShort { .. } => 0x0D,
            Cmd::AddI => 0x0E,
            Cmd::SubI => 0x0F,
            Cmd::MultI => 0x10,
            Cmd::DivI => 0x11,
            Cmd::ModI => 0x12,
            Cmd::NegI => 0x13,
            Cmd::IncI { .. } => 0x14,
            Cmd::DecI { .. } => 0x15,
            Cmd::AndI => 0x16,
            Cmd::OrI => 0x17,
            Cmd::NotI => 0x18,
            Cmd::XorI => 0x19,
            Cmd::ShiftL => 0x1A,
            Cmd::ShiftR => 0x1B,
            Cmd::SetVar { .. } => 0x1C,
            Cmd::AddVarBy { .. } => 0x1D,
            Cmd::SubVarBy { .. } => 0x1E,
            Cmd::MultVarBy { .. } => 0x1F,
            Cmd::DivVarBy { .. } => 0x20,
            Cmd::ModVarBy { .. } => 0x21,
            Cmd::AndVarBy { .. } => 0x22,
            Cmd::OrVarBy { .. } => 0x23,
            Cmd::XorVarBy { .. } => 0x24,
            Cmd::Equals => 0x25,
            Cmd::NotEquals => 0x26,
            Cmd::LessThan => 0x27,
            Cmd::LessOrEqual => 0x28,
            Cmd::Greater => 0x29,
            Cmd::GreaterOrEqual => 0x2A,
            Cmd::Not => 0x2B,
            Cmd::PrintF { .. } => 0x2C,
            Cmd::Sys { .. } => 0x2D,
            Cmd::Try { .. } => 0x2E,
            Cmd::CallFunc { .. } => 0x2F,
            Cmd::CallFunc2 { .. } => 0x30,
            Cmd::CallFunc3 { .. } => 0x31,
            Cmd::Push => 0x32,
            Cmd::Pop => 0x33,
            Cmd::If { .. } => 0x34,
            Cmd::IfNot { .. } => 0x35,
            Cmd::Else { .. } => 0x36,
            Cmd::Error37 => 0x37,
            Cmd::IntToFloat { .. } => 0x38,
            Cmd::FloatToInt { .. } => 0x39,
            Cmd::AddF => 0x3A,
            Cmd::SubF => 0x3B,
            Cmd::MultF => 0x3C,
            Cmd::DivF => 0x3D,
            Cmd::NegF => 0x3E,
            Cmd::IncF { .. } => 0x3F,
            Cmd::DecF { .. } => 0x40,
            Cmd::VarSetF { .. } => 0x41,
            Cmd::AddVarByF { .. } => 0x42,
            Cmd::SubVarByF { .. } => 0x43,
            Cmd::MultVarByF { .. } => 0x44,
            Cmd::DivVarByF { .. } => 0x45,
            Cmd::EqualsF => 0x46,
            Cmd::NotEqualsF => 0x47,
            Cmd::LessThanF => 0x48,
            Cmd::LessOrEqualF => 0x49,
            Cmd::GreaterF => 0x4A,
            Cmd::GreaterOrEqualF => 0x4B,
            Cmd::Error4C => 0x4C,
            Cmd::Exit => 0x4D,
        }
    }

    /// The operand bytes that follow the leading byte of the instruction.
    pub open spec fn operands(self) -> Seq<u8> {
        match self {
            Cmd::Nop => Seq::empty(),
            Cmd::Unk1 => Seq::empty(),
            Cmd::Begin { arg_count, var_count } => be_u16_bytes(arg_count) + be_u16_bytes(
                var_count,
            ),
            Cmd::End => Seq::empty(),
            Cmd::Jump { loc } => be_u32_bytes(loc),
            Cmd::Jump5 { loc } => be_u32_bytes(loc),
            Cmd::Return6 => Seq::empty(),
            Cmd::Return7 => Seq::empty(),
            Cmd::Return8 => Seq::empty(),
            Cmd::Return9 => Seq::empty(),
            Cmd::PushInt { val } => be_u32_bytes(val),
            Cmd::PushVar { var_type, var_num } => seq![var_type] + be_u16_bytes(var_num),
            Cmd::ErrorC => Seq::empty(),
            Cmd::PushShort { val } => be_u16_bytes(val),
            Cmd::AddI => Seq::empty(),
            Cmd::SubI => Seq::empty(),
            Cmd::MultI => Seq::empty(),
            Cmd::DivI => Seq::empty(),
            Cmd::ModI => Seq::empty(),
            Cmd::NegI => Seq::empty(),
            Cmd::IncI { var_type, var_num } => seq![var_type] + be_u16_bytes(var_num),
            Cmd::DecI { var_type, var_num } => seq![var_type] + be_u16_bytes(var_num),
            Cmd::AndI => Seq::empty(),
            Cmd::OrI => Seq::empty(),
            Cmd::NotI => Seq::empty(),
            Cmd::XorI => Seq::empty(),
            Cmd::ShiftL => Seq::empty(),
            Cmd::ShiftR => Seq::empty(),
            Cmd::SetVar { var_type, var_num } => seq![var_type] + be_u16_bytes(var_num),
            Cmd::AddVarBy { var_type, var_num } => seq![var_type] + be_u16_bytes(var_num),
            Cmd::SubVarBy { var_type, var_num } => seq![var_type] + be_u16_bytes(var_num),
            Cmd::MultVarBy { var_type, var_num } => seq![var_type] + be_u16_bytes(var_num),
            Cmd::DivVarBy { var_type, var_num } => seq![var_type] + be_u16_bytes(var_num),
            Cmd::ModVarBy { var_type, var_num } => seq![var_type] + be_u16_bytes(var_num),
            Cmd::AndVarBy { var_type, var_num } => seq![var_type] + be_u16_bytes(var_num),
            Cmd::OrVarBy { var_type, var_num } => seq![var_type] + be_u16_bytes(var_num),
            Cmd::XorVarBy { var_type, var_num } => seq![var_type] + be_u16_bytes(var_num),
            Cmd::Equals => Seq::empty(),
            Cmd::NotEquals => Seq::empty(),
            Cmd::LessThan => Seq::empty(),
            Cmd::LessOrEqual => Seq::empty(),
            Cmd::Greater => Seq::empty(),
            Cmd::GreaterOrEqual => Seq::empty(),
            Cmd::Not => Seq::empty(),
            Cmd::PrintF { arg_count } => seq![arg_count],
            Cmd::Sys { arg_count, sys_num } => seq![arg_count, sys_num],
            Cmd::Try { loc } => be_u32_bytes(loc),
            Cmd::CallFunc { arg_count } => seq![arg_count],
            Cmd::CallFunc2 { arg_count } => seq![arg_count],
            Cmd::CallFunc3 { arg_count } => seq![arg_count],
            Cmd::Push => Seq::empty(),
            Cmd::Pop => Seq::empty(),
            Cmd::If { loc } => be_u32_bytes(loc),
            Cmd::IfNot { loc } => be_u32_bytes(loc),
            Cmd::Else { loc } => be_u32_bytes(loc),
            Cmd::Error37 => Seq::empty(),
            Cmd::IntToFloat { stack_pos } => seq![stack_pos],
            Cmd::FloatToInt { stack_pos } => seq![stack_pos],
            Cmd::AddF => Seq::empty(),
            Cmd::SubF => Seq::empty(),
            Cmd::MultF => Seq::empty(),
            Cmd::DivF => Seq::empty(),
            Cmd::NegF => Seq::empty(),
            Cmd::IncF { var_type, var_num } => seq![var_type] + be_u16_bytes(var_num),
            Cmd::DecF { var_type, var_num } => seq![var_type] + be_u16_bytes(var_num),
            Cmd::VarSetF { var_type, var_num } => seq![var_type] + be_u16_bytes(var_num),
            Cmd::AddVarByF { var_type, var_num } => seq![var_type] + be_u16_bytes(var_num),
            Cmd::SubVarByF { var_type, var_num } => seq![var_type] + be_u16_bytes(var_num),
            Cmd::MultVarByF { var_type, var_num } => seq![var_type] + be_u16_bytes(var_num),
            Cmd::DivVarByF { var_type, var_num } => seq![var_type] + be_u16_bytes(var_num),
            Cmd::EqualsF => Seq::empty(),
            Cmd::NotEqualsF => Seq::empty(),
            Cmd::LessThanF => Seq::empty(),
            Cmd::LessOrEqualF => Seq::empty(),
            Cmd::GreaterF => Seq::empty(),
            Cmd::GreaterOrEqualF => Seq::empty(),
            Cmd::Error4C => Seq::empty(),
            Cmd::Exit => Seq::empty(),
        }
    }

    /// The variant that `code` names, with its operands read from the front
    /// of `ops`; `None` where the table has no entry for `code`.
    pub open spec fn decode(code: u8, ops: Seq<u8>) -> Option<Cmd> {
        match code {
            0x00 => Some(Cmd::Nop),
            0x01 => Some(Cmd::Unk1),
            0x02 => Some(
                Cmd::Begin { arg_count: be_u16_value(ops), var_count: be_u16_value(ops.skip(2)) },
            ),
            0x03 => Some(Cmd::End),
            0x04 => Some(Cmd::Jump { loc: be_u32_value(ops) }),
            0x05 => Some(Cmd::Jump5 { loc: be_u32_value(ops) }),
            0x06 => Some(Cmd::Return6),
            0x07 => Some(Cmd::Return7),
            0x08 => Some(Cmd::Return8),
            0x09 => Some(Cmd::Return9),
            0x0A => Some(Cmd::PushInt { val: be_u32_value(ops) }),
            0x0B => Some(Cmd::PushVar { var_type: ops[0], var_num: be_u16_value(ops.skip(1)) }),
            0x0C => Some(Cmd::ErrorC),
            0x0D => Some(Cmd::PushShort { val: be_u16_value(ops) }),
            0x0E => Some(Cmd::AddI),
            0x0F => Some(Cmd::SubI),
            0x10 => Some(Cmd::MultI),
            0x11 => Some(Cmd::DivI),
            0x12 => Some(Cmd::ModI),
            0x13 => Some(Cmd::NegI),
            0x14 => Some(Cmd::IncI { var_type: ops[0], var_num: be_u16_value(ops.skip(1)) }),
            0x15 => Some(Cmd::DecI { var_type: ops[0], var_num: be_u16_value(ops.skip(1)) }),
            0x16 => Some(Cmd::AndI),
            0x17 => Some(Cmd::OrI),
            0x18 => Some(Cmd::NotI),
            0x19 => Some(Cmd::XorI),
            0x1A => Some(Cmd::ShiftL),
            0x1B => Some(Cmd::ShiftR),
            0x1C => Some(Cmd::SetVar { var_type: ops[0], var_num: be_u16_value(ops.skip(1)) }),
            0x1D => Some(Cmd::AddVarBy { var_type: ops[0], var_num: be_u16_value(ops.skip(1)) }),
            0x1E => Some(Cmd::SubVarBy { var_type: ops[0], var_num: be_u16_value(ops.skip(1)) }),
            0x1F => Some(Cmd::MultVarBy { var_type: ops[0], var_num: be_u16_value(ops.skip(1)) }),
            0x20 => Some(Cmd::DivVarBy { var_type: ops[0], var_num: be_u16_value(ops.skip(1)) }),
            0x21 => Some(Cmd::ModVarBy { var_type: ops[0], var_num: be_u16_value(ops.skip(1)) }),
            0x22 => Some(Cmd::AndVarBy { var_type: ops[0], var_num: be_u16_value(ops.skip(1)) }),
            0x23 => Some(Cmd::OrVarBy { var_type: ops[0], var_num: be_u16_value(ops.skip(1)) }),
            0x24 => Some(Cmd::XorVarBy { var_type: ops[0], var_num: be_u16_value(ops.skip(1)) }),
            0x25 => Some(Cmd::Equals),
            0x26 => Some(Cmd::NotEquals),
            0x27 => Some(Cmd::LessThan),
            0x28 => Some(Cmd::LessOrEqual),
            0x29 => Some(Cmd::Greater),
            0x2A => Some(Cmd::GreaterOrEqual),
            0x2B => Some(Cmd::Not),
            0x2C => Some(Cmd::PrintF { arg_count: ops[0] }),
            0x2D => Some(Cmd::Sys { arg_count: ops[0], sys_num: ops[1] }),
            0x2E => Some(Cmd::Try { loc: be_u32_value(ops) }),
            0x2F => Some(Cmd::CallFunc { arg_count: ops[0] }),
            0x30 => Some(Cmd::CallFunc2 { arg_count: ops[0] }),
            0x31 => Some(Cmd::CallFunc3 { arg_count: ops[0] }),
            0x32 => Some(Cmd::Push),
            0x33 => Some(Cmd::Pop),
            0x34 => Some(Cmd::If { loc: be_u32_value(ops) }),
            0x35 => Some(Cmd::IfNot { loc: be_u32_value(ops) }),
            0x36 => Some(Cmd::Else { loc: be_u32_value(ops) }),
            0x37 => Some(Cmd::Error37),
            0x38 => Some(Cmd::IntToFloat { stack_pos: ops[0] }),
            0x39 => Some(Cmd::FloatToInt { stack_pos: ops[0] }),
            0x3A => Some(Cmd::AddF),
            0x3B => Some(Cmd::SubF),
            0x3C => Some(Cmd::MultF),
            0x3D => Some(Cmd::DivF),
            0x3E => Some(Cmd::NegF),
            0x3F => Some(Cmd::IncF { var_type: ops[0], var_num: be_u16_value(ops.skip(1)) }),
            0x40 => Some(Cmd::DecF { var_type: ops[0], var_num: be_u16_value(ops.skip(1)) }),
            0x41 => Some(Cmd::VarSetF { var_type: ops[0], var_num: be_u16_value(ops.skip(1)) }),
            0x42 => Some(Cmd::AddVarByF { var_type: ops[0], var_num: be_u16_value(ops.skip(1)) }),
            0x43 => Some(Cmd::SubVarByF { var_type: ops[0], var_num: be_u16_value(ops.skip(1)) }),
            0x44 => Some(Cmd::MultVarByF { var_type: ops[0], var_num: be_u16_value(ops.skip(1)) }),
            0x45 => Some(Cmd::DivVarByF { var_type: ops[0], var_num: be_u16_value(ops.skip(1)) }),
            0x46 => Some(Cmd::EqualsF),
            0x47 => Some(Cmd::NotEqualsF),
            0x48 => Some(Cmd::LessThanF),
            0x49 => Some(Cmd::LessOrEqualF),
            0x4A => Some(Cmd::GreaterF),
            0x4B => Some(Cmd::GreaterOrEqualF),
            0x4C => Some(Cmd::Error4C),
            0x4D => Some(Cmd::Exit),
            _ => None,
        }
    }

    /// How many operand bytes follow a leading byte with this code; `None`
    /// where the table has no entry for `code`.
    pub open spec fn operand_len(code: u8) -> Option<nat> {
        match code {
            0x02 | 0x04 | 0x05 | 0x0A | 0x2E | 0x34 | 0x35 | 0x36 => Some(4),
            0x0B | 0x14 | 0x15 | 0x1C | 0x1D | 0x1E | 0x1F | 0x20 | 0x21 | 0x22 | 0x23 | 0x24
            | 0x3F | 0x40 | 0x41 | 0x42 | 0x43 | 0x44 | 0x45 => Some(3),
            0x0D | 0x2D => Some(2),
            0x2C | 0x2F | 0x30 | 0x31 | 0x38 | 0x39 => Some(1),
            _ => if code <= MAX_CODE {
                Some(0)
            } else {
                None
            },
        }
    }
}

impl Cmd {
    /// How many operand bytes an instruction with this operation has.
    pub fn operand_size(&self) -> (r: usize)
        ensures
            r == self.operands().len(),
            r <= 4,
    {
        match self {
            Cmd::PrintF { .. }
            | Cmd::CallFunc { .. }
            | Cmd::CallFunc2 { .. }
            | Cmd::CallFunc3 { .. }
            | Cmd::IntToFloat { .. }
            | Cmd::FloatToInt { .. } => 1,
            Cmd::PushShort { .. }
            | Cmd::Sys { .. } => 2,
            Cmd::PushVar { .. }
            | Cmd::IncI { .. }
            | Cmd::DecI { .. }
            | Cmd::SetVar { .. }
            | Cmd::AddVarBy { .. }
            | Cmd::SubVarBy { .. }
            | Cmd::MultVarBy { .. }
            | Cmd::DivVarBy { .. }
            | Cmd::ModVarBy { .. }
            | Cmd::AndVarBy { .. }
            | Cmd::OrVarBy { .. }
            | Cmd::XorVarBy { .. }
            | Cmd::IncF { .. }
            | Cmd::DecF { .. }
            | Cmd::VarSetF { .. }
            | Cmd::AddVarByF { .. }
            | Cmd::SubVarByF { .. }
            | Cmd::MultVarByF { .. }
            | Cmd::DivVarByF { .. } => 3,
            Cmd::Begin { .. }
            | Cmd::Jump { .. }
            | Cmd::Jump5 { .. }
            | Cmd::PushInt { .. }
            | Cmd::Try { .. }
            | Cmd::If { .. }
            | Cmd::IfNot { .. }
            | Cmd::Else { .. } => 4,
            _ => 0,
        }
    }
}

/// The table has an entry for a code exactly when the code is at most
/// [`MAX_CODE`]. The variant that it names has that code, and the number of
/// its operand bytes, four at most, depends on the code alone.
pub proof fn lemma_table_codes(code: u8, ops: Seq<u8>)
    ensures
        Cmd::decode(code, ops) is Some <==> code <= MAX_CODE,
        Cmd::operand_len(code) is Some <==> code <= MAX_CODE,
        Cmd::decode(code, ops) is Some ==> Cmd::decode(code, ops).unwrap().code() == code
            && Cmd::operand_len(code) == Some(Cmd::decode(code, ops).unwrap().operands().len())
            && Cmd::decode(code, ops).unwrap().operands().len() <= 4,
{
}

/// Decoding undoes encoding: every variant is found again from its code and
/// its operand bytes, whatever bytes follow them.
pub proof fn lemma_decode_encode(v: Cmd, rest: Seq<u8>)
    ensures
        v.code() <= MAX_CODE,
        Cmd::decode(v.code(), v.operands() + rest) == Some(v),
{
    match v {
        Cmd::Begin { arg_count, var_count } => {
            lemma_be_u16_round_trip(arg_count);
            lemma_be_u16_round_trip(var_count);
        },
        Cmd::Jump { loc }
        | Cmd::Jump5 { loc }
        | Cmd::Try { loc }
        | Cmd::If { loc }
        | Cmd::IfNot { loc }
        | Cmd::Else { loc } => {
            lemma_be_u32_round_trip(loc);
        },
        Cmd::PushInt { val } => {
            lemma_be_u32_round_trip(val);
        },
        Cmd::PushShort { val } => {
            lemma_be_u16_round_trip(val);
        },
        Cmd::PushVar { var_num, .. }
        | Cmd::IncI { var_num, .. }
        | Cmd::DecI { var_num, .. }
        | Cmd::SetVar { var_num, .. }
        | Cmd::AddVarBy { var_num, .. }
        | Cmd::SubVarBy { var_num, .. }
        | Cmd::MultVarBy { var_num, .. }
        | Cmd::DivVarBy { var_num, .. }
        | Cmd::ModVarBy { var_num, .. }
        | Cmd::AndVarBy { var_num, .. }
        | Cmd::OrVarBy { var_num, .. }
        | Cmd::XorVarBy { var_num, .. }
        | Cmd::IncF { var_num, .. }
        | Cmd::DecF { var_num, .. }
        | Cmd::VarSetF { var_num, .. }
        | Cmd::AddVarByF { var_num, .. }
        | Cmd::SubVarByF { var_num, .. }
        | Cmd::MultVarByF { var_num, .. }
        | Cmd::DivVarByF { var_num, .. } => {
            lemma_be_u16_round_trip(var_num);
        },
        _ => {},
    }
}

/// Two bytes read big-endian and written again are the bytes at the front.
proof fn lemma_front_u16(ops: Seq<u8>)
    requires
        ops.len() >= 2,
    ensures
        be_u16_bytes(be_u16_value(ops)) == ops.take(2),
{
    lemma_be_u16_bytes_of_value(ops.take(2));
}

/// Four bytes read big-endian and written again are the bytes at the front.
proof fn lemma_front_u32(ops: Seq<u8>)
    requires
        ops.len() >= 4,
    ensures
        be_u32_bytes(be_u32_value(ops)) == ops.take(4),
{
    lemma_be_u32_bytes_of_value(ops.take(4));
}

/// Encoding undoes decoding: the variant read for `code` from `ops` has that
/// code, and its operand bytes are the bytes it was read from.
pub proof fn lemma_encode_decode(code: u8, ops: Seq<u8>)
    requires
        Cmd::operand_len(code) is Some,
        ops.len() >= Cmd::operand_len(code).unwrap(),
    ensures
        Cmd::decode(code, ops) is Some,
        Cmd::decode(code, ops).unwrap().code() == code,
        Cmd::decode(code, ops).unwrap().operands() == ops.take(
            Cmd::operand_len(code).unwrap() as int,
        ),
{
    lemma_table_codes(code, ops);
    match Cmd::decode(code, ops).unwrap() {
        Cmd::Begin { .. } => {
            lemma_front_u16(ops);
            lemma_front_u16(ops.skip(2));
        },
        Cmd::Jump { .. }
        | Cmd::Jump5 { .. }
        | Cmd::PushInt { .. }
        | Cmd::Try { .. }
        | Cmd::If { .. }
        | Cmd::IfNot { .. }
        | Cmd::Else { .. } => {
            lemma_front_u32(ops);
        },
        Cmd::PushShort { .. } => {
            lemma_front_u16(ops);
        },
        Cmd::PushVar { .. }
        | Cmd::IncI { .. }
        | Cmd::DecI { .. }
        | Cmd::SetVar { .. }
        | Cmd::AddVarBy { .. }
        | Cmd::SubVarBy { .. }
        | Cmd::MultVarBy { .. }
        | Cmd::DivVarBy { .. }
        | Cmd::ModVarBy { .. }
        | Cmd::AndVarBy { .. }
        | Cmd::OrVarBy { .. }
        | Cmd::XorVarBy { .. }
        | Cmd::IncF { .. }
        | Cmd::DecF { .. }
        | Cmd::VarSetF { .. }
        | Cmd::AddVarByF { .. }
        | Cmd::SubVarByF { .. }
        | Cmd::MultVarByF { .. }
        | Cmd::DivVarByF { .. } => {
            lemma_front_u16(ops.skip(1));
        },
        _ => {},
    }
}

} // verus!
