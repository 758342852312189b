//! The instruction model: one tagged variant per opcode, the instruction
//! that carries it, and the script that holds a run of instructions.

use vstd::prelude::*;
use vstd::std_specs::iter::IteratorSpec;

verus! {

/// One variant per opcode, each carrying its own operands and nothing else.
///
/// The numeric code of a variant is the low seven bits of an instruction's
/// leading byte; it is given beside each variant and by [`Cmd::code`].
/// Codes `0x0C`, `0x37` and `0x4C` name no operation, yet they occur in
/// scripts and are kept as variants without operands. The three call
/// variants have the adjacent codes `0x2F`, `0x30` and `0x31`.
#[allow(inconsistent_fields)]
#[derive(Debug, Clone, Copy, PartialEq, Eq, Structural)]
pub enum Cmd {
    /// Code `0x00`.
    Nop,
    /// Code `0x01`.
    Unk1,
    /// Code `0x02`.
    Begin { arg_count: u16, var_count: u16 },
    /// Code `0x03`.
    End,
    /// Code `0x04`.
    Jump { loc: u32 },
    /// Code `0x05`.
    Jump5 { loc: u32 },
    /// Code `0x06`.
    Return6,
    /// Code `0x07`.
    Return7,
    /// Code `0x08`.
    Return8,
    /// Code `0x09`.
    Return9,
    /// Code `0x0A`.
    PushInt { val: u32 },
    /// Code `0x0B`.
    PushVar { var_type: u8, var_num: u16 },
    /// Code `0x0C`.
    ErrorC,
    /// Code `0x0D`.
    PushShort { val: u16 },
    /// Code `0x0E`.
    AddI,
    /// Code `0x0F`.
    SubI,
    /// Code `0x10`.
    MultI,
    /// Code `0x11`.
    DivI,
    /// Code `0x12`.
    ModI,
    /// Code `0x13`.
    NegI,
    /// Code `0x14`.
    IncI { var_type: u8, var_num: u16 },
    /// Code `0x15`.
    DecI { var_type: u8, var_num: u16 },
    /// Code `0x16`.
    AndI,
    /// Code `0x17`.
    OrI,
    /// Code `0x18`.
    NotI,
    /// Code `0x19`.
    XorI,
    /// Code `0x1A`.
    ShiftL,
    /// Code `0x1B`.
    ShiftR,
    /// Code `0x1C`.
    SetVar { var_type: u8, var_num: u16 },
    /// Code `0x1D`.
    AddVarBy { var_type: u8, var_num: u16 },
    /// Code `0x1E`.
    SubVarBy { var_type: u8, var_num: u16 },
    /// Code `0x1F`.
    MultVarBy { var_type: u8, var_num: u16 },
    /// Code `0x20`.
    DivVarBy { var_type: u8, var_num: u16 },
    /// Code `0x21`.
    ModVarBy { var_type: u8, var_num: u16 },
    /// Code `0x22`.
    AndVarBy { var_type: u8, var_num: u16 },
    /// Code `0x23`.
    OrVarBy { var_type: u8, var_num: u16 },
    /// Code `0x24`.
    XorVarBy { var_type: u8, var_num: u16 },
    /// Code `0x25`.
    Equals,
    /// Code `0x26`.
    NotEquals,
    /// Code `0x27`.
    LessThan,
    /// Code `0x28`.
    LessOrEqual,
    /// Code `0x29`.
    Greater,
    /// Code `0x2A`.
    GreaterOrEqual,
    /// Code `0x2B`.
    Not,
    /// Code `0x2C`.
    PrintF { arg_count: u8 },
    /// Code `0x2D`.
    Sys { arg_count: u8, sys_num: u8 },
    /// Code `0x2E`.
    Try { loc: u32 },
    /// Code `0x2F`.
    CallFunc { arg_count: u8 },
    /// Code `0x30`.
    CallFunc2 { arg_count: u8 },
    /// Code `0x31`.
    CallFunc3 { arg_count: u8 },
    /// Code `0x32`.
    Push,
    /// Code `0x33`.
    Pop,
    /// Code `0x34`.
    If { loc: u32 },
    /// Code `0x35`.
    IfNot { loc: u32 },
    /// Code `0x36`.
    Else { loc: u32 },
    /// Code `0x37`.
    Error37,
    /// Code `0x38`.
    IntToFloat { stack_pos: u8 },
    /// Code `0x39`.
    FloatToInt { stack_pos: u8 },
    /// Code `0x3A`.
    AddF,
    /// Code `0x3B`.
    SubF,
    /// Code `0x3C`.
    MultF,
    /// Code `0x3D`.
    DivF,
    /// Code `0x3E`.
    NegF,
    /// Code `0x3F`.
    IncF { var_type: u8, var_num: u16 },
    /// Code `0x40`.
    DecF { var_type: u8, var_num: u16 },
    /// Code `0x41`.
    VarSetF { var_type: u8, var_num: u16 },
    /// Code `0x42`.
    AddVarByF { var_type: u8, var_num: u16 },
    /// Code `0x43`.
    SubVarByF { var_type: u8, var_num: u16 },
    /// Code `0x44`.
    MultVarByF { var_type: u8, var_num: u16 },
    /// Code `0x45`.
    DivVarByF { var_type: u8, var_num: u16 },
    /// Code `0x46`.
    EqualsF,
    /// Code `0x47`.
    NotEqualsF,
    /// Code `0x48`.
    LessThanF,
    /// Code `0x49`.
    LessOrEqualF,
    /// Code `0x4A`.
    GreaterF,
    /// Code `0x4B`.
    GreaterOrEqualF,
    /// Code `0x4C`.
    Error4C,
    /// Code `0x4D`.
    Exit,
}

/// One instruction of a script.
#[derive(Debug, Clone, Copy, PartialEq, Eq, Structural)]
pub struct Command {
    /// The operation and its operands.
    pub cmd: Cmd,
    /// The high bit of the leading byte. It says whether the result of the
    /// instruction is pushed, and is no part of the opcode.
    pub push_bit: bool,
    /// Where the instruction starts, in bytes from the start of its script.
    pub position: u32,
}

/// A run of instructions, with the bytes of the script data that it covers.
#[derive(Debug, PartialEq, Eq)]
pub struct Script {
    /// The instructions, in the order of their bytes.
    pub commands: Vec<Command>,
    /// First byte and one past the last byte of the script, as offsets into
    /// the container's script data.
    pub bounds: (u32, u32),
}

/// What a [`Script`] is to a contract: its instructions as a sequence, and
/// its bounds.
pub struct ScriptModel {
    pub commands: Seq<Command>,
    pub bounds: (u32, u32),
}

impl View for Script {
    type V = ScriptModel;

    open spec fn view(&self) -> ScriptModel {
        ScriptModel { commands: self.commands@, bounds: self.bounds }
    }
}

impl Script {
    /// An iterator over the instructions of the script, in their order.
    pub fn iter(&self) -> (r: core::slice::Iter<'_, Command>)
        ensures
            r.remaining() == self.commands@.as_ref(),
    {
        self.commands.iter()
    }
}

} // verus!
