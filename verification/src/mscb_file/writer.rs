//! Encoding: instructions, scripts, strings and the container to bytes.

use crate::cmd::{Cmd, Command};
use crate::error::EncodeError;
use crate::mscb_file::format::{
    encodable, encode_commands, encode_file, encode_header, encode_offsets, encode_scripts,
    encode_slot, encode_strings, padding, script_start, slot_for, slot_len, text_bytes, zeros,
    MAGIC, PUSH_BIT, RESERVED_TAG,
};
use crate::mscb_file::laws::lemma_slot_len_least;
use crate::mscb_file::lemmas::{
    lemma_encode_commands_concat, lemma_encode_commands_push, lemma_encode_scripts_push,
    lemma_script_start_bounds, lemma_slot_len_covers,
};
use crate::mscb_file::MscsbFile;
use crate::wire::{write_u16, write_u32};
use vstd::prelude::*;

verus! {

impl Cmd {
    /// The numeric code of the variant: the low seven bits of the leading
    /// byte of an instruction that carries it.
    pub fn value(&self) -> (r: u8)
        ensures
            r == self.code(),
    {
        match self {
            Cmd::Nop => 0x00,
            Cmd::Unk1 => 0x01,
            Cmd::Begin { .. } => 0x02,
            Cmd::End => 0x03,
            Cmd::Jump { .. } => 0x04,
            Cmd::Jump5 { .. } => 0x05,
            Cmd::Return6 => 0x06,
            Cmd::Return7 => 0x07,
            Cmd::Return8 => 0x08,
            Cmd::Return9 => 0x09,
            Cmd::PushInt { .. } => 0x0A,
            Cmd::PushVar { .. } => 0x0B,
            Cmd::ErrorC => 0x0C,
            Cmd::PushShort { .. } => 0x0D,
            Cmd::AddI => 0x0E,
            Cmd::SubI => 0x0F,
            Cmd::MultI => 0x10,
            Cmd::DivI => 0x11,
            Cmd::ModI => 0x12,
            Cmd::NegI => 0x13,
            Cmd::IncI { .. } => 0x14,
            Cmd::DecI { .. } => 0x15,
            Cmd::AndI => 0x16,
            Cmd::OrI => 0x17,
            Cmd::NotI => 0x18,
            Cmd::XorI => 0x19,
            Cmd::ShiftL => 0x1A,
            Cmd::ShiftR => 0x1B,
            Cmd::SetVar { .. } => 0x1C,
            Cmd::AddVarBy { .. } => 0x1D,
            Cmd::SubVarBy { .. } => 0x1E,
            Cmd::MultVarBy { .. } => 0x1F,
            Cmd::DivVarBy { .. } => 0x20,
            Cmd::ModVarBy { .. } => 0x21,
            Cmd::AndVarBy { .. } => 0x22,
            Cmd::OrVarBy { .. } => 0x23,
            Cmd::XorVarBy { .. } => 0x24,
            Cmd::Equals => 0x25,
            Cmd::NotEquals => 0x26,
            Cmd::LessThan => 0x27,
            Cmd::LessOrEqual => 0x28,
            Cmd::Greater => 0x29,
            Cmd::GreaterOrEqual => 0x2A,
            Cmd::Not => 0x2B,
            Cmd::PrintF { .. } => 0x2C,
            Cmd::Sys { .. } => 0x2D,
            Cmd::Try { .. } => 0x2E,
            Cmd::CallFunc { .. } => 0x2F,
            Cmd::CallFunc2 { .. } => 0x30,
            Cmd::CallFunc3 { .. } => 0x31,
            Cmd::Push => 0x32,
            Cmd::Pop => 0x33,
            Cmd::If { .. } => 0x34,
            Cmd::IfNot { .. } => 0x35,
            Cmd::Else { .. } => 0x36,
            Cmd::Error37 => 0x37,
            Cmd::IntToFloat { .. } => 0x38,
            Cmd::FloatToInt { .. } => 0x39,
            Cmd::AddF => 0x3A,
            Cmd::SubF => 0x3B,
            Cmd::MultF => 0x3C,
            Cmd::DivF => 0x3D,
            Cmd::NegF => 0x3E,
            Cmd::IncF { .. } => 0x3F,
            Cmd::DecF { .. } => 0x40,
            Cmd::VarSetF { .. } => 0x41,
            Cmd::AddVarByF { .. } => 0x42,
            Cmd::SubVarByF { .. } => 0x43,
            Cmd::MultVarByF { .. } => 0x44,
            Cmd::DivVarByF { .. } => 0x45,
            Cmd::EqualsF => 0x46,
            Cmd::NotEqualsF => 0x47,
            Cmd::LessThanF => 0x48,
            Cmd::LessOrEqualF => 0x49,
            Cmd::GreaterF => 0x4A,
            Cmd::GreaterOrEqualF => 0x4B,
            Cmd::Error4C => 0x4C,
            Cmd::Exit => 0x4D,
        }
    }
}

impl Command {
    /// Appends the bytes of the instruction to `f`: the leading byte, which
    /// holds the opcode and the push flag, then the operands, big-endian.
    pub fn write(&self, f: &mut Vec<u8>)
        ensures
            final(f)@ == old(f)@ + self.encoding(),
    {
        let flag: u8 = if self.push_bit { PUSH_BIT } else { 0 };
        f.push(self.cmd.value() | flag);
        match self.cmd {
            Cmd::Begin { arg_count, var_count } => {
                write_u16(arg_count, f, true);
                write_u16(var_count, f, true);
            },
            Cmd::Jump { loc }
            | Cmd::Jump5 { loc }
            | Cmd::Try { loc }
            | Cmd::If { loc }
            | Cmd::IfNot { loc }
            | Cmd::Else { loc } => {
                write_u32(loc, f, true);
            },
            Cmd::PushInt { val } => {
                write_u32(val, f, true);
            },
            Cmd::PushShort { val } => {
                write_u16(val, f, true);
            },
            Cmd::PushVar { var_type, var_num }
            | Cmd::IncI { var_type, var_num }
            | Cmd::DecI { var_type, var_num }
            | Cmd::SetVar { var_type, var_num }
            | Cmd::AddVarBy { var_type, var_num }
            | Cmd::SubVarBy { var_type, var_num }
            | Cmd::MultVarBy { var_type, var_num }
            | Cmd::DivVarBy { var_type, var_num }
            | Cmd::ModVarBy { var_type, var_num }
            | Cmd::AndVarBy { var_type, var_num }
            | Cmd::OrVarBy { var_type, var_num }
            | Cmd::XorVarBy { var_type, var_num }
            | Cmd::IncF { var_type, var_num }
            | Cmd::DecF { var_type, var_num }
            | Cmd::VarSetF { var_type, var_num }
            | Cmd::AddVarByF { var_type, var_num }
            | Cmd::SubVarByF { var_type, var_num }
            | Cmd::MultVarByF { var_type, var_num }
            | Cmd::DivVarByF { var_type, var_num } => {
                f.push(var_type);
                write_u16(var_num, f, true);
            },
            Cmd::PrintF { arg_count }
            | Cmd::CallFunc { arg_count }
            | Cmd::CallFunc2 { arg_count }
            | Cmd::CallFunc3 { arg_count } => {
                f.push(arg_count);
            },
            Cmd::Sys { arg_count, sys_num } => {
                f.push(arg_count);
                f.push(sys_num);
            },
            Cmd::IntToFloat { stack_pos }
            | Cmd::FloatToInt { stack_pos } => {
                f.push(stack_pos);
            },
            _ => {},
        }
        assert(f@ =~= old(f)@ + self.encoding());
    }

    /// The number of bytes of the instruction: one for the leading byte, and
    /// up to four for the operands.
    pub fn size(&self) -> (r: usize)
        ensures
            r == self.encoding().len(),
            1 <= r <= 5,
    {
        1 + self.cmd.operand_size()
    }
}

/// Appends `bytes` to `f`.
fn write_bytes(bytes: &[u8], f: &mut Vec<u8>)
    ensures
        final(f)@ == old(f)@ + bytes@,
{
    f.extend_from_slice(bytes);
    assert(f@ =~= old(f)@ + bytes@);
}

/// Appends `n` zero bytes to `f`.
fn write_zeros(n: usize, f: &mut Vec<u8>)
    ensures
        final(f)@ == old(f)@ + zeros(n as int),
{
    let mut i: usize = 0;
    while i < n
        invariant
            i <= n,
            f@ == old(f)@ + zeros(i as int),
        decreases n - i,
    {
        f.push(0u8);
        i += 1;
    }
}

/// Appends the zero bytes that bring a container of `len` bytes to the next
/// 16-byte boundary.
fn write_padding(len: usize, f: &mut Vec<u8>)
    ensures
        final(f)@ == old(f)@ + zeros(padding(len as int)),
{
    write_zeros((16 - len % 16) % 16, f);
}

/// Appends a string slot of `size` bytes to `f`: the bytes of `text`, a zero
/// byte that ends it, and zero bytes to the end of the slot. The slot has to
/// be longer than the text.
pub fn write_slot(text: &str, size: u32, f: &mut Vec<u8>)
    requires
        text_bytes(text@).len() < size,
    ensures
        final(f)@ == old(f)@ + encode_slot(text@, size as nat),
{
    write_bytes(text.as_bytes(), f);
    f.push(0u8);
    write_zeros(size as usize - (1 + text.len()), f);
}

impl MscsbFile {
    /// Appends the bytes of the container to `f` when its sizes fit the
    /// header, and leaves `f` as it is when they do not.
    pub fn try_write(&self, f: &mut Vec<u8>) -> (r: Result<(), EncodeError>)
        ensures
            encodable(self@) ==> r is Ok && final(f)@ == old(f)@ + encode_file(self@),
            !encodable(self@) ==> r == Err::<(), EncodeError>(EncodeError::OutOfRange)
                && final(f)@ == old(f)@,
    {
        if self.is_encodable() {
            self.write(f);
            Ok(())
        } else {
            Err(EncodeError::OutOfRange)
        }
    }

    /// Appends the bytes of the container to `f`: the header, the script
    /// data, the offset table and the string slots, with zero bytes before
    /// the table and before the slots that bring each to a 16-byte boundary
    /// of the container.
    ///
    /// The header is little-endian; the operands inside the script data are
    /// big-endian. The sizes of the container have to fit the header, see
    /// [`MscsbFile::is_encodable`].
    pub fn write(&self, f: &mut Vec<u8>)
        requires
            encodable(self@),
        ensures
            final(f)@ == old(f)@ + encode_file(self@),
    {
        let ghost c = self@;
        let ghost before = f@;
        let start = f.len();
        let max_str_len = self.get_max_string_size();
        let mut script_data: Vec<u8> = Vec::new();
        let script_offsets = self.generate_script_data(&mut script_data);
        assert(script_data@ =~= encode_scripts(c.scripts));
        write_bytes(&MAGIC, f);
        write_u32(0, f, false);
        write_u32(script_data.len() as u32, f, false);
        write_u32(self.entrypoint, f, false);
        write_u32(self.scripts.len() as u32, f, false);
        write_u32(RESERVED_TAG, f, false);
        write_u32(max_str_len, f, false);
        write_u32(self.strings.len() as u32, f, false);
        write_zeros(8, f);
        assert(f@ =~= before + encode_header(c));
        write_bytes(script_data.as_slice(), f);
        write_padding(f.len() - start, f);
        let ghost body = encode_header(c) + encode_scripts(c.scripts);
        let ghost body = body + zeros(padding(body.len() as int));
        assert(f@ =~= before + body);
        let mut i: usize = 0;
        while i < script_offsets.len()
            invariant
                i <= script_offsets@.len(),
                script_offsets@.len() == c.scripts.len(),
                forall|k: int|
                    0 <= k < c.scripts.len() ==> #[trigger] script_offsets@[k] == script_start(
                        c.scripts,
                        k,
                    ),
                f@ == before + body + encode_offsets(c.scripts, i as int),
            decreases script_offsets@.len() - i,
        {
            write_u32(script_offsets[i], f, false);
            i += 1;
            assert(f@ =~= before + body + encode_offsets(c.scripts, i as int));
        }
        let ghost table = body + encode_offsets(c.scripts, c.scripts.len() as int);
        assert(f@ =~= before + table);
        write_padding(f.len() - start, f);
        let ghost table = table + zeros(padding(table.len() as int));
        assert(f@ =~= before + table);
        let mut i: usize = 0;
        while i < self.strings.len()
            invariant
                i <= self.strings@.len(),
                c == self@,
                encodable(c),
                max_str_len == slot_len(c.strings),
                f@ == before + table + encode_strings(c.strings, max_str_len as nat, i as int),
            decreases self.strings@.len() - i,
        {
            let string = self.strings[i].as_str();
            proof {
                lemma_slot_len_covers(c.strings, i as int);
                assert(c.strings[i as int] == string@);
            }
            write_slot(string, max_str_len, f);
            i += 1;
            assert(f@ =~= before + table + encode_strings(c.strings, max_str_len as nat, i as int));
        }
    }

    /// Whether the sizes of the container fit its header: the number of
    /// scripts, the number of strings and the size of the script data fit 32
    /// bits, and no string is longer than `0xFFFF_FFEF` bytes, so that the
    /// slot length fits 32 bits. [`MscsbFile::write`] asks for this.
    pub fn is_encodable(&self) -> (r: bool)
        ensures
            r == encodable(self@),
    {
        let ghost c = self@;
        if self.scripts.len() > u32::MAX as usize || self.strings.len() > u32::MAX as usize {
            return false;
        }
        let mut total: u64 = 0;
        let mut i: usize = 0;
        while i < self.scripts.len()
            invariant
                i <= self.scripts@.len(),
                c == self@,
                total == script_start(c.scripts, i as int),
                total <= u32::MAX,
            decreases self.scripts@.len() - i,
        {
            let script = &self.scripts[i];
            let ghost base = total;
            let mut j: usize = 0;
            proof {
                lemma_script_start_bounds(c.scripts, i as int);
                lemma_script_start_bounds(c.scripts, i + 1);
                assert(c.scripts[i as int].commands == script.commands@);
            }
            while j < script.commands.len()
                invariant
                    j <= script.commands@.len(),
                    c == self@,
                    total == base + encode_commands(script.commands@.take(j as int)).len(),
                    total <= u32::MAX,
                    base + encode_commands(script.commands@).len() <= encode_scripts(
                        c.scripts,
                    ).len(),
                decreases script.commands@.len() - j,
            {
                proof {
                    let commands = script.commands@;
                    lemma_encode_commands_push(commands.take(j as int), commands[j as int]);
                    assert(commands.take(j as int).push(commands[j as int]) =~= commands.take(
                        j + 1,
                    ));
                    lemma_encode_commands_concat(commands.take(j + 1), commands.skip(j + 1));
                    assert(commands.take(j + 1) + commands.skip(j + 1) =~= commands);
                }
                total = total + script.commands[j].size() as u64;
                if total > u32::MAX as u64 {
                    return false;
                }
                j += 1;
            }
            assert(script.commands@.take(script.commands@.len() as int) =~= script.commands@);
            i += 1;
        }
        proof {
            lemma_script_start_bounds(c.scripts, c.scripts.len() as int);
        }
        let mut i: usize = 0;
        while i < self.strings.len()
            invariant
                i <= self.strings@.len(),
                c == self@,
                forall|k: int|
                    0 <= k < i ==> slot_for(#[trigger] text_bytes(c.strings[k]).len()) <= u32::MAX,
            decreases self.strings@.len() - i,
        {
            let len = self.strings[i].as_str().as_bytes().len();
            assert(c.strings[i as int] == self.strings@[i as int]@);
            if len > 0xFFFF_FFEF {
                assert(len / 16 >= 0x0FFF_FFFF);
                assert(slot_for(text_bytes(c.strings[i as int]).len()) > u32::MAX);
                return false;
            }
            assert(len / 16 <= 0x0FFF_FFFE);
            assert(slot_for(text_bytes(c.strings[i as int]).len()) <= u32::MAX);
            i += 1;
        }
        true
    }

    /// Appends the script data to `f`, the instructions of each script
    /// big-endian and one script behind the other, and returns where each
    /// script starts, as its index in `f`.
    pub fn generate_script_data(&self, f: &mut Vec<u8>) -> (script_offsets: Vec<u32>)
        requires
            old(f)@.len() + encode_scripts(self@.scripts).len() <= u32::MAX,
        ensures
            final(f)@ == old(f)@ + encode_scripts(self@.scripts),
            script_offsets@.len() == self@.scripts.len(),
            forall|i: int|
                0 <= i < self@.scripts.len() ==> #[trigger] script_offsets@[i] == old(f)@.len()
                    + script_start(self@.scripts, i),
    {
        let ghost scripts = self@.scripts;
        let ghost before = f@;
        let mut script_offsets: Vec<u32> = Vec::new();
        let mut i: usize = 0;
        while i < self.scripts.len()
            invariant
                i <= self.scripts@.len(),
                scripts == self@.scripts,
                before.len() + encode_scripts(scripts).len() <= u32::MAX,
                f@ == before + encode_scripts(scripts.take(i as int)),
                script_offsets@.len() == i,
                forall|k: int|
                    0 <= k < i ==> #[trigger] script_offsets@[k] == before.len() + script_start(
                        scripts,
                        k,
                    ),
            decreases self.scripts@.len() - i,
        {
            proof {
                lemma_script_start_bounds(scripts, i as int);
            }
            script_offsets.push(f.len() as u32);
            let script = &self.scripts[i];
            let ghost here = f@;
            let mut j: usize = 0;
            while j < script.commands.len()
                invariant
                    j <= script.commands@.len(),
                    f@ == here + encode_commands(script.commands@.take(j as int)),
                decreases script.commands@.len() - j,
            {
                script.commands[j].write(f);
                proof {
                    lemma_encode_commands_push(
                        script.commands@.take(j as int),
                        script.commands@[j as int],
                    );
                    assert(script.commands@.take(j as int).push(script.commands@[j as int])
                        =~= script.commands@.take(j + 1));
                }
                j += 1;
            }
            proof {
                assert(script.commands@.take(script.commands@.len() as int) =~= script.commands@);
                lemma_encode_scripts_push(scripts.take(i as int), scripts[i as int]);
                assert(scripts.take(i as int).push(scripts[i as int]) =~= scripts.take(i + 1));
                assert(scripts[i as int].commands == script.commands@);
            }
            i += 1;
            assert(f@ =~= before + encode_scripts(scripts.take(i as int)));
        }
        assert(scripts.take(scripts.len() as int) =~= scripts);
        script_offsets
    }

    /// The slot length of the string table: the least multiple of 16 that is
    /// greater than the byte length of each string, and 0 when there is no
    /// string.
    pub fn get_max_string_size(&self) -> (r: u32)
        requires
            forall|i: int|
                0 <= i < self@.strings.len() ==> slot_for(
                    #[trigger] text_bytes(self@.strings[i]).len(),
                ) <= u32::MAX,
        ensures
            r == slot_len(self@.strings),
            r % 16 == 0,
            forall|i: int|
                0 <= i < self@.strings.len() ==> (#[trigger] text_bytes(self@.strings[i])).len()
                    < r,
    {
        let ghost strings = self@.strings;
        let mut max: u32 = 0;
        let mut i: usize = 0;
        while i < self.strings.len()
            invariant
                i <= self.strings@.len(),
                strings == self@.strings,
                forall|k: int|
                    0 <= k < strings.len() ==> slot_for(#[trigger] text_bytes(strings[k]).len())
                        <= u32::MAX,
                max == slot_len(strings.take(i as int)),
            decreases self.strings@.len() - i,
        {
            let len = self.strings[i].as_str().len();
            proof {
                assert(strings[i as int] == self.strings@[i as int]@);
                assert(len == text_bytes(strings[i as int]).len());
                assert(strings.take(i + 1).drop_last() =~= strings.take(i as int));
                assert(strings.take(i + 1).last() == strings[i as int]);
            }
            let here = ((len / 16 + 1) * 16) as u32;
            if here > max {
                max = here;
            }
            i += 1;
        }
        proof {
            assert(strings.take(strings.len() as int) =~= strings);
            lemma_slot_len_least(strings, 0);
        }
        max
    }
}

} // verus!
