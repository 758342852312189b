//! Decoding: bytes to instructions, scripts, strings and the container.

use crate::cmd::{Cmd, Command, Script, ScriptModel};
use crate::error::DecodeError;
use crate::mscb_file::format::{
    aligned, ascending, content, decode_command, decode_commands, decode_script, decode_scripts,
    has_magic, parse_file, read_header, read_strings, Header, CODE_MASK, HEADER_LEN, MAGIC,
    PLACEHOLDER, PUSH_BIT,
};
use crate::mscb_file::lemmas::{lemma_ascending_is_total, lemma_content_len};
use crate::mscb_file::{script_models, texts, MscsbFile};
use crate::opcode::lemma_table_codes;
use crate::wire::{be_u16, be_u16_value, be_u32, be_u8, le_u32, le_u32_value};
use vstd::prelude::*;
use vstd::relations::sorted_by;
use vstd::seq_lib::lemma_sorted_unique;
use vstd::slice::slice_subrange;
use vstd::utf8::{decode_utf8, encode_utf8, encode_utf8_decode_utf8, valid_utf8};

verus! {

/// Reads a variable reference: a type tag of one byte, then an index of two.
fn take_var(ops: &[u8]) -> (r: Option<(u8, u16)>)
    ensures
        r == (if ops@.len() >= 3 {
            Some((ops@[0], be_u16_value(ops@.skip(1))))
        } else {
            None
        }),
{
    match be_u8(ops) {
        Some(var_type) => match be_u16(slice_subrange(ops, 1, ops.len())) {
            Some(var_num) => Some((var_type, var_num)),
            None => None,
        },
        None => None,
    }
}

/// Reads two fields of two bytes each.
fn take_u16_pair(ops: &[u8]) -> (r: Option<(u16, u16)>)
    ensures
        r == (if ops@.len() >= 4 {
            Some((be_u16_value(ops@), be_u16_value(ops@.skip(2))))
        } else {
            None
        }),
{
    match be_u16(ops) {
        Some(first) => match be_u16(slice_subrange(ops, 2, ops.len())) {
            Some(second) => Some((first, second)),
            None => None,
        },
        None => None,
    }
}

/// Reads two fields of one byte each.
fn take_u8_pair(ops: &[u8]) -> (r: Option<(u8, u8)>)
    ensures
        r == (if ops@.len() >= 2 {
            Some((ops@[0], ops@[1]))
        } else {
            None
        }),
{
    match be_u8(ops) {
        Some(first) => match be_u8(slice_subrange(ops, 1, ops.len())) {
            Some(second) => Some((first, second)),
            None => None,
        },
        None => None,
    }
}

/// Reads from the front of `ops` the operands of the operation that `code`
/// names, and returns the operation. `position` goes into the error: an
/// unknown opcode where the table has no entry for `code`, a truncated
/// instruction where `ops` ends before the last operand byte.
fn take_operation(code: u8, ops: &[u8], position: u32) -> (r: Result<Cmd, DecodeError>)
    ensures
        r == (match Cmd::operand_len(code) {
            None => Err::<Cmd, DecodeError>(DecodeError::UnknownOpcode { offset: position, code }),
            Some(n) => if ops@.len() < n {
                Err(DecodeError::TruncatedInstruction { offset: position })
            } else {
                Ok(Cmd::decode(code, ops@).unwrap())
            },
        }),
{
    let parsed: Option<Cmd> = match code {
        0x00 => Some(Cmd::Nop),
        0x01 => Some(Cmd::Unk1),
        0x02 => match take_u16_pair(ops) {
            Some((arg_count, var_count)) => Some(Cmd::Begin { arg_count, var_count }),
            None => None,
        },
        0x03 => Some(Cmd::End),
        0x04 => match be_u32(ops) {
            Some(loc) => Some(Cmd::Jump { loc }),
            None => None,
        },
        0x05 => match be_u32(ops) {
            Some(loc) => Some(Cmd::Jump5 { loc }),
            None => None,
        },
        0x06 => Some(Cmd::Return6),
        0x07 => Some(Cmd::Return7),
        0x08 => Some(Cmd::Return8),
        0x09 => Some(Cmd::Return9),
        0x0A => match be_u32(ops) {
            Some(val) => Some(Cmd::PushInt { val }),
            None => None,
        },
        0x0B => match take_var(ops) {
            Some((var_type, var_num)) => Some(Cmd::PushVar { var_type, var_num }),
            None => None,
        },
        0x0C => Some(Cmd::ErrorC),
        0x0D => match be_u16(ops) {
            Some(val) => Some(Cmd::PushShort { val }),
            None => None,
        },
        0x0E => Some(Cmd::AddI),
        0x0F => Some(Cmd::SubI),
        0x10 => Some(Cmd::MultI),
        0x11 => Some(Cmd::DivI),
        0x12 => Some(Cmd::ModI),
        0x13 => Some(Cmd::NegI),
        0x14 => match take_var(ops) {
            Some((var_type, var_num)) => Some(Cmd::IncI { var_type, var_num }),
            None => None,
        },
        0x15 => match take_var(ops) {
            Some((var_type, var_num)) => Some(Cmd::DecI { var_type, var_num }),
            None => None,
        },
        0x16 => Some(Cmd::AndI),
        0x17 => Some(Cmd::OrI),
        0x18 => Some(Cmd::NotI),
        0x19 => Some(Cmd::XorI),
        0x1A => Some(Cmd::ShiftL),
        0x1B => Some(Cmd::ShiftR),
        0x1C => match take_var(ops) {
            Some((var_type, var_num)) => Some(Cmd::SetVar { var_type, var_num }),
            None => None,
        },
        0x1D => match take_var(ops) {
            Some((var_type, var_num)) => Some(Cmd::AddVarBy { var_type, var_num }),
            None => None,
        },
        0x1E => match take_var(ops) {
            Some((var_type, var_num)) => Some(Cmd::SubVarBy { var_type, var_num }),
            None => None,
        },
        0x1F => match take_var(ops) {
            Some((var_type, var_num)) => Some(Cmd::MultVarBy { var_type, var_num }),
            None => None,
        },
        0x20 => match take_var(ops) {
            Some((var_type, var_num)) => Some(Cmd::DivVarBy { var_type, var_num }),
            None => None,
        },
        0x21 => match take_var(ops) {
            Some((var_type, var_num)) => Some(Cmd::ModVarBy { var_type, var_num }),
            None => None,
        },
        0x22 => match take_var(ops) {
            Some((var_type, var_num)) => Some(Cmd::AndVarBy { var_type, var_num }),
            None => None,
        },
        0x23 => match take_var(ops) {
            Some((var_type, var_num)) => Some(Cmd::OrVarBy { var_type, var_num }),
            None => None,
        },
        0x24 => match take_var(ops) {
            Some((var_type, var_num)) => Some(Cmd::XorVarBy { var_type, var_num }),
            None => None,
        },
        0x25 => Some(Cmd::Equals),
        0x26 => Some(Cmd::NotEquals),
        0x27 => Some(Cmd::LessThan),
        0x28 => Some(Cmd::LessOrEqual),
        0x29 => Some(Cmd::Greater),
        0x2A => Some(Cmd::GreaterOrEqual),
        0x2B => Some(Cmd::Not),
        0x2C => match be_u8(ops) {
            Some(arg_count) => Some(Cmd::PrintF { arg_count }),
            None => None,
        },
        0x2D => match take_u8_pair(ops) {
            Some((arg_count, sys_num)) => Some(Cmd::Sys { arg_count, sys_num }),
            None => None,
        },
        0x2E => match be_u32(ops) {
            Some(loc) => Some(Cmd::Try { loc }),
            None => None,
        },
        0x2F => match be_u8(ops) {
            Some(arg_count) => Some(Cmd::CallFunc { arg_count }),
            None => None,
        },
        0x30 => match be_u8(ops) {
            Some(arg_count) => Some(Cmd::CallFunc2 { arg_count }),
            None => None,
        },
        0x31 => match be_u8(ops) {
            Some(arg_count) => Some(Cmd::CallFunc3 { arg_count }),
            None => None,
        },
        0x32 => Some(Cmd::Push),
        0x33 => Some(Cmd::Pop),
        0x34 => match be_u32(ops) {
            Some(loc) => Some(Cmd::If { loc }),
            None => None,
        },
        0x35 => match be_u32(ops) {
            Some(loc) => Some(Cmd::IfNot { loc }),
            None => None,
        },
        0x36 => match be_u32(ops) {
            Some(loc) => Some(Cmd::Else { loc }),
            None => None,
        },
        0x37 => Some(Cmd::Error37),
        0x38 => match be_u8(ops) {
            Some(stack_pos) => Some(Cmd::IntToFloat { stack_pos }),
            None => None,
        },
        0x39 => match be_u8(ops) {
            Some(stack_pos) => Some(Cmd::FloatToInt { stack_pos }),
            None => None,
        },
        0x3A => Some(Cmd::AddF),
        0x3B => Some(Cmd::SubF),
        0x3C => Some(Cmd::MultF),
        0x3D => Some(Cmd::DivF),
        0x3E => Some(Cmd::NegF),
        0x3F => match take_var(ops) {
            Some((var_type, var_num)) => Some(Cmd::IncF { var_type, var_num }),
            None => None,
        },
        0x40 => match take_var(ops) {
            Some((var_type, var_num)) => Some(Cmd::DecF { var_type, var_num }),
            None => None,
        },
        0x41 => match take_var(ops) {
            Some((var_type, var_num)) => Some(Cmd::VarSetF { var_type, var_num }),
            None => None,
        },
        0x42 => match take_var(ops) {
            Some((var_type, var_num)) => Some(Cmd::AddVarByF { var_type, var_num }),
            None => None,
        },
        0x43 => match take_var(ops) {
            Some((var_type, var_num)) => Some(Cmd::SubVarByF { var_type, var_num }),
            None => None,
        },
        0x44 => match take_var(ops) {
            Some((var_type, var_num)) => Some(Cmd::MultVarByF { var_type, var_num }),
            None => None,
        },
        0x45 => match take_var(ops) {
            Some((var_type, var_num)) => Some(Cmd::DivVarByF { var_type, var_num }),
            None => None,
        },
        0x46 => Some(Cmd::EqualsF),
        0x47 => Some(Cmd::NotEqualsF),
        0x48 => Some(Cmd::LessThanF),
        0x49 => Some(Cmd::LessOrEqualF),
        0x4A => Some(Cmd::GreaterF),
        0x4B => Some(Cmd::GreaterOrEqualF),
        0x4C => Some(Cmd::Error4C),
        0x4D => Some(Cmd::Exit),
        _ => { return Err(DecodeError::UnknownOpcode { offset: position, code }); },
    };
    match parsed {
        Some(cmd) => Ok(cmd),
        None => Err(DecodeError::TruncatedInstruction { offset: position }),
    }
}

/// Decodes the instruction at the front of `input`.
///
/// Returns the number of bytes that the instruction takes up, so that what
/// is left of `input` starts at that index, and the instruction with
/// `position` recorded in it. Fails with `UnknownOpcode` when the low seven
/// bits of the leading byte name no table entry, and with
/// `TruncatedInstruction` when `input` ends before the last operand byte, or
/// is empty. `position` goes into the error as its offset.
pub fn take_cmd(input: &[u8], position: u32) -> (r: Result<(usize, Command), DecodeError>)
    ensures
        match decode_command(input@, position) {
            Ok((used, command)) => r == Ok::<(usize, Command), DecodeError>(
                (used as usize, command),
            ) && 1 <= used <= input@.len(),
            Err(e) => r == Err::<(usize, Command), DecodeError>(e),
        },
{
    let lead = match be_u8(input) {
        Some(lead) => lead,
        None => { return Err(DecodeError::TruncatedInstruction { offset: position }); },
    };
    let ops = slice_subrange(input, 1, input.len());
    let code = lead & CODE_MASK;
    match take_operation(code, ops, position) {
        Ok(cmd) => {
            proof {
                lemma_table_codes(code, ops@);
            }
            let used = 1 + cmd.operand_size();
            Ok((used, Command { cmd, push_bit: lead & PUSH_BIT == PUSH_BIT, position }))
        },
        Err(e) => Err(e),
    }
}

/// Decodes `input`, the bytes of one script that starts at offset `position`
/// of the script data, into its instructions.
///
/// Instructions are decoded one after another until the bytes are used up;
/// no bytes give no instructions. The position of an instruction is where it
/// starts in `input`. The bounds of the script are `position` and `position`
/// plus the length of `input`. The first instruction that cannot be decoded
/// ends the decoding with its error, whose offset counts from the start of
/// the script data.
pub fn take_script(input: &[u8], position: u32) -> (r: Result<Script, DecodeError>)
    requires
        position + input@.len() <= u32::MAX,
    ensures
        match decode_script(input@, position) {
            Ok(script) => r is Ok && r.unwrap()@ == script,
            Err(e) => r == Err::<Script, DecodeError>(e),
        },
{
    let len = input.len();
    let mut commands: Vec<Command> = Vec::new();
    let mut cursor: usize = 0;
    proof {
        assert(input@.skip(0) =~= input@);
        if let Ok(rest) = decode_commands(input@, 0) {
            assert(commands@ + rest =~= rest);
        }
    }
    while cursor < len
        invariant
            len == input@.len(),
            cursor <= len,
            position + len <= u32::MAX,
            match decode_commands(input@.skip(cursor as int), cursor as int) {
                Ok(rest) => decode_commands(input@, 0) == Ok::<Seq<Command>, DecodeError>(
                    commands@ + rest,
                ),
                Err(e) => decode_commands(input@, 0) == Err::<Seq<Command>, DecodeError>(e),
            },
        decreases len - cursor,
    {
        match take_cmd(slice_subrange(input, cursor, len), cursor as u32) {
            Ok((used, command)) => {
                proof {
                    let left = input@.skip(cursor as int).skip(used as int);
                    assert(left =~= input@.skip(cursor + used));
                    if let Ok(rest) = decode_commands(left, cursor + used) {
                        assert(commands@ + (seq![command] + rest) =~= commands@.push(command)
                            + rest);
                    }
                }
                commands.push(command);
                cursor = cursor + used;
            },
            Err(e) => {
                return Err(e.shift(position));
            },
        }
    }
    assert(commands@ + Seq::<Command>::empty() =~= commands@);
    Ok(Script { commands, bounds: (position, position + len as u32) })
}

/// The error of `core::str::from_utf8`. Nothing is known of what it holds.
#[verifier::external_type_specification]
#[verifier::external_body]
pub struct ExUtf8Error(core::str::Utf8Error);

/// `core::str::from_utf8` succeeds exactly on the byte slices that are
/// UTF-8, and the string slice that it then returns is made of the bytes
/// that it was given.
pub assume_specification[ core::str::from_utf8 ](v: &[u8]) -> (r: Result<
    &str,
    core::str::Utf8Error,
>)
    ensures
        r is Ok <==> valid_utf8(v@),
        r is Ok ==> encode_utf8(r.unwrap()@) == v@,
;

/// `<[u32]>::sort` on the elements of a vector: afterwards they are in
/// ascending order, and they are the elements that were there before, each
/// as often as before.
#[verifier::external_body]
fn sort_offsets(offsets: &mut Vec<u32>)
    ensures
        sorted_by(final(offsets)@, ascending()),
        final(offsets)@.to_multiset() == old(offsets)@.to_multiset(),
{
    offsets.sort();
}

/// Reads a string slot as text: the bytes before the first zero byte, or
/// all of them where there is none, as UTF-8. Fails exactly when those bytes
/// are not UTF-8.
pub fn str_from_u8_nul_utf8(utf8_src: &[u8]) -> (r: Result<&str, core::str::Utf8Error>)
    ensures
        r is Ok <==> valid_utf8(content(utf8_src@)),
        r is Ok ==> r.unwrap()@ == decode_utf8(content(utf8_src@)),
{
    let mut nul_range_end: usize = 0;
    while nul_range_end < utf8_src.len() && utf8_src[nul_range_end] != 0
        invariant
            nul_range_end <= utf8_src@.len(),
            forall|j: int| 0 <= j < nul_range_end ==> utf8_src@[j] != 0,
        decreases utf8_src@.len() - nul_range_end,
    {
        nul_range_end += 1;
    }
    proof {
        lemma_content_len(utf8_src@, nul_range_end as int);
    }
    let r = core::str::from_utf8(slice_subrange(utf8_src, 0, nul_range_end));
    proof {
        if let Ok(text) = r {
            encode_utf8_decode_utf8(text@);
        }
    }
    r
}

/// Whether `input` starts with the tag.
fn take_magic(input: &[u8]) -> (r: bool)
    ensures
        r == has_magic(input@),
{
    if input.len() < 16 {
        return false;
    }
    let mut i: usize = 0;
    while i < 16
        invariant
            i <= 16,
            input@.len() >= 16,
            forall|j: int| 0 <= j < i ==> input@[j] == MAGIC@[j],
        decreases 16 - i,
    {
        if input[i] != MAGIC[i] {
            return false;
        }
        i += 1;
    }
    assert(input@.take(16) =~= MAGIC@);
    true
}

/// Reads the little-endian field of four bytes at index `at` of `input`;
/// nothing where `input` ends before the end of the field.
fn take_le_u32(input: &[u8], at: usize) -> (r: Option<u32>)
    ensures
        r == (if at + 4 <= input@.len() {
            Some(le_u32_value(input@.skip(at as int)))
        } else {
            None
        }),
{
    if at > input.len() {
        return None;
    }
    let rest = slice_subrange(input, at, input.len());
    le_u32(rest)
}

/// Reads the header fields. The reserved fields are passed over.
fn take_header(input: &[u8]) -> (r: Option<Header>)
    ensures
        r == (if input@.len() >= HEADER_LEN {
            Some(read_header(input@))
        } else {
            None
        }),
{
    if input.len() < HEADER_LEN {
        return None;
    }
    let script_data_size = take_le_u32(input, 20);
    let entrypoint = take_le_u32(input, 24);
    let script_count = take_le_u32(input, 28);
    let string_size = take_le_u32(input, 36);
    let string_count = take_le_u32(input, 40);
    match (script_data_size, entrypoint, script_count, string_size, string_count) {
        (
            Some(script_data_size),
            Some(entrypoint),
            Some(script_count),
            Some(string_size),
            Some(string_count),
        ) => Some(Header { script_data_size, entrypoint, script_count, string_size, string_count }),
        _ => None,
    }
}

/// `len` brought to the next multiple of 16.
fn align(len: u64) -> (r: u64)
    requires
        len + 15 <= u64::MAX,
    ensures
        r == aligned(len as int),
{
    len + (16 - len % 16) % 16
}

/// Reads the offset table: `count` little-endian fields of four bytes from
/// index `at` of `input`, in the order in which they stand there; nothing
/// where `input` ends before the end of the table.
fn take_offsets(input: &[u8], at: usize, count: u32) -> (r: Option<Vec<u32>>)
    ensures
        match r {
            Some(offsets) => at + 4 * count <= input@.len() && offsets@ == Seq::new(
                count as nat,
                |i: int| le_u32_value(input@.skip(at + 4 * i)),
            ),
            None => at + 4 * count > input@.len(),
        },
{
    let len = input.len();
    let mut script_offsets: Vec<u32> = Vec::new();
    let mut from: usize = at;
    let mut i: u32 = 0;
    while i < count
        invariant
            i <= count,
            len == input@.len(),
            from == at + 4 * i,
            i > 0 ==> from <= len,
            script_offsets@.len() == i,
            forall|k: int|
                0 <= k < i ==> #[trigger] script_offsets@[k] == le_u32_value(
                    input@.skip(at + 4 * k),
                ),
        decreases count - i,
    {
        match take_le_u32(input, from) {
            Some(offset) => {
                script_offsets.push(offset);
                from = from + 4;
            },
            None => {
                return None;
            },
        }
        i += 1;
    }
    if from > len {
        return None;
    }
    Some(script_offsets)
}

/// Decodes the scripts between consecutive entries of `bounds`.
fn take_scripts(data: &[u8], bounds: &Vec<u32>) -> (r: Result<Vec<Script>, DecodeError>)
    requires
        bounds@.len() >= 1,
        sorted_by(bounds@, ascending()),
        bounds@.last() <= data@.len(),
    ensures
        match decode_scripts(data@, bounds@, 0) {
            Ok(scripts) => r is Ok && script_models(r.unwrap()@) == scripts,
            Err(e) => r == Err::<Vec<Script>, DecodeError>(e),
        },
{
    let mut scripts: Vec<Script> = Vec::new();
    let count = bounds.len();
    let mut i: usize = 0;
    while i + 1 < count
        invariant
            count == bounds@.len(),
            i + 1 <= count,
            sorted_by(bounds@, ascending()),
            bounds@.last() <= data@.len(),
            match decode_scripts(data@, bounds@, i as int) {
                Ok(rest) => decode_scripts(data@, bounds@, 0) == Ok::<
                    Seq<ScriptModel>,
                    DecodeError,
                >(script_models(scripts@) + rest),
                Err(e) => decode_scripts(data@, bounds@, 0) == Err::<
                    Seq<ScriptModel>,
                    DecodeError,
                >(e),
            },
        decreases bounds@.len() - i,
    {
        let start = bounds[i];
        let end = bounds[i + 1];
        assert(ascending()(bounds@[i as int], bounds@[i + 1]));
        assert(ascending()(bounds@[i + 1], bounds@.last()) || i + 2 == bounds@.len());
        match take_script(slice_subrange(data, start as usize, end as usize), start) {
            Ok(script) => {
                proof {
                    if let Ok(rest) = decode_scripts(data@, bounds@, i + 1) {
                        assert(script_models(scripts@) + (seq![script@] + rest) =~= script_models(
                            scripts@.push(script),
                        ) + rest);
                    }
                }
                scripts.push(script);
            },
            Err(e) => {
                return Err(e);
            },
        }
        i += 1;
    }
    Ok(scripts)
}

/// Reads `count` string slots of `size` bytes each from index `at` of
/// `input`. A slot that is not UTF-8 gives the placeholder text.
fn take_strings(input: &[u8], at: usize, size: usize, count: usize) -> (r: Vec<String>)
    requires
        at + size * count <= input@.len(),
    ensures
        texts(r@) == read_strings(input@, at as int, size as int, count as int),
{
    let len = input.len();
    let mut strings: Vec<String> = Vec::new();
    let mut i: usize = 0;
    let mut from: usize = at;
    while i < count
        invariant
            i <= count,
            from == at + i * size,
            len == input@.len(),
            at + size * count <= len,
            strings@.len() == i,
            forall|k: int|
                0 <= k < i ==> (#[trigger] strings@[k])@ == read_strings(
                    input@,
                    at as int,
                    size as int,
                    count as int,
                )[k],
        decreases count - i,
    {
        assert(from + size <= len) by (nonlinear_arith)
            requires
                from == at + i * size,
                i < count,
                at + size * count <= len,
        ;
        assert(at + (i + 1) * size == from + size) by (nonlinear_arith)
            requires
                from == at + i * size,
        ;
        let slot = slice_subrange(input, from, from + size);
        let text = match str_from_u8_nul_utf8(slot) {
            Ok(text) => text,
            Err(_) => PLACEHOLDER,
        };
        strings.push(text.to_owned());
        from = from + size;
        i += 1;
    }
    strings
}

/// Decodes a container.
///
/// The buffer has to start with the tag, or decoding fails with `BadMagic`.
/// It has to hold the header, the script data, the offset table and the
/// string slots that the header declares, each part where the header puts
/// it, or decoding fails with `TruncatedInput`; so it does when the offset
/// table names a start behind the script data. Bytes behind the last slot
/// are not looked at.
///
/// The scripts are returned in the order of their bytes: the offsets of the
/// table are sorted, and each script reaches from its start to the next
/// start, the last to the end of the script data. The first script, in that
/// order, with an instruction that cannot be decoded ends the decoding with
/// the error of that instruction.
pub fn take_file(input: &[u8]) -> (r: Result<MscsbFile, DecodeError>)
    ensures
        match parse_file(input@) {
            Ok(container) => r is Ok && r.unwrap()@ == container,
            Err(e) => r == Err::<MscsbFile, DecodeError>(e),
        },
{
    if !take_magic(input) {
        return Err(DecodeError::BadMagic);
    }
    let header = match take_header(input) {
        Some(header) => header,
        None => { return Err(DecodeError::TruncatedInput); },
    };
    let len = input.len() as u64;
    let data_end = HEADER_LEN as u64 + header.script_data_size as u64;
    let offsets_at = align(data_end);
    let strings_at = align(offsets_at + 4 * header.script_count as u64);
    assert(header.string_size * header.string_count <= 0xFFFF_FFFF * 0xFFFF_FFFF)
        by (nonlinear_arith)
        requires
            header.string_size <= 0xFFFF_FFFF,
            header.string_count <= 0xFFFF_FFFF,
    ;
    let strings_len = header.string_size as u64 * header.string_count as u64;
    if len < strings_at || len - strings_at < strings_len {
        return Err(DecodeError::TruncatedInput);
    }
    let mut script_offsets = match take_offsets(input, offsets_at as usize, header.script_count) {
        Some(script_offsets) => script_offsets,
        None => { return Err(DecodeError::TruncatedInput); },
    };
    let ghost declared = script_offsets@;
    sort_offsets(&mut script_offsets);
    proof {
        lemma_ascending_is_total();
        declared.lemma_sort_by_ensures(ascending());
        lemma_sorted_unique(script_offsets@, declared.sort_by(ascending()), ascending());
    }
    let count = script_offsets.len();
    if count > 0 && script_offsets[count - 1] > header.script_data_size {
        return Err(DecodeError::TruncatedInput);
    }
    proof {
        assert forall|i: int| 0 <= i < count implies script_offsets@[i]
            <= header.script_data_size by {
            assert(i < count - 1 ==> ascending()(script_offsets@[i], script_offsets@[count - 1]));
        }
    }
    script_offsets.push(header.script_data_size);
    let script_data = slice_subrange(input, HEADER_LEN, data_end as usize);
    let scripts = match take_scripts(script_data, &script_offsets) {
        Ok(scripts) => scripts,
        Err(e) => { return Err(e); },
    };
    let strings = take_strings(
        input,
        strings_at as usize,
        header.string_size as usize,
        header.string_count as usize,
    );
    Ok(MscsbFile { scripts, strings, entrypoint: header.entrypoint })
}

} // verus!
