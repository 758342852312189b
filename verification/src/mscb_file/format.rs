//! The byte layout, as functions on sequences of bytes.
//!
//! Everything here is ghost code: the contracts of the decoder and of the
//! encoder are stated over these functions.
//!
//! A container is laid out as follows, all header fields little-endian:
//!
//! | part | bytes |
//! |---|---|
//! | tag | 16 |
//! | reserved, written as zero | 4 |
//! | size of the script data | 4 |
//! | entry point | 4 |
//! | script count | 4 |
//! | reserved, written as `0x16` | 4 |
//! | slot length | 4 |
//! | string count | 4 |
//! | reserved, written as zero | 8 |
//! | script data, operands big-endian | as the header says |
//! | zero bytes to the next 16-byte boundary | 0 to 15 |
//! | offset table, one entry per script | 4 each |
//! | zero bytes to the next 16-byte boundary | 0 to 15 |
//! | string slots | slot length each |

use crate::cmd::{Cmd, Command, ScriptModel};
use crate::error::DecodeError;
use crate::mscb_file::Container;
use crate::wire::{le_u32_bytes, le_u32_value};
use vstd::prelude::*;
use vstd::utf8::{decode_utf8, encode_utf8, valid_utf8};

verus! {

/// The tag that every container starts with.
pub const MAGIC: [u8; 16] = [
    0xB2, 0xAC, 0xBC, 0xBA, 0xE6, 0x90, 0x32, 0x01, 0xFD, 0x02, 0x00, 0x00, 0x00, 0x00, 0x00, 0x00,
];

/// The length of the header: the tag, a reserved field of four bytes, six
/// fields of four bytes, and eight reserved bytes.
pub const HEADER_LEN: usize = 52;

/// What the encoder writes into the reserved field between the script count
/// and the slot length. The decoder looks at no reserved field.
pub const RESERVED_TAG: u32 = 0x16;

/// The text that stands for a string slot whose content is not UTF-8.
pub const PLACEHOLDER: &'static str = "[UTF-8 Error]";

/// The bit of a leading byte that carries the push flag.
pub const PUSH_BIT: u8 = 0x80;

/// The bits of a leading byte that carry the opcode.
pub const CODE_MASK: u8 = 0x7F;

impl Command {
    /// The leading byte of the instruction: the opcode in the low seven
    /// bits, the push flag above them.
    pub open spec fn lead(self) -> u8 {
        self.cmd.code() | (if self.push_bit {
            PUSH_BIT
        } else {
            0u8
        })
    }

    /// The bytes of the instruction: its leading byte, then its operands.
    /// The position of the instruction is not written.
    pub open spec fn encoding(self) -> Seq<u8> {
        seq![self.lead()] + self.cmd.operands()
    }
}

/// The instruction at the front of `bytes`, with the number of bytes that it
/// takes up: one for the leading byte, and those of its operands. `position`
/// is what the instruction records as its position; no byte is looked for
/// there.
///
/// An unknown opcode is told from the leading byte alone; a known one whose
/// operands are not all there is a truncated instruction, and so is an
/// instruction without a leading byte.
pub open spec fn decode_command(bytes: Seq<u8>, position: u32) -> Result<
    (int, Command),
    DecodeError,
> {
    if bytes.len() == 0 {
        Err(DecodeError::TruncatedInstruction { offset: position })
    } else {
        let lead = bytes[0];
        let code = lead & CODE_MASK;
        match Cmd::operand_len(code) {
            None => Err(DecodeError::UnknownOpcode { offset: position, code }),
            Some(n) => if bytes.len() < 1 + n {
                Err(DecodeError::TruncatedInstruction { offset: position })
            } else {
                Ok(
                    (
                        1 + n as int,
                        Command {
                            cmd: Cmd::decode(code, bytes.skip(1)).unwrap(),
                            push_bit: lead & PUSH_BIT == PUSH_BIT,
                            position,
                        },
                    ),
                )
            },
        }
    }
}

/// The instructions that fill `bytes`, each starting where the one before it
/// ended. `position` is the position of the first of them; each of the
/// others stands as many bytes further as the instructions before it take
/// up. The first instruction that cannot be decoded gives the error.
pub open spec fn decode_commands(bytes: Seq<u8>, position: int) -> Result<
    Seq<Command>,
    DecodeError,
>
    decreases bytes.len(),
{
    if bytes.len() == 0 {
        Ok(Seq::empty())
    } else {
        match decode_command(bytes, position as u32) {
            Err(e) => Err(e),
            Ok((used, command)) => match decode_commands(bytes.skip(used), position + used) {
                Err(e) => Err(e),
                Ok(rest) => Ok(seq![command] + rest),
            },
        }
    }
}

/// The script whose bytes are `bytes` and which starts at offset `start` of
/// the script data. Positions of instructions count from the start of the
/// script; the offset of an error counts from the start of the script data.
pub open spec fn decode_script(bytes: Seq<u8>, start: u32) -> Result<ScriptModel, DecodeError> {
    match decode_commands(bytes, 0) {
        Err(e) => Err(e.shifted(start)),
        Ok(commands) => Ok(
            ScriptModel { commands, bounds: (start, (start + bytes.len()) as u32) },
        ),
    }
}

/// The bytes of a run of instructions: their encodings, one after another.
pub open spec fn encode_commands(commands: Seq<Command>) -> Seq<u8>
    decreases commands.len(),
{
    if commands.len() == 0 {
        Seq::empty()
    } else {
        commands[0].encoding() + encode_commands(commands.skip(1))
    }
}

/// The script data of a container: the bytes of its scripts, one after
/// another, in the order of the scripts.
pub open spec fn encode_scripts(scripts: Seq<ScriptModel>) -> Seq<u8>
    decreases scripts.len(),
{
    if scripts.len() == 0 {
        Seq::empty()
    } else {
        encode_commands(scripts[0].commands) + encode_scripts(scripts.skip(1))
    }
}

/// Where script `i` starts in the script data: behind the bytes of the
/// scripts before it.
pub open spec fn script_start(scripts: Seq<ScriptModel>, i: int) -> nat {
    encode_scripts(scripts.take(i)).len()
}

/// Where the scripts of a container start, in the order of the scripts, and
/// behind them the size of the script data.
pub open spec fn script_bounds(scripts: Seq<ScriptModel>) -> Seq<u32> {
    Seq::new(scripts.len() + 1, |i: int| script_start(scripts, i) as u32)
}

/// The order in which the decoder puts the script offsets.
pub open spec fn ascending() -> spec_fn(u32, u32) -> bool {
    |a: u32, b: u32| a <= b
}

/// `n` zero bytes.
pub open spec fn zeros(n: int) -> Seq<u8> {
    Seq::new(n as nat, |i: int| 0u8)
}

/// How many bytes bring a length of `len` to the next multiple of 16: none
/// when it is one already.
pub open spec fn padding(len: int) -> int {
    (16 - len % 16) % 16
}

/// `len` brought to the next multiple of 16.
pub open spec fn aligned(len: int) -> int {
    len + padding(len)
}

/// The fields of a header that the decoder goes by.
pub struct Header {
    pub script_data_size: u32,
    pub entrypoint: u32,
    pub script_count: u32,
    pub string_size: u32,
    pub string_count: u32,
}

impl Header {
    /// Where the offset table starts: behind the script data, on a 16-byte
    /// boundary.
    pub open spec fn offsets_at(self) -> int {
        aligned(HEADER_LEN + self.script_data_size)
    }

    /// Where the string slots start: behind the offset table, on a 16-byte
    /// boundary.
    pub open spec fn strings_at(self) -> int {
        aligned(self.offsets_at() + 4 * self.script_count)
    }

    /// Where the container ends: behind the last string slot.
    pub open spec fn end(self) -> int {
        self.strings_at() + self.string_size * self.string_count
    }
}

/// Whether `input` starts with the tag.
pub open spec fn has_magic(input: Seq<u8>) -> bool {
    input.len() >= 16 && input.take(16) == MAGIC@
}

/// The header fields of `input`, each little-endian: behind the tag and a
/// reserved field come the size of the script data, the entry point, the
/// script count, a second reserved field, the slot length and the string
/// count.
pub open spec fn read_header(input: Seq<u8>) -> Header
    recommends
        input.len() >= HEADER_LEN,
{
    Header {
        script_data_size: le_u32_value(input.skip(20)),
        entrypoint: le_u32_value(input.skip(24)),
        script_count: le_u32_value(input.skip(28)),
        string_size: le_u32_value(input.skip(36)),
        string_count: le_u32_value(input.skip(40)),
    }
}

/// The offset table of `input` as it stands there, in declaration order.
pub open spec fn read_offsets(input: Seq<u8>, header: Header) -> Seq<u32> {
    Seq::new(
        header.script_count as nat,
        |i: int| le_u32_value(input.skip(header.offsets_at() + 4 * i)),
    )
}

/// The scripts between consecutive entries of `bounds`, from entry `i` on.
/// Script `k` is decoded from the bytes of `data` between `bounds[k]` and
/// `bounds[k + 1]`. The first script that cannot be decoded gives the error.
pub open spec fn decode_scripts(data: Seq<u8>, bounds: Seq<u32>, i: int) -> Result<
    Seq<ScriptModel>,
    DecodeError,
>
    decreases bounds.len() - i,
{
    if i < 0 || i + 1 >= bounds.len() {
        Ok(Seq::empty())
    } else {
        match decode_script(data.subrange(bounds[i] as int, bounds[i + 1] as int), bounds[i]) {
            Err(e) => Err(e),
            Ok(script) => match decode_scripts(data, bounds, i + 1) {
                Err(e) => Err(e),
                Ok(rest) => Ok(seq![script] + rest),
            },
        }
    }
}

/// How many bytes of a string slot stand before its first zero byte; the
/// length of the slot where it holds none.
pub open spec fn content_len(slot: Seq<u8>) -> int
    decreases slot.len(),
{
    if slot.len() == 0 || slot[0] == 0 {
        0
    } else {
        1 + content_len(slot.skip(1))
    }
}

/// The bytes of a string slot that stand before its first zero byte.
pub open spec fn content(slot: Seq<u8>) -> Seq<u8> {
    slot.take(content_len(slot))
}

/// The text of a string slot: its content read as UTF-8, or the placeholder
/// where the content is not UTF-8.
pub open spec fn slot_text(slot: Seq<u8>) -> Seq<char> {
    if valid_utf8(content(slot)) {
        decode_utf8(content(slot))
    } else {
        PLACEHOLDER@
    }
}

/// The texts of `count` slots of `size` bytes each that start at index `at`
/// of `input`.
pub open spec fn read_strings(input: Seq<u8>, at: int, size: int, count: int) -> Seq<Seq<char>> {
    Seq::new(
        count as nat,
        |i: int| slot_text(input.subrange(at + i * size, at + (i + 1) * size)),
    )
}

/// What decoding `input` gives.
///
/// A buffer without the tag is refused first. One that ends before the end
/// of the header, or before the end that its header declares, is truncated,
/// and so is one whose offset table names a start behind the script data.
/// The offsets are put in ascending order and closed by the size of the
/// script data; each pair of neighbours bounds one script, so that the
/// scripts come in the order of their bytes, not in that of the table.
pub open spec fn parse_file(input: Seq<u8>) -> Result<Container, DecodeError> {
    let header = read_header(input);
    let starts = read_offsets(input, header).sort_by(ascending());
    if !has_magic(input) {
        Err(DecodeError::BadMagic)
    } else if input.len() < HEADER_LEN || input.len() < header.end() {
        Err(DecodeError::TruncatedInput)
    } else if exists|i: int| 0 <= i < starts.len() && starts[i] > header.script_data_size {
        Err(DecodeError::TruncatedInput)
    } else {
        let data = input.subrange(HEADER_LEN as int, HEADER_LEN + header.script_data_size);
        match decode_scripts(data, starts.push(header.script_data_size), 0) {
            Err(e) => Err(e),
            Ok(scripts) => Ok(
                Container {
                    entrypoint: header.entrypoint,
                    scripts,
                    strings: read_strings(
                        input,
                        header.strings_at(),
                        header.string_size as int,
                        header.string_count as int,
                    ),
                },
            ),
        }
    }
}

/// The UTF-8 bytes of a text.
pub open spec fn text_bytes(text: Seq<char>) -> Seq<u8> {
    encode_utf8(text)
}

/// The least multiple of 16 that is greater than `len`.
pub open spec fn slot_for(len: nat) -> nat {
    16 * (len / 16 + 1)
}

/// The slot length of a string table: the least multiple of 16 that is
/// greater than the byte length of each of its texts, and 0 for a table
/// without texts.
pub open spec fn slot_len(strings: Seq<Seq<char>>) -> nat
    decreases strings.len(),
{
    if strings.len() == 0 {
        0
    } else {
        let before = slot_len(strings.drop_last());
        let here = slot_for(text_bytes(strings.last()).len());
        if before >= here {
            before
        } else {
            here
        }
    }
}

/// A string slot of `size` bytes: the bytes of the text, then zero bytes to
/// the end of the slot, the first of which ends the text.
pub open spec fn encode_slot(text: Seq<char>, size: nat) -> Seq<u8> {
    text_bytes(text) + zeros(size - text_bytes(text).len())
}

/// The first `n` slots of a string table whose slots are `size` bytes each.
pub open spec fn encode_strings(strings: Seq<Seq<char>>, size: nat, n: int) -> Seq<u8>
    decreases n,
{
    if n <= 0 {
        Seq::empty()
    } else {
        encode_strings(strings, size, n - 1) + encode_slot(strings[n - 1], size)
    }
}

/// The first `n` entries of the offset table of `scripts`: the start of each
/// script in the script data, little-endian.
pub open spec fn encode_offsets(scripts: Seq<ScriptModel>, n: int) -> Seq<u8>
    decreases n,
{
    if n <= 0 {
        Seq::empty()
    } else {
        encode_offsets(scripts, n - 1) + le_u32_bytes(script_start(scripts, n - 1) as u32)
    }
}

/// Whether the sizes of a container fit its header: script count, string
/// count and the size of the script data fit 32 bits, and so does the slot
/// length that the texts ask for.
pub open spec fn encodable(c: Container) -> bool {
    &&& c.scripts.len() <= u32::MAX
    &&& c.strings.len() <= u32::MAX
    &&& encode_scripts(c.scripts).len() <= u32::MAX
    &&& forall|i: int|
        0 <= i < c.strings.len() ==> slot_for(#[trigger] text_bytes(c.strings[i]).len())
            <= u32::MAX
}

/// The header of a container: the tag, then a zero field, the size of the
/// script data, the entry point, the script count, the reserved tag, the
/// slot length and the string count, each little-endian in four bytes, then
/// eight zero bytes.
pub open spec fn encode_header(c: Container) -> Seq<u8> {
    MAGIC@ + le_u32_bytes(0) + le_u32_bytes(encode_scripts(c.scripts).len() as u32) + le_u32_bytes(
        c.entrypoint,
    ) + le_u32_bytes(c.scripts.len() as u32) + le_u32_bytes(RESERVED_TAG) + le_u32_bytes(
        slot_len(c.strings) as u32,
    ) + le_u32_bytes(c.strings.len() as u32) + zeros(8)
}

/// The bytes of a container: header, script data, zero bytes to the next
/// 16-byte boundary, offset table, zero bytes to the next 16-byte boundary,
/// string slots.
pub open spec fn encode_file(c: Container) -> Seq<u8> {
    let body = encode_header(c) + encode_scripts(c.scripts);
    let body = body + zeros(padding(body.len() as int));
    let table = body + encode_offsets(c.scripts, c.scripts.len() as int);
    let table = table + zeros(padding(table.len() as int));
    table + encode_strings(c.strings, slot_len(c.strings), c.strings.len() as int)
}

/// The positions of a run of instructions are laid out: each instruction
/// stands behind the bytes of those before it, the first at 0.
pub open spec fn positions_laid_out(commands: Seq<Command>) -> bool {
    forall|j: int|
        0 <= j < commands.len() ==> (#[trigger] commands[j]).position == encode_commands(
            commands.take(j),
        ).len()
}

/// Script `k` is laid out in its container: its bounds are where its bytes
/// stand in the script data, and its instructions are at their positions.
pub open spec fn script_laid_out(scripts: Seq<ScriptModel>, k: int) -> bool {
    &&& scripts[k].bounds.0 == script_start(scripts, k)
    &&& scripts[k].bounds.1 == script_start(scripts, k + 1)
    &&& positions_laid_out(scripts[k].commands)
}

/// A container is well formed when its sizes fit the header, each script is
/// laid out in the script data, and the bytes of no text hold a zero byte.
pub open spec fn well_formed(c: Container) -> bool {
    &&& encodable(c)
    &&& forall|k: int| 0 <= k < c.scripts.len() ==> script_laid_out(c.scripts, k)
    &&& forall|i: int|
        0 <= i < c.strings.len() ==> !(#[trigger] text_bytes(c.strings[i])).contains(0u8)
}

/// Whether byte `p` of the script data belongs to script `k`.
pub open spec fn in_script(scripts: Seq<ScriptModel>, k: int, p: int) -> bool {
    0 <= k < scripts.len() && scripts[k].bounds.0 <= p < scripts[k].bounds.1
}

} // verus!
