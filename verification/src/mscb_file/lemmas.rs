//! Facts about the byte layout that the codec and the laws are proved from.

use crate::cmd::{Command, ScriptModel};
use crate::error::DecodeError;
use crate::mscb_file::format::{
    aligned, ascending, content, content_len, decode_script, decode_scripts, encodable,
    encode_commands, encode_file, encode_header, encode_offsets, encode_scripts, encode_slot,
    encode_strings, has_magic, in_script, padding, read_header, read_offsets, read_strings,
    script_bounds, script_start, slot_for, slot_len, slot_text, text_bytes, well_formed, zeros,
    Header, CODE_MASK, HEADER_LEN, MAGIC, PLACEHOLDER, PUSH_BIT,
};
use crate::mscb_file::Container;
use crate::opcode::MAX_CODE;
use crate::wire::{le_u32_bytes, le_u32_value, lemma_le_u32_round_trip};
use vstd::prelude::*;
use vstd::relations::{sorted_by, total_ordering};
use vstd::seq_lib::lemma_sorted_unique;
use vstd::utf8::{
    decode_utf8_encode_utf8, encode_utf8_decode_utf8, encode_utf8_valid_utf8,
    is_ascii_chars_encode_utf8, valid_utf8,
};

verus! {

/// A part of the front of a sequence is that part of the whole.
pub(crate) proof fn lemma_front_part(front: Seq<u8>, back: Seq<u8>, from: int, to: int)
    requires
        0 <= from <= to <= front.len(),
    ensures
        (front + back).subrange(from, to) == front.subrange(from, to),
{
}

/// What stands behind the front of a sequence is its back.
pub(crate) proof fn lemma_back_part(front: Seq<u8>, back: Seq<u8>)
    ensures
        (front + back).subrange(front.len() as int, (front + back).len() as int) == back,
        (front + back).len() == front.len() + back.len(),
{
    assert((front + back).subrange(front.len() as int, (front + back).len() as int) =~= back);
}

/// The leading byte of an instruction gives back its code and its push flag.
pub(crate) proof fn lemma_lead_byte(code: u8, push_bit: bool)
    requires
        code <= MAX_CODE,
    ensures
        ({
            let lead = code | (if push_bit {
                PUSH_BIT
            } else {
                0u8
            });
            &&& lead & CODE_MASK == code
            &&& (lead & PUSH_BIT == PUSH_BIT) == push_bit
        }),
{
    assert(code <= 0x4D ==> (code | 0x80u8) & 0x7Fu8 == code && (code | 0x80u8) & 0x80u8 == 0x80u8
        && (code | 0u8) & 0x7Fu8 == code && (code | 0u8) & 0x80u8 != 0x80u8) by (bit_vector);
}

/// A leading byte is put together again from the code and the push flag
/// that are read from it.
pub(crate) proof fn lemma_lead_byte_parts(lead: u8)
    ensures
        (lead & CODE_MASK) | (if lead & PUSH_BIT == PUSH_BIT {
            PUSH_BIT
        } else {
            0u8
        }) == lead,
{
    assert((lead & 0x7Fu8) | (if lead & 0x80u8 == 0x80u8 {
        0x80u8
    } else {
        0u8
    }) == lead) by (bit_vector);
}

/// The bytes of two runs of instructions, one behind the other, are the
/// bytes of the first followed by the bytes of the second.
pub(crate) proof fn lemma_encode_commands_concat(a: Seq<Command>, b: Seq<Command>)
    ensures
        encode_commands(a + b) == encode_commands(a) + encode_commands(b),
    decreases a.len(),
{
    if a.len() > 0 {
        lemma_encode_commands_concat(a.skip(1), b);
        assert((a + b).skip(1) =~= a.skip(1) + b);
    }
}

/// One more instruction at the end of a run adds its bytes at the end.
pub(crate) proof fn lemma_encode_commands_push(commands: Seq<Command>, last: Command)
    ensures
        encode_commands(commands.push(last)) == encode_commands(commands) + last.encoding(),
    decreases commands.len(),
{
    if commands.len() == 0 {
        assert(commands.push(last).skip(1) =~= Seq::<Command>::empty());
        assert(encode_commands(Seq::<Command>::empty()) =~= Seq::<u8>::empty());
    } else {
        lemma_encode_commands_push(commands.skip(1), last);
        assert(commands.push(last).skip(1) =~= commands.skip(1).push(last));
        assert(encode_commands(commands.push(last)) =~= encode_commands(commands)
            + last.encoding());
    }
}

/// The bytes of two runs of scripts, one behind the other, are the bytes of
/// the first followed by the bytes of the second.
pub(crate) proof fn lemma_encode_scripts_concat(a: Seq<ScriptModel>, b: Seq<ScriptModel>)
    ensures
        encode_scripts(a + b) == encode_scripts(a) + encode_scripts(b),
    decreases a.len(),
{
    if a.len() > 0 {
        lemma_encode_scripts_concat(a.skip(1), b);
        assert((a + b).skip(1) =~= a.skip(1) + b);
    }
}

/// One more script at the end of a run adds its bytes at the end.
pub(crate) proof fn lemma_encode_scripts_push(scripts: Seq<ScriptModel>, last: ScriptModel)
    ensures
        encode_scripts(scripts.push(last)) == encode_scripts(scripts) + encode_commands(
            last.commands,
        ),
    decreases scripts.len(),
{
    if scripts.len() == 0 {
        assert(scripts.push(last).skip(1) =~= Seq::<ScriptModel>::empty());
        assert(encode_scripts(Seq::<ScriptModel>::empty()) =~= Seq::<u8>::empty());
    } else {
        lemma_encode_scripts_push(scripts.skip(1), last);
        assert(scripts.push(last).skip(1) =~= scripts.skip(1).push(last));
    }
}

/// A script starts no later than the script data ends, and no earlier than
/// the script before it.
pub(crate) proof fn lemma_script_start_bounds(scripts: Seq<ScriptModel>, i: int)
    requires
        0 <= i <= scripts.len(),
    ensures
        script_start(scripts, i) <= encode_scripts(scripts).len(),
        script_start(scripts, scripts.len() as int) == encode_scripts(scripts).len(),
        i < scripts.len() ==> script_start(scripts, i + 1) == script_start(scripts, i)
            + encode_commands(scripts[i].commands).len(),
{
    lemma_encode_scripts_concat(scripts.take(i), scripts.skip(i));
    assert(scripts.take(i) + scripts.skip(i) =~= scripts);
    assert(scripts.take(scripts.len() as int) =~= scripts);
    if i < scripts.len() {
        lemma_encode_scripts_push(scripts.take(i), scripts[i]);
        assert(scripts.take(i).push(scripts[i]) =~= scripts.take(i + 1));
    }
}

/// A later script starts no earlier than an earlier one.
pub(crate) proof fn lemma_script_start_ascends(scripts: Seq<ScriptModel>, i: int, j: int)
    requires
        0 <= i <= j <= scripts.len(),
    ensures
        script_start(scripts, i) <= script_start(scripts, j),
{
    lemma_encode_scripts_concat(scripts.take(i), scripts.subrange(i, j));
    assert(scripts.take(i) + scripts.subrange(i, j) =~= scripts.take(j));
}

/// The starts of the scripts of a container are in ascending order.
pub(crate) proof fn lemma_script_bounds_ascend(scripts: Seq<ScriptModel>)
    requires
        encode_scripts(scripts).len() <= u32::MAX,
    ensures
        sorted_by(script_bounds(scripts), ascending()),
        forall|i: int|
            0 <= i <= scripts.len() ==> (#[trigger] script_bounds(scripts)[i]) == script_start(
                scripts,
                i,
            ) && script_start(scripts, i) <= encode_scripts(scripts).len(),
{
    assert forall|i: int| 0 <= i <= scripts.len() implies (#[trigger] script_bounds(scripts)[i])
        == script_start(scripts, i) && script_start(scripts, i) <= encode_scripts(
        scripts,
    ).len() by {
        lemma_script_start_bounds(scripts, i);
    }
    assert forall|i: int, j: int| 0 <= i < j < script_bounds(scripts).len() implies (
    #[trigger] ascending()(script_bounds(scripts)[i], script_bounds(scripts)[j])) by {
        lemma_script_start_ascends(scripts, i, j);
    }
}

/// Scripts whose bytes are as long as the distance between two neighbours
/// of `bounds` start as far behind the first script as `bounds` says.
pub(crate) proof fn lemma_starts_of_spans(scripts: Seq<ScriptModel>, bounds: Seq<u32>, k: int)
    requires
        bounds.len() == scripts.len() + 1,
        0 <= k <= scripts.len(),
        forall|j: int|
            0 <= j < scripts.len() ==> encode_commands((#[trigger] scripts[j]).commands).len()
                == bounds[j + 1] - bounds[j],
    ensures
        script_start(scripts, k) == bounds[k] - bounds[0],
    decreases k,
{
    if k > 0 {
        lemma_starts_of_spans(scripts, bounds, k - 1);
        lemma_script_start_bounds(scripts, k - 1);
    }
}

/// Comparing 32-bit offsets by `<=` is a total order.
pub(crate) proof fn lemma_ascending_is_total()
    ensures
        total_ordering(ascending()),
{
}

/// A sequence of offsets in ascending order is what sorting it gives.
pub(crate) proof fn lemma_sort_of_sorted(offsets: Seq<u32>)
    requires
        sorted_by(offsets, ascending()),
    ensures
        offsets.sort_by(ascending()) == offsets,
{
    lemma_ascending_is_total();
    offsets.lemma_sort_by_ensures(ascending());
    lemma_sorted_unique(offsets, offsets.sort_by(ascending()), ascending());
}

/// The scripts that are decoded between the entries of `bounds` are, one by
/// one, what decoding the bytes between two neighbouring entries gives, so
/// that each has those two entries as its bounds.
pub(crate) proof fn lemma_decoded_bounds(data: Seq<u8>, bounds: Seq<u32>, i: int)
    requires
        0 <= i < bounds.len(),
        sorted_by(bounds, ascending()),
        bounds.last() <= data.len(),
        decode_scripts(data, bounds, i) is Ok,
    ensures
        decode_scripts(data, bounds, i).unwrap().len() == bounds.len() - 1 - i,
        forall|k: int|
            0 <= k < bounds.len() - 1 - i ==> decode_script(
                data.subrange(bounds[i + k] as int, bounds[i + k + 1] as int),
                bounds[i + k],
            ) == Ok::<ScriptModel, DecodeError>(
                #[trigger] decode_scripts(data, bounds, i).unwrap()[k],
            ),
        forall|k: int|
            0 <= k < bounds.len() - 1 - i ==> (#[trigger] decode_scripts(
                data,
                bounds,
                i,
            ).unwrap()[k]).bounds == (bounds[i + k], bounds[i + k + 1]),
    decreases bounds.len() - i,
{
    if i + 1 < bounds.len() {
        assert(ascending()(bounds[i], bounds[i + 1]));
        assert(i + 1 == bounds.len() - 1 || ascending()(bounds[i + 1], bounds.last()));
        lemma_decoded_bounds(data, bounds, i + 1);
    }
}

/// Where scripts follow one another without a gap, each byte between the
/// start of the first and the end of script `upto - 1` belongs to one of
/// them.
pub(crate) proof fn lemma_chain_covers(scripts: Seq<ScriptModel>, upto: int, p: int)
    requires
        0 < upto <= scripts.len(),
        forall|k: int|
            0 <= k < scripts.len() - 1 ==> (#[trigger] scripts[k]).bounds.1 == scripts[k
                + 1].bounds.0,
        scripts[0].bounds.0 <= p < scripts[upto - 1].bounds.1,
    ensures
        exists|k: int| in_script(scripts, k, p),
    decreases upto,
{
    if scripts[upto - 1].bounds.0 <= p {
        assert(in_script(scripts, upto - 1, p));
    } else {
        lemma_chain_covers(scripts, upto - 1, p);
    }
}

/// Scripts that follow one another without a gap, each ending no earlier
/// than it starts, start in ascending order.
pub(crate) proof fn lemma_chain_ascends(scripts: Seq<ScriptModel>, i: int, j: int)
    requires
        0 <= i <= j < scripts.len(),
        forall|k: int|
            0 <= k < scripts.len() - 1 ==> (#[trigger] scripts[k]).bounds.1 == scripts[k
                + 1].bounds.0,
        forall|k: int|
            0 <= k < scripts.len() ==> (#[trigger] scripts[k]).bounds.0 <= scripts[k].bounds.1,
    ensures
        scripts[i].bounds.0 <= scripts[j].bounds.0,
        i < j ==> scripts[i].bounds.1 <= scripts[j].bounds.0,
    decreases j - i,
{
    if i < j {
        lemma_chain_ascends(scripts, i + 1, j);
    }
}

/// Where the first zero byte of a slot stands is the length of its content.
pub(crate) proof fn lemma_content_len(slot: Seq<u8>, n: int)
    requires
        0 <= n <= slot.len(),
        forall|j: int| 0 <= j < n ==> slot[j] != 0,
        n < slot.len() ==> slot[n] == 0,
    ensures
        content_len(slot) == n,
    decreases slot.len(),
{
    if n > 0 {
        lemma_content_len(slot.skip(1), n - 1);
    }
}

/// The content of a string slot holds no zero byte, and is no longer than
/// the slot.
pub(crate) proof fn lemma_content_has_no_zero(slot: Seq<u8>)
    ensures
        0 <= content_len(slot) <= slot.len(),
        !content(slot).contains(0u8),
    decreases slot.len(),
{
    if slot.len() > 0 && slot[0] != 0 {
        let rest = slot.skip(1);
        lemma_content_has_no_zero(rest);
        assert forall|j: int| 0 <= j < content(slot).len() implies content(slot)[j] != 0 by {
            if j > 0 {
                assert(content(rest).contains(content(rest)[j - 1]));
            }
        }
    }
}

/// The placeholder text is thirteen bytes, none of them zero.
pub(crate) proof fn lemma_placeholder_bytes()
    ensures
        text_bytes(PLACEHOLDER@).len() == 13,
        !text_bytes(PLACEHOLDER@).contains(0u8),
{
    reveal_strlit("[UTF-8 Error]");
    is_ascii_chars_encode_utf8(PLACEHOLDER@);
}

/// The bytes of the text of a string slot hold no zero byte, and they are
/// no more than the slot has, or thirteen where the text is the
/// placeholder.
pub(crate) proof fn lemma_slot_text_bytes(slot: Seq<u8>)
    ensures
        !text_bytes(slot_text(slot)).contains(0u8),
        text_bytes(slot_text(slot)).len() <= slot.len() || text_bytes(slot_text(slot)).len()
            == 13,
{
    lemma_content_has_no_zero(slot);
    if valid_utf8(content(slot)) {
        decode_utf8_encode_utf8(content(slot));
    } else {
        lemma_placeholder_bytes();
    }
}

/// A text is read back from its slot when its bytes hold no zero byte and
/// the slot is longer than they are.
pub(crate) proof fn lemma_slot_text_of_encoding(text: Seq<char>, size: nat)
    requires
        !text_bytes(text).contains(0u8),
        text_bytes(text).len() < size,
    ensures
        encode_slot(text, size).len() == size,
        slot_text(encode_slot(text, size)) == text,
{
    let bytes = text_bytes(text);
    let slot = encode_slot(text, size);
    lemma_content_len(slot, bytes.len() as int);
    assert(content(slot) =~= bytes);
    encode_utf8_valid_utf8(text);
    encode_utf8_decode_utf8(text);
}

/// The slot length of a table is greater than the byte length of each of its
/// texts.
pub(crate) proof fn lemma_slot_len_covers(strings: Seq<Seq<char>>, i: int)
    requires
        0 <= i < strings.len(),
    ensures
        text_bytes(strings[i]).len() < slot_for(text_bytes(strings[i]).len()) <= slot_len(strings),
    decreases strings.len(),
{
    if i < strings.len() - 1 {
        lemma_slot_len_covers(strings.drop_last(), i);
    }
}

/// The slot length of a table fits 32 bits when the slot that each text
/// asks for does.
pub(crate) proof fn lemma_slot_len_fits(strings: Seq<Seq<char>>)
    requires
        forall|i: int|
            0 <= i < strings.len() ==> slot_for(#[trigger] text_bytes(strings[i]).len())
                <= u32::MAX,
    ensures
        slot_len(strings) <= u32::MAX,
    decreases strings.len(),
{
    if strings.len() > 0 {
        let front = strings.drop_last();
        lemma_slot_len_fits(front);
    }
}

/// The slots of a string table stand one behind the other, each `size`
/// bytes long, when no text is longer than a slot.
pub(crate) proof fn lemma_encode_strings_slot(strings: Seq<Seq<char>>, size: nat, n: int, i: int)
    requires
        0 <= i < n <= strings.len(),
        forall|k: int| 0 <= k < strings.len() ==> #[trigger] text_bytes(strings[k]).len() <= size,
    ensures
        encode_strings(strings, size, n).len() == n * size,
        0 <= i * size,
        (i + 1) * size == i * size + size,
        (i + 1) * size <= n * size,
        encode_strings(strings, size, n).subrange(i * size, (i + 1) * size) == encode_slot(
            strings[i],
            size,
        ),
    decreases n,
{
    let before = encode_strings(strings, size, n - 1);
    assert(encode_strings(strings, size, n) == before + encode_slot(strings[n - 1], size));
    assert(text_bytes(strings[n - 1]).len() <= size);
    assert((n - 1) * size + size == n * size) by (nonlinear_arith);
    assert(0 <= i * size && (i + 1) * size == i * size + size && (i + 1) * size <= n * size)
        by (nonlinear_arith)
        requires
            0 <= i < n,
    ;
    if n > 1 {
        lemma_encode_strings_slot(strings, size, n - 1, if i == n - 1 { 0 } else { i });
    }
}

/// The texts of a string table are read back from where its slots stand,
/// when the bytes of no text hold a zero byte and each slot is longer than
/// the bytes of each text.
pub(crate) proof fn lemma_read_strings(bytes: Seq<u8>, at: int, strings: Seq<Seq<char>>, size: nat)
    requires
        0 <= at,
        at + strings.len() * size <= bytes.len(),
        bytes.subrange(at, at + strings.len() * size) == encode_strings(
            strings,
            size,
            strings.len() as int,
        ),
        forall|i: int|
            0 <= i < strings.len() ==> !(#[trigger] text_bytes(strings[i])).contains(0u8)
                && text_bytes(strings[i]).len() < size,
    ensures
        read_strings(bytes, at, size as int, strings.len() as int) == strings,
{
    let m = strings.len() as int;
    let texts = read_strings(bytes, at, size as int, m);
    assert forall|i: int| 0 <= i < m implies #[trigger] texts[i] == strings[i] by {
        lemma_encode_strings_slot(strings, size, m, i);
        let lo = i * size;
        let hi = (i + 1) * size;
        assert(bytes.subrange(at + lo, at + hi) =~= bytes.subrange(at, at + m * size).subrange(
            lo,
            hi,
        ));
        lemma_slot_text_of_encoding(strings[i], size);
    }
}

/// A field written little-endian at index `at` is read back from there.
pub(crate) proof fn lemma_le_u32_at(bytes: Seq<u8>, at: int, v: u32)
    requires
        0 <= at,
        at + 4 <= bytes.len(),
        bytes.subrange(at, at + 4) == le_u32_bytes(v),
    ensures
        le_u32_value(bytes.skip(at)) == v,
{
    lemma_le_u32_round_trip(v);
}

/// The entries of an offset table stand one behind the other, four bytes
/// each.
pub(crate) proof fn lemma_encode_offsets_entry(scripts: Seq<ScriptModel>, n: int, i: int)
    requires
        0 <= i < n,
    ensures
        encode_offsets(scripts, n).len() == 4 * n,
        encode_offsets(scripts, n).subrange(4 * i, 4 * i + 4) == le_u32_bytes(
            script_start(scripts, i) as u32,
        ),
    decreases n,
{
    let before = encode_offsets(scripts, n - 1);
    assert(encode_offsets(scripts, n) == before + le_u32_bytes(
        script_start(scripts, n - 1) as u32,
    ));
    if n > 1 {
        lemma_encode_offsets_entry(scripts, n - 1, if i == n - 1 { 0 } else { i });
    }
}

/// The offset table of a container is read back from where it stands.
pub(crate) proof fn lemma_read_offsets(bytes: Seq<u8>, header: Header, scripts: Seq<ScriptModel>)
    requires
        header.script_count == scripts.len(),
        0 <= header.offsets_at(),
        header.offsets_at() + 4 * scripts.len() <= bytes.len(),
        bytes.subrange(header.offsets_at(), header.offsets_at() + 4 * scripts.len())
            == encode_offsets(scripts, scripts.len() as int),
    ensures
        read_offsets(bytes, header) == script_bounds(scripts).take(scripts.len() as int),
{
    let n = scripts.len() as int;
    let at = header.offsets_at();
    let declared = read_offsets(bytes, header);
    let bounds = script_bounds(scripts);
    assert forall|i: int| 0 <= i < n implies #[trigger] declared[i] == bounds[i] by {
        lemma_encode_offsets_entry(scripts, n, i);
        assert(bytes.subrange(at + 4 * i, at + 4 * i + 4) =~= bytes.subrange(
            at,
            at + 4 * n,
        ).subrange(4 * i, 4 * i + 4));
        lemma_le_u32_at(bytes, at + 4 * i, script_start(scripts, i) as u32);
    }
}

/// The header of a container whose sizes fit it is read back from its
/// bytes, whatever follows them.
pub(crate) proof fn lemma_header_round_trip(c: Container, rest: Seq<u8>)
    requires
        encodable(c),
    ensures
        encode_header(c).len() == HEADER_LEN,
        has_magic(encode_header(c) + rest),
        read_header(encode_header(c) + rest) == (Header {
            script_data_size: encode_scripts(c.scripts).len() as u32,
            entrypoint: c.entrypoint,
            script_count: c.scripts.len() as u32,
            string_size: slot_len(c.strings) as u32,
            string_count: c.strings.len() as u32,
        }),
{
    let header = encode_header(c);
    let bytes = header + rest;
    assert(bytes.take(16) =~= MAGIC@);
    let size = encode_scripts(c.scripts).len() as u32;
    assert(bytes.subrange(20, 24) =~= le_u32_bytes(size));
    lemma_le_u32_at(bytes, 20, size);
    assert(bytes.subrange(24, 28) =~= le_u32_bytes(c.entrypoint));
    lemma_le_u32_at(bytes, 24, c.entrypoint);
    assert(bytes.subrange(28, 32) =~= le_u32_bytes(c.scripts.len() as u32));
    lemma_le_u32_at(bytes, 28, c.scripts.len() as u32);
    assert(bytes.subrange(36, 40) =~= le_u32_bytes(slot_len(c.strings) as u32));
    lemma_le_u32_at(bytes, 36, slot_len(c.strings) as u32);
    assert(bytes.subrange(40, 44) =~= le_u32_bytes(c.strings.len() as u32));
    lemma_le_u32_at(bytes, 40, c.strings.len() as u32);
}

/// The header that the bytes of a container hold.
pub open spec fn header_of(c: Container) -> Header {
    Header {
        script_data_size: encode_scripts(c.scripts).len() as u32,
        entrypoint: c.entrypoint,
        script_count: c.scripts.len() as u32,
        string_size: slot_len(c.strings) as u32,
        string_count: c.strings.len() as u32,
    }
}

/// Where each part stands when four parts are put together as a container
/// is: header, script data, padding, offset table, padding, string slots.
pub(crate) proof fn lemma_parts(head: Seq<u8>, data: Seq<u8>, offsets: Seq<u8>, slots: Seq<u8>)
    requires
        head.len() == HEADER_LEN,
    ensures
        ({
            let with_data = head + data;
            let body = with_data + zeros(padding(with_data.len() as int));
            let with_offsets = body + offsets;
            let table = with_offsets + zeros(padding(with_offsets.len() as int));
            let bytes = table + slots;
            &&& body.len() == aligned(HEADER_LEN + data.len())
            &&& table.len() == aligned((body.len() + offsets.len()) as int)
            &&& bytes.len() == table.len() + slots.len()
            &&& bytes.take(HEADER_LEN as int) == head
            &&& bytes.subrange(HEADER_LEN as int, HEADER_LEN + data.len()) == data
            &&& bytes.subrange(body.len() as int, (body.len() + offsets.len()) as int) == offsets
            &&& bytes.subrange(table.len() as int, bytes.len() as int) == slots
        }),
{
    let with_data = head + data;
    let pad1 = zeros(padding(with_data.len() as int));
    let body = with_data + pad1;
    let with_offsets = body + offsets;
    let pad2 = zeros(padding(with_offsets.len() as int));
    let table = with_offsets + pad2;
    let from = HEADER_LEN as int;
    let to = with_data.len() as int;
    // The header.
    lemma_front_part(head, data, 0, from);
    lemma_front_part(with_data, pad1, 0, from);
    lemma_front_part(body, offsets, 0, from);
    lemma_front_part(with_offsets, pad2, 0, from);
    lemma_front_part(table, slots, 0, from);
    // The script data.
    lemma_back_part(head, data);
    lemma_front_part(with_data, pad1, from, to);
    lemma_front_part(body, offsets, from, to);
    lemma_front_part(with_offsets, pad2, from, to);
    lemma_front_part(table, slots, from, to);
    // The offset table.
    lemma_back_part(body, offsets);
    lemma_front_part(with_offsets, pad2, body.len() as int, with_offsets.len() as int);
    lemma_front_part(table, slots, body.len() as int, with_offsets.len() as int);
    // The string slots.
    lemma_back_part(table, slots);
}

/// Where the parts of a container stand in its bytes: the header at the
/// front, the script data behind it, the offset table and the string slots
/// where the header puts them, and nothing behind the slots.
pub(crate) proof fn lemma_layout(c: Container)
    requires
        encodable(c),
    ensures
        ({
            let bytes = encode_file(c);
            let header = header_of(c);
            &&& has_magic(bytes)
            &&& read_header(bytes) == header
            &&& header.script_data_size == encode_scripts(c.scripts).len()
            &&& header.script_count == c.scripts.len()
            &&& header.string_size == slot_len(c.strings)
            &&& header.string_count == c.strings.len()
            &&& HEADER_LEN + header.script_data_size <= header.offsets_at()
            &&& header.offsets_at() + 4 * header.script_count <= header.strings_at()
            &&& header.strings_at() <= header.end() == bytes.len()
            &&& bytes.subrange(HEADER_LEN as int, HEADER_LEN + header.script_data_size)
                == encode_scripts(c.scripts)
            &&& bytes.subrange(header.offsets_at(), header.offsets_at() + 4 * header.script_count)
                == encode_offsets(c.scripts, c.scripts.len() as int)
            &&& bytes.subrange(header.strings_at(), header.end()) == encode_strings(
                c.strings,
                slot_len(c.strings),
                c.strings.len() as int,
            )
        }),
{
    let n = c.scripts.len() as int;
    let m = c.strings.len() as int;
    let size = slot_len(c.strings);
    let head = encode_header(c);
    let data = encode_scripts(c.scripts);
    let offsets = encode_offsets(c.scripts, n);
    let slots = encode_strings(c.strings, size, m);
    let bytes = encode_file(c);
    let header = header_of(c);
    assert(offsets.len() == 4 * n) by {
        if n > 0 {
            lemma_encode_offsets_entry(c.scripts, n, 0);
        }
    }
    assert(slots.len() == m * size && 0 <= m * size) by {
        assert forall|k: int| 0 <= k < m implies #[trigger] text_bytes(c.strings[k]).len()
            <= size by {
            lemma_slot_len_covers(c.strings, k);
        }
        if m > 0 {
            lemma_encode_strings_slot(c.strings, size, m, 0);
        }
    }
    assert(size <= u32::MAX) by {
        lemma_slot_len_fits(c.strings);
    }
    lemma_parts(head, data, offsets, slots);
    assert(has_magic(bytes) && read_header(bytes) == header) by {
        let rest = bytes.skip(HEADER_LEN as int);
        assert(bytes =~= bytes.take(HEADER_LEN as int) + rest);
        lemma_header_round_trip(c, rest);
    }
}

/// The offset table of a container, read from its bytes and put in
/// ascending order, gives the starts of its scripts in their order.
pub(crate) proof fn lemma_offsets_round_trip(c: Container)
    requires
        encodable(c),
    ensures
        read_offsets(encode_file(c), header_of(c)).sort_by(ascending()) == script_bounds(
            c.scripts,
        ).take(c.scripts.len() as int),
{
    let bytes = encode_file(c);
    let header = header_of(c);
    let bounds = script_bounds(c.scripts);
    let declared = read_offsets(bytes, header);
    assert(declared == bounds.take(c.scripts.len() as int)) by {
        lemma_layout(c);
        lemma_read_offsets(bytes, header, c.scripts);
    }
    assert(sorted_by(declared, ascending())) by {
        lemma_script_bounds_ascend(c.scripts);
    }
    lemma_sort_of_sorted(declared);
}

/// The texts of a well-formed container are read back from its bytes.
pub(crate) proof fn lemma_strings_round_trip(c: Container)
    requires
        well_formed(c),
    ensures
        read_strings(
            encode_file(c),
            header_of(c).strings_at(),
            header_of(c).string_size as int,
            header_of(c).string_count as int,
        ) == c.strings,
{
    lemma_layout(c);
    assert forall|i: int| 0 <= i < c.strings.len() implies !(#[trigger] text_bytes(
        c.strings[i],
    )).contains(0u8) && text_bytes(c.strings[i]).len() < slot_len(c.strings) by {
        lemma_slot_len_covers(c.strings, i);
    }
    lemma_read_strings(encode_file(c), header_of(c).strings_at(), c.strings, slot_len(c.strings));
}

} // verus!
