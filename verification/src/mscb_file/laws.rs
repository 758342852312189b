//! What holds of the format: decoding undoes encoding and encoding undoes
//! decoding, the scripts of a decoded container tile its script data, the
//! slot length is the least that fits, and a container without scripts and
//! strings is its header alone.

use crate::cmd::{Command, ScriptModel};
use crate::error::DecodeError;
use crate::mscb_file::format::{
    ascending, decode_command, decode_commands, decode_script, decode_scripts, encode_commands,
    encode_file, encode_header, encode_offsets, encode_scripts, encode_strings, in_script,
    parse_file, positions_laid_out, read_header, read_offsets, script_bounds, script_laid_out,
    script_start, slot_for, slot_len, text_bytes, well_formed, zeros, CODE_MASK, HEADER_LEN, MAGIC,
    RESERVED_TAG,
};
use crate::mscb_file::lemmas::{
    header_of, lemma_ascending_is_total, lemma_chain_ascends, lemma_chain_covers,
    lemma_decoded_bounds, lemma_encode_commands_concat, lemma_encode_commands_push,
    lemma_encode_scripts_concat, lemma_header_round_trip, lemma_layout, lemma_lead_byte,
    lemma_lead_byte_parts, lemma_offsets_round_trip, lemma_script_bounds_ascend,
    lemma_script_start_bounds, lemma_slot_len_covers, lemma_slot_text_bytes, lemma_starts_of_spans,
    lemma_strings_round_trip,
};
use crate::mscb_file::Container;
use crate::opcode::{lemma_decode_encode, lemma_encode_decode, lemma_table_codes};
use crate::wire::le_u32_bytes;
use vstd::prelude::*;
use vstd::relations::sorted_by;

verus! {

/// An instruction is read back from its bytes, whatever stands behind them,
/// with the position that it is decoded for.
pub proof fn lemma_decode_command_of_encoding(command: Command, rest: Seq<u8>)
    ensures
        decode_command(command.encoding() + rest, command.position) == Ok::<
            (int, Command),
            DecodeError,
        >((command.encoding().len() as int, command)),
{
    let bytes = command.encoding() + rest;
    lemma_decode_encode(command.cmd, rest);
    lemma_table_codes(command.cmd.code(), command.cmd.operands() + rest);
    lemma_lead_byte(command.cmd.code(), command.push_bit);
    assert(bytes[0] == command.lead());
    assert(bytes.skip(1) =~= command.cmd.operands() + rest);
}

/// The bytes of a decoded instruction are the bytes at the front that it was
/// decoded from, and its position is the one that it was decoded for.
pub proof fn lemma_encoding_of_decoded_command(bytes: Seq<u8>, position: u32)
    requires
        decode_command(bytes, position) is Ok,
    ensures
        ({
            let (used, command) = decode_command(bytes, position).unwrap();
            &&& 1 <= used <= bytes.len()
            &&& used == command.encoding().len()
            &&& command.position == position
            &&& command.encoding() == bytes.take(used)
        }),
{
    let (used, command) = decode_command(bytes, position).unwrap();
    let lead = bytes[0];
    lemma_encode_decode(lead & CODE_MASK, bytes.skip(1));
    lemma_lead_byte_parts(lead);
    assert(command.lead() == lead);
    assert(command.encoding() =~= bytes.take(used));
}

/// A run of instructions is read back from its bytes when the first stands
/// at `position` and each of the others behind the bytes of those before it.
pub proof fn lemma_decode_commands_of_encoding(commands: Seq<Command>, position: int)
    requires
        forall|j: int|
            0 <= j < commands.len() ==> (#[trigger] commands[j]).position == position
                + encode_commands(commands.take(j)).len(),
    ensures
        decode_commands(encode_commands(commands), position) == Ok::<Seq<Command>, DecodeError>(
            commands,
        ),
    decreases commands.len(),
{
    let bytes = encode_commands(commands);
    if commands.len() == 0 {
        assert(commands =~= Seq::<Command>::empty());
    } else {
        let first = commands[0];
        let tail = commands.skip(1);
        assert(commands.take(0) =~= Seq::<Command>::empty());
        assert(first.position == position);
        lemma_decode_command_of_encoding(first, encode_commands(tail));
        let used = first.encoding().len() as int;
        assert(bytes.skip(used) =~= encode_commands(tail));
        assert forall|j: int| 0 <= j < tail.len() implies (#[trigger] tail[j]).position
            == position + used + encode_commands(tail.take(j)).len() by {
            assert(tail[j] == commands[j + 1]);
            assert(commands.take(j + 1).skip(1) =~= tail.take(j));
            assert(commands.take(j + 1)[0] == first);
        }
        lemma_decode_commands_of_encoding(tail, position + used);
        assert(seq![first] + tail =~= commands);
    }
}

/// The bytes of a decoded run of instructions are the bytes that it was
/// decoded from, the first instruction stands at `position`, and each of
/// the others behind the bytes of those before it.
pub proof fn lemma_encoding_of_decoded_commands(bytes: Seq<u8>, position: int)
    requires
        0 <= position,
        position + bytes.len() <= u32::MAX,
        decode_commands(bytes, position) is Ok,
    ensures
        encode_commands(decode_commands(bytes, position).unwrap()) == bytes,
        forall|j: int|
            0 <= j < decode_commands(bytes, position).unwrap().len() ==> (
            #[trigger] decode_commands(bytes, position).unwrap()[j]).position == position
                + encode_commands(decode_commands(bytes, position).unwrap().take(j)).len(),
    decreases bytes.len(),
{
    let commands = decode_commands(bytes, position).unwrap();
    if bytes.len() > 0 {
        let (used, first) = decode_command(bytes, position as u32).unwrap();
        let rest = decode_commands(bytes.skip(used), position + used).unwrap();
        lemma_encoding_of_decoded_command(bytes, position as u32);
        lemma_encoding_of_decoded_commands(bytes.skip(used), position + used);
        assert(commands == seq![first] + rest);
        assert(commands.skip(1) =~= rest);
        assert(bytes =~= bytes.take(used) + bytes.skip(used));
        assert(encode_commands(commands) == bytes);
        assert forall|j: int| 0 <= j < commands.len() implies (#[trigger] commands[j]).position
            == position + encode_commands(commands.take(j)).len() by {
            if j == 0 {
                assert(commands.take(0) =~= Seq::<Command>::empty());
            } else {
                assert(commands[j] == rest[j - 1]);
                assert(commands.take(j)[0] == first);
                assert(commands.take(j).skip(1) =~= rest.take(j - 1));
            }
        }
    }
}

/// A script is read back from its bytes when its positions are laid out.
pub proof fn lemma_decode_script_of_encoding(commands: Seq<Command>, start: u32)
    requires
        positions_laid_out(commands),
    ensures
        decode_script(encode_commands(commands), start) == Ok::<ScriptModel, DecodeError>(
            ScriptModel {
                commands,
                bounds: (start, (start + encode_commands(commands).len()) as u32),
            },
        ),
{
    lemma_decode_commands_of_encoding(commands, 0);
}

/// The scripts of a container are read back from its script data and the
/// starts of its scripts when their positions are laid out and their bounds
/// are where their bytes stand.
pub proof fn lemma_decode_scripts_of_encoding(scripts: Seq<ScriptModel>, i: int)
    requires
        0 <= i <= scripts.len(),
        encode_scripts(scripts).len() <= u32::MAX,
        forall|k: int| 0 <= k < scripts.len() ==> script_laid_out(scripts, k),
    ensures
        decode_scripts(encode_scripts(scripts), script_bounds(scripts), i) == Ok::<
            Seq<ScriptModel>,
            DecodeError,
        >(scripts.skip(i)),
    decreases scripts.len() - i,
{
    let data = encode_scripts(scripts);
    let bounds = script_bounds(scripts);
    lemma_script_bounds_ascend(scripts);
    if i == scripts.len() {
        assert(scripts.skip(i) =~= Seq::<ScriptModel>::empty());
    } else {
        let script = scripts[i];
        assert(script_laid_out(scripts, i));
        lemma_script_start_bounds(scripts, i);
        lemma_encode_scripts_concat(scripts.take(i + 1), scripts.skip(i + 1));
        assert(scripts.take(i + 1) + scripts.skip(i + 1) =~= scripts);
        lemma_encode_scripts_concat(scripts.take(i), seq![script]);
        assert(scripts.take(i) + seq![script] =~= scripts.take(i + 1));
        assert(data.subrange(bounds[i] as int, bounds[i + 1] as int) =~= encode_commands(
            script.commands,
        ));
        lemma_decode_script_of_encoding(script.commands, bounds[i]);
        lemma_decode_scripts_of_encoding(scripts, i + 1);
        assert(seq![script] + scripts.skip(i + 1) =~= scripts.skip(i));
    }
}

/// What holds of a decoded script: its bytes are the bytes that it was
/// decoded from, its bounds are where they stand, and its positions are laid
/// out, so that they ascend strictly and the last instruction ends where the
/// script ends.
pub proof fn lemma_decoded_script_laid_out(bytes: Seq<u8>, start: u32)
    requires
        start + bytes.len() <= u32::MAX,
        decode_script(bytes, start) is Ok,
    ensures
        encode_commands(decode_script(bytes, start).unwrap().commands) == bytes,
        decode_script(bytes, start).unwrap().bounds == (start, (start + bytes.len()) as u32),
        positions_laid_out(decode_script(bytes, start).unwrap().commands),
{
    let commands = decode_script(bytes, start).unwrap().commands;
    lemma_encoding_of_decoded_commands(bytes, 0);
    assert(bytes.skip(0) =~= bytes);
    assert forall|j: int| 0 <= j < commands.len() implies (#[trigger] commands[j]).position
        == encode_commands(commands.take(j)).len() by {
        lemma_encode_commands_concat(commands.take(j), commands.skip(j));
        assert(commands.take(j) + commands.skip(j) =~= commands);
    }
}

/// Laid-out positions ascend strictly: each instruction starts behind the
/// one before it, and the last one ends where the bytes of the run end.
pub proof fn lemma_positions_ascend(commands: Seq<Command>, j: int)
    requires
        positions_laid_out(commands),
        encode_commands(commands).len() <= u32::MAX,
        0 <= j < commands.len(),
    ensures
        j + 1 < commands.len() ==> commands[j].position < commands[j + 1].position,
        j + 1 == commands.len() ==> commands[j].position + commands[j].encoding().len()
            == encode_commands(commands).len(),
{
    lemma_encode_commands_push(commands.take(j), commands[j]);
    assert(commands.take(j).push(commands[j]) =~= commands.take(j + 1));
    assert(commands.take(commands.len() as int) =~= commands);
}

/// Decoding undoes encoding: a well-formed container is read back from its
/// bytes, field for field: entry point, the instructions and bounds of each
/// script, and the texts.
pub proof fn lemma_round_trip(c: Container)
    requires
        well_formed(c),
    ensures
        parse_file(encode_file(c)) == Ok::<Container, DecodeError>(c),
{
    let bytes = encode_file(c);
    let header = header_of(c);
    let n = c.scripts.len() as int;
    let bounds = script_bounds(c.scripts);
    let starts = read_offsets(bytes, header).sort_by(ascending());
    lemma_layout(c);
    assert(starts == bounds.take(n)) by {
        lemma_offsets_round_trip(c);
    }
    assert(forall|i: int| 0 <= i <= n ==> #[trigger] bounds[i] <= header.script_data_size
        && bounds[n] == header.script_data_size) by {
        lemma_script_bounds_ascend(c.scripts);
        lemma_script_start_bounds(c.scripts, n);
    }
    assert(starts.push(header.script_data_size) == bounds);
    assert(decode_scripts(encode_scripts(c.scripts), bounds, 0) == Ok::<
        Seq<ScriptModel>,
        DecodeError,
    >(c.scripts)) by {
        lemma_decode_scripts_of_encoding(c.scripts, 0);
        assert(c.scripts.skip(0) =~= c.scripts);
    }
    lemma_strings_round_trip(c);
}

/// What is decoded can be encoded, and is read back from its bytes: the
/// container that decoding gives is well formed, when the offset table
/// names offset 0 and a string slot is no longer than `0xFFFF_FFEF` bytes.
pub proof fn lemma_decoded_is_well_formed(input: Seq<u8>)
    requires
        parse_file(input) is Ok,
        read_header(input).script_count > 0 ==> read_offsets(input, read_header(input)).contains(
            0u32,
        ),
        read_header(input).string_size <= 0xFFFF_FFEF,
    ensures
        well_formed(parse_file(input).unwrap()),
        parse_file(encode_file(parse_file(input).unwrap())) == parse_file(input),
{
    let c = parse_file(input).unwrap();
    let header = read_header(input);
    let declared = read_offsets(input, header);
    let starts = declared.sort_by(ascending());
    let size = header.script_data_size;
    let bounds = starts.push(size);
    let data = input.subrange(HEADER_LEN as int, HEADER_LEN + size);
    let n = c.scripts.len() as int;
    lemma_spans_chain(input);
    lemma_decoded_bounds(data, bounds, 0);
    if n > 0 {
        lemma_first_span_starts_at_zero(input);
    }
    // The scripts lie where their bounds say.
    assert forall|k: int| 0 <= k < n implies encode_commands(
        (#[trigger] c.scripts[k]).commands,
    ).len() == bounds[k + 1] - bounds[k] && positions_laid_out(c.scripts[k].commands) by {
        assert(ascending()(bounds[k], bounds[k + 1]));
        assert(c.scripts[k].bounds == (bounds[0 + k], bounds[0 + k + 1]));
        lemma_decoded_script_laid_out(
            data.subrange(bounds[0 + k] as int, bounds[0 + k + 1] as int),
            bounds[0 + k],
        );
    }
    assert forall|k: int| 0 <= k <= n implies script_start(c.scripts, k) == #[trigger] bounds[k]
        - bounds[0] by {
        lemma_starts_of_spans(c.scripts, bounds, k);
    }
    assert forall|k: int| 0 <= k < n implies script_laid_out(c.scripts, k) by {}
    assert(encode_scripts(c.scripts).len() <= u32::MAX) by {
        lemma_script_start_bounds(c.scripts, n);
    }
    // The texts.
    assert forall|i: int| 0 <= i < c.strings.len() implies !(#[trigger] text_bytes(
        c.strings[i],
    )).contains(0u8) && slot_for(text_bytes(c.strings[i]).len()) <= u32::MAX by {
        let at = header.strings_at();
        let slot = input.subrange(
            at + i * (header.string_size as int),
            at + (i + 1) * (header.string_size as int),
        );
        lemma_slot_text_bytes(slot);
        assert((i + 1) * (header.string_size as int) == i * (header.string_size as int)
            + header.string_size) by (nonlinear_arith);
        assert((i + 1) * (header.string_size as int) <= header.string_size
            * header.string_count) by (nonlinear_arith)
            requires
                i + 1 <= header.string_count,
                0 <= header.string_size,
        ;
        assert(0 <= i * (header.string_size as int)) by (nonlinear_arith)
            requires
                0 <= i,
                0 <= header.string_size,
        ;
        let len = text_bytes(c.strings[i]).len();
        assert(len / 16 <= 0x0FFF_FFFE);
    }
    lemma_round_trip(c);
}

/// The bounds of the scripts of a decoded container: as many scripts as the
/// header counts; each starts at an offset of the table, taken in ascending
/// order, and ends where the next starts; the last ends where the script
/// data ends.
pub proof fn lemma_spans_chain(input: Seq<u8>)
    requires
        parse_file(input) is Ok,
    ensures
        ({
            let scripts = parse_file(input).unwrap().scripts;
            let header = read_header(input);
            let starts = read_offsets(input, header).sort_by(ascending());
            &&& scripts.len() == header.script_count == starts.len()
            &&& sorted_by(starts, ascending())
            &&& starts.to_multiset() == read_offsets(input, header).to_multiset()
            &&& forall|k: int|
                0 <= k < scripts.len() ==> (#[trigger] scripts[k]).bounds.0 == starts[k]
                    && scripts[k].bounds.0 <= scripts[k].bounds.1 <= header.script_data_size
            &&& forall|k: int|
                0 <= k < scripts.len() - 1 ==> (#[trigger] scripts[k]).bounds.1 == scripts[k
                    + 1].bounds.0
            &&& scripts.len() > 0 ==> scripts.last().bounds.1 == header.script_data_size
        }),
{
    let header = read_header(input);
    let declared = read_offsets(input, header);
    let starts = declared.sort_by(ascending());
    let size = header.script_data_size;
    let bounds = starts.push(size);
    let data = input.subrange(HEADER_LEN as int, HEADER_LEN + size);
    let scripts = parse_file(input).unwrap().scripts;
    lemma_ascending_is_total();
    declared.lemma_sort_by_ensures(ascending());
    declared.to_multiset_ensures();
    starts.to_multiset_ensures();
    lemma_decoded_bounds(data, bounds, 0);
    assert forall|k: int| 0 <= k < scripts.len() implies (#[trigger] scripts[k]).bounds.0
        == starts[k] && scripts[k].bounds.0 <= scripts[k].bounds.1 <= size by {
        assert(ascending()(bounds[k], bounds[k + 1]));
    }
    assert forall|k: int| 0 <= k < scripts.len() - 1 implies (#[trigger] scripts[k]).bounds.1
        == scripts[k + 1].bounds.0 by {
        assert(scripts[k + 1].bounds == (bounds[0 + (k + 1)], bounds[0 + (k + 1) + 1]));
    }
    if scripts.len() > 0 {
        let k = scripts.len() - 1;
        assert(scripts[k].bounds == (bounds[0 + k], bounds[0 + k + 1]));
    }
}

/// Each script of a decoded container starts before it ends, when the
/// offset table names no offset twice and each offset that it names lies
/// below the size of the script data.
pub proof fn lemma_spans_not_empty(input: Seq<u8>)
    requires
        parse_file(input) is Ok,
        read_offsets(input, read_header(input)).no_duplicates(),
        forall|i: int|
            0 <= i < read_offsets(input, read_header(input)).len() ==> read_offsets(
                input,
                read_header(input),
            )[i] < read_header(input).script_data_size,
    ensures
        forall|k: int|
            0 <= k < parse_file(input).unwrap().scripts.len() ==> (#[trigger] parse_file(
                input,
            ).unwrap().scripts[k]).bounds.0 < parse_file(input).unwrap().scripts[k].bounds.1,
{
    let scripts = parse_file(input).unwrap().scripts;
    let size = read_header(input).script_data_size;
    let declared = read_offsets(input, read_header(input));
    let starts = declared.sort_by(ascending());
    lemma_spans_chain(input);
    declared.lemma_multiset_has_no_duplicates();
    starts.lemma_multiset_has_no_duplicates_conv();
    declared.to_multiset_ensures();
    starts.to_multiset_ensures();
    assert forall|k: int| 0 <= k < scripts.len() implies (#[trigger] scripts[k]).bounds.0
        < scripts[k].bounds.1 by {
        assert(scripts[k].bounds.0 == starts[k]);
        if k + 1 < scripts.len() {
            assert(scripts[k].bounds.1 == scripts[k + 1].bounds.0);
            assert(scripts[k + 1].bounds.0 == starts[k + 1]);
            assert(ascending()(starts[k], starts[k + 1]));
            assert(starts[k] != starts[k + 1]);
        } else {
            assert(scripts[k].bounds.1 == size);
            assert(starts.contains(starts[k]));
            assert(declared.to_multiset().count(starts[k]) > 0);
            assert(declared.contains(starts[k]));
        }
    }
}

/// The first script of a decoded container starts at offset 0 when the
/// offset table names that offset.
pub proof fn lemma_first_span_starts_at_zero(input: Seq<u8>)
    requires
        parse_file(input) is Ok,
        read_offsets(input, read_header(input)).contains(0u32),
    ensures
        parse_file(input).unwrap().scripts.len() > 0,
        parse_file(input).unwrap().scripts[0].bounds.0 == 0,
{
    let declared = read_offsets(input, read_header(input));
    let starts = declared.sort_by(ascending());
    lemma_spans_chain(input);
    declared.to_multiset_ensures();
    starts.to_multiset_ensures();
    assert(starts.to_multiset().count(0u32) > 0);
    let at = choose|at: int| 0 <= at < starts.len() && starts[at] == 0u32;
    if at > 0 {
        assert(ascending()(starts[0], starts[at]));
    }
}

/// The scripts of a decoded container tile its script data from the start of
/// the first script on: each byte between that start and the end of the
/// script data belongs to exactly one script, and no script reaches beyond
/// the script data. With [`lemma_first_span_starts_at_zero`], the scripts
/// tile all of the script data when the offset table names offset 0.
pub proof fn lemma_spans_tile(input: Seq<u8>, p: int)
    requires
        parse_file(input) is Ok,
        parse_file(input).unwrap().scripts.len() > 0,
        parse_file(input).unwrap().scripts[0].bounds.0 <= p < read_header(input).script_data_size,
    ensures
        exists|k: int| in_script(parse_file(input).unwrap().scripts, k, p),
        forall|k: int, l: int|
            in_script(parse_file(input).unwrap().scripts, k, p) && in_script(
                parse_file(input).unwrap().scripts,
                l,
                p,
            ) ==> k == l,
        forall|k: int|
            0 <= k < parse_file(input).unwrap().scripts.len() ==> (#[trigger] parse_file(
                input,
            ).unwrap().scripts[k]).bounds.1 <= read_header(input).script_data_size,
{
    let scripts = parse_file(input).unwrap().scripts;
    lemma_spans_chain(input);
    lemma_chain_covers(scripts, scripts.len() as int, p);
    assert forall|k: int, l: int| in_script(scripts, k, p) && in_script(scripts, l, p) implies k
        == l by {
        if k < l {
            lemma_chain_ascends(scripts, k, l);
        }
        if l < k {
            lemma_chain_ascends(scripts, l, k);
        }
    }
}

/// The slot length of a string table is a multiple of 16 and greater than
/// the byte length of each text, and no smaller number is both.
pub proof fn lemma_slot_len_least(strings: Seq<Seq<char>>, other: nat)
    ensures
        slot_len(strings) % 16 == 0,
        forall|i: int|
            0 <= i < strings.len() ==> (#[trigger] text_bytes(strings[i])).len() < slot_len(
                strings,
            ),
        other % 16 == 0 && (forall|i: int|
            0 <= i < strings.len() ==> (#[trigger] text_bytes(strings[i])).len() < other)
            ==> slot_len(strings) <= other,
    decreases strings.len(),
{
    assert forall|i: int| 0 <= i < strings.len() implies (#[trigger] text_bytes(
        strings[i],
    )).len() < slot_len(strings) by {
        lemma_slot_len_covers(strings, i);
    }
    if strings.len() > 0 {
        let front = strings.drop_last();
        lemma_slot_len_least(front, other);
        if other % 16 == 0 && (forall|i: int|
            0 <= i < strings.len() ==> (#[trigger] text_bytes(strings[i])).len() < other) {
        }
    }
}

/// A container without scripts and without strings is its header and the
/// twelve zero bytes that bring it to a 16-byte boundary: 64 bytes that
/// declare no script data. It is read back from them.
pub proof fn lemma_empty_container(entrypoint: u32)
    ensures
        ({
            let c = Container { entrypoint, scripts: Seq::empty(), strings: Seq::empty() };
            &&& encode_file(c) == MAGIC@ + le_u32_bytes(0) + le_u32_bytes(0) + le_u32_bytes(
                entrypoint,
            ) + le_u32_bytes(0) + le_u32_bytes(RESERVED_TAG) + le_u32_bytes(0) + le_u32_bytes(0)
                + zeros(8) + zeros(12)
            &&& encode_file(c).len() == 64
            &&& parse_file(encode_file(c)) == Ok::<Container, DecodeError>(c)
        }),
{
    let c = Container { entrypoint, scripts: Seq::empty(), strings: Seq::empty() };
    lemma_header_round_trip(c, Seq::empty());
    assert(encode_scripts(c.scripts) =~= Seq::<u8>::empty());
    assert(encode_offsets(c.scripts, 0) =~= Seq::<u8>::empty());
    assert(encode_strings(c.strings, 0, 0) =~= Seq::<u8>::empty());
    assert(encode_file(c) =~= encode_header(c) + zeros(12));
    lemma_round_trip(c);
}

/// A buffer whose header counts no script and no string decodes to a
/// container without scripts and without strings, and that container is
/// encoded as a header and its padding alone, 64 bytes.
pub proof fn lemma_decode_empty(input: Seq<u8>)
    requires
        parse_file(input) is Ok,
        read_header(input).script_count == 0,
        read_header(input).string_count == 0,
    ensures
        parse_file(input).unwrap() == (Container {
            entrypoint: read_header(input).entrypoint,
            scripts: Seq::empty(),
            strings: Seq::empty(),
        }),
        encode_file(parse_file(input).unwrap()).len() == 64,
{
    let c = parse_file(input).unwrap();
    lemma_spans_chain(input);
    assert(c.strings =~= Seq::<Seq<char>>::empty());
    lemma_empty_container(c.entrypoint);
}

} // verus!
