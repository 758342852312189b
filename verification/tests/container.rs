use msc::mscb_file::parser::{str_from_u8_nul_utf8, take_file};
use msc::wire::{write_u16, write_u32};
use msc::{Cmd, Command, DecodeError, EncodeError, MscsbFile, Script};

const MAGIC_TAG: [u8; 16] = [
    0xB2, 0xAC, 0xBC, 0xBA, 0xE6, 0x90, 0x32, 0x01, 0xFD, 0x02, 0x00, 0x00, 0x00, 0x00, 0x00, 0x00,
];

fn header(size: u32, entrypoint: u32, scripts: u32, slot: u32, strings: u32) -> Vec<u8> {
    let mut buffer = MAGIC_TAG.to_vec();
    for field in [0, size, entrypoint, scripts, 0x16, slot, strings] {
        buffer.extend_from_slice(&field.to_le_bytes());
    }
    buffer.extend_from_slice(&[0u8; 8]);
    buffer
}

fn command(cmd: Cmd, position: u32) -> Command {
    Command { cmd, push_bit: false, position }
}

fn sample() -> MscsbFile {
    MscsbFile {
        scripts: vec![
            Script {
                commands: vec![
                    command(Cmd::Begin { arg_count: 0, var_count: 1 }, 0),
                    Command { cmd: Cmd::PushInt { val: 0xDEAD_BEEF }, push_bit: true, position: 5 },
                    command(Cmd::SetVar { var_type: 0, var_num: 0 }, 10),
                    command(Cmd::End, 14),
                ],
                bounds: (0, 15),
            },
            Script { commands: vec![], bounds: (15, 15) },
            Script {
                commands: vec![
                    command(Cmd::PushShort { val: 7 }, 0),
                    command(Cmd::Sys { arg_count: 1, sys_num: 9 }, 3),
                    command(Cmd::Exit, 6),
                ],
                bounds: (15, 22),
            },
        ],
        strings: vec![
            String::from("ok"),
            String::from("0123456789abcdef"),
            String::from("h\u{e9}"),
        ],
        entrypoint: 15,
    }
}

fn sample_bytes() -> Vec<u8> {
    let mut buffer = header(22, 15, 3, 32, 3);
    buffer.extend_from_slice(&[0x02, 0, 0, 0, 1, 0x8A, 0xDE, 0xAD, 0xBE, 0xEF]);
    buffer.extend_from_slice(&[0x1C, 0, 0, 0, 0x03]);
    buffer.extend_from_slice(&[0x0D, 0, 7, 0x2D, 1, 9, 0x4D]);
    buffer.extend_from_slice(&[0u8; 6]);
    buffer.extend_from_slice(&[0, 0, 0, 0, 15, 0, 0, 0, 15, 0, 0, 0]);
    buffer.extend_from_slice(&[0u8; 4]);
    let mut slot = b"ok".to_vec();
    slot.resize(32, 0);
    buffer.extend_from_slice(&slot);
    let mut slot = b"0123456789abcdef".to_vec();
    slot.resize(32, 0);
    buffer.extend_from_slice(&slot);
    let mut slot = vec![b'h', 0xC3, 0xA9];
    slot.resize(32, 0);
    buffer.extend_from_slice(&slot);
    buffer
}

#[test]
fn container_is_written_byte_for_byte() {
    let mut written = Vec::new();
    sample().write(&mut written);
    assert_eq!(written.len(), 52 + 22 + 6 + 12 + 4 + 96);
    assert_eq!(written, sample_bytes());
}

#[test]
fn container_is_read_field_for_field() {
    assert_eq!(take_file(&sample_bytes()), Ok(sample()));
}

#[test]
fn written_container_is_read_back() {
    let file = sample();
    let mut written = Vec::new();
    file.write(&mut written);
    assert_eq!(take_file(&written), Ok(file));
}

#[test]
fn container_is_appended_to_what_the_buffer_holds() {
    let mut written = vec![1u8, 2, 3];
    sample().write(&mut written);
    assert_eq!(&written[..3], &[1, 2, 3]);
    assert_eq!(&written[3..], &sample_bytes()[..]);
}

#[test]
fn small_container_is_encodable() {
    let file = sample();
    assert!(file.is_encodable());
    let mut written = Vec::new();
    assert_eq!(file.try_write(&mut written), Ok(()));
    assert_eq!(written, sample_bytes());
    let _ = EncodeError::OutOfRange;
}

#[test]
fn script_data_and_offsets_are_generated() {
    let mut data = vec![0xFFu8; 2];
    let offsets = sample().generate_script_data(&mut data);
    assert_eq!(offsets, vec![2, 17, 17]);
    assert_eq!(data.len(), 24);
    assert_eq!(&data[2..], &sample_bytes()[52..74]);
}

#[test]
fn slot_length_is_the_next_multiple_of_sixteen() {
    let with = |text: String| MscsbFile { scripts: vec![], strings: vec![text], entrypoint: 0 };
    assert_eq!(with(String::new()).get_max_string_size(), 16);
    assert_eq!(with("a".repeat(1)).get_max_string_size(), 16);
    assert_eq!(with("a".repeat(15)).get_max_string_size(), 16);
    assert_eq!(with("a".repeat(16)).get_max_string_size(), 32);
    assert_eq!(with("a".repeat(17)).get_max_string_size(), 32);
    assert_eq!(with("a".repeat(31)).get_max_string_size(), 32);
    assert_eq!(with("a".repeat(32)).get_max_string_size(), 48);
    assert_eq!(with("\u{e9}".repeat(8)).get_max_string_size(), 32);
}

#[test]
fn slot_length_goes_by_the_longest_string() {
    let file = MscsbFile {
        scripts: vec![],
        strings: vec!["a".repeat(3), "a".repeat(40), "a".repeat(17)],
        entrypoint: 0,
    };
    assert_eq!(file.get_max_string_size(), 48);
    assert_eq!(sample().get_max_string_size(), 32);
}

#[test]
fn slot_length_of_no_strings_is_zero() {
    let file = MscsbFile { scripts: vec![], strings: vec![], entrypoint: 0 };
    assert_eq!(file.get_max_string_size(), 0);
}

#[test]
fn wrong_tag_is_bad_magic() {
    let mut buffer = sample_bytes();
    buffer[3] ^= 1;
    assert_eq!(take_file(&buffer), Err(DecodeError::BadMagic));
    let mut buffer = sample_bytes();
    buffer[15] = 1;
    assert_eq!(take_file(&buffer), Err(DecodeError::BadMagic));
}

#[test]
fn buffer_shorter_than_the_tag_is_bad_magic() {
    assert_eq!(take_file(&[]), Err(DecodeError::BadMagic));
    assert_eq!(take_file(&MAGIC_TAG[..15]), Err(DecodeError::BadMagic));
}

#[test]
fn cut_header_is_truncated_input() {
    assert_eq!(take_file(&MAGIC_TAG), Err(DecodeError::TruncatedInput));
    let buffer = header(0, 0, 0, 0, 0);
    assert_eq!(buffer.len(), 52);
    assert_eq!(take_file(&buffer[..51]), Err(DecodeError::TruncatedInput));
}

#[test]
fn every_cut_of_a_container_is_truncated_input() {
    let buffer = sample_bytes();
    for len in 16..buffer.len() {
        assert_eq!(take_file(&buffer[..len]), Err(DecodeError::TruncatedInput), "length {}", len);
    }
}

#[test]
fn padding_behind_the_script_data_has_to_be_there() {
    let mut buffer = header(1, 0, 0, 0, 0);
    buffer.push(0x00);
    assert_eq!(take_file(&buffer), Err(DecodeError::TruncatedInput));
    buffer.extend_from_slice(&[0u8; 10]);
    assert_eq!(take_file(&buffer), Err(DecodeError::TruncatedInput));
    buffer.push(0);
    assert_eq!(buffer.len(), 64);
    assert!(take_file(&buffer).is_ok());
}

#[test]
fn padding_behind_the_header_has_to_be_there() {
    let mut buffer = header(0, 0, 0, 0, 0);
    assert_eq!(take_file(&buffer), Err(DecodeError::TruncatedInput));
    buffer.extend_from_slice(&[0u8; 11]);
    assert_eq!(take_file(&buffer), Err(DecodeError::TruncatedInput));
    buffer.push(0);
    assert_eq!(
        take_file(&buffer),
        Ok(MscsbFile { scripts: vec![], strings: vec![], entrypoint: 0 })
    );
}

#[test]
fn bytes_behind_the_last_slot_are_ignored() {
    let mut buffer = sample_bytes();
    buffer.extend_from_slice(&[0xAA, 0xBB]);
    assert_eq!(take_file(&buffer), Ok(sample()));
}

#[test]
fn offset_behind_the_script_data_is_truncated_input() {
    let mut buffer = header(2, 0, 1, 0, 0);
    buffer.extend_from_slice(&[0x00, 0x4D]);
    buffer.extend_from_slice(&[0u8; 10]);
    buffer.extend_from_slice(&3u32.to_le_bytes());
    buffer.extend_from_slice(&[0u8; 12]);
    assert_eq!(take_file(&buffer), Err(DecodeError::TruncatedInput));
    buffer[64] = 2;
    let file = take_file(&buffer).unwrap();
    assert_eq!(file.scripts.len(), 1);
    assert_eq!(file.scripts[0].bounds, (2, 2));
    assert!(file.scripts[0].commands.is_empty());
}

#[test]
fn unknown_opcode_is_reported_with_its_offset() {
    let mut buffer = header(4, 0, 2, 0, 0);
    buffer.extend_from_slice(&[0x00, 0x4D, 0x00, 0x5A]);
    buffer.extend_from_slice(&[0u8; 8]);
    buffer.extend_from_slice(&2u32.to_le_bytes());
    buffer.extend_from_slice(&0u32.to_le_bytes());
    buffer.extend_from_slice(&[0u8; 8]);
    assert_eq!(take_file(&buffer), Err(DecodeError::UnknownOpcode { offset: 3, code: 0x5A }));
}

#[test]
fn span_that_ends_inside_an_instruction_is_reported() {
    let mut buffer = header(6, 0, 2, 0, 0);
    buffer.extend_from_slice(&[0x00, 0x0A, 0x00, 0x00, 0x00, 0x05]);
    buffer.extend_from_slice(&[0u8; 6]);
    buffer.extend_from_slice(&0u32.to_le_bytes());
    buffer.extend_from_slice(&4u32.to_le_bytes());
    buffer.extend_from_slice(&[0u8; 8]);
    assert_eq!(take_file(&buffer), Err(DecodeError::TruncatedInstruction { offset: 1 }));
}

#[test]
fn first_failing_script_in_offset_order_gives_the_error() {
    let mut buffer = header(2, 0, 2, 0, 0);
    buffer.extend_from_slice(&[0x7E, 0x7F]);
    buffer.extend_from_slice(&[0u8; 10]);
    buffer.extend_from_slice(&1u32.to_le_bytes());
    buffer.extend_from_slice(&0u32.to_le_bytes());
    buffer.extend_from_slice(&[0u8; 8]);
    assert_eq!(take_file(&buffer), Err(DecodeError::UnknownOpcode { offset: 0, code: 0x7E }));
}

#[test]
fn slot_that_is_not_utf8_becomes_the_placeholder() {
    let mut buffer = header(0, 0, 0, 4, 3);
    buffer.extend_from_slice(&[0u8; 12]);
    buffer.extend_from_slice(&[b'a', 0, 0xFF, 0]);
    buffer.extend_from_slice(&[0xFF, 0xFE, 0, 0]);
    buffer.extend_from_slice(&[0xC3, 0xA9, 0, 0]);
    let file = take_file(&buffer).unwrap();
    assert_eq!(
        file.strings,
        vec![String::from("a"), String::from("[UTF-8 Error]"), String::from("\u{e9}")]
    );
}

#[test]
fn slot_without_zero_byte_is_text_to_its_end() {
    let mut buffer = header(0, 0, 0, 4, 2);
    buffer.extend_from_slice(&[0u8; 12]);
    buffer.extend_from_slice(b"abcdef\0\0");
    let file = take_file(&buffer).unwrap();
    assert_eq!(file.strings, vec![String::from("abcd"), String::from("ef")]);
    assert_eq!(str_from_u8_nul_utf8(b"abcd"), Ok("abcd"));
}

#[test]
fn slot_text_ends_at_the_first_zero_byte() {
    assert_eq!(str_from_u8_nul_utf8(b"a\0b\0"), Ok("a"));
    assert_eq!(str_from_u8_nul_utf8(b"\0abc"), Ok(""));
    assert_eq!(str_from_u8_nul_utf8(b""), Ok(""));
    assert_eq!(str_from_u8_nul_utf8(&[b'h', 0xC3, 0xA9, 0, 0xFF]), Ok("h\u{e9}"));
}

#[test]
fn slot_content_that_is_not_utf8_is_an_error() {
    assert!(str_from_u8_nul_utf8(&[0xFF, 0]).is_err());
    assert!(str_from_u8_nul_utf8(&[0xC3]).is_err());
    assert!(str_from_u8_nul_utf8(&[0xED, 0xA0, 0x80]).is_err());
}

#[test]
fn slots_of_no_bytes_are_empty_texts() {
    let mut buffer = header(0, 0, 0, 0, 2);
    buffer.extend_from_slice(&[0u8; 12]);
    let file = take_file(&buffer).unwrap();
    assert_eq!(file.strings, vec![String::new(), String::new()]);
}

#[test]
fn string_with_a_zero_byte_is_cut_when_read_back() {
    let file = MscsbFile { scripts: vec![], strings: vec![String::from("a\0b")], entrypoint: 0 };
    let mut written = Vec::new();
    file.write(&mut written);
    assert_eq!(take_file(&written).unwrap().strings, vec![String::from("a")]);
}

#[test]
fn header_fields_are_little_endian() {
    let mut buffer = header(0, 0x0102_0304, 0, 0, 0);
    buffer.extend_from_slice(&[0u8; 12]);
    assert_eq!(&buffer[24..28], &[4, 3, 2, 1]);
    assert_eq!(take_file(&buffer).unwrap().entrypoint, 0x0102_0304);
}

#[test]
fn reserved_fields_and_padding_are_not_looked_at() {
    let mut buffer = header(0, 9, 0, 0, 0);
    buffer.extend_from_slice(&[0u8; 12]);
    buffer[16] = 0xEE;
    buffer[32] = 0xEE;
    buffer[44] = 0xEE;
    buffer[51] = 0xEE;
    buffer[63] = 0xEE;
    assert_eq!(
        take_file(&buffer),
        Ok(MscsbFile { scripts: vec![], strings: vec![], entrypoint: 9 })
    );
}

#[test]
fn header_is_written_field_by_field() {
    let mut written = Vec::new();
    sample().write(&mut written);
    assert_eq!(&written[0..16], &MAGIC_TAG[..]);
    assert_eq!(&written[16..20], &[0, 0, 0, 0]);
    assert_eq!(&written[20..24], &22u32.to_le_bytes());
    assert_eq!(&written[24..28], &15u32.to_le_bytes());
    assert_eq!(&written[28..32], &3u32.to_le_bytes());
    assert_eq!(&written[32..36], &0x16u32.to_le_bytes());
    assert_eq!(&written[36..40], &32u32.to_le_bytes());
    assert_eq!(&written[40..44], &3u32.to_le_bytes());
    assert_eq!(&written[44..52], &[0u8; 8]);
    assert_eq!(&written[52..74], &sample_bytes()[52..74]);
    assert_eq!(&written[74..80], &[0u8; 6]);
    assert_eq!(&written[80..92], &[0, 0, 0, 0, 15, 0, 0, 0, 15, 0, 0, 0]);
    assert_eq!(&written[92..96], &[0u8; 4]);
    assert_eq!(written.len(), 96 + 3 * 32);
}

#[test]
fn fields_are_written_in_the_byte_order_asked_for() {
    let mut bytes = Vec::new();
    write_u32(0x0102_0304, &mut bytes, true);
    write_u32(0x0102_0304, &mut bytes, false);
    write_u16(0x0A0B, &mut bytes, true);
    write_u16(0x0A0B, &mut bytes, false);
    assert_eq!(bytes, vec![1, 2, 3, 4, 4, 3, 2, 1, 0x0A, 0x0B, 0x0B, 0x0A]);
}

#[test]
fn spans_of_a_decoded_container_tile_the_script_data() {
    let mut buffer = header(9, 0, 4, 0, 0);
    buffer.extend_from_slice(&[0x00, 0x00, 0x0D, 0, 1, 0x4D, 0x03, 0x2C, 2]);
    buffer.extend_from_slice(&[0u8; 3]);
    for offset in [6u32, 0, 2, 6] {
        buffer.extend_from_slice(&offset.to_le_bytes());
    }
    let file = take_file(&buffer).unwrap();
    let bounds: Vec<(u32, u32)> = file.iter().map(|script| script.bounds).collect();
    assert_eq!(bounds, vec![(0, 2), (2, 6), (6, 6), (6, 9)]);
    for byte in 0u32..9 {
        let holders = bounds.iter().filter(|(start, end)| *start <= byte && byte < *end).count();
        assert_eq!(holders, 1, "byte {}", byte);
    }
}
