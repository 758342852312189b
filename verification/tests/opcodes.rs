use msc::mscb_file::parser::{take_cmd, take_file, take_script};
use msc::{Cmd, Command, DecodeError, MscsbFile, Script};

fn encoded(command: &Command) -> Vec<u8> {
    let mut bytes = Vec::new();
    command.write(&mut bytes);
    bytes
}

fn operand_count(code: u8) -> usize {
    match code {
        0x02 | 0x04 | 0x05 | 0x0A | 0x2E | 0x34 | 0x35 | 0x36 => 4,
        0x0B | 0x14 | 0x15 | 0x1C..=0x24 | 0x3F..=0x45 => 3,
        0x0D | 0x2D => 2,
        0x2C | 0x2F | 0x30 | 0x31 | 0x38 | 0x39 => 1,
        _ => 0,
    }
}

#[test]
fn every_code_of_the_table_decodes_and_encodes_back() {
    for code in 0x00u8..=0x4D {
        for flag in [0x00u8, 0x80] {
            let mut bytes = vec![code | flag];
            bytes.extend_from_slice(&[0x12, 0x34, 0x56, 0x78][..operand_count(code)]);
            let position = 3 * code as u32;
            let (used, command) = take_cmd(&bytes, position).unwrap();
            assert_eq!(used, bytes.len(), "code {:#x}", code);
            assert_eq!(command.cmd.value(), code);
            assert_eq!(command.push_bit, flag == 0x80);
            assert_eq!(command.position, position);
            assert_eq!(command.size(), bytes.len());
            assert_eq!(encoded(&command), bytes, "code {:#x}", code);
        }
    }
}

#[test]
fn codes_behind_the_table_are_unknown() {
    for code in 0x4Eu8..=0x7F {
        for flag in [0x00u8, 0x80] {
            let bytes = [code | flag, 0, 0, 0, 0];
            assert_eq!(
                take_cmd(&bytes, 6),
                Err(DecodeError::UnknownOpcode { offset: 6, code })
            );
        }
    }
}

#[test]
fn call_variants_have_adjacent_codes() {
    assert_eq!(Cmd::CallFunc { arg_count: 3 }.value(), 0x2F);
    assert_eq!(Cmd::CallFunc2 { arg_count: 3 }.value(), 0x30);
    assert_eq!(Cmd::CallFunc3 { arg_count: 3 }.value(), 0x31);
    assert_eq!(take_cmd(&[0x2F, 3], 0).unwrap().1.cmd, Cmd::CallFunc { arg_count: 3 });
    assert_eq!(take_cmd(&[0x30, 3], 0).unwrap().1.cmd, Cmd::CallFunc2 { arg_count: 3 });
    assert_eq!(take_cmd(&[0x31, 3], 0).unwrap().1.cmd, Cmd::CallFunc3 { arg_count: 3 });
}

#[test]
fn reserved_codes_are_variants_without_operands() {
    let plain = |cmd: Cmd| Command { cmd, push_bit: false, position: 0 };
    assert_eq!(take_cmd(&[0x0C], 0), Ok((1, plain(Cmd::ErrorC))));
    assert_eq!(take_cmd(&[0x37], 0), Ok((1, plain(Cmd::Error37))));
    assert_eq!(take_cmd(&[0x4C], 0), Ok((1, plain(Cmd::Error4C))));
    assert_eq!(Cmd::ErrorC.value(), 0x0C);
    assert_eq!(Cmd::Error37.value(), 0x37);
    assert_eq!(Cmd::Error4C.value(), 0x4C);
}

#[test]
fn float_comparisons_have_their_own_variants() {
    assert_eq!(take_cmd(&[0x46], 0).unwrap().1.cmd, Cmd::EqualsF);
    assert_eq!(take_cmd(&[0x47], 0).unwrap().1.cmd, Cmd::NotEqualsF);
    assert_eq!(take_cmd(&[0x48], 0).unwrap().1.cmd, Cmd::LessThanF);
    assert_eq!(take_cmd(&[0x49], 0).unwrap().1.cmd, Cmd::LessOrEqualF);
    assert_eq!(take_cmd(&[0x4A], 0).unwrap().1.cmd, Cmd::GreaterF);
    assert_eq!(take_cmd(&[0x4B], 0).unwrap().1.cmd, Cmd::GreaterOrEqualF);
    assert_eq!(take_cmd(&[0x25], 0).unwrap().1.cmd, Cmd::Equals);
}

#[test]
fn operands_are_big_endian() {
    assert_eq!(
        take_cmd(&[0x04, 0x01, 0x02, 0x03, 0x04], 0).unwrap().1.cmd,
        Cmd::Jump { loc: 0x0102_0304 }
    );
    assert_eq!(take_cmd(&[0x0D, 0x01, 0x02], 0).unwrap().1.cmd, Cmd::PushShort { val: 0x0102 });
    assert_eq!(
        take_cmd(&[0x0B, 0x01, 0x02, 0x03], 0).unwrap().1.cmd,
        Cmd::PushVar { var_type: 1, var_num: 0x0203 }
    );
    assert_eq!(
        take_cmd(&[0x02, 0x01, 0x02, 0x03, 0x04], 0).unwrap().1.cmd,
        Cmd::Begin { arg_count: 0x0102, var_count: 0x0304 }
    );
    assert_eq!(
        take_cmd(&[0x2D, 0x01, 0x02], 0).unwrap().1.cmd,
        Cmd::Sys { arg_count: 1, sys_num: 2 }
    );
    assert_eq!(take_cmd(&[0x38, 0x09], 0).unwrap().1.cmd, Cmd::IntToFloat { stack_pos: 9 });
}

#[test]
fn instructions_are_written_big_endian() {
    let jump = Command { cmd: Cmd::Jump { loc: 0x0102_0304 }, push_bit: false, position: 0 };
    assert_eq!(encoded(&jump), vec![0x04, 0x01, 0x02, 0x03, 0x04]);
    let short = Command { cmd: Cmd::PushShort { val: 0x0102 }, push_bit: true, position: 0 };
    assert_eq!(encoded(&short), vec![0x8D, 0x01, 0x02]);
    let var = Command {
        cmd: Cmd::SetVar { var_type: 1, var_num: 0x0203 },
        push_bit: false,
        position: 9,
    };
    assert_eq!(encoded(&var), vec![0x1C, 0x01, 0x02, 0x03]);
    let begin = Command {
        cmd: Cmd::Begin { arg_count: 0x0102, var_count: 0x0304 },
        push_bit: false,
        position: 0,
    };
    assert_eq!(encoded(&begin), vec![0x02, 0x01, 0x02, 0x03, 0x04]);
    let sys = Command { cmd: Cmd::Sys { arg_count: 1, sys_num: 2 }, push_bit: true, position: 0 };
    assert_eq!(encoded(&sys), vec![0xAD, 0x01, 0x02]);
}

#[test]
fn push_flag_is_the_high_bit() {
    let (_, pushed) = take_cmd(&[0x8A, 0, 0, 0, 1], 0).unwrap();
    assert_eq!(pushed, Command { cmd: Cmd::PushInt { val: 1 }, push_bit: true, position: 0 });
    let (_, plain) = take_cmd(&[0x0A, 0, 0, 0, 1], 0).unwrap();
    assert_eq!(plain, Command { cmd: Cmd::PushInt { val: 1 }, push_bit: false, position: 0 });
    assert_eq!(encoded(&pushed)[0], 0x8A);
    assert_eq!(encoded(&plain)[0], 0x0A);
}

#[test]
fn instruction_is_read_at_the_front_and_records_the_position() {
    assert_eq!(
        take_cmd(&[0x0A, 0x00, 0x00, 0x00, 0x05], 1),
        Ok((5, Command { cmd: Cmd::PushInt { val: 5 }, push_bit: false, position: 1 }))
    );
    assert_eq!(
        take_cmd(&[0x37, 0xFF], 3),
        Ok((1, Command { cmd: Cmd::Error37, push_bit: false, position: 3 }))
    );
    assert_eq!(
        take_cmd(&[0x00, 0x00, 0x00, 0x00, 0x00], 5),
        Ok((1, Command { cmd: Cmd::Nop, push_bit: false, position: 5 }))
    );
    assert_eq!(
        take_cmd(&[0x00, 0x4D], u32::MAX),
        Ok((1, Command { cmd: Cmd::Nop, push_bit: false, position: u32::MAX }))
    );
}

#[test]
fn bytes_used_are_the_leading_byte_and_the_operands() {
    let bytes = [0x00, 0x0D, 0xAB, 0xCD, 0x4D];
    let (used, first) = take_cmd(&bytes, 7).unwrap();
    assert_eq!((used, first.cmd, first.position), (1, Cmd::Nop, 7));
    let (used, second) = take_cmd(&bytes[1..], 8).unwrap();
    assert_eq!((used, second.cmd, second.position), (3, Cmd::PushShort { val: 0xABCD }, 8));
    let (used, third) = take_cmd(&bytes[4..], 11).unwrap();
    assert_eq!((used, third.cmd, third.position), (1, Cmd::Exit, 11));
}

#[test]
fn command_is_read_back_at_its_own_position() {
    for position in [0u32, 1, 5, 6, 1000, u32::MAX] {
        for push_bit in [false, true] {
            let cmd = Cmd::SetVar { var_type: 2, var_num: 0x0304 };
            let command = Command { cmd, push_bit, position };
            let bytes = encoded(&command);
            assert_eq!(take_cmd(&bytes, position), Ok((bytes.len(), command)));
        }
    }
}

#[test]
fn top_bit_of_the_first_byte_is_the_push_flag_at_any_position() {
    for position in [0u32, 1, 77] {
        let (used, plain) = take_cmd(&[0x00, 0x00], position).unwrap();
        let (used_pushed, pushed) = take_cmd(&[0x80, 0x00], position).unwrap();
        assert_eq!(used, used_pushed);
        assert_eq!(plain.cmd, pushed.cmd);
        assert_eq!(plain.position, pushed.position);
        assert!(!plain.push_bit);
        assert!(pushed.push_bit);
    }
}

#[test]
fn missing_operand_bytes_are_a_truncated_instruction() {
    assert_eq!(
        take_cmd(&[0x0A, 0, 0, 0], 0),
        Err(DecodeError::TruncatedInstruction { offset: 0 })
    );
    assert_eq!(take_cmd(&[0x0B, 1, 2], 1), Err(DecodeError::TruncatedInstruction { offset: 1 }));
    assert_eq!(take_cmd(&[0x2D, 1], 0), Err(DecodeError::TruncatedInstruction { offset: 0 }));
    assert_eq!(take_cmd(&[0x02, 0, 1, 0], 9), Err(DecodeError::TruncatedInstruction { offset: 9 }));
}

#[test]
fn no_bytes_are_a_truncated_instruction() {
    assert_eq!(take_cmd(&[], 0), Err(DecodeError::TruncatedInstruction { offset: 0 }));
    assert_eq!(take_cmd(&[], 1), Err(DecodeError::TruncatedInstruction { offset: 1 }));
    assert_eq!(take_cmd(&[], 9), Err(DecodeError::TruncatedInstruction { offset: 9 }));
}

#[test]
fn unknown_opcode_wins_over_missing_bytes() {
    assert_eq!(take_cmd(&[0x7F], 0), Err(DecodeError::UnknownOpcode { offset: 0, code: 0x7F }));
    assert_eq!(take_cmd(&[0xFF], 4), Err(DecodeError::UnknownOpcode { offset: 4, code: 0x7F }));
}

#[test]
fn empty_span_is_a_script_without_instructions() {
    let script = take_script(&[], 40).unwrap();
    assert!(script.commands.is_empty());
    assert_eq!(script.bounds, (40, 40));
}

#[test]
fn script_positions_count_from_its_start() {
    let script = take_script(&[0x0D, 0, 1, 0x00, 0x2C, 2], 100).unwrap();
    assert_eq!(script.bounds, (100, 106));
    let positions: Vec<u32> = script.iter().map(|command| command.position).collect();
    assert_eq!(positions, vec![0, 3, 4]);
}

#[test]
fn script_errors_count_from_the_start_of_the_script_data() {
    assert_eq!(
        take_script(&[0x00, 0x00, 0x4E], 100),
        Err(DecodeError::UnknownOpcode { offset: 102, code: 0x4E })
    );
    assert_eq!(
        take_script(&[0x00, 0x0A, 0, 0], 100),
        Err(DecodeError::TruncatedInstruction { offset: 101 })
    );
}

#[test]
fn error_offsets_are_shifted_by_the_start_of_the_script() {
    assert_eq!(
        DecodeError::UnknownOpcode { offset: 3, code: 0x50 }.shift(16),
        DecodeError::UnknownOpcode { offset: 19, code: 0x50 }
    );
    assert_eq!(
        DecodeError::TruncatedInstruction { offset: 0 }.shift(7),
        DecodeError::TruncatedInstruction { offset: 7 }
    );
    assert_eq!(DecodeError::BadMagic.shift(7), DecodeError::BadMagic);
    assert_eq!(DecodeError::TruncatedInput.shift(7), DecodeError::TruncatedInput);
}

#[test]
fn operand_sizes_follow_the_layout() {
    assert_eq!(Cmd::Nop.operand_size(), 0);
    assert_eq!(Cmd::PrintF { arg_count: 0 }.operand_size(), 1);
    assert_eq!(Cmd::IntToFloat { stack_pos: 0 }.operand_size(), 1);
    assert_eq!(Cmd::PushShort { val: 0 }.operand_size(), 2);
    assert_eq!(Cmd::Sys { arg_count: 0, sys_num: 0 }.operand_size(), 2);
    assert_eq!(Cmd::PushVar { var_type: 0, var_num: 0 }.operand_size(), 3);
    assert_eq!(Cmd::Begin { arg_count: 0, var_count: 0 }.operand_size(), 4);
    assert_eq!(Cmd::Else { loc: 0 }.operand_size(), 4);
}

#[test]
fn script_of_every_opcode_round_trips_through_a_container() {
    let mut stream = Vec::new();
    for code in 0x00u8..=0x4D {
        let flag = if code % 3 == 0 { 0x80 } else { 0x00 };
        stream.push(code | flag);
        let operands = [code.wrapping_mul(7), code ^ 0x5A, !code, code.wrapping_add(1)];
        stream.extend_from_slice(&operands[..operand_count(code)]);
    }
    let script = take_script(&stream, 0).unwrap();
    assert_eq!(script.commands.len(), 78);
    assert_eq!(script.bounds, (0, stream.len() as u32));
    let mut position = 0;
    for (code, command) in script.iter().enumerate() {
        assert_eq!(command.cmd.value() as usize, code);
        assert_eq!(command.position, position);
        position += command.size() as u32;
    }
    assert_eq!(position as usize, stream.len());
    let file = MscsbFile {
        scripts: vec![script, Script { commands: vec![], bounds: (177, 177) }],
        strings: vec![String::from("every opcode")],
        entrypoint: 0,
    };
    assert_eq!(stream.len(), 177);
    let mut written = Vec::new();
    file.write(&mut written);
    assert_eq!(&written[52..52 + stream.len()], &stream[..]);
    assert_eq!(take_file(&written), Ok(file));
}
