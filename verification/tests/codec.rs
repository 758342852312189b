use msc::mscb_file::parser::{str_from_u8_nul_utf8, take_file, take_script};
use msc::mscb_file::writer::write_slot;
use msc::{Cmd, Command, MscsbFile, Script};

const TAG: [u8; 16] = [
    0xB2, 0xAC, 0xBC, 0xBA, 0xE6, 0x90, 0x32, 0x01, 0xFD, 0x02, 0x00, 0x00, 0x00, 0x00, 0x00, 0x00,
];

fn pad(buffer: &mut Vec<u8>) {
    while buffer.len() % 16 != 0 {
        buffer.push(0);
    }
}

fn container(
    entrypoint: u32,
    data: &[u8],
    offsets: &[u32],
    slot: u32,
    slots: &[&[u8]],
) -> Vec<u8> {
    let mut buffer = TAG.to_vec();
    buffer.extend_from_slice(&[0u8; 4]);
    buffer.extend_from_slice(&(data.len() as u32).to_le_bytes());
    buffer.extend_from_slice(&entrypoint.to_le_bytes());
    buffer.extend_from_slice(&(offsets.len() as u32).to_le_bytes());
    buffer.extend_from_slice(&0x16u32.to_le_bytes());
    buffer.extend_from_slice(&slot.to_le_bytes());
    buffer.extend_from_slice(&(slots.len() as u32).to_le_bytes());
    buffer.extend_from_slice(&[0u8; 8]);
    buffer.extend_from_slice(data);
    pad(&mut buffer);
    for offset in offsets {
        buffer.extend_from_slice(&offset.to_le_bytes());
    }
    pad(&mut buffer);
    for slot in slots {
        buffer.extend_from_slice(slot);
    }
    buffer
}

fn plain(cmd: Cmd, position: u32) -> Command {
    Command { cmd, push_bit: false, position }
}

#[test]
fn decodes_three_instructions_at_their_offsets() {
    let stream = [0x00u8, 0x0A, 0x00, 0x00, 0x00, 0x05, 0x4D];
    let script = take_script(&stream, 0).unwrap();
    assert_eq!(
        script.commands,
        vec![plain(Cmd::Nop, 0), plain(Cmd::PushInt { val: 5 }, 1), plain(Cmd::Exit, 6)]
    );
    assert_eq!(script.bounds, (0, 7));
}

#[test]
fn encodes_three_instructions_big_endian() {
    let file = MscsbFile {
        scripts: vec![Script {
            commands: vec![
                plain(Cmd::Nop, 0),
                plain(Cmd::PushInt { val: 5 }, 1),
                plain(Cmd::Exit, 6),
            ],
            bounds: (0, 7),
        }],
        strings: vec![],
        entrypoint: 0,
    };
    let mut data = Vec::new();
    let offsets = file.generate_script_data(&mut data);
    assert_eq!(data, vec![0x00, 0x0A, 0x00, 0x00, 0x00, 0x05, 0x4D]);
    assert_eq!(offsets, vec![0]);
}

#[test]
fn one_script_container_round_trips() {
    let stream = [0x00u8, 0x0A, 0x00, 0x00, 0x00, 0x05, 0x4D];
    let buffer = container(0, &stream, &[0], 0, &[]);
    let file = take_file(&buffer).unwrap();
    assert_eq!(file.entrypoint, 0);
    assert_eq!(file.scripts.len(), 1);
    assert_eq!(
        file.scripts[0].commands,
        vec![plain(Cmd::Nop, 0), plain(Cmd::PushInt { val: 5 }, 1), plain(Cmd::Exit, 6)]
    );
    assert_eq!(file.scripts[0].bounds, (0, 7));
    assert!(file.strings.is_empty());
    let mut written = Vec::new();
    file.write(&mut written);
    assert_eq!(written, buffer);
    assert_eq!(&written[52..59], &stream[..]);
}

#[test]
fn scripts_come_in_the_order_of_their_offsets() {
    let mut data = vec![0x00u8; 15];
    data.push(0x03);
    data.extend_from_slice(&[0x0A, 0x00, 0x00, 0x00, 0x05, 0x4D]);
    let buffer = container(16, &data, &[16, 0], 0, &[]);
    let file = take_file(&buffer).unwrap();
    assert_eq!(file.entrypoint, 16);
    assert_eq!(file.scripts.len(), 2);
    assert_eq!(file.scripts[0].bounds, (0, 16));
    assert_eq!(file.scripts[0].commands.len(), 16);
    assert_eq!(file.scripts[0].commands[15], plain(Cmd::End, 15));
    assert_eq!(file.scripts[1].bounds, (16, 22));
    assert_eq!(
        file.scripts[1].commands,
        vec![plain(Cmd::PushInt { val: 5 }, 0), plain(Cmd::Exit, 5)]
    );
}

#[test]
fn sorted_scripts_are_written_with_sorted_offsets() {
    let mut data = vec![0x00u8; 15];
    data.push(0x03);
    data.extend_from_slice(&[0x0A, 0x00, 0x00, 0x00, 0x05, 0x4D]);
    let declared = container(16, &data, &[16, 0], 0, &[]);
    let sorted = container(16, &data, &[0, 16], 0, &[]);
    let file = take_file(&declared).unwrap();
    let mut written = Vec::new();
    file.write(&mut written);
    assert_eq!(written, sorted);
    assert_eq!(take_file(&written).unwrap(), file);
}

#[test]
fn string_slot_decodes_to_its_text() {
    assert_eq!(str_from_u8_nul_utf8(b"ok\0\0\0\0\0\0"), Ok("ok"));
}

#[test]
fn text_encodes_to_its_string_slot() {
    let mut slot = Vec::new();
    write_slot("ok", 8, &mut slot);
    assert_eq!(slot, b"ok\0\0\0\0\0\0".to_vec());
}

#[test]
fn empty_container_is_a_header_and_its_padding() {
    let file = MscsbFile { scripts: vec![], strings: vec![], entrypoint: 7 };
    let mut written = Vec::new();
    file.write(&mut written);
    let mut expected = TAG.to_vec();
    expected.extend_from_slice(&[0, 0, 0, 0]);
    expected.extend_from_slice(&[0, 0, 0, 0]);
    expected.extend_from_slice(&[7, 0, 0, 0]);
    expected.extend_from_slice(&[0, 0, 0, 0]);
    expected.extend_from_slice(&[0x16, 0, 0, 0]);
    expected.extend_from_slice(&[0, 0, 0, 0]);
    expected.extend_from_slice(&[0, 0, 0, 0]);
    expected.extend_from_slice(&[0; 8]);
    assert_eq!(expected.len(), 52);
    expected.extend_from_slice(&[0; 12]);
    assert_eq!(written.len(), 64);
    assert_eq!(written, expected);
}

#[test]
fn padded_header_decodes_to_an_empty_container() {
    let buffer = container(7, &[], &[], 0, &[]);
    assert_eq!(buffer.len(), 64);
    let file = take_file(&buffer).unwrap();
    assert_eq!(file, MscsbFile { scripts: vec![], strings: vec![], entrypoint: 7 });
}

#[test]
fn script_data_without_offsets_gives_no_script() {
    let buffer = container(0, &[0x00, 0x4D], &[], 16, &[]);
    let file = take_file(&buffer).unwrap();
    assert!(file.scripts.is_empty());
    assert!(file.strings.is_empty());
    let mut written = Vec::new();
    file.write(&mut written);
    assert_eq!(written.len(), 64);
    assert_eq!(&written[20..24], &[0, 0, 0, 0]);
}

#[test]
fn test_parser() {
    let stream = [0x02u8, 0x00, 0x01, 0x00, 0x02, 0x8A, 0x00, 0x00, 0x00, 0x2A, 0x03];
    let buffer = container(0, &stream, &[0], 16, &[b"pikachu\0\0\0\0\0\0\0\0\0"]);
    let pikachu = take_file(&buffer).unwrap();
    println!("# of scripts - {}", pikachu.scripts.len());
    println!("Script 1\n--------");
    for c in pikachu.scripts[0].iter() {
        println!("{:?}", c);
    }
    assert_eq!(pikachu.scripts.len(), 1);
    let commands: Vec<Command> = pikachu.scripts[0].iter().copied().collect();
    assert_eq!(
        commands,
        vec![
            plain(Cmd::Begin { arg_count: 1, var_count: 2 }, 0),
            Command { cmd: Cmd::PushInt { val: 42 }, push_bit: true, position: 5 },
            plain(Cmd::End, 10),
        ]
    );
    assert_eq!(pikachu.strings, vec![String::from("pikachu")]);
}

#[test]
fn container_iterates_over_its_scripts() {
    let data = [0x00u8, 0x4D, 0x03];
    let buffer = container(0, &data, &[0, 2], 0, &[]);
    let file = take_file(&buffer).unwrap();
    let bounds: Vec<(u32, u32)> = file.iter().map(|script| script.bounds).collect();
    assert_eq!(bounds, vec![(0, 2), (2, 3)]);
}
