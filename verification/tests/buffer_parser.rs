use immuxsys::storage::buffer_parser::CommandBufferParser;
use immuxsys::storage::chain_height::ChainHeight;
use immuxsys::storage::instruction::Instruction;

fn get_commands() -> Vec<Instruction> {
    vec![
        Instruction::SetOne {
            key: vec![0x00, 0x01],
            value: vec![0xff, 0xf3],
        },
        Instruction::RevertOne {
            key: vec![0x11, 0x22],
            height: ChainHeight::new(3),
        },
        Instruction::RevertAll {
            height: ChainHeight::new(6),
        },
        Instruction::RemoveOne { key: vec![0x88] },
        Instruction::RemoveAll,
    ]
}

fn serialize_commands(commands: &Vec<Instruction>) -> Vec<u8> {
    let mut buffer: Vec<u8> = Vec::new();
    for command in commands {
        buffer.extend_from_slice(&command.serialize());
    }
    buffer
}

#[test]
fn iterate_buffer_parser() {
    let commands = get_commands();
    let buffer = serialize_commands(&commands);

    let mut command_buffer_parser = CommandBufferParser::new(buffer, 0);

    let mut index = 0;
    while let Some((actual_command, _)) = command_buffer_parser.next() {
        let expected_command = &commands.as_slice()[index];
        assert_eq!(&actual_command, expected_command);
        index += 1;
    }
    assert_eq!(index, commands.len());
}

#[test]
fn iterate_buffer_parser_with_broken_command() {
    let commands = get_commands();
    let mut buffer = serialize_commands(&commands);

    let some_broken_bytes = [0xff, 0x00, 0xfa];
    buffer.extend_from_slice(&some_broken_bytes);

    let mut command_buffer_parser = CommandBufferParser::new(buffer, 0);

    for expected_command in commands {
        let (actual_command, _) = &command_buffer_parser.next().unwrap();
        assert_eq!(actual_command, &expected_command);
    }

    let broken_piece = command_buffer_parser.next();
    assert_eq!(broken_piece, None);
}

#[test]
fn buffer_parser_stays_at_the_end() {
    let buffer = Instruction::RemoveAll.serialize();
    let mut parser = CommandBufferParser::new(buffer, 0);
    assert_eq!(parser.next(), Some((Instruction::RemoveAll, 1)));
    assert_eq!(parser.offset(), 1);
    assert_eq!(parser.next(), None);
    assert_eq!(parser.next(), None);
    assert_eq!(parser.offset(), 1);
}

#[test]
fn buffer_parser_reports_lengths() {
    let commands = get_commands();
    let buffer = serialize_commands(&commands);
    let mut parser = CommandBufferParser::new(buffer, 0);
    let mut lengths = Vec::new();
    while let Some((_, length)) = parser.next() {
        lengths.push(length);
    }
    assert_eq!(lengths, vec![7, 5, 2, 3, 1]);
}

#[test]
fn buffer_parser_start_beyond_the_end() {
    let mut parser = CommandBufferParser::new(vec![0x04], 5);
    assert_eq!(parser.next(), None);
}
