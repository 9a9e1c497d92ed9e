use terminal_client::computer::ComputerId;
use terminal_client::ipc::{
    encode_header, encode_message, parse_header, parse_message, read_message, InitializeMessage,
    InitializeOSMessage, Message, MessageHeader, MessageType, ParseError, PlaySfxMessage,
    SwitchComputerMessage, TerminalType, UnlockDoorMessage,
};

fn all_messages() -> Vec<Message> {
    vec![
        Message::Initialize(InitializeMessage { terminal_type: TerminalType::OS }),
        Message::Initialize(InitializeMessage { terminal_type: TerminalType::Pinpad }),
        Message::InitializeOS(InitializeOSMessage { computer_id: ComputerId::First }),
        Message::InitializeOS(InitializeOSMessage { computer_id: ComputerId::Second }),
        Message::UnlockDoor(UnlockDoorMessage { code: [1, 2, 3, 255] }),
        Message::SwitchComputer(SwitchComputerMessage { new_id: ComputerId::Second }),
        Message::PlaySfx(PlaySfxMessage { id: 0xdead_beef }),
    ]
}

#[test]
fn message_types_have_their_ordinals() {
    assert_eq!(MessageType::Initialize.to_u32(), 0);
    assert_eq!(MessageType::UnlockDoor.to_u32(), 1);
    assert_eq!(MessageType::SwitchComputer.to_u32(), 2);
    assert_eq!(MessageType::PlaySfx.to_u32(), 3);
    assert_eq!(MessageType::InitializeOS.to_u32(), 4);
    for v in 0..5 {
        assert_eq!(MessageType::from_u32(v).unwrap().to_u32(), v);
    }
    assert_eq!(MessageType::from_u32(5), None);
    assert_eq!(TerminalType::from_u32(1), Some(TerminalType::Pinpad));
    assert_eq!(TerminalType::from_u32(2), None);
    assert_eq!(ComputerId::from_u32(0), Some(ComputerId::First));
    assert_eq!(ComputerId::Second.to_u32(), 1);
    assert_eq!(ComputerId::from_u32(7), None);
}

#[test]
fn get_type_names_the_kind() {
    let kinds: Vec<MessageType> = all_messages().iter().map(|m| m.get_type()).collect();
    assert_eq!(
        kinds,
        vec![
            MessageType::Initialize,
            MessageType::Initialize,
            MessageType::InitializeOS,
            MessageType::InitializeOS,
            MessageType::UnlockDoor,
            MessageType::SwitchComputer,
            MessageType::PlaySfx,
        ]
    );
}

#[test]
fn header_is_eight_bytes_low_byte_first() {
    let h = MessageHeader { ty: MessageType::InitializeOS, len: 0x0102_0304 };
    assert_eq!(encode_header(&h), vec![4, 0, 0, 0, 4, 3, 2, 1]);
    assert_eq!(parse_header(&[4, 0, 0, 0, 4, 3, 2, 1]).unwrap(), h);
}

#[test]
fn switch_computer_frame_bytes() {
    let m = Message::SwitchComputer(SwitchComputerMessage { new_id: ComputerId::Second });
    assert_eq!(encode_message(&m), vec![2, 0, 0, 0, 4, 0, 0, 0, 1, 0, 0, 0]);
    let sfx = Message::PlaySfx(PlaySfxMessage { id: 0x0a0b_0c0d });
    assert_eq!(encode_message(&sfx), vec![3, 0, 0, 0, 4, 0, 0, 0, 0x0d, 0x0c, 0x0b, 0x0a]);
    let door = Message::UnlockDoor(UnlockDoorMessage { code: [9, 8, 7, 6] });
    assert_eq!(encode_message(&door), vec![1, 0, 0, 0, 4, 0, 0, 0, 9, 8, 7, 6]);
}

#[test]
fn every_message_is_read_back() {
    for m in all_messages() {
        let bytes = encode_message(&m);
        assert_eq!(bytes.len(), 12);
        assert_eq!(read_message(&bytes).unwrap(), m);
        let header = parse_header(&bytes[..8]).unwrap();
        assert_eq!(header, MessageHeader { ty: m.get_type(), len: 4 });
        assert_eq!(parse_message(&header, &bytes[8..]).unwrap(), m);
    }
}

#[test]
fn short_header_is_invalid_length() {
    assert!(matches!(parse_header(&[0, 0, 0]), Err(ParseError::InvalidLength)));
    assert!(matches!(read_message(&[]), Err(ParseError::InvalidLength)));
}

#[test]
fn unknown_kind_is_unknown_message() {
    assert!(matches!(parse_header(&[5, 0, 0, 0, 4, 0, 0, 0]), Err(ParseError::UnknownMessage)));
    assert!(matches!(parse_header(&[0, 1, 0, 0, 4, 0, 0, 0]), Err(ParseError::UnknownMessage)));
    assert!(matches!(
        read_message(&[0, 0, 0, 1, 4, 0, 0, 0, 0, 0, 0, 0]),
        Err(ParseError::UnknownMessage)
    ));
}

#[test]
fn wrong_length_is_invalid_length() {
    let h = MessageHeader { ty: MessageType::Initialize, len: 5 };
    assert!(matches!(parse_message(&h, &[0, 0, 0, 0, 0]), Err(ParseError::InvalidLength)));
    let h = MessageHeader { ty: MessageType::Initialize, len: 4 };
    assert!(matches!(parse_message(&h, &[0, 0, 0]), Err(ParseError::InvalidLength)));
    assert!(matches!(
        read_message(&[0, 0, 0, 0, 4, 0, 0, 0, 0, 0, 0, 0, 0]),
        Err(ParseError::InvalidLength)
    ));
    assert!(matches!(read_message(&[0, 0, 0, 0, 3, 0, 0, 0, 0, 0, 0]), Err(ParseError::InvalidLength)));
}

#[test]
fn payload_that_names_nothing_is_invalid_format() {
    let h = MessageHeader { ty: MessageType::Initialize, len: 4 };
    assert!(matches!(parse_message(&h, &[2, 0, 0, 0]), Err(ParseError::InvalidFormat)));
    let h = MessageHeader { ty: MessageType::InitializeOS, len: 4 };
    assert!(matches!(parse_message(&h, &[0, 0, 1, 0]), Err(ParseError::InvalidFormat)));
    let h = MessageHeader { ty: MessageType::SwitchComputer, len: 4 };
    assert!(matches!(parse_message(&h, &[9, 0, 0, 0]), Err(ParseError::InvalidFormat)));
}

#[test]
fn messages_are_made_from_their_payloads() {
    let init = InitializeMessage { terminal_type: TerminalType::Pinpad };
    assert_eq!(Message::from(init), Message::Initialize(init));
    let os = InitializeOSMessage { computer_id: ComputerId::Second };
    assert_eq!(Message::from(os), Message::InitializeOS(os));
    let door = UnlockDoorMessage { code: [0, 1, 2, 3] };
    assert_eq!(Message::from(door), Message::UnlockDoor(door));
    let switch = SwitchComputerMessage { new_id: ComputerId::First };
    assert_eq!(Message::from(switch), Message::SwitchComputer(switch));
    let sfx = PlaySfxMessage { id: 3 };
    assert_eq!(Message::from(sfx), Message::PlaySfx(sfx));
}

#[test]
fn io_failure_is_carried() {
    let e = ParseError::Io(std::io::Error::other("broken pipe"));
    assert!(format!("{e:?}").contains("broken pipe"));
}

#[test]
fn messages_tell_the_terminal_and_the_first_computer() {
    let init = Message::Initialize(InitializeMessage { terminal_type: TerminalType::Pinpad });
    assert_eq!(init.terminal_type(), Some(TerminalType::Pinpad));
    assert_eq!(init.initial_computer(), None);
    let os = Message::InitializeOS(InitializeOSMessage { computer_id: ComputerId::Second });
    assert_eq!(os.initial_computer(), Some(ComputerId::Second));
    assert_eq!(os.terminal_type(), None);
    let sfx = Message::PlaySfx(PlaySfxMessage { id: 1 });
    assert_eq!(sfx.terminal_type(), None);
    assert_eq!(sfx.initial_computer(), None);
}
