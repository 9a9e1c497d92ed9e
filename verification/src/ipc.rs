//! The wire format of the control channel: an eight-byte header, the kind of
//! the message and the length of its payload, both as 32-bit numbers with
//! the low byte first, and then the payload.

pub mod console;
pub mod msg;

use crate::computer::ComputerId;
pub use msg::{
    InitializeMessage, InitializeOSMessage, Message, MessageHeader, MessageType, PlaySfxMessage,
    SwitchComputerMessage, TerminalType, UnlockDoorMessage,
};
use vstd::prelude::*;

verus! {

/// `std::io::Error`, the failure of an input or output operation. Nothing
/// is said about what is inside.
#[verifier::external_type_specification]
#[verifier::external_body]
pub struct ExIoError(std::io::Error);

/// Why no message could be read.
#[derive(Debug)]
pub enum ParseError {
    /// The payload does not hold a value of the message's kind.
    InvalidFormat,
    /// The header announces a payload of the wrong length.
    InvalidLength,
    /// The header names no known kind of message.
    UnknownMessage,
    /// Reading from the channel failed.
    Io(std::io::Error),
}

/// How many bytes a header takes.
pub const HEADER_LEN: usize = 8;

/// How many bytes the payload of every message takes.
pub const PAYLOAD_LEN: u32 = 4;

/// The four bytes of a number, low byte first.
pub open spec fn le_bytes(v: u32) -> Seq<u8> {
    seq![
        (v % 256) as u8,
        (v / 256 % 256) as u8,
        (v / 65536 % 256) as u8,
        (v / 16777216) as u8,
    ]
}

/// The number whose four bytes, low byte first, are at `at` in `bytes`.
pub open spec fn le_value(bytes: Seq<u8>, at: int) -> int {
    bytes[at] + 256 * bytes[at + 1] + 65536 * bytes[at + 2] + 16777216 * bytes[at + 3]
}

/// Taking a number apart and putting it together gives the number.
pub proof fn lemma_le_round_trip(v: u32)
    ensures
        le_bytes(v).len() == 4,
        le_value(le_bytes(v), 0) == v,
{
}

/// The bytes of a header.
pub open spec fn header_bytes(h: MessageHeader) -> Seq<u8> {
    le_bytes(h.ty.ordinal()) + le_bytes(h.len)
}

/// The bytes of what a message carries.
pub open spec fn payload_bytes(m: Message) -> Seq<u8> {
    match m {
        Message::Initialize(d) => le_bytes(d.terminal_type.ordinal()),
        Message::InitializeOS(d) => le_bytes(d.computer_id.ordinal()),
        Message::UnlockDoor(d) => d.code@,
        Message::SwitchComputer(d) => le_bytes(d.new_id.ordinal()),
        Message::PlaySfx(d) => le_bytes(d.id),
    }
}

/// The header that goes before a message.
pub open spec fn header_of(m: Message) -> MessageHeader {
    MessageHeader { ty: m.kind(), len: PAYLOAD_LEN }
}

/// A message as it goes over the wire: header, then payload.
pub open spec fn message_bytes(m: Message) -> Seq<u8> {
    header_bytes(header_of(m)) + payload_bytes(m)
}

/// What the first eight bytes of `bytes` say: a header, or why they are
/// none.
pub open spec fn header_spec(bytes: Seq<u8>) -> Result<MessageHeader, ParseError> {
    if bytes.len() < HEADER_LEN {
        Err(ParseError::InvalidLength)
    } else if le_value(bytes, 0) > 4 {
        Err(ParseError::UnknownMessage)
    } else {
        Ok(MessageHeader { ty: type_of(le_value(bytes, 0)), len: le_value(bytes, 4) as u32 })
    }
}

/// The kind that a number stands for.
pub open spec fn type_of(v: int) -> MessageType {
    if v == 0 {
        MessageType::Initialize
    } else if v == 1 {
        MessageType::UnlockDoor
    } else if v == 2 {
        MessageType::SwitchComputer
    } else if v == 3 {
        MessageType::PlaySfx
    } else {
        MessageType::InitializeOS
    }
}

/// What a payload says under a header: the message, `InvalidLength` where
/// the header announces anything but four bytes or the payload is not as
/// long as announced, `InvalidFormat` where the bytes stand for no terminal
/// or computer.
pub open spec fn payload_spec(h: MessageHeader, payload: Seq<u8>) -> Result<Message, ParseError> {
    if h.len != PAYLOAD_LEN || payload.len() != PAYLOAD_LEN {
        Err(ParseError::InvalidLength)
    } else {
        let v = le_value(payload, 0);
        match h.ty {
            MessageType::Initialize => if v == 0 {
                Ok(Message::Initialize(InitializeMessage { terminal_type: TerminalType::OS }))
            } else if v == 1 {
                Ok(Message::Initialize(InitializeMessage { terminal_type: TerminalType::Pinpad }))
            } else {
                Err(ParseError::InvalidFormat)
            },
            MessageType::InitializeOS => if v == 0 {
                Ok(Message::InitializeOS(InitializeOSMessage { computer_id: ComputerId::First }))
            } else if v == 1 {
                Ok(Message::InitializeOS(InitializeOSMessage { computer_id: ComputerId::Second }))
            } else {
                Err(ParseError::InvalidFormat)
            },
            MessageType::SwitchComputer => if v == 0 {
                Ok(Message::SwitchComputer(SwitchComputerMessage { new_id: ComputerId::First }))
            } else if v == 1 {
                Ok(Message::SwitchComputer(SwitchComputerMessage { new_id: ComputerId::Second }))
            } else {
                Err(ParseError::InvalidFormat)
            },
            MessageType::PlaySfx => Ok(Message::PlaySfx(PlaySfxMessage { id: v as u32 })),
            MessageType::UnlockDoor => Ok(
                Message::UnlockDoor(
                    UnlockDoorMessage { code: [payload[0], payload[1], payload[2], payload[3]] },
                ),
            ),
        }
    }
}

/// What a whole frame says: header and payload together.
pub open spec fn message_spec(bytes: Seq<u8>) -> Result<Message, ParseError> {
    match header_spec(bytes) {
        Ok(h) => payload_spec(h, bytes.skip(HEADER_LEN as int)),
        Err(e) => Err(e),
    }
}

/// Appends the four bytes of a number, low byte first.
fn push_le(out: &mut Vec<u8>, v: u32)
    ensures
        final(out)@ == old(out)@ + le_bytes(v),
{
    out.push((v % 256) as u8);
    out.push((v / 256 % 256) as u8);
    out.push((v / 65536 % 256) as u8);
    out.push((v / 16777216) as u8);
    assert(out@ =~= old(out)@ + le_bytes(v));
}

/// Reads the number whose four bytes start at `at`.
fn read_le(bytes: &[u8], at: usize) -> (r: u32)
    requires
        at + 4 <= bytes@.len(),
    ensures
        r == le_value(bytes@, at as int),
{
    let b0: u32 = bytes[at] as u32;
    let b1: u32 = bytes[at + 1] as u32;
    let b2: u32 = bytes[at + 2] as u32;
    let b3: u32 = bytes[at + 3] as u32;
    b0 + 256 * b1 + 65536 * b2 + 16777216 * b3
}

/// The bytes of a header.
pub fn encode_header(h: &MessageHeader) -> (r: Vec<u8>)
    ensures
        r@ == header_bytes(*h),
{
    let mut out: Vec<u8> = Vec::new();
    push_le(&mut out, h.ty.to_u32());
    push_le(&mut out, h.len);
    out
}

/// A message as it goes over the wire.
pub fn encode_message(m: &Message) -> (r: Vec<u8>)
    ensures
        r@ == message_bytes(*m),
{
    let h = MessageHeader { ty: m.get_type(), len: PAYLOAD_LEN };
    let mut out = encode_header(&h);
    match m {
        Message::Initialize(d) => push_le(&mut out, d.terminal_type.to_u32()),
        Message::InitializeOS(d) => push_le(&mut out, d.computer_id.to_u32()),
        Message::UnlockDoor(d) => {
            out.push(d.code[0]);
            out.push(d.code[1]);
            out.push(d.code[2]);
            out.push(d.code[3]);
            assert(out@ =~= header_bytes(h) + d.code@);
        },
        Message::SwitchComputer(d) => push_le(&mut out, d.new_id.to_u32()),
        Message::PlaySfx(d) => push_le(&mut out, d.id),
    }
    out
}

/// Reads a header from the first eight bytes.
pub fn parse_header(bytes: &[u8]) -> (r: Result<MessageHeader, ParseError>)
    ensures
        r == header_spec(bytes@),
{
    if bytes.len() < HEADER_LEN {
        return Err(ParseError::InvalidLength);
    }
    let tag = read_le(bytes, 0);
    let len = read_le(bytes, 4);
    match MessageType::from_u32(tag) {
        Some(ty) => Ok(MessageHeader { ty, len }),
        None => Err(ParseError::UnknownMessage),
    }
}

/// How many bytes are to be read behind a header before the message can be
/// read: the payload where the header announces one of the right length,
/// and nothing where it does not, since the message is then refused as it
/// is.
pub fn expected_payload(header: &MessageHeader) -> (r: usize)
    ensures
        r == if header.len == PAYLOAD_LEN {
            4usize
        } else {
            0usize
        },
        r == 0 ==> payload_spec(*header, Seq::empty()) == Err::<Message, ParseError>(
            ParseError::InvalidLength,
        ),
{
    if header.len == PAYLOAD_LEN {
        4
    } else {
        0
    }
}

/// Reads the payload that a header announces.
pub fn parse_message(header: &MessageHeader, payload: &[u8]) -> (r: Result<Message, ParseError>)
    ensures
        r == payload_spec(*header, payload@),
{
    if header.len != PAYLOAD_LEN || payload.len() != 4 {
        return Err(ParseError::InvalidLength);
    }
    let v = read_le(payload, 0);
    match header.ty {
        MessageType::Initialize => match TerminalType::from_u32(v) {
            Some(terminal_type) => Ok(Message::Initialize(InitializeMessage { terminal_type })),
            None => Err(ParseError::InvalidFormat),
        },
        MessageType::InitializeOS => match ComputerId::from_u32(v) {
            Some(computer_id) => Ok(Message::InitializeOS(InitializeOSMessage { computer_id })),
            None => Err(ParseError::InvalidFormat),
        },
        MessageType::SwitchComputer => match ComputerId::from_u32(v) {
            Some(new_id) => Ok(Message::SwitchComputer(SwitchComputerMessage { new_id })),
            None => Err(ParseError::InvalidFormat),
        },
        MessageType::PlaySfx => Ok(Message::PlaySfx(PlaySfxMessage { id: v })),
        MessageType::UnlockDoor => Ok(
            Message::UnlockDoor(
                UnlockDoorMessage { code: [payload[0], payload[1], payload[2], payload[3]] },
            ),
        ),
    }
}

/// Reads a whole frame: a header and the payload behind it.
pub fn read_message(bytes: &[u8]) -> (r: Result<Message, ParseError>)
    ensures
        r == message_spec(bytes@),
{
    match parse_header(bytes) {
        Ok(h) => {
            let payload = vstd::slice::slice_subrange(bytes, HEADER_LEN, bytes.len());
            assert(payload@ =~= bytes@.skip(HEADER_LEN as int));
            parse_message(&h, payload)
        },
        Err(e) => Err(e),
    }
}

/// A message written to the wire is read back as it was.
pub proof fn lemma_message_round_trip(m: Message)
    ensures
        message_bytes(m).len() == HEADER_LEN + PAYLOAD_LEN,
        message_spec(message_bytes(m)) == Ok::<Message, ParseError>(m),
{
    let bytes = message_bytes(m);
    let h = header_of(m);
    lemma_le_round_trip(h.ty.ordinal());
    lemma_le_round_trip(h.len);
    assert(le_value(bytes, 0) == le_value(le_bytes(h.ty.ordinal()), 0));
    assert(le_value(bytes, 4) == le_value(le_bytes(h.len), 0));
    assert(header_spec(bytes) == Ok::<MessageHeader, ParseError>(h));
    let payload = bytes.skip(HEADER_LEN as int);
    assert(payload =~= payload_bytes(m));
    match m {
        Message::Initialize(d) => {
            lemma_le_round_trip(d.terminal_type.ordinal());
        },
        Message::InitializeOS(d) => {
            lemma_le_round_trip(d.computer_id.ordinal());
        },
        Message::UnlockDoor(d) => {
            assert(d.code@.len() == 4);
            assert([payload[0], payload[1], payload[2], payload[3]] =~= d.code);
        },
        Message::SwitchComputer(d) => {
            lemma_le_round_trip(d.new_id.ordinal());
        },
        Message::PlaySfx(d) => {
            lemma_le_round_trip(d.id);
        },
    }
}

} // verus!
