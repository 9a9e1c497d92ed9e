//! The messages exchanged with the controller of the game.

use crate::computer::ComputerId;
use vstd::prelude::*;
use vstd::std_specs::convert::FromSpecImpl;

verus! {

/// The kind of a message.
#[derive(Debug, Clone, Copy, PartialEq, Eq, Structural)]
pub enum MessageType {
    Initialize,
    InitializeOS,
    UnlockDoor,
    SwitchComputer,
    PlaySfx,
}

impl MessageType {
    /// The number that stands for the kind on the wire.
    pub open spec fn ordinal(self) -> u32 {
        match self {
            MessageType::Initialize => 0,
            MessageType::UnlockDoor => 1,
            MessageType::SwitchComputer => 2,
            MessageType::PlaySfx => 3,
            MessageType::InitializeOS => 4,
        }
    }

    /// The number that stands for the kind on the wire.
    pub fn to_u32(self) -> (r: u32)
        ensures
            r == self.ordinal(),
    {
        match self {
            MessageType::Initialize => 0,
            MessageType::UnlockDoor => 1,
            MessageType::SwitchComputer => 2,
            MessageType::PlaySfx => 3,
            MessageType::InitializeOS => 4,
        }
    }

    /// The kind that a number on the wire stands for.
    pub fn from_u32(value: u32) -> (r: Option<MessageType>)
        ensures
            match r {
                Some(ty) => ty.ordinal() == value,
                None => value > 4,
            },
    {
        if value == 0 {
            Some(MessageType::Initialize)
        } else if value == 1 {
            Some(MessageType::UnlockDoor)
        } else if value == 2 {
            Some(MessageType::SwitchComputer)
        } else if value == 3 {
            Some(MessageType::PlaySfx)
        } else if value == 4 {
            Some(MessageType::InitializeOS)
        } else {
            None
        }
    }
}

/// What goes before every message: its kind and the length of what follows.
#[derive(Debug, Clone, Copy, PartialEq, Eq, Structural)]
pub struct MessageHeader {
    pub ty: MessageType,
    pub len: u32,
}

/// Which terminal of the game a program is.
#[derive(Debug, Clone, Copy, PartialEq, Eq, Structural)]
pub enum TerminalType {
    OS,
    Pinpad,
}

impl TerminalType {
    /// The number that stands for the terminal on the wire.
    pub open spec fn ordinal(self) -> u32 {
        match self {
            TerminalType::OS => 0,
            TerminalType::Pinpad => 1,
        }
    }

    /// The number that stands for the terminal on the wire.
    pub fn to_u32(self) -> (r: u32)
        ensures
            r == self.ordinal(),
    {
        match self {
            TerminalType::OS => 0,
            TerminalType::Pinpad => 1,
        }
    }

    /// The terminal that a number on the wire stands for.
    pub fn from_u32(value: u32) -> (r: Option<TerminalType>)
        ensures
            match r {
                Some(t) => t.ordinal() == value,
                None => value > 1,
            },
    {
        if value == 0 {
            Some(TerminalType::OS)
        } else if value == 1 {
            Some(TerminalType::Pinpad)
        } else {
            None
        }
    }
}

/// Tells a program which terminal it is.
#[derive(Debug, Clone, Copy, PartialEq, Eq, Structural)]
pub struct InitializeMessage {
    pub terminal_type: TerminalType,
}

/// Tells the shell terminal which computer is active at the start.
#[derive(Debug, Clone, Copy, PartialEq, Eq, Structural)]
pub struct InitializeOSMessage {
    pub computer_id: ComputerId,
}

/// The code entered at the pinpad.
#[derive(Debug, Clone, Copy, PartialEq, Eq)]
pub struct UnlockDoorMessage {
    pub code: [u8; 4],
}

/// Tells the controller that another computer became active.
#[derive(Debug, Clone, Copy, PartialEq, Eq, Structural)]
pub struct SwitchComputerMessage {
    pub new_id: ComputerId,
}

/// Asks the controller to play a sound.
#[derive(Debug, Clone, Copy, PartialEq, Eq, Structural)]
pub struct PlaySfxMessage {
    pub id: u32,
}

/// A message with what it carries.
#[derive(Debug, Clone, Copy, PartialEq, Eq)]
pub enum Message {
    Initialize(InitializeMessage),
    InitializeOS(InitializeOSMessage),
    UnlockDoor(UnlockDoorMessage),
    SwitchComputer(SwitchComputerMessage),
    PlaySfx(PlaySfxMessage),
}

impl Message {
    /// The kind of the message.
    pub open spec fn kind(self) -> MessageType {
        match self {
            Message::Initialize(_) => MessageType::Initialize,
            Message::InitializeOS(_) => MessageType::InitializeOS,
            Message::UnlockDoor(_) => MessageType::UnlockDoor,
            Message::SwitchComputer(_) => MessageType::SwitchComputer,
            Message::PlaySfx(_) => MessageType::PlaySfx,
        }
    }

    /// The terminal that the message tells a program to be, where it is the
    /// message that tells so.
    pub open spec fn terminal(self) -> Option<TerminalType> {
        match self {
            Message::Initialize(d) => Some(d.terminal_type),
            _ => None,
        }
    }

    /// The computer that the message tells the shell terminal to start
    /// with, where it is the message that tells so.
    pub open spec fn first_computer(self) -> Option<ComputerId> {
        match self {
            Message::InitializeOS(d) => Some(d.computer_id),
            _ => None,
        }
    }

    /// The terminal that the message tells a program to be; nothing for any
    /// other message.
    pub fn terminal_type(&self) -> (r: Option<TerminalType>)
        ensures
            r == self.terminal(),
    {
        match self {
            Message::Initialize(d) => Some(d.terminal_type),
            _ => None,
        }
    }

    /// The computer that the message tells the shell terminal to start
    /// with; nothing for any other message.
    pub fn initial_computer(&self) -> (r: Option<ComputerId>)
        ensures
            r == self.first_computer(),
    {
        match self {
            Message::InitializeOS(d) => Some(d.computer_id),
            _ => None,
        }
    }

    /// The kind of the message.
    pub fn get_type(&self) -> (r: MessageType)
        ensures
            r == self.kind(),
    {
        match self {
            Message::Initialize(_) => MessageType::Initialize,
            Message::InitializeOS(_) => MessageType::InitializeOS,
            Message::UnlockDoor(_) => MessageType::UnlockDoor,
            Message::SwitchComputer(_) => MessageType::SwitchComputer,
            Message::PlaySfx(_) => MessageType::PlaySfx,
        }
    }
}

impl From<InitializeMessage> for Message {
    fn from(value: InitializeMessage) -> (r: Self) {
        Message::Initialize(value)
    }
}

impl FromSpecImpl<InitializeMessage> for Message {
    open spec fn obeys_from_spec() -> bool {
        true
    }

    open spec fn from_spec(value: InitializeMessage) -> Self {
        Message::Initialize(value)
    }
}

impl From<InitializeOSMessage> for Message {
    fn from(value: InitializeOSMessage) -> (r: Self) {
        Message::InitializeOS(value)
    }
}

impl FromSpecImpl<InitializeOSMessage> for Message {
    open spec fn obeys_from_spec() -> bool {
        true
    }

    open spec fn from_spec(value: InitializeOSMessage) -> Self {
        Message::InitializeOS(value)
    }
}

impl From<UnlockDoorMessage> for Message {
    fn from(value: UnlockDoorMessage) -> (r: Self) {
        Message::UnlockDoor(value)
    }
}

impl FromSpecImpl<UnlockDoorMessage> for Message {
    open spec fn obeys_from_spec() -> bool {
        true
    }

    open spec fn from_spec(value: UnlockDoorMessage) -> Self {
        Message::UnlockDoor(value)
    }
}

impl From<SwitchComputerMessage> for Message {
    fn from(value: SwitchComputerMessage) -> (r: Self) {
        Message::SwitchComputer(value)
    }
}

impl FromSpecImpl<SwitchComputerMessage> for Message {
    open spec fn obeys_from_spec() -> bool {
        true
    }

    open spec fn from_spec(value: SwitchComputerMessage) -> Self {
        Message::SwitchComputer(value)
    }
}

impl From<PlaySfxMessage> for Message {
    fn from(value: PlaySfxMessage) -> (r: Self) {
        Message::PlaySfx(value)
    }
}

impl FromSpecImpl<PlaySfxMessage> for Message {
    open spec fn obeys_from_spec() -> bool {
        true
    }

    open spec fn from_spec(value: PlaySfxMessage) -> Self {
        Message::PlaySfx(value)
    }
}

} // verus!
