//! The commands that a controller can issue, and their one-byte opcodes.

use vstd::prelude::*;
use vstd::std_specs::convert::FromSpecImpl;

verus! {

/// A request from the controller to a sensor module.
#[derive(Debug, PartialEq, Eq, Clone, Copy, Structural)]
pub enum ControllerCommand {
    /// Asks for the sensor's name.
    NameRequest,
    /// Asks for the module's status.
    StatusRequest,
    /// Asks the module to do a soft reset.
    ResetRequest,
    /// Asks for the type tags of the sensor's readings.
    FormattingRequest,
    /// Asks for the names of the sensor's readings.
    DnamesRequest,
    /// Asks for one reading.
    DataRequest,
    /// What a byte that is no opcode decodes to. It has no opcode of its own
    /// and cannot be sent.
    BadCommand,
}

impl ControllerCommand {
    /// The opcode of a command; `None` for `BadCommand`.
    pub open spec fn opcode_of(self) -> Option<u8> {
        match self {
            ControllerCommand::NameRequest => Some(0u8),
            ControllerCommand::StatusRequest => Some(1u8),
            ControllerCommand::ResetRequest => Some(2u8),
            ControllerCommand::FormattingRequest => Some(3u8),
            ControllerCommand::DnamesRequest => Some(4u8),
            ControllerCommand::DataRequest => Some(5u8),
            ControllerCommand::BadCommand => None,
        }
    }

    /// The command that an opcode byte stands for; `BadCommand` for every
    /// byte that is no opcode.
    pub open spec fn of_opcode(byte: u8) -> ControllerCommand {
        match byte {
            0 => ControllerCommand::NameRequest,
            1 => ControllerCommand::StatusRequest,
            2 => ControllerCommand::ResetRequest,
            3 => ControllerCommand::FormattingRequest,
            4 => ControllerCommand::DnamesRequest,
            5 => ControllerCommand::DataRequest,
            _ => ControllerCommand::BadCommand,
        }
    }

    /// The opcode of this command; `None` for `BadCommand`.
    pub fn opcode(&self) -> (byte: Option<u8>)
        ensures
            byte == self.opcode_of(),
    {
        match self {
            ControllerCommand::NameRequest => Some(0),
            ControllerCommand::StatusRequest => Some(1),
            ControllerCommand::ResetRequest => Some(2),
            ControllerCommand::FormattingRequest => Some(3),
            ControllerCommand::DnamesRequest => Some(4),
            ControllerCommand::DataRequest => Some(5),
            ControllerCommand::BadCommand => None,
        }
    }

    /// Decoding an opcode gives back the command it was taken from, and only
    /// the bytes 0 to 5 decode to a command that can be sent.
    pub proof fn lemma_opcode_round_trip(command: ControllerCommand, byte: u8)
        ensures
            command.opcode_of() matches Some(b) ==> ControllerCommand::of_opcode(b) == command,
            ControllerCommand::of_opcode(byte).opcode_of() == (if byte <= 5 {
                Some(byte)
            } else {
                None
            }),
            ControllerCommand::of_opcode(byte) == ControllerCommand::BadCommand <==> byte > 5,
    {
    }
}

impl From<u8> for ControllerCommand {
    /// Decodes an opcode byte.
    fn from(value: u8) -> (command: Self) {
        match value {
            0 => ControllerCommand::NameRequest,
            1 => ControllerCommand::StatusRequest,
            2 => ControllerCommand::ResetRequest,
            3 => ControllerCommand::FormattingRequest,
            4 => ControllerCommand::DnamesRequest,
            5 => ControllerCommand::DataRequest,
            _ => ControllerCommand::BadCommand,
        }
    }
}

impl FromSpecImpl<u8> for ControllerCommand {
    open spec fn obeys_from_spec() -> bool {
        true
    }

    open spec fn from_spec(value: u8) -> Self {
        ControllerCommand::of_opcode(value)
    }
}

} // verus!
