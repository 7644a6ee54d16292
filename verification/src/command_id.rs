use vstd::prelude::*;

verus! {

/// The 8-bit command opcode of a request. The supported commands are
/// named; any other opcode is carried opaquely as `Unknown`.
#[derive(Debug, Clone, Copy, PartialEq, Eq, Structural)]
pub enum CommandId {
    ReadCounters,
    ReadDisplayRegister,
    ReadFlags,
    ReadInputs,
    ReadRealTimeClock,
    ReadOutputs,
    ReadRegisters,
    ReadTimers,
    WriteCounters,
    WriteFlags,
    WriteRealTimeClock,
    WriteOutputs,
    WriteRegisters,
    WriteTimers,
    ReadSBusStationNumber,
    ReadFirmwareVersion,
    Unknown(u8),
}

/// The opcode byte of a command.
pub open spec fn spec_command_id_value(c: CommandId) -> u8 {
    match c {
        CommandId::ReadCounters => 0x00,
        CommandId::ReadDisplayRegister => 0x01,
        CommandId::ReadFlags => 0x02,
        CommandId::ReadInputs => 0x03,
        CommandId::ReadRealTimeClock => 0x04,
        CommandId::ReadOutputs => 0x05,
        CommandId::ReadRegisters => 0x06,
        CommandId::ReadTimers => 0x07,
        CommandId::WriteCounters => 0x0A,
        CommandId::WriteFlags => 0x0B,
        CommandId::WriteRealTimeClock => 0x0C,
        CommandId::WriteOutputs => 0x0D,
        CommandId::WriteRegisters => 0x0E,
        CommandId::WriteTimers => 0x0F,
        CommandId::ReadSBusStationNumber => 0x1D,
        CommandId::ReadFirmwareVersion => 0x20,
        CommandId::Unknown(v) => v,
    }
}

/// The command a received opcode byte stands for.
pub open spec fn spec_command_id_from(v: u8) -> CommandId {
    if v == 0x00 {
        CommandId::ReadCounters
    } else if v == 0x01 {
        CommandId::ReadDisplayRegister
    } else if v == 0x02 {
        CommandId::ReadFlags
    } else if v == 0x03 {
        CommandId::ReadInputs
    } else if v == 0x04 {
        CommandId::ReadRealTimeClock
    } else if v == 0x05 {
        CommandId::ReadOutputs
    } else if v == 0x06 {
        CommandId::ReadRegisters
    } else if v == 0x07 {
        CommandId::ReadTimers
    } else if v == 0x0A {
        CommandId::WriteCounters
    } else if v == 0x0B {
        CommandId::WriteFlags
    } else if v == 0x0C {
        CommandId::WriteRealTimeClock
    } else if v == 0x0D {
        CommandId::WriteOutputs
    } else if v == 0x0E {
        CommandId::WriteRegisters
    } else if v == 0x0F {
        CommandId::WriteTimers
    } else if v == 0x1D {
        CommandId::ReadSBusStationNumber
    } else if v == 0x20 {
        CommandId::ReadFirmwareVersion
    } else {
        CommandId::Unknown(v)
    }
}

impl CommandId {
    /// Whether this value is the one that decoding its opcode gives
    /// back: `Unknown` must not shadow a named command.
    pub open spec fn canonical(&self) -> bool {
        spec_command_id_from(spec_command_id_value(*self)) == *self
    }

    /// The opcode byte of this command.
    pub fn to_u8(&self) -> (r: u8)
        ensures
            r == spec_command_id_value(*self),
    {
        match *self {
            CommandId::ReadCounters => 0x00,
            CommandId::ReadDisplayRegister => 0x01,
            CommandId::ReadFlags => 0x02,
            CommandId::ReadInputs => 0x03,
            CommandId::ReadRealTimeClock => 0x04,
            CommandId::ReadOutputs => 0x05,
            CommandId::ReadRegisters => 0x06,
            CommandId::ReadTimers => 0x07,
            CommandId::WriteCounters => 0x0A,
            CommandId::WriteFlags => 0x0B,
            CommandId::WriteRealTimeClock => 0x0C,
            CommandId::WriteOutputs => 0x0D,
            CommandId::WriteRegisters => 0x0E,
            CommandId::WriteTimers => 0x0F,
            CommandId::ReadSBusStationNumber => 0x1D,
            CommandId::ReadFirmwareVersion => 0x20,
            CommandId::Unknown(v) => v,
        }
    }

    /// The command a received opcode byte stands for.
    pub fn from_u8(v: u8) -> (r: CommandId)
        ensures
            r == spec_command_id_from(v),
            r.canonical(),
    {
        match v {
            0x00 => CommandId::ReadCounters,
            0x01 => CommandId::ReadDisplayRegister,
            0x02 => CommandId::ReadFlags,
            0x03 => CommandId::ReadInputs,
            0x04 => CommandId::ReadRealTimeClock,
            0x05 => CommandId::ReadOutputs,
            0x06 => CommandId::ReadRegisters,
            0x07 => CommandId::ReadTimers,
            0x0A => CommandId::WriteCounters,
            0x0B => CommandId::WriteFlags,
            0x0C => CommandId::WriteRealTimeClock,
            0x0D => CommandId::WriteOutputs,
            0x0E => CommandId::WriteRegisters,
            0x0F => CommandId::WriteTimers,
            0x1D => CommandId::ReadSBusStationNumber,
            0x20 => CommandId::ReadFirmwareVersion,
            _ => CommandId::Unknown(v),
        }
    }
}

/// Every named command survives the trip through its opcode byte, and
/// every opcode byte survives the trip through its command.
pub proof fn lemma_command_id_round_trip(c: CommandId, v: u8)
    ensures
        c.canonical() ==> spec_command_id_from(spec_command_id_value(c)) == c,
        spec_command_id_value(spec_command_id_from(v)) == v,
        !(c matches CommandId::Unknown(_)) ==> c.canonical(),
{
}

} // verus!
