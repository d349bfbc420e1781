//! Commands and statuses of the cluster's command register, and their
//! fixed integer encodings.

use vstd::prelude::*;

verus! {

/// A command the host can issue through the `command` register.
#[derive(Clone, Copy, Debug, PartialEq, Eq, Structural)]
pub enum ClusterCommand {
    NOP,
    LoadResult,
    Start,
    Reset,
}

/// The outcome the cluster reports in the `command_status` register.
#[derive(Clone, Copy, Debug, PartialEq, Eq, Structural)]
pub enum ClusterCommandStatus {
    Success,
    ClusterBusy,
    InvalidCommand,
    InvalidCore,
    CoreBusy,
    AfterReset,
    UnknownError,
}

/// The fixed total ordering by which commands go on the wire.
pub open spec fn spec_encode_command(c: ClusterCommand) -> u64 {
    match c {
        ClusterCommand::NOP => 0,
        ClusterCommand::LoadResult => 1,
        ClusterCommand::Start => 2,
        ClusterCommand::Reset => 3,
    }
}

/// Decoding of a command register word; words above 3 carry no command.
pub open spec fn spec_decode_command(v: u64) -> Option<ClusterCommand> {
    if v == 0 {
        Some(ClusterCommand::NOP)
    } else if v == 1 {
        Some(ClusterCommand::LoadResult)
    } else if v == 2 {
        Some(ClusterCommand::Start)
    } else if v == 3 {
        Some(ClusterCommand::Reset)
    } else {
        None
    }
}

/// The fixed total ordering by which statuses come off the wire.
pub open spec fn spec_encode_status(s: ClusterCommandStatus) -> u64 {
    match s {
        ClusterCommandStatus::Success => 0,
        ClusterCommandStatus::ClusterBusy => 1,
        ClusterCommandStatus::InvalidCommand => 2,
        ClusterCommandStatus::InvalidCore => 3,
        ClusterCommandStatus::CoreBusy => 4,
        ClusterCommandStatus::AfterReset => 5,
        ClusterCommandStatus::UnknownError => 6,
    }
}

/// Decoding of a status register word; words above 6 carry no status.
pub open spec fn spec_decode_status(v: u64) -> Option<ClusterCommandStatus> {
    if v == 0 {
        Some(ClusterCommandStatus::Success)
    } else if v == 1 {
        Some(ClusterCommandStatus::ClusterBusy)
    } else if v == 2 {
        Some(ClusterCommandStatus::InvalidCommand)
    } else if v == 3 {
        Some(ClusterCommandStatus::InvalidCore)
    } else if v == 4 {
        Some(ClusterCommandStatus::CoreBusy)
    } else if v == 5 {
        Some(ClusterCommandStatus::AfterReset)
    } else if v == 6 {
        Some(ClusterCommandStatus::UnknownError)
    } else {
        None
    }
}

impl ClusterCommand {
    /// The register word for this command.
    pub fn encode(self) -> (r: u64)
        ensures
            r == spec_encode_command(self),
    {
        match self {
            ClusterCommand::NOP => 0,
            ClusterCommand::LoadResult => 1,
            ClusterCommand::Start => 2,
            ClusterCommand::Reset => 3,
        }
    }

    /// The command a register word stands for, if any.
    pub fn decode(v: u64) -> (r: Option<ClusterCommand>)
        ensures
            r == spec_decode_command(v),
    {
        if v == 0 {
            Some(ClusterCommand::NOP)
        } else if v == 1 {
            Some(ClusterCommand::LoadResult)
        } else if v == 2 {
            Some(ClusterCommand::Start)
        } else if v == 3 {
            Some(ClusterCommand::Reset)
        } else {
            None
        }
    }
}

impl ClusterCommandStatus {
    /// The register word for this status.
    pub fn encode(self) -> (r: u64)
        ensures
            r == spec_encode_status(self),
    {
        match self {
            ClusterCommandStatus::Success => 0,
            ClusterCommandStatus::ClusterBusy => 1,
            ClusterCommandStatus::InvalidCommand => 2,
            ClusterCommandStatus::InvalidCore => 3,
            ClusterCommandStatus::CoreBusy => 4,
            ClusterCommandStatus::AfterReset => 5,
            ClusterCommandStatus::UnknownError => 6,
        }
    }

    /// The status a register word stands for, if any.
    pub fn decode(v: u64) -> (r: Option<ClusterCommandStatus>)
        ensures
            r == spec_decode_status(v),
    {
        if v == 0 {
            Some(ClusterCommandStatus::Success)
        } else if v == 1 {
            Some(ClusterCommandStatus::ClusterBusy)
        } else if v == 2 {
            Some(ClusterCommandStatus::InvalidCommand)
        } else if v == 3 {
            Some(ClusterCommandStatus::InvalidCore)
        } else if v == 4 {
            Some(ClusterCommandStatus::CoreBusy)
        } else if v == 5 {
            Some(ClusterCommandStatus::AfterReset)
        } else if v == 6 {
            Some(ClusterCommandStatus::UnknownError)
        } else {
            None
        }
    }
}

/// Encoding a command and decoding the word yields the command again.
pub proof fn lemma_command_round_trip(c: ClusterCommand)
    ensures
        spec_decode_command(spec_encode_command(c)) == Some(c),
{
}

/// Decoding a word that carries a command and encoding the command yields the
/// word again.
pub proof fn lemma_command_decode_encode(v: u64)
    requires
        spec_decode_command(v) is Some,
    ensures
        spec_encode_command(spec_decode_command(v)->Some_0) == v,
{
}

/// Encoding a status and decoding the word yields the status again.
pub proof fn lemma_status_round_trip(s: ClusterCommandStatus)
    ensures
        spec_decode_status(spec_encode_status(s)) == Some(s),
{
}

/// Decoding a word that carries a status and encoding the status yields the
/// word again.
pub proof fn lemma_status_decode_encode(v: u64)
    requires
        spec_decode_status(v) is Some,
    ensures
        spec_encode_status(spec_decode_status(v)->Some_0) == v,
{
}

} // verus!
