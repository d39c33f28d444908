//! The instruction alphabet and the load-time error type.

use vstd::prelude::*;

verus! {

/// One resolved instruction. For `JmpStart` and `JmpEnd` the payload is the
/// zero-based position, within the resolved instruction list, of the matching
/// bracket partner; the loader starts both at a placeholder of `0` and fills
/// them in as brackets are paired.
#[derive(Debug, Clone, Copy, PartialEq, Eq, Hash, Structural)]
pub enum Command {
    IncPtr,
    DecPtr,
    Inc,
    Dec,
    Output,
    Input,
    JmpStart(usize),
    JmpEnd(usize),
}

/// A load-time failure. `InvalidCommand` carries the raw byte offset in the
/// original input and the offending byte value; `UnmatchedJump` carries the
/// position in the resolved instruction list at fault.
#[derive(Debug, Clone, Copy, PartialEq, Eq, Structural)]
pub enum Error {
    InvalidCommand { index: usize, command: u8 },
    UnmatchedJump { index: usize },
}

/// The bytes the loader skips entirely: ASCII whitespace
/// (space, tab, line feed, form feed, carriage return).
pub open spec fn spec_is_whitespace(b: u8) -> bool {
    b == 32 || b == 9 || b == 10 || b == 12 || b == 13
}

/// The fixed one-to-one table from source bytes to instructions.
/// A byte outside the alphabet maps to `None`.
pub open spec fn spec_command_of(b: u8) -> Option<Command> {
    if b == 62 {
        Some(Command::IncPtr)
    } else if b == 60 {
        Some(Command::DecPtr)
    } else if b == 43 {
        Some(Command::Inc)
    } else if b == 45 {
        Some(Command::Dec)
    } else if b == 46 {
        Some(Command::Output)
    } else if b == 44 {
        Some(Command::Input)
    } else if b == 91 {
        Some(Command::JmpStart(0))
    } else if b == 93 {
        Some(Command::JmpEnd(0))
    } else {
        None
    }
}

/// True of the bytes the loader accepts as instructions.
pub open spec fn spec_is_command(b: u8) -> bool {
    spec_command_of(b) is Some
}

pub fn is_whitespace(b: u8) -> (r: bool)
    ensures
        r == spec_is_whitespace(b),
{
    b == 32 || b == 9 || b == 10 || b == 12 || b == 13
}

impl Command {
    /// Translates one source byte. The reported index is a placeholder of `0`;
    /// the loader rewrites it to the byte's offset in the full input.
    pub fn from_byte(b: u8) -> (r: Result<Command, Error>)
        ensures
            match r {
                Ok(c) => spec_command_of(b) == Some(c),
                Err(e) => spec_command_of(b) is None && e == (Error::InvalidCommand {
                    index: 0,
                    command: b,
                }),
            },
    {
        match b {
            62 => Ok(Command::IncPtr),  // '>'
            60 => Ok(Command::DecPtr),  // '<'
            43 => Ok(Command::Inc),  // '+'
            45 => Ok(Command::Dec),  // '-'
            46 => Ok(Command::Output),  // '.'
            44 => Ok(Command::Input),  // ','
            91 => Ok(Command::JmpStart(0)),  // '['
            93 => Ok(Command::JmpEnd(0)),  // ']'
            _ => Err(Error::InvalidCommand { index: 0, command: b }),
        }
    }
}

impl Error {
    /// Replaces the position carried by either variant, leaving the rest as it was.
    pub fn set_index(&mut self, idx: usize)
        ensures
            *final(self) == match *old(self) {
                Error::InvalidCommand { index: _, command } => Error::InvalidCommand {
                    index: idx,
                    command,
                },
                Error::UnmatchedJump { index: _ } => Error::UnmatchedJump { index: idx },
            },
    {
        match self {
            Error::InvalidCommand { index, .. } => {
                *index = idx;
            },
            Error::UnmatchedJump { index } => {
                *index = idx;
            },
        }
    }
}

} // verus!
