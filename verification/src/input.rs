//! What the player asks for, and how keystrokes say it.
//!
//! A key arrives as one byte, or as the three bytes of an arrow key: escape,
//! an opening bracket, and a letter. The decoder takes the bytes one at a
//! time and tells after each whether a key is complete.

use vstd::prelude::*;

verus! {

use crate::grid::Direction;

/// What the player asks for with one key.
#[derive(Clone, Copy, Debug, PartialEq, Eq, Structural)]
pub enum Command {
    /// Slide the tiles toward an edge.
    Slide(Direction),
    /// Give up this game and start a new one.
    Retry,
    /// Leave.
    Quit,
    /// A key that asks for nothing.
    NoOp,
}

/// How far the decoder is into a key.
#[derive(Clone, Copy, Debug, PartialEq, Eq, Structural)]
pub enum KeyState {
    /// Between keys.
    Ready,
    /// After an escape byte.
    Escaped,
    /// After an escape byte and an opening bracket.
    Bracketed,
}

/// The escape byte, which starts an arrow key.
pub const ESCAPE: u8 = 27;

/// The byte that follows the escape byte in an arrow key: an opening bracket.
pub const BRACKET: u8 = 91;

/// The command of a key of one byte: `w`, `s`, `a`, `d` slide up, down, left
/// and right, `r` retries and `q` quits, in either case of the letter.
pub open spec fn plain_key(byte: u8) -> Command {
    let key = byte as char;
    if key == 'w' || key == 'W' {
        Command::Slide(Direction::Up)
    } else if key == 's' || key == 'S' {
        Command::Slide(Direction::Down)
    } else if key == 'd' || key == 'D' {
        Command::Slide(Direction::Right)
    } else if key == 'a' || key == 'A' {
        Command::Slide(Direction::Left)
    } else if key == 'r' || key == 'R' {
        Command::Retry
    } else if key == 'q' || key == 'Q' {
        Command::Quit
    } else {
        Command::NoOp
    }
}

/// The command of an arrow key that ends in `byte`: `A`, `B`, `C`, `D` are up,
/// down, right and left.
pub open spec fn arrow_key(byte: u8) -> Command {
    let key = byte as char;
    if key == 'A' {
        Command::Slide(Direction::Up)
    } else if key == 'B' {
        Command::Slide(Direction::Down)
    } else if key == 'C' {
        Command::Slide(Direction::Right)
    } else if key == 'D' {
        Command::Slide(Direction::Left)
    } else {
        Command::NoOp
    }
}

/// The decoder's state after `byte`, and the command of the key that the
/// byte completes, if it completes one. An escape byte that no bracket
/// follows is a key that asks for nothing, and takes the byte after it along.
pub open spec fn fed(state: KeyState, byte: u8) -> (KeyState, Option<Command>) {
    match state {
        KeyState::Ready => if byte == ESCAPE {
            (KeyState::Escaped, None)
        } else {
            (KeyState::Ready, Some(plain_key(byte)))
        },
        KeyState::Escaped => if byte == BRACKET {
            (KeyState::Bracketed, None)
        } else {
            (KeyState::Ready, Some(Command::NoOp))
        },
        KeyState::Bracketed => (KeyState::Ready, Some(arrow_key(byte))),
    }
}

/// The command of the key that `bytes` spell, if they are exactly one key.
pub open spec fn key_of(bytes: Seq<u8>) -> Option<Command> {
    if bytes.len() == 1 && bytes[0] != ESCAPE {
        Some(plain_key(bytes[0]))
    } else if bytes.len() == 2 && bytes[0] == ESCAPE && bytes[1] != BRACKET {
        Some(Command::NoOp)
    } else if bytes.len() == 3 && bytes[0] == ESCAPE && bytes[1] == BRACKET {
        Some(arrow_key(bytes[2]))
    } else {
        None
    }
}

/// The decoder's state after the bytes of `bytes`, starting from `state`,
/// with the command that the last byte completed.
pub open spec fn fed_all(state: KeyState, bytes: Seq<u8>) -> (KeyState, Option<Command>)
    decreases bytes.len(),
{
    if bytes.len() == 0 {
        (state, None)
    } else {
        fed(fed_all(state, bytes.drop_last()).0, bytes.last())
    }
}

/// Fed the bytes of one key, the decoder is ready again and has its command.
pub proof fn law_decoder_reads_keys(bytes: Seq<u8>)
    requires
        key_of(bytes) is Some,
    ensures
        fed_all(KeyState::Ready, bytes) == (KeyState::Ready, key_of(bytes)),
{
    reveal_with_fuel(fed_all, 4);
    if bytes.len() == 2 {
        assert(bytes.drop_last().drop_last().len() == 0);
    } else if bytes.len() == 3 {
        assert(bytes.drop_last().drop_last().drop_last().len() == 0);
    }
}

/// The command of a key of one byte.
pub fn decode_plain(byte: u8) -> (command: Command)
    ensures
        command == plain_key(byte),
{
    let key = byte as char;
    if key == 'w' || key == 'W' {
        Command::Slide(Direction::Up)
    } else if key == 's' || key == 'S' {
        Command::Slide(Direction::Down)
    } else if key == 'd' || key == 'D' {
        Command::Slide(Direction::Right)
    } else if key == 'a' || key == 'A' {
        Command::Slide(Direction::Left)
    } else if key == 'r' || key == 'R' {
        Command::Retry
    } else if key == 'q' || key == 'Q' {
        Command::Quit
    } else {
        Command::NoOp
    }
}

/// The command of an arrow key that ends in `byte`.
pub fn decode_arrow(byte: u8) -> (command: Command)
    ensures
        command == arrow_key(byte),
{
    let key = byte as char;
    if key == 'A' {
        Command::Slide(Direction::Up)
    } else if key == 'B' {
        Command::Slide(Direction::Down)
    } else if key == 'C' {
        Command::Slide(Direction::Right)
    } else if key == 'D' {
        Command::Slide(Direction::Left)
    } else {
        Command::NoOp
    }
}

/// Takes the next byte of the input. Returns the decoder's new state and,
/// if the byte completes a key, the command of that key.
pub fn feed(state: KeyState, byte: u8) -> (next: (KeyState, Option<Command>))
    ensures
        next == fed(state, byte),
{
    match state {
        KeyState::Ready => {
            if byte == ESCAPE {
                (KeyState::Escaped, None)
            } else {
                (KeyState::Ready, Some(decode_plain(byte)))
            }
        },
        KeyState::Escaped => {
            if byte == BRACKET {
                (KeyState::Bracketed, None)
            } else {
                (KeyState::Ready, Some(Command::NoOp))
            }
        },
        KeyState::Bracketed => (KeyState::Ready, Some(decode_arrow(byte))),
    }
}

} // verus!
