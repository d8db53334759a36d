//! The states of the protocol state machine: two that read a request, one
//! per segment of a reply, and one that drops the rest of a refused line.

use crate::bounded::{
    command_bytes, command_new, flags_digits, key_bytes, size_digits, CommandBuf, FlagsDigits,
    KeyBuf, SizeDigits,
};
use crate::model::{CommandWithKey, Error, Phase};
use crate::store::{Record, Store};
use crate::wire::{decimal, value_reply, NEWLINE, SPACE, VALUE_PREFIX, VALUE_TRAILER};
use vstd::prelude::*;

verus! {

/// The one state that a connection is in. A state that sends holds the
/// segment it is sending, or what the segment is made from, and how far it
/// has got; the states of a reply to `get` also hold the slot of the entry
/// that the reply is streamed from.
#[allow(inconsistent_fields)]
pub enum State {
    /// Reading the command token.
    ReadingCommand(CommandBuf),
    /// Reading the key of `cmd`.
    ReadingKey { cmd: CommandWithKey, key: KeyBuf },
    /// Sending `ERROR\r\n`, of which `remaining` is left. Input is looked at
    /// only to see whether the refused line has ended.
    SendingError { flush_line: bool, remaining: &'static [u8], error: Error },
    /// Dropping input up to the next newline.
    FlushLine,
    /// Sending `VALUE `, of which `remaining` is left.
    SendingGetVALUE { remaining: &'static [u8], key: KeyBuf, entry: usize },
    /// Sending the key, of which `sent` bytes are out.
    SendingGetKey { key: KeyBuf, sent: usize, entry: usize },
    /// Sending the space after the key.
    SendingGetKeySpace { entry: usize },
    /// Sending the digits of the flags, of which `sent` are out.
    SendingGetFlags { data: FlagsDigits, sent: usize, entry: usize },
    /// Sending the space after the flags.
    SendingGetFlagsSpace { entry: usize },
    /// Sending the digits of the value's length, of which `sent` are out.
    SendingGetLen { data: SizeDigits, sent: usize, entry: usize },
    /// Sending the newline after the length.
    SendingGetNewline { entry: usize },
    /// Sending the value, of which `sent` bytes are out.
    SendingGetData { entry: usize, sent: usize },
    /// Sending the line that ends a reply, of which `remaining` is left.
    SendingEnd { remaining: &'static [u8] },
}

/// What follows the key in the reply that carries `entry`.
pub open spec fn after_key(entry: Record) -> Seq<u8> {
    seq![SPACE] + decimal(entry.flags as nat) + after_flags(entry)
}

/// What follows the flags in the reply that carries `entry`.
pub open spec fn after_flags(entry: Record) -> Seq<u8> {
    seq![SPACE] + decimal(entry.value.len()) + after_len(entry)
}

/// What follows the length in the reply that carries `entry`.
pub open spec fn after_len(entry: Record) -> Seq<u8> {
    seq![NEWLINE] + entry.value + VALUE_TRAILER@
}

/// The reply to a hit is its prefix, the key, and what follows the key.
pub proof fn lemma_value_reply(key: Seq<u8>, entry: Record)
    ensures
        value_reply(key, entry.flags, entry.value) == VALUE_PREFIX@ + key + after_key(entry),
{
}

impl State {
    /// Whether this is one of the states that send.
    pub open spec fn sends(&self) -> bool {
        !(self is ReadingCommand || self is ReadingKey || self is FlushLine)
    }

    /// The slot of the entry that a reply is streamed from.
    pub open spec fn slot(&self) -> Option<usize> {
        match self {
            State::SendingGetVALUE { entry, .. } => Some(*entry),
            State::SendingGetKey { entry, .. } => Some(*entry),
            State::SendingGetKeySpace { entry } => Some(*entry),
            State::SendingGetFlags { entry, .. } => Some(*entry),
            State::SendingGetFlagsSpace { entry } => Some(*entry),
            State::SendingGetLen { entry, .. } => Some(*entry),
            State::SendingGetNewline { entry } => Some(*entry),
            State::SendingGetData { entry, .. } => Some(*entry),
            _ => None,
        }
    }

    /// A literal that is being sent is not used up, a cursor is within its
    /// segment, and the slot that a reply is streamed from is taken.
    pub open spec fn wf(&self, store: &Store) -> bool {
        &&& self.slot() matches Some(entry) ==> entry < store.slots()
        &&& match self {
            State::SendingError { remaining, .. } => remaining@.len() > 0,
            State::SendingGetVALUE { remaining, .. } => remaining@.len() > 0,
            State::SendingGetKey { key, sent, .. } => sent <= key_bytes(*key).len(),
            State::SendingGetFlags { data, sent, .. } => sent <= flags_digits(*data).len(),
            State::SendingGetLen { data, sent, .. } => sent <= size_digits(*data).len(),
            State::SendingGetData { entry, sent } => sent <= store.record_at(*entry as int).value.len(),
            State::SendingEnd { remaining } => remaining@.len() > 0,
            _ => true,
        }
    }

    /// Where the exchange stands in this state.
    pub open spec fn phase(&self, store: &Store) -> Phase {
        match self {
            State::ReadingCommand(token) => Phase::ReadingCommand { token: command_bytes(*token) },
            State::ReadingKey { cmd, key } => Phase::ReadingKey { cmd: *cmd, key: key_bytes(*key) },
            State::SendingError { flush_line, remaining, error } => Phase::SendingError {
                error: *error,
                flush_line: *flush_line,
                pending: remaining@,
            },
            State::FlushLine => Phase::FlushLine,
            State::SendingGetVALUE { remaining, key, entry } => Phase::SendingReply {
                pending: remaining@ + key_bytes(*key) + after_key(store.record_at(*entry as int)),
            },
            State::SendingGetKey { key, sent, entry } => Phase::SendingReply {
                pending: key_bytes(*key).skip(*sent as int) + after_key(
                    store.record_at(*entry as int),
                ),
            },
            State::SendingGetKeySpace { entry } => Phase::SendingReply {
                pending: after_key(store.record_at(*entry as int)),
            },
            State::SendingGetFlags { data, sent, entry } => Phase::SendingReply {
                pending: flags_digits(*data).skip(*sent as int) + after_flags(
                    store.record_at(*entry as int),
                ),
            },
            State::SendingGetFlagsSpace { entry } => Phase::SendingReply {
                pending: after_flags(store.record_at(*entry as int)),
            },
            State::SendingGetLen { data, sent, entry } => Phase::SendingReply {
                pending: size_digits(*data).skip(*sent as int) + after_len(
                    store.record_at(*entry as int),
                ),
            },
            State::SendingGetNewline { entry } => Phase::SendingReply {
                pending: after_len(store.record_at(*entry as int)),
            },
            State::SendingGetData { entry, sent } => Phase::SendingReply {
                pending: store.record_at(*entry as int).value.skip(*sent as int) + VALUE_TRAILER@,
            },
            State::SendingEnd { remaining } => Phase::SendingReply { pending: remaining@ },
        }
    }

    /// How many segments of a reply are still to be finished.
    pub open spec fn rank(&self) -> nat {
        match self {
            State::SendingGetVALUE { .. } => 9,
            State::SendingGetKey { .. } => 8,
            State::SendingGetKeySpace { .. } => 7,
            State::SendingGetFlags { .. } => 6,
            State::SendingGetFlagsSpace { .. } => 5,
            State::SendingGetLen { .. } => 4,
            State::SendingGetNewline { .. } => 3,
            State::SendingGetData { .. } => 2,
            State::SendingEnd { .. } => 1,
            State::SendingError { .. } => 1,
            _ => 0,
        }
    }

    /// Whether this state has bytes to hand to the transport.
    pub fn wants_to_send(&self) -> (wants: bool)
        ensures
            wants == self.sends(),
    {
        match self {
            Self::SendingError { .. } => true,
            Self::SendingGetVALUE { .. } => true,
            Self::SendingGetKey { .. } => true,
            Self::SendingGetKeySpace { .. } => true,
            Self::SendingGetFlags { .. } => true,
            Self::SendingGetFlagsSpace { .. } => true,
            Self::SendingGetLen { .. } => true,
            Self::SendingGetNewline { .. } => true,
            Self::SendingGetData { .. } => true,
            Self::SendingEnd { .. } => true,
            _ => false,
        }
    }
}

impl Default for State {
    /// The state that waits for a command.
    fn default() -> (state: Self)
        ensures
            state matches State::ReadingCommand(token) && command_bytes(token) == Seq::<u8>::empty(),
    {
        Self::ReadingCommand(command_new())
    }
}

} // verus!
