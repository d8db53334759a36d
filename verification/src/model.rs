//! The protocol as mathematics: where an exchange stands, what a received
//! byte does to it, and what sending does to it. The contracts of the state
//! machine are stated over this model.

use crate::store::Record;
use crate::wire::{
    is_terminator, value_reply, END_RESPONSE, ERROR_RESPONSE, GET, MAX_COMMAND_LEN, MAX_KEY_LEN,
    NEWLINE, SET, SPACE,
};
use vstd::prelude::*;

verus! {

/// A command that takes a key.
#[derive(Clone, Copy, Debug, PartialEq, Eq, Structural)]
pub enum CommandWithKey {
    /// `get`
    Get,
    /// `set`
    Put,
}

/// Why a request was refused. Each of them is answered with `ERROR\r\n`.
#[derive(Clone, Copy, Debug, PartialEq, Eq, Structural)]
pub enum Error {
    /// The first token is neither `get` nor `set`.
    UnknownCommand,
    /// The first token is longer than any command.
    CommandTooLong,
    /// The key is longer than a key may be.
    KeyTooLong,
    /// The line ends after the command.
    MissingArgument,
    /// The request is well formed, but nothing serves it: a `set`, or a
    /// `get` that goes on after a key that is not stored.
    NotImplemented,
}

/// Where an exchange stands.
pub enum Phase {
    /// Reading the command token; `token` is what has been read of it.
    ReadingCommand { token: Seq<u8> },
    /// Reading the key of `cmd`; `key` is what has been read of it.
    ReadingKey { cmd: CommandWithKey, key: Seq<u8> },
    /// Sending the reply to a refused request, of which `pending` is still to
    /// go. While `flush_line` holds, the refused line has not ended yet.
    SendingError { error: Error, flush_line: bool, pending: Seq<u8> },
    /// Dropping the rest of a refused line.
    FlushLine,
    /// Sending the reply to a `get`, of which `pending` is still to go.
    SendingReply { pending: Seq<u8> },
}

/// One step of a counter that stops at the largest `u64`.
pub open spec fn bump(count: nat) -> nat {
    if count < u64::MAX {
        count + 1
    } else {
        count
    }
}

/// A connection's side of the protocol: the entries it serves, where its
/// exchange stands, and how many bytes it has dropped because they came in
/// while a reply was going out.
pub struct Session {
    pub store: Map<Seq<u8>, Record>,
    pub phase: Phase,
    pub skipped: nat,
}

impl Session {
    /// A fresh session over `store`: it waits for a command.
    pub open spec fn start(store: Map<Seq<u8>, Record>) -> Session {
        Session { store, phase: Phase::ReadingCommand { token: Seq::empty() }, skipped: 0 }
    }

    /// This session at another point of its exchange.
    pub open spec fn at(self, phase: Phase) -> Session {
        Session { phase, ..self }
    }

    /// This session as it refuses a request.
    pub open spec fn refuse(self, error: Error, flush_line: bool) -> Session {
        self.at(Phase::SendingError { error, flush_line, pending: ERROR_RESPONSE@ })
    }

    /// This session as it waits for the next command.
    pub open spec fn ready(self) -> Session {
        self.at(Phase::ReadingCommand { token: Seq::empty() })
    }

    /// A session that sends has something to send, and the count of dropped
    /// bytes is one that a `u64` holds.
    pub open spec fn valid(self) -> bool {
        &&& self.wants_to_send() ==> self.pending().len() > 0
        &&& self.skipped <= u64::MAX
    }

    /// Whether a reply is on its way out.
    pub open spec fn wants_to_send(self) -> bool {
        self.phase is SendingError || self.phase is SendingReply
    }

    /// The bytes of the current reply that are still to be sent.
    pub open spec fn pending(self) -> Seq<u8> {
        match self.phase {
            Phase::SendingError { pending, .. } => pending,
            Phase::SendingReply { pending } => pending,
            _ => Seq::empty(),
        }
    }

    /// The session after the command token `token` was ended by `c`.
    pub open spec fn end_command(self, token: Seq<u8>, c: u8) -> Session {
        if token != GET@ && token != SET@ {
            self.refuse(Error::UnknownCommand, c == SPACE)
        } else if c == NEWLINE {
            self.refuse(Error::MissingArgument, false)
        } else {
            self.at(
                Phase::ReadingKey {
                    cmd: if token == GET@ {
                        CommandWithKey::Get
                    } else {
                        CommandWithKey::Put
                    },
                    key: Seq::empty(),
                },
            )
        }
    }

    /// The session after the key `key` of `cmd` was ended by `c`.
    pub open spec fn end_key(self, cmd: CommandWithKey, key: Seq<u8>, c: u8) -> Session {
        match cmd {
            CommandWithKey::Get => {
                if self.store.contains_key(key) {
                    let entry = self.store[key];
                    self.at(
                        Phase::SendingReply { pending: value_reply(key, entry.flags, entry.value) },
                    )
                } else if c == NEWLINE {
                    self.at(Phase::SendingReply { pending: END_RESPONSE@ })
                } else {
                    self.refuse(Error::NotImplemented, true)
                }
            },
            CommandWithKey::Put => self.refuse(Error::NotImplemented, c == SPACE),
        }
    }

    /// The session after it received the byte `c`.
    pub open spec fn feed_byte(self, c: u8) -> Session {
        match self.phase {
            Phase::ReadingCommand { token } => {
                if is_terminator(c) {
                    self.end_command(token, c)
                } else if token.len() < MAX_COMMAND_LEN {
                    self.at(Phase::ReadingCommand { token: token.push(c) })
                } else {
                    self.refuse(Error::CommandTooLong, true)
                }
            },
            Phase::ReadingKey { cmd, key } => {
                if is_terminator(c) {
                    self.end_key(cmd, key, c)
                } else if key.len() < MAX_KEY_LEN {
                    self.at(Phase::ReadingKey { cmd, key: key.push(c) })
                } else {
                    self.refuse(Error::KeyTooLong, true)
                }
            },
            Phase::SendingError { error, flush_line, pending } => self.at(
                Phase::SendingError { error, flush_line: flush_line && c != NEWLINE, pending },
            ),
            Phase::FlushLine => {
                if c == NEWLINE {
                    self.ready()
                } else {
                    self
                }
            },
            Phase::SendingReply { .. } => Session { skipped: bump(self.skipped), ..self },
        }
    }

    /// The session after it received the bytes of `data`, in order.
    pub open spec fn feed(self, data: Seq<u8>) -> Session
        decreases data.len(),
    {
        if data.len() == 0 {
            self
        } else {
            self.feed(data.drop_last()).feed_byte(data.last())
        }
    }

    /// How many bytes go out when the transport offers room for `room`.
    pub open spec fn quota(self, room: nat) -> nat {
        if room <= self.pending().len() {
            room
        } else {
            self.pending().len()
        }
    }

    /// The bytes that go out when the transport offers room for `room`.
    pub open spec fn output(self, room: nat) -> Seq<u8> {
        self.pending().take(self.quota(room) as int)
    }

    /// The session after the first `n` pending bytes went out. With the last
    /// byte of a reply the exchange is over: a refused line that has not ended
    /// is then dropped to its end, and otherwise the next command is awaited.
    pub open spec fn drain(self, n: nat) -> Session {
        match self.phase {
            Phase::SendingError { error, flush_line, pending } => {
                if n < pending.len() {
                    self.at(Phase::SendingError { error, flush_line, pending: pending.skip(n as int) })
                } else if flush_line {
                    self.at(Phase::FlushLine)
                } else {
                    self.ready()
                }
            },
            Phase::SendingReply { pending } => {
                if n < pending.len() {
                    self.at(Phase::SendingReply { pending: pending.skip(n as int) })
                } else {
                    self.ready()
                }
            },
            _ => self,
        }
    }

    /// The session after one transmit call: `None` where the transport made
    /// none, else the room that it offered.
    pub open spec fn transmit(self, room: Option<nat>) -> Session {
        match room {
            Some(room) => self.drain(self.quota(room)),
            None => self,
        }
    }

    /// The session after one step: at most one transmit call, then a receive
    /// call that handed over `received` (nothing, if no byte was available).
    pub open spec fn step(self, room: Option<nat>, received: Seq<u8>) -> Session {
        self.transmit(room).feed(received)
    }

    /// The session after one step over a transport whose transmit would offer
    /// `window`: the transmit call is made only if a reply is on its way out.
    pub open spec fn poll(self, window: Option<nat>, received: Seq<u8>) -> Session {
        self.step(
            if self.wants_to_send() {
                window
            } else {
                None
            },
            received,
        )
    }
}

/// Receiving one more byte is one more step.
pub proof fn lemma_feed_push(s: Session, data: Seq<u8>, c: u8)
    ensures
        s.feed(data.push(c)) == s.feed(data).feed_byte(c),
{
    assert(data.push(c).drop_last() =~= data);
}

/// Receiving `a` and then `b` is receiving `a + b`.
pub proof fn lemma_feed_concat(s: Session, a: Seq<u8>, b: Seq<u8>)
    ensures
        s.feed(a + b) == s.feed(a).feed(b),
    decreases b.len(),
{
    if b.len() > 0 {
        assert((a + b).drop_last() =~= a + b.drop_last());
        lemma_feed_concat(s, a, b.drop_last());
    }
}

/// No byte received changes the store.
pub proof fn lemma_feed_keeps_store(s: Session, data: Seq<u8>)
    ensures
        s.feed(data).store == s.store,
    decreases data.len(),
{
    if data.len() > 0 {
        lemma_feed_keeps_store(s, data.drop_last());
    }
}

/// Sending `a` bytes and then `b` more is sending `a + b`.
pub proof fn lemma_drain_drain(s: Session, a: nat, b: nat)
    requires
        s.valid(),
        a + b <= s.pending().len(),
    ensures
        s.drain(a).pending() == s.pending().skip(a as int),
        s.drain(a).drain(b) == s.drain(a + b),
{
    let p = s.pending();
    if s.wants_to_send() && a < p.len() {
        assert(p.skip(a as int).skip(b as int) =~= p.skip((a + b) as int));
    }
}

} // verus!
