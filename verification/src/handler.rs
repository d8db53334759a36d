//! The protocol state machine: it takes received bytes one at a time, and
//! hands out the bytes of a reply as far as the transport has room.

use crate::bounded::{
    command_push, command_slice, flags_digits, flags_new, flags_slice, flags_write, key_bytes,
    key_new, key_push, key_slice, size_digits, size_new, size_slice, size_write,
};
use crate::model::{
    lemma_drain_drain, lemma_feed_keeps_store, lemma_feed_push, CommandWithKey, Error, Session,
};
use crate::state::{after_flags, after_key, after_len, lemma_value_reply, State};
use crate::store::Store;
use crate::transport::{Producer, Socket, Visitor};
use crate::wire::{
    copy_into, lemma_decimal_u32, lemma_decimal_u64, same_bytes, terminates, END_RESPONSE,
    ERROR_RESPONSE, GET, NEWLINE, SET, SPACE, VALUE_PREFIX, VALUE_TRAILER,
};
use vstd::prelude::*;
use vstd::slice::slice_subrange;

verus! {

/// The state machine of one connection, with the store that it serves.
///
/// The handler owns its store, and nothing changes the store while the
/// handler lives: the slot that a reply is streamed from stays as it is until
/// the reply is out.
pub struct CommandHandler {
    state: State,
    data: Store,
    skipped: u64,
}

impl View for CommandHandler {
    type V = Session;

    closed spec fn view(&self) -> Session {
        Session {
            store: self.data@,
            phase: self.state.phase(&self.data),
            skipped: self.skipped as nat,
        }
    }
}

/// The state that sends the reply to a refused request.
fn refusal(error: Error, flush_line: bool) -> (state: State)
    ensures
        state == (State::SendingError { flush_line, remaining: state->SendingError_remaining, error }),
        state->SendingError_remaining@ == ERROR_RESPONSE@,
{
    State::SendingError { flush_line, remaining: &ERROR_RESPONSE, error }
}

/// Of a segment followed by a tail, the first `n` bytes are the segment's,
/// and what is left is the rest of the segment and the tail.
proof fn lemma_segment(segment: Seq<u8>, tail: Seq<u8>, n: nat)
    requires
        n <= segment.len(),
    ensures
        (segment + tail).take(n as int) == segment.take(n as int),
        (segment + tail).skip(n as int) == segment.skip(n as int) + tail,
{
}

impl CommandHandler {
    /// The store is well formed, and the state fits it.
    pub closed spec fn wf(&self) -> bool {
        &&& self.data.wf()
        &&& self.state.wf(&self.data)
    }

    /// The session of a well-formed handler is valid.
    pub proof fn lemma_valid(&self)
        requires
            self.wf(),
        ensures
            self@.valid(),
    {
    }

    /// A handler over `data` that waits for a command.
    pub fn new(data: Store) -> (handler: Self)
        requires
            data.wf(),
        ensures
            handler.wf(),
            handler@ == Session::start(data@),
    {
        Self { state: State::default(), data, skipped: 0 }
    }

    /// Whether a reply is on its way out.
    pub fn wants_to_send(&self) -> (wants: bool)
        ensures
            wants == self@.wants_to_send(),
    {
        self.state.wants_to_send()
    }

    /// How many received bytes were dropped because a reply was going out.
    pub fn discarded(&self) -> (count: u64)
        ensures
            count == self@.skipped,
    {
        self.skipped
    }

    /// Takes one received byte.
    fn on_byte(&mut self, c: u8)
        requires
            old(self).wf(),
        ensures
            final(self).wf(),
            final(self)@ == old(self)@.feed_byte(c),
    {
        match &mut self.state {
            State::ReadingCommand(token) => {
                if terminates(c) {
                    let word = command_slice(token);
                    let get = same_bytes(word, &GET);
                    let known = get || same_bytes(word, &SET);
                    if !known {
                        self.state = refusal(Error::UnknownCommand, c == SPACE);
                    } else if c == NEWLINE {
                        self.state = refusal(Error::MissingArgument, false);
                    } else {
                        let cmd = if get {
                            CommandWithKey::Get
                        } else {
                            CommandWithKey::Put
                        };
                        self.state = State::ReadingKey { cmd, key: key_new() };
                    }
                } else if !command_push(token, c) {
                    self.state = refusal(Error::CommandTooLong, true);
                }
            },
            State::ReadingKey { cmd, key } => {
                if terminates(c) {
                    match cmd {
                        CommandWithKey::Get => {
                            match self.data.locate(key_slice(key)) {
                                Some(entry) => {
                                    let mut read = State::FlushLine;
                                    core::mem::swap(&mut self.state, &mut read);
                                    if let State::ReadingKey { key, .. } = read {
                                        proof {
                                            lemma_value_reply(
                                                key_bytes(key),
                                                self.data.record_at(entry as int),
                                            );
                                        }
                                        self.state = State::SendingGetVALUE {
                                            remaining: &VALUE_PREFIX,
                                            key,
                                            entry,
                                        };
                                    }
                                },
                                None => {
                                    if c == NEWLINE {
                                        self.state = State::SendingEnd { remaining: &END_RESPONSE };
                                    } else {
                                        self.state = refusal(Error::NotImplemented, true);
                                    }
                                },
                            }
                        },
                        CommandWithKey::Put => {
                            self.state = refusal(Error::NotImplemented, c == SPACE);
                        },
                    }
                } else if !key_push(key, c) {
                    self.state = refusal(Error::KeyTooLong, true);
                }
            },
            State::SendingError { flush_line, .. } => {
                if *flush_line && c == NEWLINE {
                    *flush_line = false;
                }
            },
            State::FlushLine => {
                if c == NEWLINE {
                    self.state = State::default();
                }
            },
            _ => {
                if self.skipped < u64::MAX {
                    self.skipped = self.skipped + 1;
                }
            },
        }
    }

    /// What one step of sending does: `n` bytes of what is pending go into
    /// `buf` at `at`, the rest of `buf` stays, the handler is left where
    /// sending `n` bytes leaves it, no segment is gone back to, and either
    /// `buf` is full or a segment is finished.
    spec fn stepped(&self, buf: Seq<u8>, at: usize, n: usize, after: &Self, out: Seq<u8>) -> bool {
        &&& after.wf()
        &&& n <= self@.pending().len()
        &&& at + n <= buf.len()
        &&& out == buf.take(at as int) + self@.pending().take(n as int) + buf.skip(at + n)
        &&& after@ == self@.drain(n as nat)
        &&& after.state.rank() <= self.state.rank()
        &&& (at + n == buf.len() || after.state.rank() < self.state.rank())
    }

    /// Sends from the reply to a refused request.
    fn send_error(&mut self, buf: &mut [u8], at: usize) -> (n: usize)
        requires
            old(self).wf(),
            old(self).state is SendingError,
            at < old(buf)@.len(),
        ensures
            old(self).stepped(old(buf)@, at, n, final(self), final(buf)@),
    {
        match &mut self.state {
            State::SendingError { flush_line, remaining, .. } => {
                let segment: &'static [u8] = *remaining;
                let n = copy_into(segment, buf, at);
                if n == segment.len() {
                    if *flush_line {
                        self.state = State::FlushLine;
                    } else {
                        self.state = State::default();
                    }
                } else {
                    *remaining = slice_subrange(segment, n, segment.len());
                }
                n
            },
            _ => 0,
        }
    }

    /// Sends from the word that opens the reply to a hit.
    fn send_value_prefix(&mut self, buf: &mut [u8], at: usize) -> (n: usize)
        requires
            old(self).wf(),
            old(self).state is SendingGetVALUE,
            at < old(buf)@.len(),
        ensures
            old(self).stepped(old(buf)@, at, n, final(self), final(buf)@),
    {
        match &mut self.state {
            State::SendingGetVALUE { remaining, key, entry } => {
                let segment: &'static [u8] = *remaining;
                let ghost tail = key_bytes(*key) + after_key(self.data.record_at(*entry as int));
                proof {
                    assert(old(self)@.pending() =~= segment@ + tail);
                }
                let n = copy_into(segment, buf, at);
                proof {
                    lemma_segment(segment@, tail, n as nat);
                }
                if n == segment.len() {
                    let mut prefix = State::FlushLine;
                    core::mem::swap(&mut self.state, &mut prefix);
                    if let State::SendingGetVALUE { key, entry, .. } = prefix {
                        assert(segment@.skip(n as int) + tail =~= key_bytes(key).skip(0)
                            + after_key(self.data.record_at(entry as int)));
                        self.state = State::SendingGetKey { key, sent: 0, entry };
                    }
                } else {
                    *remaining = slice_subrange(segment, n, segment.len());
                    assert(segment@.skip(n as int) + tail =~= segment@.skip(n as int) + key_bytes(
                        *key,
                    ) + after_key(self.data.record_at(*entry as int)));
                }
                n
            },
            _ => 0,
        }
    }

    /// Sends from the key.
    fn send_key(&mut self, buf: &mut [u8], at: usize) -> (n: usize)
        requires
            old(self).wf(),
            old(self).state is SendingGetKey,
            at < old(buf)@.len(),
        ensures
            old(self).stepped(old(buf)@, at, n, final(self), final(buf)@),
    {
        match &mut self.state {
            State::SendingGetKey { key, sent, entry } => {
                let all = key_slice(key);
                let segment = slice_subrange(all, *sent, all.len());
                let ghost tail = after_key(self.data.record_at(*entry as int));
                let n = copy_into(segment, buf, at);
                proof {
                    lemma_segment(segment@, tail, n as nat);
                }
                if n == segment.len() {
                    let entry = *entry;
                    self.state = State::SendingGetKeySpace { entry };
                } else {
                    assert(segment@.skip(n as int) =~= all@.skip(*sent + n));
                    *sent = *sent + n;
                }
                n
            },
            _ => 0,
        }
    }

    /// Sends the space after the key, and renders the flags.
    fn send_key_space(&mut self, buf: &mut [u8], at: usize) -> (n: usize)
        requires
            old(self).wf(),
            old(self).state is SendingGetKeySpace,
            at < old(buf)@.len(),
        ensures
            old(self).stepped(old(buf)@, at, n, final(self), final(buf)@),
    {
        match &self.state {
            State::SendingGetKeySpace { entry } => {
                let entry = *entry;
                let flags = self.data.at(entry).flags;
                let ghost before = buf@;
                let ghost record = self.data.record_at(entry as int);
                buf[at] = SPACE;
                let mut data = flags_new();
                proof {
                    lemma_decimal_u32(flags);
                }
                let written = flags_write(&mut data, flags);
                proof {
                    assert(written);
                    assert(after_key(record).take(1) =~= seq![SPACE]);
                    assert(after_key(record).skip(1) =~= flags_digits(data).skip(0) + after_flags(
                        record,
                    ));
                    assert(buf@ =~= before.take(at as int) + seq![SPACE] + before.skip(at + 1));
                }
                self.state = State::SendingGetFlags { data, sent: 0, entry };
                1
            },
            _ => 0,
        }
    }

    /// Sends from the digits of the flags.
    fn send_flags(&mut self, buf: &mut [u8], at: usize) -> (n: usize)
        requires
            old(self).wf(),
            old(self).state is SendingGetFlags,
            at < old(buf)@.len(),
        ensures
            old(self).stepped(old(buf)@, at, n, final(self), final(buf)@),
    {
        match &mut self.state {
            State::SendingGetFlags { data, sent, entry } => {
                let all = flags_slice(data);
                let segment = slice_subrange(all, *sent, all.len());
                let ghost tail = after_flags(self.data.record_at(*entry as int));
                let n = copy_into(segment, buf, at);
                proof {
                    lemma_segment(segment@, tail, n as nat);
                }
                if n == segment.len() {
                    let entry = *entry;
                    self.state = State::SendingGetFlagsSpace { entry };
                } else {
                    assert(segment@.skip(n as int) =~= all@.skip(*sent + n));
                    *sent = *sent + n;
                }
                n
            },
            _ => 0,
        }
    }

    /// Sends the space after the flags, and renders the value's length.
    fn send_flags_space(&mut self, buf: &mut [u8], at: usize) -> (n: usize)
        requires
            old(self).wf(),
            old(self).state is SendingGetFlagsSpace,
            at < old(buf)@.len(),
        ensures
            old(self).stepped(old(buf)@, at, n, final(self), final(buf)@),
    {
        match &self.state {
            State::SendingGetFlagsSpace { entry } => {
                let entry = *entry;
                let size = self.data.at(entry).value.len();
                let ghost before = buf@;
                let ghost record = self.data.record_at(entry as int);
                buf[at] = SPACE;
                let mut data = size_new();
                proof {
                    lemma_decimal_u64(size as u64);
                }
                let written = size_write(&mut data, size);
                proof {
                    assert(written);
                    assert(after_flags(record).take(1) =~= seq![SPACE]);
                    assert(after_flags(record).skip(1) =~= size_digits(data).skip(0) + after_len(
                        record,
                    ));
                    assert(buf@ =~= before.take(at as int) + seq![SPACE] + before.skip(at + 1));
                }
                self.state = State::SendingGetLen { data, sent: 0, entry };
                1
            },
            _ => 0,
        }
    }

    /// Sends from the digits of the value's length.
    fn send_len(&mut self, buf: &mut [u8], at: usize) -> (n: usize)
        requires
            old(self).wf(),
            old(self).state is SendingGetLen,
            at < old(buf)@.len(),
        ensures
            old(self).stepped(old(buf)@, at, n, final(self), final(buf)@),
    {
        match &mut self.state {
            State::SendingGetLen { data, sent, entry } => {
                let all = size_slice(data);
                let segment = slice_subrange(all, *sent, all.len());
                let ghost tail = after_len(self.data.record_at(*entry as int));
                let n = copy_into(segment, buf, at);
                proof {
                    lemma_segment(segment@, tail, n as nat);
                }
                if n == segment.len() {
                    let entry = *entry;
                    self.state = State::SendingGetNewline { entry };
                } else {
                    assert(segment@.skip(n as int) =~= all@.skip(*sent + n));
                    *sent = *sent + n;
                }
                n
            },
            _ => 0,
        }
    }

    /// Sends the newline that ends the first line of the reply.
    fn send_newline(&mut self, buf: &mut [u8], at: usize) -> (n: usize)
        requires
            old(self).wf(),
            old(self).state is SendingGetNewline,
            at < old(buf)@.len(),
        ensures
            old(self).stepped(old(buf)@, at, n, final(self), final(buf)@),
    {
        match &self.state {
            State::SendingGetNewline { entry } => {
                let entry = *entry;
                let ghost before = buf@;
                let ghost record = self.data.record_at(entry as int);
                buf[at] = NEWLINE;
                proof {
                    assert(after_len(record).take(1) =~= seq![NEWLINE]);
                    assert(after_len(record).skip(1) =~= record.value.skip(0) + VALUE_TRAILER@);
                    assert(buf@ =~= before.take(at as int) + seq![NEWLINE] + before.skip(at + 1));
                }
                self.state = State::SendingGetData { entry, sent: 0 };
                1
            },
            _ => 0,
        }
    }

    /// Sends from the value, straight out of the store.
    fn send_data(&mut self, buf: &mut [u8], at: usize) -> (n: usize)
        requires
            old(self).wf(),
            old(self).state is SendingGetData,
            at < old(buf)@.len(),
        ensures
            old(self).stepped(old(buf)@, at, n, final(self), final(buf)@),
    {
        match &mut self.state {
            State::SendingGetData { entry, sent } => {
                let all = self.data.at(*entry).value.as_slice();
                let segment = slice_subrange(all, *sent, all.len());
                let ghost tail = VALUE_TRAILER@;
                let n = copy_into(segment, buf, at);
                proof {
                    lemma_segment(segment@, tail, n as nat);
                }
                if n == segment.len() {
                    self.state = State::SendingEnd { remaining: &VALUE_TRAILER };
                } else {
                    assert(segment@.skip(n as int) =~= all@.skip(*sent + n));
                    *sent = *sent + n;
                }
                n
            },
            _ => 0,
        }
    }

    /// Sends from the line that ends a reply.
    fn send_end(&mut self, buf: &mut [u8], at: usize) -> (n: usize)
        requires
            old(self).wf(),
            old(self).state is SendingEnd,
            at < old(buf)@.len(),
        ensures
            old(self).stepped(old(buf)@, at, n, final(self), final(buf)@),
    {
        match &mut self.state {
            State::SendingEnd { remaining } => {
                let segment: &'static [u8] = *remaining;
                let n = copy_into(segment, buf, at);
                if n == segment.len() {
                    self.state = State::default();
                } else {
                    *remaining = slice_subrange(segment, n, segment.len());
                }
                n
            },
            _ => 0,
        }
    }

    /// Moves bytes of the current segment into `buf` from index `at` on: as
    /// many as are left of the segment and fit. When that uses the segment
    /// up, the next segment becomes the current one; after the last, the
    /// exchange is over.
    fn send_step(&mut self, buf: &mut [u8], at: usize) -> (n: usize)
        requires
            old(self).wf(),
            old(self).state.sends(),
            at < old(buf)@.len(),
        ensures
            old(self).stepped(old(buf)@, at, n, final(self), final(buf)@),
    {
        match &self.state {
            State::SendingError { .. } => self.send_error(buf, at),
            State::SendingGetVALUE { .. } => self.send_value_prefix(buf, at),
            State::SendingGetKey { .. } => self.send_key(buf, at),
            State::SendingGetKeySpace { .. } => self.send_key_space(buf, at),
            State::SendingGetFlags { .. } => self.send_flags(buf, at),
            State::SendingGetFlagsSpace { .. } => self.send_flags_space(buf, at),
            State::SendingGetLen { .. } => self.send_len(buf, at),
            State::SendingGetNewline { .. } => self.send_newline(buf, at),
            State::SendingGetData { .. } => self.send_data(buf, at),
            State::SendingEnd { .. } => self.send_end(buf, at),
            _ => 0,
        }
    }

    /// One step of the connection. If a reply is on its way out, makes one
    /// transmit call, in which as much of the reply goes out as the transport
    /// has room for. Then makes one receive call, whatever the state, and
    /// takes every byte that it hands over. Returns whether either call had
    /// an effect, so that the caller can tell when to wait for the transport.
    ///
    /// With nothing to send and nothing available, nothing happens at all.
    /// Otherwise the handler is left where the model's `poll` leaves it, for
    /// the room that the transport had and the bytes that it handed over.
    /// Those are the bytes that were available, if no transmit call came
    /// first; after a transmit call, what is available is the transport's
    /// affair.
    pub fn poll(&mut self, s: &mut impl Socket) -> (progressed: bool)
        requires
            old(self).wf(),
        ensures
            final(self).wf(),
            final(self)@.store == old(self)@.store,
            !progressed ==> *final(self) == *old(self),
            !old(self)@.wants_to_send() && old(s).available().len() == 0 ==> !progressed,
            !old(self)@.wants_to_send() ==> {
                &&& progressed == (old(s).available().len() > 0)
                &&& final(self)@ == old(self)@.poll(old(s).window(), old(s).available())
            },
            old(self)@.wants_to_send() ==> exists|received: Seq<u8>|
                {
                    &&& progressed == (old(s).window().is_some() || received.len() > 0)
                    &&& #[trigger] old(self)@.poll(old(s).window(), received) == final(self)@
                },
    {
        let mut write_happened = false;
        if self.state.wants_to_send() {
            write_happened = s.transmit(self);
        }
        let ghost sent = *self;
        let ghost incoming = s.available();
        let recv_happened = s.receive(self);
        proof {
            lemma_feed_keeps_store(sent@, incoming);
            if old(self)@.wants_to_send() {
                assert(old(self)@.poll(old(s).window(), incoming) == self@);
            }
        }
        write_happened || recv_happened
    }
}

impl Visitor for CommandHandler {
    open spec fn can_visit(&self) -> bool {
        self.wf()
    }

    open spec fn visited(&self, data: Seq<u8>, after: &Self) -> bool {
        after@ == self@.feed(data)
    }

    /// Takes the bytes of `data` one by one, each in the state that the one
    /// before it left.
    fn visit(&mut self, data: &[u8]) {
        let mut i: usize = 0;
        while i < data.len()
            invariant
                self.wf(),
                i <= data@.len(),
                self@ == old(self)@.feed(data@.take(i as int)),
            decreases data@.len() - i,
        {
            self.on_byte(data[i]);
            proof {
                lemma_feed_push(old(self)@, data@.take(i as int), data@[i as int]);
                assert(data@.take(i + 1) =~= data@.take(i as int).push(data@[i as int]));
            }
            i += 1;
        }
        assert(data@.take(i as int) =~= data@);
    }
}

impl Producer for CommandHandler {
    open spec fn can_produce(&self) -> bool {
        self.wf()
    }

    open spec fn output(&self, room: nat) -> Seq<u8> {
        self@.output(room)
    }

    open spec fn produced(&self, room: nat, after: &Self) -> bool {
        after@ == self@.transmit(Some(room))
    }

    /// Writes what is pending to the front of `buf`, segment after segment,
    /// until `buf` is full or the reply is out.
    fn produce(&mut self, buf: &mut [u8]) -> (n: usize) {
        let mut at: usize = 0;
        assert(self@.pending().skip(0) =~= self@.pending());
        while at < buf.len() && self.state.wants_to_send()
            invariant
                self.wf(),
                buf@.len() == old(buf)@.len(),
                at <= buf.len(),
                at <= old(self)@.pending().len(),
                old(self)@.valid(),
                self@ == old(self)@.drain(at as nat),
                buf@ == old(self)@.pending().take(at as int) + old(buf)@.skip(at as int),
            decreases self.state.rank(), buf.len() - at,
        {
            let n = self.send_step(buf, at);
            proof {
                lemma_drain_drain(old(self)@, at as nat, n as nat);
            }
            at = at + n;
        }
        at
    }
}

} // verus!
