//! The transport that the state machine talks through: a byte channel that
//! never blocks, hands over what it has received in one chunk, and takes
//! output into a buffer of its own.

use vstd::prelude::*;

verus! {

/// The consumer of received bytes. A transport hands it each chunk once, and
/// counts the whole chunk as taken.
pub trait Visitor {
    /// What has to hold of the visitor for it to be handed bytes: nothing,
    /// unless the implementation asks for more.
    open spec fn can_visit(&self) -> bool {
        true
    }

    /// Whether `after` is this visitor once it has been handed `data`.
    /// Nothing is known of that unless the implementation says what it does.
    open spec fn visited(&self, data: Seq<u8>, after: &Self) -> bool {
        arbitrary()
    }

    /// Takes every byte of `data`.
    fn visit(&mut self, data: &[u8])
        requires
            old(self).can_visit(),
        ensures
            final(self).can_visit(),
            old(self).visited(data@, final(self)),
    ;
}

/// The source of bytes to send. A transport offers it a buffer; it fills as
/// many leading bytes as it has ready and says how many that was.
pub trait Producer {
    /// What has to hold of the producer for it to be offered a buffer:
    /// nothing, unless the implementation asks for more.
    open spec fn can_produce(&self) -> bool {
        true
    }

    /// The bytes that this producer writes into a buffer of `room` bytes.
    /// Nothing is known of them unless the implementation says what they
    /// are.
    open spec fn output(&self, room: nat) -> Seq<u8> {
        arbitrary()
    }

    /// Whether `after` is this producer once it has filled a buffer of `room`
    /// bytes. Nothing is known of that unless the implementation says what
    /// it does.
    open spec fn produced(&self, room: nat, after: &Self) -> bool {
        arbitrary()
    }

    /// Writes `output` to the front of `buf` and returns its length; the rest
    /// of `buf` is left as it was.
    fn produce(&mut self, buf: &mut [u8]) -> (n: usize)
        requires
            old(self).can_produce(),
        ensures
            final(self).can_produce(),
            n <= old(buf)@.len(),
            n == old(self).output(old(buf)@.len()).len(),
            final(buf)@ == old(self).output(old(buf)@.len()) + old(buf)@.skip(n as int),
            old(self).produced(old(buf)@.len(), final(self)),
    ;
}

/// A bidirectional byte channel. Both operations return at once, and say
/// whether the call they are for was made.
pub trait Socket {
    /// The bytes that a receive would hand over now: all that is available,
    /// and none if nothing is. Nothing is known of them unless the
    /// implementation says what they are.
    open spec fn available(&self) -> Seq<u8> {
        arbitrary()
    }

    /// The size of the buffer that a transmit would offer now, or `None` if
    /// it would offer none. Nothing is known of it unless the implementation
    /// says what it is.
    open spec fn window(&self) -> Option<nat> {
        arbitrary()
    }

    /// If at least one byte is available, hands all available bytes to
    /// `visitor`, once, and returns `true`. Returns `false`, with the visitor
    /// untouched, if nothing is available.
    fn receive<V: Visitor>(&mut self, visitor: &mut V) -> (happened: bool)
        requires
            old(visitor).can_visit(),
        ensures
            final(visitor).can_visit(),
            happened == (old(self).available().len() > 0),
            happened ==> old(visitor).visited(old(self).available(), final(visitor)),
            !happened ==> *final(visitor) == *old(visitor),
    ;

    /// Offers `producer` a buffer, once, sends what it wrote there, and
    /// returns `true`, also where it wrote nothing. Returns `false`, with the
    /// producer untouched, if no buffer is to be had.
    fn transmit<P: Producer>(&mut self, producer: &mut P) -> (happened: bool)
        requires
            old(producer).can_produce(),
        ensures
            final(producer).can_produce(),
            happened == old(self).window().is_some(),
            happened ==> old(producer).produced(old(self).window().unwrap(), final(producer)),
            !happened ==> *final(producer) == *old(producer),
    ;
}

/// The size of the buffer that a [`MockSocket`] offers.
pub const MOCK_WINDOW: usize = 100;

/// A transport in memory: `rbuf` holds the bytes that the peer has sent and
/// that were not yet received, `sent` all bytes that were transmitted.
pub struct MockSocket {
    pub rbuf: Vec<u8>,
    pub sent: Vec<u8>,
}

impl MockSocket {
    /// A socket that has received and sent nothing.
    pub fn new() -> (socket: Self)
        ensures
            socket.rbuf@ == Seq::<u8>::empty(),
            socket.sent@ == Seq::<u8>::empty(),
    {
        Self { rbuf: Vec::new(), sent: Vec::new() }
    }
}

impl Socket for MockSocket {
    open spec fn available(&self) -> Seq<u8> {
        self.rbuf@
    }

    open spec fn window(&self) -> Option<nat> {
        Some(MOCK_WINDOW as nat)
    }

    /// Hands over all of `rbuf` and empties it.
    fn receive<V: Visitor>(&mut self, visitor: &mut V) -> (happened: bool)
        ensures
            final(self).rbuf@ == Seq::<u8>::empty(),
            final(self).sent@ == old(self).sent@,
    {
        if self.rbuf.len() > 0 {
            visitor.visit(self.rbuf.as_slice());
            self.rbuf.clear();
            true
        } else {
            false
        }
    }

    /// Offers a buffer of `MOCK_WINDOW` bytes and appends what was written
    /// there to `sent`.
    fn transmit<P: Producer>(&mut self, producer: &mut P) -> (happened: bool)
        ensures
            happened,
            final(self).rbuf@ == old(self).rbuf@,
            final(self).sent@ == old(self).sent@ + old(producer).output(MOCK_WINDOW as nat),
    {
        let mut buf = [0u8; MOCK_WINDOW];
        let n = producer.produce(&mut buf);
        let ghost output = old(producer).output(MOCK_WINDOW as nat);
        let mut i: usize = 0;
        while i < n
            invariant
                i <= n <= MOCK_WINDOW,
                n == output.len(),
                buf@.len() == MOCK_WINDOW,
                buf@.take(n as int) == output,
                self.rbuf@ == old(self).rbuf@,
                self.sent@ == old(self).sent@ + output.take(i as int),
            decreases n - i,
        {
            self.sent.push(buf[i]);
            i += 1;
        }
        true
    }
}

} // verus!
