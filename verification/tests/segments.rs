use minicache::{CommandHandler, Entry, MockSocket, Producer, Socket, Store, Visitor, MOCK_WINDOW};

fn sample() -> Store {
    let mut store = Store::new();
    store.insert(b"foo".to_vec(), Entry { flags: 1234567890, value: b"barbaz".to_vec() });
    store
}

const SAMPLE_REPLY: &[u8] = b"VALUE foo 1234567890 6\nbarbaz\r\nEND\r\n";

/// Drains the handler through buffers of `room` bytes each.
fn drained(handler: &mut CommandHandler, room: usize) -> Vec<u8> {
    let mut out = Vec::new();
    while handler.wants_to_send() {
        let mut buf = vec![0xaau8; room];
        let n = handler.produce(&mut buf);
        assert!(n <= room);
        assert!(buf[n..].iter().all(|b| *b == 0xaa));
        assert!(n == room || !handler.wants_to_send());
        out.extend_from_slice(&buf[..n]);
    }
    out
}

#[test]
fn reply_through_buffers_of_one_byte_is_the_same() {
    let mut handler = CommandHandler::new(sample());
    handler.visit(b"get foo\n");
    assert_eq!(drained(&mut handler, 1), SAMPLE_REPLY.to_vec());
}

#[test]
fn reply_through_buffers_of_any_size_is_the_same() {
    for room in 1..=SAMPLE_REPLY.len() + 3 {
        let mut handler = CommandHandler::new(sample());
        handler.visit(b"get foo\n");
        assert_eq!(drained(&mut handler, room), SAMPLE_REPLY.to_vec());
    }
}

#[test]
fn error_reply_through_small_buffers_is_the_same() {
    for room in 1..=9 {
        let mut handler = CommandHandler::new(sample());
        handler.visit(b"bogus\n");
        assert_eq!(drained(&mut handler, room), b"ERROR\r\n".to_vec());
        handler.visit(b"get nothing\n");
        assert_eq!(drained(&mut handler, room), b"END\r\n".to_vec());
    }
}

#[test]
fn buffer_without_room_takes_nothing_and_changes_nothing() {
    let mut handler = CommandHandler::new(sample());
    handler.visit(b"get foo\n");
    let mut none: [u8; 0] = [];
    assert_eq!(handler.produce(&mut none), 0);
    assert!(handler.wants_to_send());
    assert_eq!(drained(&mut handler, 7), SAMPLE_REPLY.to_vec());
}

#[test]
fn producer_with_nothing_to_send_writes_nothing() {
    let mut handler = CommandHandler::new(sample());
    let mut buf = [0x55u8; 16];
    assert_eq!(handler.produce(&mut buf), 0);
    assert_eq!(buf, [0x55u8; 16]);
    handler.visit(b"get f");
    assert_eq!(handler.produce(&mut buf), 0);
    assert_eq!(buf, [0x55u8; 16]);
    assert!(!handler.wants_to_send());
}

#[test]
fn buffer_that_ends_with_a_segment_resumes_at_the_next() {
    // "VALUE foo" fills the first buffer to its end; the space comes next.
    let mut handler = CommandHandler::new(sample());
    handler.visit(b"get foo\n");
    let mut first = [0u8; 9];
    assert_eq!(handler.produce(&mut first), 9);
    assert_eq!(&first, b"VALUE foo");
    assert!(handler.wants_to_send());
    let mut second = [0u8; 64];
    let n = handler.produce(&mut second);
    assert_eq!(&second[..n], b" 1234567890 6\nbarbaz\r\nEND\r\n");
    assert!(!handler.wants_to_send());
}

#[test]
fn visitor_takes_chunks_as_it_takes_the_whole() {
    let stream = b"zz top\nget foo\n";
    for cut in 0..=stream.len() {
        let mut whole = CommandHandler::new(sample());
        whole.visit(stream);
        let mut parts = CommandHandler::new(sample());
        parts.visit(&stream[..cut]);
        parts.visit(&stream[cut..]);
        assert_eq!(parts.wants_to_send(), whole.wants_to_send());
        assert_eq!(parts.discarded(), whole.discarded());
        assert_eq!(drained(&mut parts, 5), drained(&mut whole, 64));
    }
}

#[test]
fn visitor_takes_an_empty_chunk_as_nothing() {
    let mut handler = CommandHandler::new(sample());
    handler.visit(b"get fo");
    handler.visit(b"");
    handler.visit(b"o\n");
    assert_eq!(drained(&mut handler, 100), SAMPLE_REPLY.to_vec());
}

#[test]
fn discard_counter_counts_every_dropped_byte() {
    let mut handler = CommandHandler::new(sample());
    handler.visit(b"get foo\n");
    assert_eq!(handler.discarded(), 0);
    handler.visit(b"dropped\n");
    assert_eq!(handler.discarded(), 8);
    let mut buf = [0u8; 10];
    handler.produce(&mut buf);
    handler.visit(b"xy");
    assert_eq!(handler.discarded(), 10);
    assert_eq!(drained(&mut handler, 100), SAMPLE_REPLY[10..].to_vec());
    handler.visit(b"get foo");
    assert_eq!(handler.discarded(), 10);
}

#[test]
fn new_mock_socket_is_empty() {
    let socket = MockSocket::new();
    assert!(socket.rbuf.is_empty());
    assert!(socket.sent.is_empty());
}

#[test]
fn mock_socket_receives_only_when_bytes_wait() {
    let mut handler = CommandHandler::new(sample());
    let mut socket = MockSocket::new();
    assert!(!socket.receive(&mut handler));
    socket.rbuf.extend_from_slice(b"get foo\n");
    assert!(socket.receive(&mut handler));
    assert!(socket.rbuf.is_empty());
    assert!(handler.wants_to_send());
    assert!(!socket.receive(&mut handler));
}

#[test]
fn mock_socket_transmits_at_most_its_window() {
    let mut store = Store::new();
    store.insert(b"k".to_vec(), Entry::new(vec![b'v'; 3 * MOCK_WINDOW]));
    let mut handler = CommandHandler::new(store);
    let mut socket = MockSocket::new();
    handler.visit(b"get k\n");
    assert!(socket.transmit(&mut handler));
    assert_eq!(socket.sent.len(), MOCK_WINDOW);
    assert_eq!(&socket.sent[..14], b"VALUE k 0 300\n");
    assert!(socket.transmit(&mut handler));
    assert_eq!(socket.sent.len(), 2 * MOCK_WINDOW);
    while handler.wants_to_send() {
        assert!(socket.transmit(&mut handler));
    }
    assert_eq!(socket.sent.len(), 14 + 300 + 7);
    assert!(socket.sent.ends_with(b"vvv\r\nEND\r\n"));
}

#[test]
fn mock_socket_transmit_with_nothing_to_send_still_happens() {
    let mut handler = CommandHandler::new(sample());
    let mut socket = MockSocket::new();
    assert!(socket.transmit(&mut handler));
    assert!(socket.sent.is_empty());
}

/// A small generator of repeatable pseudo-random numbers.
struct Lcg(u64);

impl Lcg {
    fn next(&mut self, bound: usize) -> usize {
        self.0 = self.0.wrapping_mul(6364136223846793005).wrapping_add(1442695040888963407);
        ((self.0 >> 33) as usize) % bound
    }
}

fn random_stream(rng: &mut Lcg) -> Vec<u8> {
    let words: [&[u8]; 10] =
        [b"get", b"set", b"foo", b"nope", b" ", b"\n", b"g", b"toolong", b"\r", b"get foo\n"];
    let mut stream = Vec::new();
    for _ in 0..rng.next(12) {
        stream.extend_from_slice(words[rng.next(words.len())]);
    }
    stream
}

#[test]
fn random_streams_cut_at_random_places_leave_the_same_handler() {
    let mut rng = Lcg(0x5eed);
    for _ in 0..500 {
        let stream = random_stream(&mut rng);
        let mut whole = CommandHandler::new(sample());
        whole.visit(&stream);
        let mut parts = CommandHandler::new(sample());
        let mut rest: &[u8] = &stream;
        while !rest.is_empty() {
            let cut = 1 + rng.next(rest.len());
            parts.visit(&rest[..cut]);
            rest = &rest[cut..];
        }
        assert_eq!(parts.wants_to_send(), whole.wants_to_send());
        assert_eq!(parts.discarded(), whole.discarded());
        let room = 1 + rng.next(40);
        assert_eq!(drained(&mut parts, room), drained(&mut whole, 200));
        // Both are at the same place afterwards, too.
        whole.visit(b"\nget foo\n");
        parts.visit(b"\nget foo\n");
        assert_eq!(drained(&mut parts, room), drained(&mut whole, 200));
    }
}
