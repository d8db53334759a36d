//! What holds of the protocol for every input: where the chunks of a stream
//! begin and end makes no difference, on the way in and on the way out; an
//! idle step changes nothing; and a stored entry comes back in the reply to
//! a `get` of its key.

use crate::model::{
    lemma_drain_drain, lemma_feed_concat, lemma_feed_push, CommandWithKey, Phase, Session,
};
use crate::store::Record;
use crate::wire::{
    decimal, digit, is_terminator, value_reply, END_RESPONSE, GET, MAX_KEY_LEN, NEWLINE, SPACE,
};
use vstd::prelude::*;

verus! {

/// The session after it received each chunk of `chunks` in turn, one
/// receive call per chunk.
pub open spec fn feed_each(s: Session, chunks: Seq<Seq<u8>>) -> Session
    decreases chunks.len(),
{
    if chunks.len() == 0 {
        s
    } else {
        feed_each(s, chunks.drop_last()).feed(chunks.last())
    }
}

/// The request for `key`: `get <key>\n`.
pub open spec fn get_request(key: Seq<u8>) -> Seq<u8> {
    GET@ + seq![SPACE] + key + seq![NEWLINE]
}

/// A key that a request can name: no longer than a key may be, and free of
/// the bytes that end a token.
pub open spec fn is_key(key: Seq<u8>) -> bool {
    &&& key.len() <= MAX_KEY_LEN
    &&& forall|i: int| 0 <= i < key.len() ==> !is_terminator(#[trigger] key[i])
}

/// Chunk boundaries on the way in do not matter: a stream that is received
/// in any number of chunks, cut at any places, leaves the session where the
/// whole stream received as one chunk leaves it, and so every byte sent
/// after it is the same.
pub proof fn law_chunk_boundaries(s: Session, chunks: Seq<Seq<u8>>)
    ensures
        feed_each(s, chunks) == s.feed(chunks.flatten()),
    decreases chunks.len(),
{
    if chunks.len() > 0 {
        let front = chunks.drop_last();
        law_chunk_boundaries(s, front);
        front.lemma_flatten_push(chunks.last());
        assert(front.push(chunks.last()) =~= chunks);
        lemma_feed_concat(s, front.flatten(), chunks.last());
    }
}

/// Chunk boundaries on the way out do not matter: a transport that offers
/// room for `a` bytes and then for `b` gets the bytes, and leaves the
/// session, that a transport with room for `a + b` at once does.
pub proof fn law_transmit_windows(s: Session, a: nat, b: nat)
    requires
        s.valid(),
    ensures
        s.transmit(Some(a)).transmit(Some(b)) == s.transmit(Some(a + b)),
        s.output(a) + s.transmit(Some(a)).output(b) == s.output(a + b),
{
    let first = s.quota(a);
    let second = s.transmit(Some(a)).quota(b);
    lemma_drain_drain(s, first, second);
}

/// Chunk boundaries between steps do not matter where no reply is due at
/// the boundary: if the session has nothing to send before `a` is received
/// and nothing after, then a step that receives `a` and a step that receives
/// `b` leave it where one step that receives `a + b` does, whatever room the
/// transport has. (Where a reply is due at the boundary, the two differ:
/// received in one chunk, `b` comes in while the reply goes out and is
/// dropped; received after the reply is out, it is read as the next request.)
pub proof fn law_step_boundaries(
    s: Session,
    a: Seq<u8>,
    b: Seq<u8>,
    first: Option<nat>,
    second: Option<nat>,
    both: Option<nat>,
)
    requires
        !s.wants_to_send(),
        !s.feed(a).wants_to_send(),
    ensures
        s.poll(first, a).poll(second, b) == s.poll(both, a + b),
{
    lemma_feed_concat(s, a, b);
}

/// A step with nothing to send and nothing received changes nothing,
/// whatever room the transport has.
pub proof fn law_idle_step(s: Session, window: Option<nat>)
    requires
        !s.wants_to_send(),
    ensures
        s.poll(window, Seq::empty()) == s,
{
}

/// A number of ten or more has two digits or more.
proof fn lemma_decimal_many(n: nat)
    ensures
        n >= 10 ==> decimal(n).len() >= 2,
        decimal(n).len() >= 1,
    decreases n,
{
    if n >= 10 {
        lemma_decimal_many(n / 10);
    }
}

/// The digits tell the number: two numbers with the same decimal digits are
/// the same number. So the flags and the length that a reply carries are
/// the entry's and no others.
pub proof fn law_decimal_injective(a: nat, b: nat)
    requires
        decimal(a) == decimal(b),
    ensures
        a == b,
    decreases a,
{
    lemma_decimal_many(a);
    lemma_decimal_many(b);
    if a >= 10 && b >= 10 {
        let front_a = decimal(a / 10);
        let front_b = decimal(b / 10);
        assert(front_a.push(digit(a % 10)).drop_last() =~= front_a);
        assert(front_b.push(digit(b % 10)).drop_last() =~= front_b);
        assert(front_a.push(digit(a % 10)).last() == digit(a % 10));
        assert(front_b.push(digit(b % 10)).last() == digit(b % 10));
        law_decimal_injective(a / 10, b / 10);
    } else if a < 10 && b < 10 {
        assert(decimal(a)[0] == digit(a));
        assert(decimal(b)[0] == digit(b));
    }
}

/// While a key is read, bytes that do not end it and that fit are appended.
proof fn lemma_feed_key(s: Session, cmd: CommandWithKey, read: Seq<u8>, more: Seq<u8>)
    requires
        s.phase == (Phase::ReadingKey { cmd, key: read }),
        read.len() + more.len() <= MAX_KEY_LEN,
        forall|i: int| 0 <= i < more.len() ==> !is_terminator(#[trigger] more[i]),
    ensures
        s.feed(more) == s.at(Phase::ReadingKey { cmd, key: read + more }),
    decreases more.len(),
{
    if more.len() > 0 {
        let front = more.drop_last();
        lemma_feed_key(s, cmd, read, front);
        assert((read + front).push(more.last()) =~= read + more);
    }
}

/// A session that waits for a command and receives `get <key>` has read
/// the key, and waits for the byte that ends it.
proof fn lemma_feed_get(s: Session, key: Seq<u8>)
    requires
        s.phase == (Phase::ReadingCommand { token: Seq::<u8>::empty() }),
        is_key(key),
    ensures
        s.feed(GET@ + seq![SPACE] + key) == s.at(Phase::ReadingKey { cmd: CommandWithKey::Get, key }),
{
    let g = GET@[0];
    let e = GET@[1];
    let t = GET@[2];
    let none = Seq::<u8>::empty();
    lemma_feed_push(s, none, g);
    lemma_feed_push(s, none.push(g), e);
    lemma_feed_push(s, none.push(g).push(e), t);
    lemma_feed_push(s, none.push(g).push(e).push(t), SPACE);
    assert(none.push(g).push(e).push(t) =~= GET@);
    assert(GET@.push(SPACE) =~= GET@ + seq![SPACE]);
    let reading = s.at(Phase::ReadingKey { cmd: CommandWithKey::Get, key: none });
    lemma_feed_key(reading, CommandWithKey::Get, none, key);
    lemma_feed_concat(s, GET@ + seq![SPACE], key);
}

/// A `get` of a stored key is answered with the key, the flags and the
/// value that the store holds for it.
pub proof fn law_get_hit(s: Session, key: Seq<u8>)
    requires
        s.phase == (Phase::ReadingCommand { token: Seq::<u8>::empty() }),
        is_key(key),
        s.store.contains_key(key),
    ensures
        s.feed(get_request(key)) == s.at(
            Phase::SendingReply {
                pending: value_reply(key, s.store[key].flags, s.store[key].value),
            },
        ),
{
    lemma_feed_get(s, key);
    lemma_feed_push(s, GET@ + seq![SPACE] + key, NEWLINE);
    assert((GET@ + seq![SPACE] + key).push(NEWLINE) =~= get_request(key));
}

/// A `get` of a key that is not stored is answered with `END\r\n`.
pub proof fn law_get_miss(s: Session, key: Seq<u8>)
    requires
        s.phase == (Phase::ReadingCommand { token: Seq::<u8>::empty() }),
        is_key(key),
        !s.store.contains_key(key),
    ensures
        s.feed(get_request(key)) == s.at(Phase::SendingReply { pending: END_RESPONSE@ }),
{
    lemma_feed_get(s, key);
    lemma_feed_push(s, GET@ + seq![SPACE] + key, NEWLINE);
    assert((GET@ + seq![SPACE] + key).push(NEWLINE) =~= get_request(key));
}

/// Round trip: after `entry` was stored under `key`, a fresh session
/// answers `get <key>\n` with a reply that carries the entry's flags and
/// value, whatever they are, and nothing of what the key held before.
pub proof fn law_round_trip(store: Map<Seq<u8>, Record>, key: Seq<u8>, entry: Record)
    requires
        is_key(key),
    ensures
        Session::start(store.insert(key, entry)).feed(get_request(key)).phase == (
        Phase::SendingReply { pending: value_reply(key, entry.flags, entry.value) }),
        Session::start(store.insert(key, entry)).feed(get_request(key)).output(
            value_reply(key, entry.flags, entry.value).len(),
        ) == value_reply(key, entry.flags, entry.value),
{
    law_get_hit(Session::start(store.insert(key, entry)), key);
}

} // verus!
