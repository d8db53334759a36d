//! The bytes of the wire protocol: terminators, literal segments, the decimal
//! rendering of numbers and the layout of a reply, together with the routine
//! that moves a segment into a transmit buffer.

use vstd::prelude::*;

verus! {

/// Longest command token, in bytes.
pub const MAX_COMMAND_LEN: usize = 3;

/// Longest key, in bytes.
pub const MAX_KEY_LEN: usize = 250;

/// Most decimal digits that a 32-bit flags field takes.
pub const MAX_FLAGS_DIGITS_LEN: usize = 10;

/// Most decimal digits that a value length takes.
pub const MAX_SIZE_DIGITS_LEN: usize = 20;

/// ` `
pub const SPACE: u8 = 0x20;

/// `\n`
pub const NEWLINE: u8 = 0x0a;

/// `get`
pub const GET: [u8; 3] = [0x67, 0x65, 0x74];

/// `set`
pub const SET: [u8; 3] = [0x73, 0x65, 0x74];

/// `ERROR\r\n`
pub const ERROR_RESPONSE: [u8; 7] = [0x45, 0x52, 0x52, 0x4f, 0x52, 0x0d, 0x0a];

/// `VALUE `
pub const VALUE_PREFIX: [u8; 6] = [0x56, 0x41, 0x4c, 0x55, 0x45, 0x20];

/// `END\r\n`, the whole reply to a miss.
pub const END_RESPONSE: [u8; 5] = [0x45, 0x4e, 0x44, 0x0d, 0x0a];

/// `\r\nEND\r\n`, which closes the reply to a hit.
pub const VALUE_TRAILER: [u8; 7] = [0x0d, 0x0a, 0x45, 0x4e, 0x44, 0x0d, 0x0a];

/// A space or a newline ends a token.
pub open spec fn is_terminator(c: u8) -> bool {
    c == SPACE || c == NEWLINE
}

/// The ASCII digit for `d`, where `d < 10`.
pub open spec fn digit(d: nat) -> u8 {
    (0x30 + d) as u8
}

/// The decimal digits of `n` in ASCII, most significant first, with no
/// leading zero; `0` is the single digit `0`.
pub open spec fn decimal(n: nat) -> Seq<u8>
    decreases n,
{
    if n < 10 {
        seq![digit(n)]
    } else {
        decimal(n / 10).push(digit(n % 10))
    }
}

/// Ten to the power `e`.
pub open spec fn pow10(e: nat) -> nat
    decreases e,
{
    if e == 0 {
        1
    } else {
        10 * pow10((e - 1) as nat)
    }
}

/// The reply to a hit on `key`:
/// `VALUE <key> <flags> <length>\n<value>\r\nEND\r\n`.
pub open spec fn value_reply(key: Seq<u8>, flags: u32, value: Seq<u8>) -> Seq<u8> {
    VALUE_PREFIX@ + key + seq![SPACE] + decimal(flags as nat) + seq![SPACE] + decimal(value.len())
        + seq![NEWLINE] + value + VALUE_TRAILER@
}

/// A number below `10^digits` has at most `digits` decimal digits.
pub proof fn lemma_decimal_len(n: nat, digits: nat)
    requires
        digits >= 1,
        n < pow10(digits),
    ensures
        1 <= decimal(n).len() <= digits,
    decreases n,
{
    if n >= 10 {
        assert(pow10(1) == 10) by {
            reveal_with_fuel(pow10, 2);
        }
        lemma_decimal_len(n / 10, (digits - 1) as nat);
    }
}

/// Every 32-bit number fits the flags digit buffer.
pub proof fn lemma_decimal_u32(n: u32)
    ensures
        1 <= decimal(n as nat).len() <= MAX_FLAGS_DIGITS_LEN,
{
    assert(pow10(10) == 10_000_000_000) by {
        reveal_with_fuel(pow10, 11);
    }
    lemma_decimal_len(n as nat, 10);
}

/// Every 64-bit number fits the size digit buffer.
pub proof fn lemma_decimal_u64(n: u64)
    ensures
        1 <= decimal(n as nat).len() <= MAX_SIZE_DIGITS_LEN,
{
    assert(pow10(20) == 100_000_000_000_000_000_000) by {
        reveal_with_fuel(pow10, 21);
    }
    lemma_decimal_len(n as nat, 20);
}

/// Whether `c` ends a token.
pub fn terminates(c: u8) -> (t: bool)
    ensures
        t == is_terminator(c),
{
    c == SPACE || c == NEWLINE
}

/// Whether two byte strings are equal.
pub fn same_bytes(a: &[u8], b: &[u8]) -> (same: bool)
    ensures
        same == (a@ == b@),
{
    if a.len() != b.len() {
        return false;
    }
    let mut i: usize = 0;
    while i < a.len()
        invariant
            a@.len() == b@.len(),
            i <= a@.len(),
            forall|j: int| 0 <= j < i ==> a@[j] == b@[j],
        decreases a@.len() - i,
    {
        if a[i] != b[i] {
            return false;
        }
        i += 1;
    }
    assert(a@ =~= b@);
    true
}

/// Copies into `buf`, from index `at` on, as many leading bytes of `src` as
/// fit, and returns how many that was. The rest of `buf` keeps its bytes.
pub fn copy_into(src: &[u8], buf: &mut [u8], at: usize) -> (n: usize)
    requires
        at <= old(buf)@.len(),
    ensures
        n == vstd::math::min(src@.len() as int, old(buf)@.len() - at),
        final(buf)@ == old(buf)@.take(at as int) + src@.take(n as int) + old(buf)@.skip(at + n),
{
    let room = buf.len() - at;
    let n = if src.len() <= room {
        src.len()
    } else {
        room
    };
    let mut i: usize = 0;
    while i < n
        invariant
            i <= n,
            n <= src@.len(),
            at + n <= buf.len(),
            buf@.len() == old(buf)@.len(),
            buf@ == old(buf)@.take(at as int) + src@.take(i as int) + old(buf)@.skip(at + i),
        decreases n - i,
    {
        buf[at + i] = src[i];
        i += 1;
    }
    n
}

} // verus!
