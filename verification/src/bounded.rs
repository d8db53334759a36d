//! The fixed-capacity byte buffers of the state machine.
//!
//! They are `heapless::Vec`s, which hold their bytes inline and never
//! allocate. Verus does not read that crate, so this file states what the
//! state machine relies on: for each buffer type a name for the bytes it
//! holds, and for each method called a wrapper whose contract is taken from
//! the method's source and is believed, not proved.

use crate::wire::{
    decimal, MAX_COMMAND_LEN, MAX_FLAGS_DIGITS_LEN, MAX_KEY_LEN, MAX_SIZE_DIGITS_LEN,
};
use core::fmt::Write;
use vstd::prelude::*;

verus! {

/// `heapless::Vec`, opaque to the verifier.
#[verifier::external_type_specification]
#[verifier::external_body]
#[verifier::reject_recursive_types(T)]
pub struct ExHeaplessVec<T, const N: usize>(heapless::Vec<T, N>);

/// Holds a command token while it is read.
pub type CommandBuf = heapless::Vec<u8, MAX_COMMAND_LEN>;

/// Holds a key while it is read and while it is echoed.
pub type KeyBuf = heapless::Vec<u8, MAX_KEY_LEN>;

/// Holds the decimal digits of an entry's flags.
pub type FlagsDigits = heapless::Vec<u8, MAX_FLAGS_DIGITS_LEN>;

/// Holds the decimal digits of a value's length.
pub type SizeDigits = heapless::Vec<u8, MAX_SIZE_DIGITS_LEN>;

/// The bytes that a command buffer holds, first pushed first.
pub uninterp spec fn command_bytes(buf: CommandBuf) -> Seq<u8>;

/// The bytes that a key buffer holds, first pushed first.
pub uninterp spec fn key_bytes(buf: KeyBuf) -> Seq<u8>;

/// The bytes that a flags digit buffer holds, first written first.
pub uninterp spec fn flags_digits(buf: FlagsDigits) -> Seq<u8>;

/// The bytes that a size digit buffer holds, first written first.
pub uninterp spec fn size_digits(buf: SizeDigits) -> Seq<u8>;

/// `heapless::Vec::new`: the new buffer is empty.
#[verifier::external_body]
pub(crate) fn command_new() -> (buf: CommandBuf)
    ensures
        command_bytes(buf) == Seq::<u8>::empty(),
{
    heapless::Vec::new()
}

/// `heapless::Vec::push`: below capacity the byte is appended and the call
/// succeeds; at capacity the call fails and the buffer is left as it was.
#[verifier::external_body]
pub(crate) fn command_push(buf: &mut CommandBuf, byte: u8) -> (pushed: bool)
    ensures
        pushed == (command_bytes(*old(buf)).len() < MAX_COMMAND_LEN),
        pushed ==> command_bytes(*final(buf)) == command_bytes(*old(buf)).push(byte),
        !pushed ==> command_bytes(*final(buf)) == command_bytes(*old(buf)),
{
    buf.push(byte).is_ok()
}

/// `heapless::Vec::as_slice`: the slice is the buffer's bytes, which are never
/// more than its capacity.
#[verifier::external_body]
pub(crate) fn command_slice(buf: &CommandBuf) -> (bytes: &[u8])
    ensures
        bytes@ == command_bytes(*buf),
        bytes@.len() <= MAX_COMMAND_LEN,
{
    buf.as_slice()
}

/// `heapless::Vec::new`: the new buffer is empty.
#[verifier::external_body]
pub(crate) fn key_new() -> (buf: KeyBuf)
    ensures
        key_bytes(buf) == Seq::<u8>::empty(),
{
    heapless::Vec::new()
}

/// `heapless::Vec::push`: below capacity the byte is appended and the call
/// succeeds; at capacity the call fails and the buffer is left as it was.
#[verifier::external_body]
pub(crate) fn key_push(buf: &mut KeyBuf, byte: u8) -> (pushed: bool)
    ensures
        pushed == (key_bytes(*old(buf)).len() < MAX_KEY_LEN),
        pushed ==> key_bytes(*final(buf)) == key_bytes(*old(buf)).push(byte),
        !pushed ==> key_bytes(*final(buf)) == key_bytes(*old(buf)),
{
    buf.push(byte).is_ok()
}

/// `heapless::Vec::as_slice`: the slice is the buffer's bytes, which are never
/// more than its capacity.
#[verifier::external_body]
pub(crate) fn key_slice(buf: &KeyBuf) -> (bytes: &[u8])
    ensures
        bytes@ == key_bytes(*buf),
        bytes@.len() <= MAX_KEY_LEN,
{
    buf.as_slice()
}

/// `heapless::Vec::new`: the new buffer is empty.
#[verifier::external_body]
pub(crate) fn flags_new() -> (buf: FlagsDigits)
    ensures
        flags_digits(buf) == Seq::<u8>::empty(),
{
    heapless::Vec::new()
}

/// `write!` of a number through `heapless::Vec`'s `core::fmt::Write`: the
/// number is formatted as its decimal digits, and `write_str` appends them
/// when they fit the free capacity and fails otherwise.
#[verifier::external_body]
pub(crate) fn flags_write(buf: &mut FlagsDigits, n: u32) -> (written: bool)
    ensures
        written == (flags_digits(*old(buf)).len() + decimal(n as nat).len()
            <= MAX_FLAGS_DIGITS_LEN),
        written ==> flags_digits(*final(buf)) == flags_digits(*old(buf)) + decimal(n as nat),
{
    write!(buf, "{}", n).is_ok()
}

/// `heapless::Vec::as_slice`: the slice is the buffer's bytes, which are never
/// more than its capacity.
#[verifier::external_body]
pub(crate) fn flags_slice(buf: &FlagsDigits) -> (bytes: &[u8])
    ensures
        bytes@ == flags_digits(*buf),
        bytes@.len() <= MAX_FLAGS_DIGITS_LEN,
{
    buf.as_slice()
}

/// `heapless::Vec::new`: the new buffer is empty.
#[verifier::external_body]
pub(crate) fn size_new() -> (buf: SizeDigits)
    ensures
        size_digits(buf) == Seq::<u8>::empty(),
{
    heapless::Vec::new()
}

/// `write!` of a number through `heapless::Vec`'s `core::fmt::Write`: the
/// number is formatted as its decimal digits, and `write_str` appends them
/// when they fit the free capacity and fails otherwise.
#[verifier::external_body]
pub(crate) fn size_write(buf: &mut SizeDigits, n: usize) -> (written: bool)
    ensures
        written == (size_digits(*old(buf)).len() + decimal(n as nat).len()
            <= MAX_SIZE_DIGITS_LEN),
        written ==> size_digits(*final(buf)) == size_digits(*old(buf)) + decimal(n as nat),
{
    write!(buf, "{}", n).is_ok()
}

/// `heapless::Vec::as_slice`: the slice is the buffer's bytes, which are never
/// more than its capacity.
#[verifier::external_body]
pub(crate) fn size_slice(buf: &SizeDigits) -> (bytes: &[u8])
    ensures
        bytes@ == size_digits(*buf),
        bytes@.len() <= MAX_SIZE_DIGITS_LEN,
{
    buf.as_slice()
}

} // verus!
