//! The chat protocol: every message travels in a frame of fixed size,
//! padded with zero bytes, and is read back as the bytes before the first
//! zero.

use vstd::prelude::*;
use vstd::utf8::{decode_utf8, valid_utf8};

verus! {

/// The frame size the chat server reads and writes.
pub const SERVER_MSG_SIZE: usize = 64;

/// The frame size the chat client reads and writes.
pub const CLIENT_MSG_SIZE: usize = 32;

/// No byte is zero.
pub open spec fn zero_free(s: Seq<u8>) -> bool {
    forall|i: int| 0 <= i < s.len() ==> s[i] != 0
}

/// The frame of `size` bytes that carries `msg`: cut to `size` bytes, or
/// padded with zeros to it.
pub open spec fn frame_of(msg: Seq<u8>, size: nat) -> Seq<u8> {
    if msg.len() >= size {
        msg.take(size as int)
    } else {
        msg + Seq::new((size - msg.len()) as nat, |i: int| 0u8)
    }
}

/// `m` is the message a frame carries: the bytes before its first zero, or
/// all of it where it has none.
pub open spec fn message_in(buf: Seq<u8>, m: Seq<u8>) -> bool {
    &&& m.len() <= buf.len()
    &&& m == buf.take(m.len() as int)
    &&& zero_free(m)
    &&& (m.len() == buf.len() || buf[m.len() as int] == 0)
}

/// `String::from_utf8`: the text of the bytes where they are valid UTF-8,
/// `None` otherwise.
#[verifier::external_body]
fn string_from_utf8(bytes: Vec<u8>) -> (r: Option<String>)
    ensures
        r is Some <==> valid_utf8(bytes@),
        r matches Some(s) ==> s@ == decode_utf8(bytes@),
{
    String::from_utf8(bytes).ok()
}

/// The frame of `size` bytes that carries `msg`.
pub fn encode_message(msg: &[u8], size: usize) -> (r: Vec<u8>)
    ensures
        r@ == frame_of(msg@, size as nat),
        r@.len() == size,
{
    let mut buf: Vec<u8> = Vec::new();
    let n = msg.len();
    let mut i: usize = 0;
    while i < size
        invariant
            n == msg@.len(),
            i <= size,
            buf@.len() == i,
            forall|k: int| 0 <= k < i ==> buf@[k] == if k < n {
                msg@[k]
            } else {
                0u8
            },
        decreases size - i,
    {
        if i < n {
            buf.push(msg[i]);
        } else {
            buf.push(0u8);
        }
        i = i + 1;
    }
    assert(buf@ =~= frame_of(msg@, size as nat));
    buf
}

/// The message a frame carries: its bytes before the first zero.
pub fn decode_message(buf: &[u8]) -> (r: Vec<u8>)
    ensures
        message_in(buf@, r@),
{
    let mut out: Vec<u8> = Vec::new();
    let n = buf.len();
    let mut i: usize = 0;
    while i < n && buf[i] != 0
        invariant
            n == buf@.len(),
            i <= n,
            out@ == buf@.take(i as int),
            zero_free(out@),
        decreases n - i,
    {
        out.push(buf[i]);
        i = i + 1;
        assert(out@ =~= buf@.take(i as int));
    }
    out
}

/// The text of a message, or `None` where its bytes are not valid UTF-8.
pub fn message_text(msg: Vec<u8>) -> (r: Option<String>)
    ensures
        r is Some <==> valid_utf8(msg@),
        r matches Some(s) ==> s@ == decode_utf8(msg@),
{
    string_from_utf8(msg)
}

/// The message a frame carries is unique.
pub proof fn lemma_message_unique(buf: Seq<u8>, m1: Seq<u8>, m2: Seq<u8>)
    requires
        message_in(buf, m1),
        message_in(buf, m2),
    ensures
        m1 == m2,
{
    if m1.len() < m2.len() {
        assert(m2[m1.len() as int] == buf[m1.len() as int]);
    } else if m2.len() < m1.len() {
        assert(m1[m2.len() as int] == buf[m2.len() as int]);
    }
    assert(m1 =~= m2);
}

/// A message without zero bytes that fits in the frame comes back whole
/// from it.
pub proof fn lemma_frame_round_trip(msg: Seq<u8>, size: nat)
    requires
        zero_free(msg),
        msg.len() <= size,
    ensures
        message_in(frame_of(msg, size), msg),
{
    let f = frame_of(msg, size);
    assert(f.take(msg.len() as int) =~= msg);
}

/// A longer message comes back cut to the frame, up to its first zero.
pub proof fn lemma_frame_cuts(msg: Seq<u8>, size: nat)
    requires
        zero_free(msg),
        msg.len() >= size,
    ensures
        message_in(frame_of(msg, size), msg.take(size as int)),
{
    assert(frame_of(msg, size).take(size as int) =~= msg.take(size as int));
}

} // verus!
