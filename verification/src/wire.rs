//! The wire format of the messages that two peers exchange.
//!
//! Every message is ten bytes long:
//!
//! | bytes | content                                             |
//! |-------|-----------------------------------------------------|
//! | 0     | kind: 0 for a handshake, 1 for an input             |
//! | 1     | handle of the player that the message speaks of     |
//! | 2..6  | frame number, little endian                         |
//! | 6..10 | input bits, little endian; bits 4 to 31 are zero    |

use vstd::prelude::*;
use crate::input::{PlayerInputFrame, ALL_BITS};
use crate::player::{Frame, PlayerHandle};

verus! {

/// The length of every message.
pub const WIRE_LEN: usize = 10;

/// The kind byte of a handshake message.
pub const KIND_SYNC: u8 = 0;

/// The kind byte of an input message.
pub const KIND_INPUT: u8 = 1;

/// What a message is for.
#[derive(Clone, Copy, Debug, PartialEq, Eq, Structural)]
pub enum MessageKind {
    /// Handshake: the sender proposes `frame` as the frame to start from.
    Sync,
    /// The sender's final input for `frame`.
    Input,
}

/// One message between peers.
#[derive(Clone, Copy, Debug, PartialEq, Eq, Structural)]
pub struct Message {
    pub kind: MessageKind,
    /// The player that sent the message and whose input it carries.
    pub player: PlayerHandle,
    pub frame: Frame,
    pub input: PlayerInputFrame,
}

/// Why a byte string is no message.
#[derive(Clone, Copy, Debug, PartialEq, Eq, Structural)]
pub enum WireError {
    /// The byte string is not ten bytes long.
    BadLength,
    /// The kind byte names no kind of message.
    UnknownKind,
    /// A reserved bit of the input is set.
    ReservedBits,
}

/// The `k`-th byte of `x` in little-endian order.
pub open spec fn le_byte(x: u32, k: int) -> u8 {
    if k == 0 {
        (x % 256) as u8
    } else if k == 1 {
        ((x / 256) % 256) as u8
    } else if k == 2 {
        ((x / 65536) % 256) as u8
    } else {
        ((x / 16777216) % 256) as u8
    }
}

/// The number whose little-endian bytes are `b0` to `b3`.
pub open spec fn le_u32(b0: u8, b1: u8, b2: u8, b3: u8) -> u32 {
    (b0 + 256 * b1 + 65536 * b2 + 16777216 * b3) as u32
}

/// The kind byte of a kind.
pub open spec fn kind_byte(kind: MessageKind) -> u8 {
    match kind {
        MessageKind::Sync => KIND_SYNC,
        MessageKind::Input => KIND_INPUT,
    }
}

/// The bytes of a message.
pub open spec fn encoded(m: Message) -> Seq<u8> {
    seq![
        kind_byte(m.kind),
        m.player.0,
        le_byte(m.frame, 0),
        le_byte(m.frame, 1),
        le_byte(m.frame, 2),
        le_byte(m.frame, 3),
        le_byte(m.input@, 0),
        le_byte(m.input@, 1),
        le_byte(m.input@, 2),
        le_byte(m.input@, 3),
    ]
}

/// The message that a byte string carries, or why it carries none.
pub open spec fn decoded(bytes: Seq<u8>) -> Result<Message, WireError> {
    if bytes.len() != WIRE_LEN {
        Err(WireError::BadLength)
    } else if bytes[0] != KIND_SYNC && bytes[0] != KIND_INPUT {
        Err(WireError::UnknownKind)
    } else if le_u32(bytes[6], bytes[7], bytes[8], bytes[9]) > ALL_BITS {
        Err(WireError::ReservedBits)
    } else {
        Ok(
            Message {
                kind: if bytes[0] == KIND_SYNC {
                    MessageKind::Sync
                } else {
                    MessageKind::Input
                },
                player: PlayerHandle(bytes[1]),
                frame: le_u32(bytes[2], bytes[3], bytes[4], bytes[5]),
                input: PlayerInputFrame::with_bits(le_u32(bytes[6], bytes[7], bytes[8], bytes[9])),
            },
        )
    }
}

/// Splitting a number into its little-endian bytes and joining them again
/// gives the number back, and the same the other way round.
pub proof fn lemma_le_round_trip(x: u32, b0: u8, b1: u8, b2: u8, b3: u8)
    ensures
        le_u32(le_byte(x, 0), le_byte(x, 1), le_byte(x, 2), le_byte(x, 3)) == x,
        le_byte(le_u32(b0, b1, b2, b3), 0) == b0,
        le_byte(le_u32(b0, b1, b2, b3), 1) == b1,
        le_byte(le_u32(b0, b1, b2, b3), 2) == b2,
        le_byte(le_u32(b0, b1, b2, b3), 3) == b3,
{
    assert((x % 256) + 256 * ((x / 256) % 256) + 65536 * ((x / 65536) % 256) + 16777216 * ((x
        / 16777216) % 256) == x) by (bit_vector);
    let v: u32 = le_u32(b0, b1, b2, b3);
    assert(v == b0 + 256 * b1 + 65536 * b2 + 16777216 * b3);
    assert(v % 256 == b0 && (v / 256) % 256 == b1 && (v / 65536) % 256 == b2 && (v / 16777216)
        % 256 == b3) by (bit_vector)
        requires
            v == b0 + 256 * b1 + 65536 * b2 + 16777216 * b3,
    ;
}

/// Round trip: a message whose input sets no reserved bit is read back
/// from its bytes unchanged.
pub proof fn lemma_decode_encode(m: Message)
    requires
        m.input.wf(),
    ensures
        encoded(m).len() == WIRE_LEN,
        decoded(encoded(m)) == Ok::<Message, WireError>(m),
{
    lemma_le_round_trip(m.frame, 0, 0, 0, 0);
    lemma_le_round_trip(m.input@, 0, 0, 0, 0);
    PlayerInputFrame::lemma_with_bits(0, m.input);
}

/// Every byte string that is accepted is the encoding of its message, and
/// the input that it carries sets no reserved bit.
pub proof fn lemma_encode_decode(bytes: Seq<u8>)
    requires
        decoded(bytes) is Ok,
    ensures
        encoded(decoded(bytes).unwrap()) == bytes,
        decoded(bytes).unwrap().input.wf(),
{
    let m = decoded(bytes).unwrap();
    lemma_le_round_trip(0, bytes[2], bytes[3], bytes[4], bytes[5]);
    lemma_le_round_trip(0, bytes[6], bytes[7], bytes[8], bytes[9]);
    PlayerInputFrame::lemma_with_bits(le_u32(bytes[6], bytes[7], bytes[8], bytes[9]), m.input);
    assert(encoded(m) =~= bytes);
}

fn push_le(out: &mut Vec<u8>, x: u32)
    ensures
        final(out)@ == old(out)@.push(le_byte(x, 0)).push(le_byte(x, 1)).push(le_byte(x, 2)).push(
            le_byte(x, 3),
        ),
{
    out.push((x % 256) as u8);
    out.push(((x / 256) % 256) as u8);
    out.push(((x / 65536) % 256) as u8);
    out.push(((x / 16777216) % 256) as u8);
}

fn read_le(b0: u8, b1: u8, b2: u8, b3: u8) -> (r: u32)
    ensures
        r == le_u32(b0, b1, b2, b3),
{
    b0 as u32 + 256 * (b1 as u32) + 65536 * (b2 as u32) + 16777216 * (b3 as u32)
}

/// Writes a message as bytes.
pub fn encode(m: &Message) -> (r: Vec<u8>)
    ensures
        r@ == encoded(*m),
{
    let mut out: Vec<u8> = Vec::new();
    let kind: u8 = match m.kind {
        MessageKind::Sync => KIND_SYNC,
        MessageKind::Input => KIND_INPUT,
    };
    out.push(kind);
    out.push(m.player.0);
    push_le(&mut out, m.frame);
    push_le(&mut out, m.input.bits());
    assert(out@ =~= encoded(*m));
    out
}

/// Reads a message from bytes.
///
/// A byte string of the wrong length, with an unknown kind, or with a
/// reserved input bit set is refused, in that order of precedence.
pub fn decode(bytes: &[u8]) -> (r: Result<Message, WireError>)
    ensures
        r == decoded(bytes@),
{
    if bytes.len() != WIRE_LEN {
        return Err(WireError::BadLength);
    }
    let kind = if bytes[0] == KIND_SYNC {
        MessageKind::Sync
    } else if bytes[0] == KIND_INPUT {
        MessageKind::Input
    } else {
        return Err(WireError::UnknownKind);
    };
    let frame: u32 = read_le(bytes[2], bytes[3], bytes[4], bytes[5]);
    let bits: u32 = read_le(bytes[6], bytes[7], bytes[8], bytes[9]);
    match PlayerInputFrame::from_bits(bits) {
        Some(input) => Ok(Message { kind, player: PlayerHandle(bytes[1]), frame, input }),
        None => Err(WireError::ReservedBits),
    }
}

} // verus!
