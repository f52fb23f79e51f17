//! Where one message ends and the next begins.
//!
//! A message on the socket is a header of two words - the object it concerns,
//! and its length and opcode sharing the other - and its arguments.

use crate::wire::{self, read_u32, ArgWriter, Message, WaylandProtocolMessage};
use vstd::prelude::*;

verus! {

/// How long a message's header is.
pub const HEADER_SIZE: usize = 8;

/// What the first bytes of a stream are.
#[derive(Debug, Clone, Copy, PartialEq, Eq, Structural)]
pub enum Framing {
    /// The beginning of a message, the rest of which has still to arrive
    Partial,
    /// Nothing a message begins with: shorter than its own header
    Malformed,
    /// A message of this many bytes
    Whole { object_id: u32, op_code: u16, size: usize },
}

/// What the first bytes of a stream are.
pub open spec fn framing(buf: Seq<u8>) -> Framing {
    match (wire::word_at(buf, 0), wire::word_at(buf, 4)) {
        (Some(object_id), Some(w)) => if w / 0x1_0000 < HEADER_SIZE {
            Framing::Malformed
        } else if w / 0x1_0000 > buf.len() {
            Framing::Partial
        } else {
            Framing::Whole {
                object_id,
                op_code: (w % 0x1_0000) as u16,
                size: (w / 0x1_0000) as usize,
            }
        },
        _ => Framing::Partial,
    }
}

/// A message as it is written, if its length can be.
pub open spec fn framed(m: Message) -> Option<Seq<u8>> {
    let size = HEADER_SIZE + m.args.len();
    if size <= u16::MAX {
        Some(
            wire::le_bytes(m.object_id) + wire::le_bytes((size * 0x1_0000 + m.op_code) as u32)
                + m.args,
        )
    } else {
        None
    }
}

/// What a written message is followed by does not matter to where it ends, and
/// what is read back is what was written.
pub proof fn law_framed_messages_are_read_back(m: Message, rest: Seq<u8>)
    requires
        framed(m) is Some,
    ensures
        framing(framed(m).unwrap() + rest) == (Framing::Whole {
            object_id: m.object_id,
            op_code: m.op_code,
            size: framed(m).unwrap().len() as usize,
        }),
        (framed(m).unwrap() + rest).subrange(
            HEADER_SIZE as int,
            framed(m).unwrap().len() as int,
        ) == m.args,
{
    let size = HEADER_SIZE + m.args.len();
    let w = (size * 0x1_0000 + m.op_code) as u32;
    let buf = framed(m).unwrap() + rest;
    assert(buf.subrange(0, 4) =~= wire::le_bytes(m.object_id));
    assert(buf.subrange(4, 8) =~= wire::le_bytes(w));
    wire::law_word_read_back(buf, 0, m.object_id);
    wire::law_word_read_back(buf, 4, w);
    assert(w / 0x1_0000 == size && w % 0x1_0000 == m.op_code);
    assert(buf.subrange(HEADER_SIZE as int, size as int) =~= m.args);
}

/// Find out what the first bytes of a stream are.
pub fn read_frame(buf: &[u8]) -> (r: Framing)
    ensures
        r == framing(buf@),
{
    let (object_id, w): (u32, u32) = match (read_u32(buf, 0), read_u32(buf, 4)) {
        (Some(object_id), Some(w)) => (object_id, w),
        _ => {
            return Framing::Partial;
        },
    };
    let size: usize = (w / 0x1_0000) as usize;
    if size < HEADER_SIZE {
        Framing::Malformed
    } else if size > buf.len() {
        Framing::Partial
    } else {
        Framing::Whole { object_id, op_code: (w % 0x1_0000) as u16, size }
    }
}

/// Write a message out, if its length can be written.
pub fn write_frame(message: &WaylandProtocolMessage) -> (r: Option<Vec<u8>>)
    ensures
        match (r, framed(message@)) {
            (Some(bytes), Some(expected)) => bytes@ == expected,
            (None, None) => true,
            _ => false,
        },
{
    if message.args.len() > 0xffff - HEADER_SIZE {
        return None;
    }
    let size: u32 = (HEADER_SIZE + message.args.len()) as u32;
    let mut bytes = ArgWriter::new().u32(message.object_id).u32(
        size * 0x1_0000 + message.op_code as u32,
    ).build();
    let ghost header = bytes@;
    let mut i: usize = 0;
    while i < message.args.len()
        invariant
            i <= message.args@.len(),
            bytes@ == header + message.args@.take(i as int),
        decreases message.args@.len() - i,
    {
        bytes.push(message.args[i]);
        assert(message.args@.take(i as int + 1) =~= message.args@.take(i as int).push(
            message.args@[i as int],
        ));
        i = i + 1;
    }
    assert(message.args@.take(i as int) =~= message.args@);
    assert(bytes@ =~= framed(message@).unwrap());
    Some(bytes)
}

} // verus!
