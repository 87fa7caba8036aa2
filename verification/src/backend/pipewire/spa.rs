//! The SPA control sequence that carries MIDI through a PipeWire buffer.
//!
//! A sequence pod is an 8-byte header (body size, then type), an 8-byte
//! sequence body header, and then control entries, each a 16-byte header
//! (offset in the cycle, control type, payload size, payload type) followed
//! by its payload, padded to a multiple of 8 bytes. Fields are 32-bit words in
//! the byte order of the x86-64 targets this tool runs on (little-endian).
use vstd::prelude::*;

verus! {

/// `SPA_TYPE_Sequence`.
pub const SPA_TYPE_SEQUENCE: u32 = 16;

/// `SPA_CONTROL_Midi`.
pub const SPA_CONTROL_MIDI: u32 = 2;

/// Size of a pod header and of a sequence body header.
pub const POD_HEADER_BYTES: usize = 8;

/// Size of a control entry's header.
pub const CONTROL_HEADER_BYTES: usize = 16;

/// The little-endian 32-bit word at `at`.
pub open spec fn word(bytes: Seq<u8>, at: int) -> u32 {
    (bytes[at] + bytes[at + 1] * 0x100 + bytes[at + 2] * 0x1_0000 + bytes[at + 3] * 0x100_0000) as u32
}

/// Padding that brings a payload of `size` bytes to a multiple of 8.
pub open spec fn padding(size: int) -> int {
    (8 - size % 8) % 8
}

/// The control entries between `cursor` and `end`, in order, and whether the
/// walk met an entry that does not fit (a truncated header, or a payload that
/// runs past `end`), after which nothing more is read.
pub open spec fn controls(bytes: Seq<u8>, cursor: int, end: int) -> (Seq<(u32, u32, Seq<u8>)>, bool)
    decreases (if cursor < end { end - cursor } else { 0 }),
{
    if cursor >= end {
        (Seq::empty(), false)
    } else if end - cursor < 16 {
        (Seq::empty(), true)
    } else {
        let size = word(bytes, cursor + 8) as int;
        let start = cursor + 16;
        if start + size > end {
            (Seq::empty(), true)
        } else {
            proof {
                assert(padding(size) >= 0);
            }
            let rest = controls(bytes, start + size + padding(size), end);
            (
                seq![(word(bytes, cursor), word(bytes, cursor + 4), bytes.subrange(start, start + size))]
                    + rest.0,
                rest.1,
            )
        }
    }
}

/// The byte length of the sequence pod at the start of `bytes`, when its
/// header is complete, says "sequence", and its body fits in `bytes`.
pub open spec fn sequence_length(bytes: Seq<u8>) -> Option<int> {
    if bytes.len() < 8 || word(bytes, 4) != SPA_TYPE_SEQUENCE {
        None
    } else if 8 + word(bytes, 0) > bytes.len() {
        None
    } else {
        Some(8 + word(bytes, 0))
    }
}

/// The control entries of a sequence pod of `length` bytes, and whether the
/// pod is malformed: a body too short for the sequence header, or an entry
/// that does not fit.
pub open spec fn sequence_controls(bytes: Seq<u8>, length: int) -> (Seq<(u32, u32, Seq<u8>)>, bool) {
    if length < 16 {
        (Seq::empty(), true)
    } else {
        controls(bytes, 16, length)
    }
}

/// Reads the little-endian 32-bit word at `at`.
pub fn read_word(bytes: &[u8], at: usize) -> (value: u32)
    requires
        at + 4 <= bytes@.len(),
    ensures
        value == word(bytes@, at as int),
{
    let value = (bytes[at] as u32) + (bytes[at + 1] as u32) * 0x100 + (bytes[at + 2] as u32)
        * 0x1_0000 + (bytes[at + 3] as u32) * 0x100_0000;
    value
}

/// Checks that `bytes` starts with a complete SPA sequence pod and returns its
/// byte length. PipeWire can deliver MIDI either as control metadata or as a
/// sequence pod inside the buffer's data memory; this recognizes the latter.
pub fn spa_sequence_from_bytes(bytes: &[u8]) -> (length: Option<usize>)
    ensures
        length matches Some(length) ==> sequence_length(bytes@) == Some(length as int),
        length is None ==> sequence_length(bytes@) is None,
{
    if bytes.len() < POD_HEADER_BYTES {
        return None;
    }
    if read_word(bytes, 4) != SPA_TYPE_SEQUENCE {
        return None;
    }
    let size = read_word(bytes, 0) as usize;
    if size > bytes.len() - POD_HEADER_BYTES {
        return None;
    }
    Some(POD_HEADER_BYTES + size)
}

} // verus!
