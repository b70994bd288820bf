//! The fixed-layout byte buffers that the window server and the accessibility
//! service expect: the key-window event record and the remote probe token.

use vstd::prelude::*;

verus! {

/// Length in bytes of a key-window event record.
pub const RECORD_LEN: usize = 0xf8;

/// Offset of the record-size field.
pub const RECORD_SIZE_AT: usize = 0x04;

/// Offset of the flavor byte, which tells a "down" record from an "up" record.
pub const FLAVOR_AT: usize = 0x08;

/// First offset of the all-ones marker region.
pub const MARKER_START: usize = 0x20;

/// First offset behind the all-ones marker region.
pub const MARKER_END: usize = 0x30;

/// Offset of the record-type tag.
pub const RECORD_TYPE_AT: usize = 0x3a;

/// Offset of the four-byte window-id field, least significant byte first.
pub const WINDOW_ID_AT: usize = 0x3c;

/// Value of the record-type tag.
pub const RECORD_TYPE: u8 = 0x10;

/// Flavor byte of the first record of a pair.
pub const FLAVOR_DOWN: u8 = 0x01;

/// Flavor byte of the second record of a pair.
pub const FLAVOR_UP: u8 = 0x02;

/// Which record of the pair: the "down" record is posted first, the "up"
/// record second.
#[derive(Clone, Copy, Debug, PartialEq, Eq, Structural)]
pub enum Flavor {
    Down,
    Up,
}

/// The flavor byte of a record.
pub open spec fn flavor_byte(flavor: Flavor) -> u8 {
    match flavor {
        Flavor::Down => FLAVOR_DOWN,
        Flavor::Up => FLAVOR_UP,
    }
}

/// 256 to the power `k`, for the eight byte positions of a 64-bit value.
pub open spec fn pow256(k: int) -> int {
    if k <= 0 {
        1
    } else if k == 1 {
        0x100
    } else if k == 2 {
        0x1_0000
    } else if k == 3 {
        0x100_0000
    } else if k == 4 {
        0x1_0000_0000
    } else if k == 5 {
        0x100_0000_0000
    } else if k == 6 {
        0x1_0000_0000_0000
    } else {
        0x100_0000_0000_0000
    }
}

/// Byte `k` (0 is the least significant) of an unsigned value.
pub open spec fn le_byte(value: u64, k: int) -> u8 {
    ((value as int / pow256(k)) % 256) as u8
}

/// The 32-bit pattern of a process id in two's complement.
pub open spec fn pid_bits(pid: i32) -> u32 {
    if pid >= 0 {
        pid as u32
    } else {
        (pid + 0x1_0000_0000) as u32
    }
}

/// The byte at offset `i` of the event record for `window_id` with the given
/// flavor: the record size, the flavor, the marker of all ones, the record
/// type, the window id, and zero everywhere else.
pub open spec fn record_byte(window_id: u32, flavor: Flavor, i: int) -> u8 {
    if i == RECORD_SIZE_AT {
        RECORD_LEN as u8
    } else if i == FLAVOR_AT {
        flavor_byte(flavor)
    } else if MARKER_START <= i < MARKER_END {
        0xff
    } else if i == RECORD_TYPE_AT {
        RECORD_TYPE
    } else if WINDOW_ID_AT <= i < WINDOW_ID_AT + 4 {
        le_byte(window_id as u64, i - WINDOW_ID_AT)
    } else {
        0
    }
}

/// The whole event record as a sequence of `RECORD_LEN` bytes.
pub open spec fn record_bytes(window_id: u32, flavor: Flavor) -> Seq<u8> {
    Seq::new(RECORD_LEN as nat, |i: int| record_byte(window_id, flavor, i))
}

/// Splits a 32-bit value into its four bytes, least significant first.
pub fn le_bytes32(value: u32) -> (out: [u8; 4])
    ensures
        forall|k: int| 0 <= k < 4 ==> out[k] == le_byte(value as u64, k),
{
    let b0: u8 = (value & 0xff) as u8;
    let b1: u8 = ((value >> 8) & 0xff) as u8;
    let b2: u8 = ((value >> 16) & 0xff) as u8;
    let b3: u8 = ((value >> 24) & 0xff) as u8;
    assert(value & 0xff == value % 256) by (bit_vector);
    assert((value >> 8) & 0xff == (value / 0x100) % 256) by (bit_vector);
    assert((value >> 16) & 0xff == (value / 0x1_0000) % 256) by (bit_vector);
    assert((value >> 24) & 0xff == (value / 0x100_0000) % 256) by (bit_vector);
    [b0, b1, b2, b3]
}

/// Splits a 64-bit value into its eight bytes, least significant first.
pub fn le_bytes64(value: u64) -> (out: [u8; 8])
    ensures
        forall|k: int| 0 <= k < 8 ==> out[k] == le_byte(value, k),
{
    let b0: u8 = (value & 0xff) as u8;
    let b1: u8 = ((value >> 8) & 0xff) as u8;
    let b2: u8 = ((value >> 16) & 0xff) as u8;
    let b3: u8 = ((value >> 24) & 0xff) as u8;
    let b4: u8 = ((value >> 32) & 0xff) as u8;
    let b5: u8 = ((value >> 40) & 0xff) as u8;
    let b6: u8 = ((value >> 48) & 0xff) as u8;
    let b7: u8 = ((value >> 56) & 0xff) as u8;
    assert(value & 0xff == value % 256) by (bit_vector);
    assert((value >> 8) & 0xff == (value / 0x100) % 256) by (bit_vector);
    assert((value >> 16) & 0xff == (value / 0x1_0000) % 256) by (bit_vector);
    assert((value >> 24) & 0xff == (value / 0x100_0000) % 256) by (bit_vector);
    assert((value >> 32) & 0xff == (value / 0x1_0000_0000) % 256) by (bit_vector);
    assert((value >> 40) & 0xff == (value / 0x100_0000_0000) % 256) by (bit_vector);
    assert((value >> 48) & 0xff == (value / 0x1_0000_0000_0000) % 256) by (bit_vector);
    assert((value >> 56) & 0xff == (value / 0x100_0000_0000_0000) % 256) by (bit_vector);
    [b0, b1, b2, b3, b4, b5, b6, b7]
}

/// Builds the event record that makes `window_id` the key window of its
/// process. The record is posted twice, first with the flavor `Down` and then
/// with the flavor `Up`.
pub fn key_window_record(window_id: u32, flavor: Flavor) -> (out: [u8; 0xf8])
    ensures
        out@ == record_bytes(window_id, flavor),
{
    let mut bytes = [0u8; 0xf8];
    let mut i: usize = MARKER_START;
    while i < MARKER_END
        invariant
            MARKER_START <= i <= MARKER_END,
            forall|j: int|
                0 <= j < RECORD_LEN ==> bytes[j] == if MARKER_START <= j < i {
                    0xffu8
                } else {
                    0u8
                },
        decreases MARKER_END - i,
    {
        bytes[i] = 0xff;
        i = i + 1;
    }
    let id = le_bytes32(window_id);
    bytes[RECORD_SIZE_AT] = RECORD_LEN as u8;
    bytes[FLAVOR_AT] = match flavor {
        Flavor::Down => FLAVOR_DOWN,
        Flavor::Up => FLAVOR_UP,
    };
    bytes[RECORD_TYPE_AT] = RECORD_TYPE;
    bytes[WINDOW_ID_AT] = id[0];
    bytes[WINDOW_ID_AT + 1] = id[1];
    bytes[WINDOW_ID_AT + 2] = id[2];
    bytes[WINDOW_ID_AT + 3] = id[3];
    assert(bytes@ =~= record_bytes(window_id, flavor));
    bytes
}

/// Length in bytes of a remote probe token.
pub const TOKEN_LEN: usize = 20;

/// The tag that every remote probe token carries at offset 8.
pub const TOKEN_TAG: u32 = 0x636f_636f;

/// The byte at offset `i` of the probe token for candidate `index` of process
/// `pid`: the process id, four zero bytes, the tag and the candidate index,
/// each least significant byte first.
pub open spec fn token_byte(pid: i32, index: u64, i: int) -> u8 {
    if 0 <= i < 4 {
        le_byte(pid_bits(pid) as u64, i)
    } else if 8 <= i < 12 {
        le_byte(TOKEN_TAG as u64, i - 8)
    } else if 12 <= i < 20 {
        le_byte(index, i - 12)
    } else {
        0
    }
}

/// The whole probe token as a sequence of `TOKEN_LEN` bytes.
pub open spec fn token_bytes(pid: i32, index: u64) -> Seq<u8> {
    Seq::new(TOKEN_LEN as nat, |i: int| token_byte(pid, index, i))
}

/// Builds the token from which the accessibility service creates the control
/// object that process `pid` keeps under candidate `index`.
pub fn probe_token(pid: i32, index: u64) -> (out: [u8; 20])
    ensures
        out@ == token_bytes(pid, index),
{
    let bits: u32 = if pid >= 0 {
        pid as u32
    } else {
        (pid as i64 + 0x1_0000_0000) as u32
    };
    let p = le_bytes32(bits);
    let t = le_bytes32(TOKEN_TAG);
    let n = le_bytes64(index);
    let out = [
        p[0], p[1], p[2], p[3],
        0, 0, 0, 0,
        t[0], t[1], t[2], t[3],
        n[0], n[1], n[2], n[3], n[4], n[5], n[6], n[7],
    ];
    assert(out@ =~= token_bytes(pid, index));
    out
}

} // verus!
