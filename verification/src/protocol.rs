//! Messages between the launcher and its daemon, and how they are framed on the
//! socket: a four-byte little-endian length followed by the encoded message.
use crate::clipboard::models::EntryMeta;
use crate::search::LauncherItem;
use vstd::prelude::*;

verus! {

/// What a client asks the daemon.
#[derive(Debug)]
pub enum DaemonRequest {
    Ping,
    GetClipboardHistory { limit: usize },
    GetLauncherItems,
    PasteClipboard { id: u64 },
    GetClipboardContent { id: u64 },
    BumpClipboardEntry { id: u64 },
}

/// What the daemon answers.
#[derive(Debug)]
pub enum DaemonResponse {
    Pong,
    ClipboardHistory(Vec<EntryMeta>),
    LauncherItems(Vec<LauncherItem>),
    ClipboardPasted,
    ClipboardContent(String),
    ClipboardBumped,
    Error(String),
}

/// The little-endian bytes of a 32-bit number.
pub open spec fn le_bytes(n: u32) -> Seq<u8> {
    seq![
        (n % 256) as u8,
        ((n / 256) % 256) as u8,
        ((n / 65536) % 256) as u8,
        ((n / 16777216) % 256) as u8,
    ]
}

/// The number that four little-endian bytes spell.
pub open spec fn le_value(b: Seq<u8>) -> nat {
    (b[0] + 256 * b[1] + 65536 * b[2] + 16777216 * b[3]) as nat
}

/// The length field of a frame: the payload's length, truncated to 32 bits.
pub open spec fn frame_header(len: nat) -> Seq<u8> {
    le_bytes((len % 0x1_0000_0000) as u32)
}

/// A frame: the header, then the payload.
pub open spec fn frame(payload: Seq<u8>) -> Seq<u8> {
    frame_header(payload.len()) + payload
}

/// Reading back a header gives the length that was written, for every length that
/// fits in 32 bits.
pub proof fn lemma_frame_roundtrip(len: nat)
    requires
        len < 0x1_0000_0000,
    ensures
        frame_header(len).len() == 4,
        le_value(frame_header(len)) == len,
{
    let n = len as u32;
    assert(len % 0x1_0000_0000 == len);
    let b = frame_header(len);
    assert(b[0] == n % 256);
    assert(b[1] == (n / 256) % 256);
    assert(b[2] == (n / 65536) % 256);
    assert(b[3] == (n / 16777216) % 256);
    assert(n as int == n % 256 + 256 * ((n / 256) % 256) + 65536 * ((n / 65536) % 256) + 16777216 * ((n
        / 16777216) % 256)) by (nonlinear_arith)
        requires
            n < 0x1_0000_0000,
    ;
}

/// The header for a payload of `len` bytes.
pub fn encode_header(len: usize) -> (h: [u8; 4])
    ensures
        h@ == frame_header(len as nat),
{
    let n: u32 = ((len as u64) % 0x1_0000_0000u64) as u32;
    let h = [(n % 256) as u8, ((n / 256) % 256) as u8, ((n / 65536) % 256) as u8, ((n / 16777216) % 256) as u8];
    proof {
        assert(h@ =~= le_bytes(n));
    }
    h
}

/// A payload with its header in front.
pub fn encode_frame(payload: &Vec<u8>) -> (f: Vec<u8>)
    ensures
        f@ == frame(payload@),
{
    let h = encode_header(payload.len());
    let mut f: Vec<u8> = Vec::new();
    f.push(h[0]);
    f.push(h[1]);
    f.push(h[2]);
    f.push(h[3]);
    proof {
        assert(f@ =~= h@);
    }
    for i in 0..payload.len()
        invariant
            f@ == h@ + payload@.take(i as int),
    {
        f.push(payload[i]);
        proof {
            assert(h@ + payload@.take(i + 1) =~= (h@ + payload@.take(i as int)).push(payload@[i as int]));
        }
    }
    proof {
        assert(payload@.take(payload.len() as int) =~= payload@);
    }
    f
}

/// The payload length that a header announces.
pub fn decode_header(h: [u8; 4]) -> (len: usize)
    ensures
        len == le_value(h@),
{
    let v: u64 = (h[0] as u64) + 256 * (h[1] as u64) + 65536 * (h[2] as u64) + 16777216 * (h[3] as u64);
    v as usize
}

} // verus!
