use vstd::prelude::*;

verus! {

/// Size of the `total_length` field at the start of every frame.
pub const LENGTH_FIELD: usize = 4;

/// Bytes of a frame that carries no extended header: length, type and the
/// 4-byte extended-header-length marker.
pub const MIN_FRAME: usize = 12;

/// Value of the marker that announces an extended header.
pub const EXT_MARKER: u32 = 20;

/// Bytes of a frame header that carries an extended header.
pub const EXT_FRAME: usize = 28;

/// Little-endian value of the four bytes of `s` that start at `i`.
pub open spec fn le_u32(s: Seq<u8>, i: int) -> int {
    s[i] + 256 * (s[i + 1] + 256 * (s[i + 2] + 256 * s[i + 3]))
}

/// Little-endian value of the eight bytes of `s` that start at `i`.
pub open spec fn le_u64(s: Seq<u8>, i: int) -> int {
    le_u32(s, i) + 4294967296 * le_u32(s, i + 4)
}

/// Reads the little-endian `u32` at `at`.
pub fn read_u32_le(buf: &[u8], at: usize) -> (r: u32)
    requires
        at + 4 <= buf@.len(),
    ensures
        r == le_u32(buf@, at as int),
{
    let b0 = buf[at] as u32;
    let b1 = buf[at + 1] as u32;
    let b2 = buf[at + 2] as u32;
    let b3 = buf[at + 3] as u32;
    let r: u32 = b3;
    let r: u32 = r * 256 + b2;
    let r: u32 = r * 256 + b1;
    r * 256 + b0
}

/// Reads the little-endian `u64` at `at`.
pub fn read_u64_le(buf: &[u8], at: usize) -> (r: u64)
    requires
        at + 8 <= buf@.len() <= usize::MAX,
    ensures
        r == le_u64(buf@, at as int),
{
    let lo = read_u32_le(buf, at) as u64;
    let hi = read_u32_le(buf, at + 4) as u64;
    hi * 4294967296 + lo
}

/// The extended header: event timestamp, originating source and barrier type.
#[derive(Clone, Copy, Debug, PartialEq, Eq, Structural)]
pub struct BodyHeader {
    pub timestamp: u64,
    pub source_id: u32,
    pub barrier_type: u32,
}

/// A decoded record: its type tag, its extended header if it has one, and
/// the payload that follows the header.
#[derive(Clone, Debug)]
pub struct Record {
    pub type_id: u32,
    pub body_header: Option<BodyHeader>,
    pub payload: Vec<u8>,
}

/// What a record is, as a mathematical value.
pub struct RecordModel {
    pub type_id: u32,
    pub body_header: Option<BodyHeader>,
    pub payload: Seq<u8>,
}

impl View for Record {
    type V = RecordModel;

    open spec fn view(&self) -> RecordModel {
        RecordModel { type_id: self.type_id, body_header: self.body_header, payload: self.payload@ }
    }
}

/// Bytes in front of the payload when `m` is framed.
pub open spec fn header_len(m: RecordModel) -> nat {
    if m.body_header is Some {
        EXT_FRAME as nat
    } else {
        MIN_FRAME as nat
    }
}

/// Bytes that `m` takes when framed.
pub open spec fn wire_len(m: RecordModel) -> nat {
    header_len(m) + m.payload.len()
}

/// Whether the bytes at the front of a window hold a whole record.
#[derive(Clone, Copy, Debug, PartialEq, Eq, Structural)]
pub enum FrameCheck {
    /// More bytes are needed before anything can be said.
    Incomplete,
    /// The header can never describe a record: too short a length, or an
    /// extended header that does not fit in the length.
    Corrupt,
    /// A whole record of this many bytes is present.
    Complete(usize),
}

/// The declared length of the frame at the front of `s`.
pub open spec fn total_length(s: Seq<u8>) -> int {
    le_u32(s, 0)
}

/// Whether the frame at the front of `s` announces an extended header.
pub open spec fn has_ext_header(s: Seq<u8>) -> bool {
    le_u32(s, 8) == EXT_MARKER
}

/// What the front of `s` holds.
pub open spec fn frame_check(s: Seq<u8>) -> FrameCheck {
    if s.len() < LENGTH_FIELD {
        FrameCheck::Incomplete
    } else if total_length(s) < MIN_FRAME {
        FrameCheck::Corrupt
    } else if s.len() < total_length(s) {
        FrameCheck::Incomplete
    } else if has_ext_header(s) && total_length(s) < EXT_FRAME {
        FrameCheck::Corrupt
    } else {
        FrameCheck::Complete(total_length(s) as usize)
    }
}

/// Offset of the payload in a frame.
pub open spec fn payload_offset(f: Seq<u8>) -> int {
    if has_ext_header(f) {
        EXT_FRAME as int
    } else {
        MIN_FRAME as int
    }
}

/// The record that the frame `f` (exactly one frame's bytes) encodes.
pub open spec fn decode_frame(f: Seq<u8>) -> RecordModel {
    RecordModel {
        type_id: le_u32(f, 4) as u32,
        body_header: if has_ext_header(f) {
            Some(
                BodyHeader {
                    timestamp: le_u64(f, 12) as u64,
                    source_id: le_u32(f, 20) as u32,
                    barrier_type: le_u32(f, 24) as u32,
                },
            )
        } else {
            None
        },
        payload: f.subrange(payload_offset(f), f.len() as int),
    }
}

proof fn lemma_le_u32_window(s: Seq<u8>, start: int, end: int, i: int)
    requires
        0 <= start <= end <= s.len(),
        0 <= i,
        start + i + 4 <= end,
    ensures
        le_u32(s.subrange(start, end), i) == le_u32(s, start + i),
        0 <= le_u32(s, start + i) <= u32::MAX,
{
    let w = s.subrange(start, end);
    assert(w[i] == s[start + i]);
    assert(w[i + 1] == s[start + i + 1]);
    assert(w[i + 2] == s[start + i + 2]);
    assert(w[i + 3] == s[start + i + 3]);
}

/// Says what the window `buf[start..end]` holds at its front.
pub fn check_frame(buf: &[u8], start: usize, end: usize) -> (r: FrameCheck)
    requires
        start <= end <= buf@.len(),
    ensures
        r == frame_check(buf@.subrange(start as int, end as int)),
{
    let avail = end - start;
    if avail < LENGTH_FIELD {
        return FrameCheck::Incomplete;
    }
    proof { lemma_le_u32_window(buf@, start as int, end as int, 0); }
    let len = read_u32_le(buf, start) as usize;
    if len < MIN_FRAME {
        return FrameCheck::Corrupt;
    }
    if avail < len {
        return FrameCheck::Incomplete;
    }
    proof { lemma_le_u32_window(buf@, start as int, end as int, 8); }
    let marker = read_u32_le(buf, start + 8);
    if marker == EXT_MARKER && len < EXT_FRAME {
        return FrameCheck::Corrupt;
    }
    FrameCheck::Complete(len)
}

/// Decodes the whole record of `len` bytes that starts at `start`.
pub fn decode_record(buf: &[u8], start: usize, len: usize) -> (r: Record)
    requires
        start <= buf@.len() <= usize::MAX,
        frame_check(buf@.subrange(start as int, buf@.len() as int)) == FrameCheck::Complete(len),
    ensures
        start + len <= buf@.len(),
        wire_len(r@) == len,
        r@ == decode_frame(buf@.subrange(start as int, start + len)),
{
    let end = start + len;
    let ghost f = buf@.subrange(start as int, end as int);
    proof {
        lemma_le_u32_window(buf@, start as int, buf@.len() as int, 0);
        lemma_le_u32_window(buf@, start as int, buf@.len() as int, 8);
        lemma_le_u32_window(buf@, start as int, end as int, 0);
        lemma_le_u32_window(buf@, start as int, end as int, 4);
        lemma_le_u32_window(buf@, start as int, end as int, 8);
    }
    let type_id = read_u32_le(buf, start + 4);
    let marker = read_u32_le(buf, start + 8);
    let body_header = if marker == EXT_MARKER {
        proof {
            lemma_le_u32_window(buf@, start as int, end as int, 12);
            lemma_le_u32_window(buf@, start as int, end as int, 16);
            lemma_le_u32_window(buf@, start as int, end as int, 20);
            lemma_le_u32_window(buf@, start as int, end as int, 24);
        }
        Some(
            BodyHeader {
                timestamp: read_u64_le(buf, start + 12),
                source_id: read_u32_le(buf, start + 20),
                barrier_type: read_u32_le(buf, start + 24),
            },
        )
    } else {
        None
    };
    let from = if marker == EXT_MARKER {
        start + EXT_FRAME
    } else {
        start + MIN_FRAME
    };
    let mut payload: Vec<u8> = Vec::new();
    let mut i = from;
    while i < end
        invariant
            from <= i <= end <= buf@.len(),
            payload@ == buf@.subrange(from as int, i as int),
        decreases end - i,
    {
        payload.push(buf[i]);
        i = i + 1;
        proof {
            assert(payload@ =~= buf@.subrange(from as int, i as int));
        }
    }
    proof {
        assert(payload@ =~= f.subrange(payload_offset(f), f.len() as int));
    }
    Record { type_id, body_header, payload }
}

} // verus!
