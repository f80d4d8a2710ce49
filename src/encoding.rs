use vstd::prelude::*;
use crate::codec::{
    decode_frame, frame_check, le_u32, le_u64, wire_len, BodyHeader, FrameCheck, RecordModel,
    EXT_MARKER,
};
use crate::framer::{next_step, records_in, Action};
use crate::stream::{lemma_run_any_chunking, run};

verus! {

/// The four little-endian bytes of `v`.
pub open spec fn le32_bytes(v: int) -> Seq<u8> {
    seq![
        (v % 256) as u8,
        ((v / 256) % 256) as u8,
        ((v / 256 / 256) % 256) as u8,
        ((v / 256 / 256 / 256) % 256) as u8,
    ]
}

/// The eight little-endian bytes of `v`.
pub open spec fn le64_bytes(v: int) -> Seq<u8> {
    le32_bytes(v % 4294967296) + le32_bytes(v / 4294967296)
}

/// The header bytes after the type tag: the extended header, or else the
/// 4-byte `marker`.
pub open spec fn header_tail(m: RecordModel, marker: u32) -> Seq<u8> {
    match m.body_header {
        Some(h) => le32_bytes(EXT_MARKER as int) + le64_bytes(h.timestamp as int) + le32_bytes(
            h.source_id as int,
        ) + le32_bytes(h.barrier_type as int),
        None => le32_bytes(marker as int),
    }
}

/// The frame of `m`; a record without extended header carries `marker` in
/// place of one.
pub open spec fn encode(m: RecordModel, marker: u32) -> Seq<u8> {
    le32_bytes(wire_len(m) as int) + le32_bytes(m.type_id as int) + header_tail(m, marker)
        + m.payload
}

/// Whether `m` can be framed with `marker`: its length fits the length field,
/// and a marker that would announce an extended header is not used without one.
pub open spec fn encodable(m: RecordModel, marker: u32) -> bool {
    &&& wire_len(m) <= u32::MAX
    &&& m.body_header is None ==> marker != EXT_MARKER
}

proof fn lemma_le32_bytes(v: int, s: Seq<u8>, i: int)
    requires
        0 <= v <= u32::MAX,
        0 <= i,
        i + 4 <= s.len(),
        s.subrange(i, i + 4) == le32_bytes(v),
    ensures
        le_u32(s, i) == v,
{
    let b = le32_bytes(v);
    assert(s[i] == b[0]);
    assert(s[i + 1] == b[1]);
    assert(s[i + 2] == b[2]);
    assert(s[i + 3] == b[3]);
    let q1 = v / 256;
    let q2 = q1 / 256;
    let q3 = q2 / 256;
    assert(v == v % 256 + 256 * q1);
    assert(q1 == q1 % 256 + 256 * q2);
    assert(q2 == q2 % 256 + 256 * q3);
    assert(q3 < 256);
}

proof fn lemma_le64_bytes(v: int, s: Seq<u8>, i: int)
    requires
        0 <= v <= u64::MAX,
        0 <= i,
        i + 8 <= s.len(),
        s.subrange(i, i + 8) == le64_bytes(v),
    ensures
        le_u64(s, i) == v,
{
    let lo = v % 4294967296;
    let hi = v / 4294967296;
    assert(s.subrange(i, i + 4) =~= le64_bytes(v).subrange(0, 4));
    assert(s.subrange(i + 4, i + 8) =~= le64_bytes(v).subrange(4, 8));
    assert(le64_bytes(v).subrange(0, 4) =~= le32_bytes(lo));
    assert(le64_bytes(v).subrange(4, 8) =~= le32_bytes(hi));
    lemma_le32_bytes(lo, s, i);
    lemma_le32_bytes(hi, s, i + 4);
}

/// A framed record, followed by any bytes, is recognised as a whole record of
/// exactly its own length, and decodes to the record that was framed: type
/// tag, extended header fields and payload alike.
pub proof fn lemma_decode_encoded(m: RecordModel, marker: u32, rest: Seq<u8>)
    requires
        encodable(m, marker),
    ensures
        encode(m, marker).len() == wire_len(m),
        frame_check(encode(m, marker) + rest) == FrameCheck::Complete(wire_len(m) as usize),
        (encode(m, marker) + rest).take(wire_len(m) as int) == encode(m, marker),
        decode_frame(encode(m, marker)) == m,
{
    let e = encode(m, marker);
    let s = e + rest;
    let n = wire_len(m) as int;
    assert(e.len() == n);
    assert(s.take(n) =~= e);
    assert(e.subrange(0, 4) =~= le32_bytes(n));
    assert(e.subrange(4, 8) =~= le32_bytes(m.type_id as int));
    assert(s.subrange(0, 4) =~= le32_bytes(n));
    assert(s.subrange(8, 12) =~= e.subrange(8, 12));
    lemma_le32_bytes(n, e, 0);
    lemma_le32_bytes(n, s, 0);
    lemma_le32_bytes(m.type_id as int, e, 4);
    match m.body_header {
        Some(h) => {
            assert(e.subrange(8, 12) =~= le32_bytes(EXT_MARKER as int));
            assert(e.subrange(12, 20) =~= le64_bytes(h.timestamp as int));
            assert(e.subrange(20, 24) =~= le32_bytes(h.source_id as int));
            assert(e.subrange(24, 28) =~= le32_bytes(h.barrier_type as int));
            lemma_le32_bytes(EXT_MARKER as int, e, 8);
            lemma_le32_bytes(EXT_MARKER as int, s, 8);
            lemma_le64_bytes(h.timestamp as int, e, 12);
            lemma_le32_bytes(h.source_id as int, e, 20);
            lemma_le32_bytes(h.barrier_type as int, e, 24);
            assert(e.subrange(28, n) =~= m.payload);
        },
        None => {
            assert(e.subrange(8, 12) =~= le32_bytes(marker as int));
            lemma_le32_bytes(marker as int, e, 8);
            lemma_le32_bytes(marker as int, s, 8);
            assert(e.subrange(12, n) =~= m.payload);
        },
    }
}

/// The records `ms` framed back to back, each without extended header
/// carrying a zero marker.
pub open spec fn encode_all(ms: Seq<RecordModel>) -> Seq<u8>
    decreases ms.len(),
{
    if ms.len() == 0 {
        Seq::empty()
    } else {
        encode(ms[0], 0) + encode_all(ms.drop_first())
    }
}

/// Whether each of `ms` can be framed.
pub open spec fn all_encodable(ms: Seq<RecordModel>) -> bool {
    forall|i: int| 0 <= i < ms.len() ==> encodable(#[trigger] ms[i], 0)
}

/// When the pending bytes start with a framed record, the framer's next step
/// delivers exactly that record, with its extended header or without one for
/// any other marker, and consumes exactly its bytes.
pub proof fn lemma_encoded_frame_delivered(
    m: RecordModel,
    marker: u32,
    rest: Seq<u8>,
    e: bool,
    p2: Seq<u8>,
    e2: bool,
    a: Action,
)
    requires
        encodable(m, marker),
        next_step(encode(m, marker) + rest, e, p2, e2, a),
    ensures
        a is Deliver,
        a->Deliver_0@ == m,
        p2 == rest,
        e2 == e,
{
    let s = encode(m, marker) + rest;
    lemma_decode_encoded(m, marker, rest);
    assert(s.skip(wire_len(m) as int) =~= rest);
}

/// Once every byte has been consumed and the source has ended, the framer's
/// next step is the end, and it stays so.
pub proof fn lemma_nothing_left_ends(p2: Seq<u8>, e2: bool, a: Action)
    requires
        next_step(Seq::empty(), true, p2, e2, a),
    ensures
        a is Finish,
        p2 == Seq::<u8>::empty(),
        e2,
{
}

/// Records framed back to back, followed by `tail`, read back as the same
/// records followed by the records of `tail`.
pub proof fn lemma_records_of_encoded(ms: Seq<RecordModel>, tail: Seq<u8>)
    requires
        all_encodable(ms),
    ensures
        records_in(encode_all(ms) + tail) == ms + records_in(tail),
    decreases ms.len(),
{
    if ms.len() == 0 {
        assert(encode_all(ms) + tail =~= tail);
        assert(ms + records_in(tail) =~= records_in(tail));
    } else {
        let e = encode(ms[0], 0);
        let rest = encode_all(ms.drop_first()) + tail;
        assert(all_encodable(ms.drop_first())) by {
            assert forall|i: int| 0 <= i < ms.drop_first().len() implies encodable(
                #[trigger] ms.drop_first()[i],
                0,
            ) by {
                assert(ms.drop_first()[i] == ms[i + 1]);
            }
        }
        lemma_records_of_encoded(ms.drop_first(), tail);
        lemma_decode_encoded(ms[0], 0, rest);
        assert(encode_all(ms) + tail =~= e + rest);
        assert((e + rest).skip(e.len() as int) =~= rest);
        assert(ms =~= seq![ms[0]] + ms.drop_first());
        assert(ms + records_in(tail) =~= seq![ms[0]] + (ms.drop_first() + records_in(tail)));
    }
}

/// Records framed back to back and read until the stream ends come back
/// exactly, whatever the chunks the stream arrives in.
pub proof fn lemma_round_trip(ms: Seq<RecordModel>, chunks: Seq<Seq<u8>>)
    requires
        all_encodable(ms),
        chunks.flatten() == encode_all(ms),
    ensures
        records_in(encode_all(ms)) == ms,
        run(Seq::empty(), false, chunks) == ms,
{
    lemma_records_of_encoded(ms, Seq::empty());
    assert(encode_all(ms) + Seq::<u8>::empty() =~= encode_all(ms));
    assert(ms + Seq::<RecordModel>::empty() =~= ms);
    lemma_run_any_chunking(Seq::empty(), false, chunks);
    assert(Seq::<u8>::empty() + chunks.flatten() =~= encode_all(ms));
}

/// A stream cut short inside a record gives the records before it and then
/// ends: the cut record is never delivered, in part or whole.
pub proof fn lemma_truncated(ms: Seq<RecordModel>, m: RecordModel, marker: u32, k: int)
    requires
        all_encodable(ms),
        encodable(m, marker),
        0 <= k < wire_len(m),
    ensures
        records_in(encode_all(ms) + encode(m, marker).take(k)) == ms,
{
    let t = encode(m, marker).take(k);
    lemma_decode_encoded(m, marker, Seq::empty());
    assert(encode(m, marker) + Seq::<u8>::empty() =~= encode(m, marker));
    if k >= 4 {
        assert(t.subrange(0, 4) =~= le32_bytes(wire_len(m) as int));
        lemma_le32_bytes(wire_len(m) as int, t, 0);
    }
    assert(frame_check(t) is Incomplete);
    lemma_records_of_encoded(ms, t);
    assert(ms + Seq::<RecordModel>::empty() =~= ms);
}

/// A record whose extended-header marker is 20 carries the timestamp, source
/// id and barrier type stored after the marker, and its payload starts after
/// them.
pub proof fn lemma_ext_header_fields(f: Seq<u8>)
    requires
        frame_check(f) is Complete,
        le_u32(f, 8) == EXT_MARKER,
    ensures
        decode_frame(f.take(frame_check(f)->Complete_0 as int)).body_header == Some(
            BodyHeader {
                timestamp: le_u64(f, 12) as u64,
                source_id: le_u32(f, 20) as u32,
                barrier_type: le_u32(f, 24) as u32,
            },
        ),
        decode_frame(f.take(frame_check(f)->Complete_0 as int)).payload == f.subrange(
            28,
            frame_check(f)->Complete_0 as int,
        ),
{
    let n = frame_check(f)->Complete_0 as int;
    let w = f.take(n);
    assert(w.subrange(8, 12) =~= f.subrange(8, 12));
    assert(w[8] == f[8] && w[9] == f[9] && w[10] == f[10] && w[11] == f[11]);
    assert(w[12] == f[12] && w[13] == f[13] && w[14] == f[14] && w[15] == f[15]);
    assert(w[16] == f[16] && w[17] == f[17] && w[18] == f[18] && w[19] == f[19]);
    assert(w[20] == f[20] && w[21] == f[21] && w[22] == f[22] && w[23] == f[23]);
    assert(w[24] == f[24] && w[25] == f[25] && w[26] == f[26] && w[27] == f[27]);
    assert(w.subrange(28, n) =~= f.subrange(28, n));
}

/// A record whose marker is anything but 20 has no extended header, and the
/// four marker bytes are not part of its payload.
pub proof fn lemma_other_marker(f: Seq<u8>)
    requires
        frame_check(f) is Complete,
        le_u32(f, 8) != EXT_MARKER,
    ensures
        decode_frame(f.take(frame_check(f)->Complete_0 as int)).body_header is None,
        decode_frame(f.take(frame_check(f)->Complete_0 as int)).payload == f.subrange(
            12,
            frame_check(f)->Complete_0 as int,
        ),
{
    let n = frame_check(f)->Complete_0 as int;
    let w = f.take(n);
    assert(w[8] == f[8] && w[9] == f[9] && w[10] == f[10] && w[11] == f[11]);
    assert(w.subrange(12, n) =~= f.subrange(12, n));
}

} // verus!
