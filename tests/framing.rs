use data_source::codec::{BodyHeader, Record};
use data_source::framer::{Action, Fill, Framer};
use data_source::stream::read_chunks;

fn le32(v: u32) -> Vec<u8> {
    v.to_le_bytes().to_vec()
}

fn plain_frame(type_id: u32, marker: u32, payload: &[u8]) -> Vec<u8> {
    let mut f = le32(12 + payload.len() as u32);
    f.extend(le32(type_id));
    f.extend(le32(marker));
    f.extend_from_slice(payload);
    f
}

fn ext_frame(type_id: u32, stamp: u64, source: u32, barrier: u32, payload: &[u8]) -> Vec<u8> {
    let mut f = le32(28 + payload.len() as u32);
    f.extend(le32(type_id));
    f.extend(le32(20));
    f.extend(stamp.to_le_bytes());
    f.extend(le32(source));
    f.extend(le32(barrier));
    f.extend_from_slice(payload);
    f
}

/// Feeds `chunks` in order, then the end, and collects every record.
fn read_all(chunks: Vec<Vec<u8>>) -> Vec<Record> {
    let mut framer = Framer::new();
    let mut chunks = chunks.into_iter();
    let mut out = Vec::new();
    loop {
        match framer.next_action() {
            Action::Deliver(r) => out.push(r),
            Action::Fill => match chunks.next() {
                Some(c) => framer.supply(Fill::Data(c)),
                None => framer.supply(Fill::End),
            },
            Action::Finish => return out,
        }
    }
}

fn same(a: &Record, b: &Record) -> bool {
    a.type_id == b.type_id && a.body_header == b.body_header && a.payload == b.payload
}

#[test]
fn minimal_frame_consumes_twelve_bytes() {
    let mut framer = Framer::new();
    framer.supply(Fill::Data(vec![
        0x0C, 0, 0, 0, 0x01, 0, 0, 0, 0, 0, 0, 0, 0xAA, 0xBB,
    ]));
    assert_eq!(framer.buffered(), 14);
    match framer.next_action() {
        Action::Deliver(r) => {
            assert_eq!(r.type_id, 1);
            assert!(r.body_header.is_none());
            assert!(r.payload.is_empty());
        }
        _ => panic!("expected a record"),
    }
    assert_eq!(framer.buffered(), 2);
}

#[test]
fn two_byte_payload_record() {
    let bytes = vec![0x0E, 0, 0, 0, 0x01, 0, 0, 0, 0, 0, 0, 0, 0xAA, 0xBB];
    let recs = read_all(vec![bytes]);
    assert_eq!(recs.len(), 1);
    assert_eq!(recs[0].type_id, 1);
    assert!(recs[0].body_header.is_none());
    assert_eq!(recs[0].payload, vec![0xAA, 0xBB]);
}

#[test]
fn extended_header_fields_come_back() {
    let f = ext_frame(30, 0x0102_0304_0506_0708, 7, 3, &[9, 8, 7]);
    let recs = read_all(vec![f]);
    assert_eq!(recs.len(), 1);
    assert_eq!(recs[0].type_id, 30);
    assert_eq!(
        recs[0].body_header,
        Some(BodyHeader { timestamp: 0x0102_0304_0506_0708, source_id: 7, barrier_type: 3 })
    );
    assert_eq!(recs[0].payload, vec![9, 8, 7]);
}

#[test]
fn other_marker_means_no_extended_header() {
    let f = plain_frame(2, 16, &[1, 2, 3, 4, 5, 6, 7, 8, 9, 10, 11, 12, 13, 14, 15, 16]);
    let recs = read_all(vec![f]);
    assert_eq!(recs.len(), 1);
    assert!(recs[0].body_header.is_none());
    assert_eq!(recs[0].payload.len(), 16);
    assert_eq!(recs[0].payload[0], 1);
}

#[test]
fn back_to_back_records_round_trip() {
    let mut stream = plain_frame(1, 0, &[0xAA]);
    stream.extend(ext_frame(2, 99, 4, 0, &[1, 2]));
    stream.extend(plain_frame(3, 0, &[]));
    let recs = read_all(vec![stream]);
    assert_eq!(recs.len(), 3);
    assert_eq!(recs[0].type_id, 1);
    assert_eq!(recs[0].payload, vec![0xAA]);
    assert_eq!(recs[1].type_id, 2);
    assert_eq!(recs[1].body_header.unwrap().timestamp, 99);
    assert_eq!(recs[1].payload, vec![1, 2]);
    assert_eq!(recs[2].type_id, 3);
    assert!(recs[2].payload.is_empty());
}

#[test]
fn one_byte_chunks_match_whole_stream() {
    let mut stream = ext_frame(5, 1234, 2, 1, &[5, 6, 7, 8]);
    stream.extend(plain_frame(6, 0, &[1, 2, 3]));
    let whole = read_all(vec![stream.clone()]);
    let bytewise = read_all(stream.iter().map(|b| vec![*b]).collect());
    assert_eq!(whole.len(), 2);
    assert_eq!(bytewise.len(), 2);
    for (a, b) in whole.iter().zip(bytewise.iter()) {
        assert!(same(a, b));
    }
}

#[test]
fn truncated_stream_ends_without_partial_record() {
    let mut stream = plain_frame(1, 0, &[1, 2]);
    let second = plain_frame(2, 0, &[3, 4, 5, 6]);
    stream.extend_from_slice(&second[..10]);
    let recs = read_all(vec![stream]);
    assert_eq!(recs.len(), 1);
    assert_eq!(recs[0].type_id, 1);
}

#[test]
fn stream_cut_inside_length_field_ends() {
    let recs = read_all(vec![vec![0x20, 0]]);
    assert!(recs.is_empty());
}

#[test]
fn empty_stream_ends_at_once() {
    let recs = read_all(vec![]);
    assert!(recs.is_empty());
}

#[test]
fn too_short_length_ends_stream() {
    let mut stream = le32(8);
    stream.extend(le32(1));
    stream.extend(plain_frame(2, 0, &[]));
    let recs = read_all(vec![stream]);
    assert!(recs.is_empty());
}

#[test]
fn extended_marker_without_room_ends_stream() {
    let recs = read_all(vec![plain_frame(1, 20, &[0, 0, 0, 0])]);
    assert!(recs.is_empty());
}

#[test]
fn timeouts_then_data_deliver_record() {
    let f = plain_frame(9, 0, &[1, 2, 3]);
    let mut framer = Framer::new();
    framer.supply(Fill::Data(f[..5].to_vec()));
    for _ in 0..5 {
        match framer.next_action() {
            Action::Fill => framer.supply(Fill::Timeout),
            _ => panic!("expected a request for bytes"),
        }
    }
    framer.supply(Fill::Data(f[5..].to_vec()));
    match framer.next_action() {
        Action::Deliver(r) => {
            assert_eq!(r.type_id, 9);
            assert_eq!(r.payload, vec![1, 2, 3]);
        }
        _ => panic!("expected a record"),
    }
}

#[test]
fn ring_item_holds_record() {
    let rec = Record {
        type_id: 30,
        body_header: Some(BodyHeader { timestamp: 77, source_id: 5, barrier_type: 2 }),
        payload: vec![1, 2, 3],
    };
    let item = rec.to_ring_item();
    assert_eq!(item.type_id(), 30);
    assert_eq!(item.size(), 31);
    let bh = item.get_bodyheader().unwrap();
    assert_eq!(bh.timestamp, 77);
    assert_eq!(bh.source_id, 5);
    assert_eq!(bh.barrier_type, 2);
    assert_eq!(item.payload()[16..].to_vec(), vec![1, 2, 3]);

    let plain = Record { type_id: 4, body_header: None, payload: vec![0xAA, 0xBB] };
    let item = plain.to_ring_item();
    assert_eq!(item.type_id(), 4);
    assert_eq!(item.size(), 14);
    assert!(!item.has_body_header());
    assert_eq!(item.payload().clone(), vec![0xAA, 0xBB]);
}

#[test]
fn read_chunks_any_cut() {
    let mut stream = plain_frame(1, 0, &[0xAA]);
    stream.extend(ext_frame(2, 5, 6, 7, &[1]));
    let whole = read_chunks(&vec![stream.clone()]);
    let cut = read_chunks(&vec![stream[..3].to_vec(), vec![], stream[3..20].to_vec(), stream[20..].to_vec()]);
    let bytewise = read_chunks(&stream.iter().map(|b| vec![*b]).collect());
    assert_eq!(whole.len(), 2);
    assert_eq!(cut.len(), 2);
    assert_eq!(bytewise.len(), 2);
    for i in 0..2 {
        assert!(same(&whole[i], &cut[i]));
        assert!(same(&whole[i], &bytewise[i]));
    }
    assert_eq!(whole[1].body_header, Some(BodyHeader { timestamp: 5, source_id: 6, barrier_type: 7 }));
    assert!(read_chunks(&vec![]).is_empty());
}
