use vstd::prelude::*;
use crate::codec::{decode_frame, frame_check, le_u32, FrameCheck, Record, RecordModel};
use crate::framer::{next_step, records_in, supplied, Action, Fill, Framer};

verus! {

/// The records that a framer delivers from pending bytes `p` and end flag
/// `e` when each request for bytes is answered with the next of `chunks`,
/// and with the end of the stream once they are used up.
pub open spec fn run(p: Seq<u8>, e: bool, chunks: Seq<Seq<u8>>) -> Seq<RecordModel>
    decreases chunks.len(), if e { 0int } else { 1int }, p.len(),
{
    match frame_check(p) {
        FrameCheck::Complete(n) => if 0 < n <= p.len() {
            seq![decode_frame(p.take(n as int))] + run(p.skip(n as int), e, chunks)
        } else {
            Seq::empty()
        },
        FrameCheck::Corrupt => Seq::empty(),
        FrameCheck::Incomplete => if e {
            Seq::empty()
        } else if chunks.len() == 0 {
            run(p, true, chunks)
        } else {
            run(p + chunks[0], e, chunks.drop_first())
        },
    }
}

proof fn lemma_le_u32_prefix(p: Seq<u8>, q: Seq<u8>, i: int)
    requires
        0 <= i,
        i + 4 <= p.len(),
    ensures
        le_u32(p + q, i) == le_u32(p, i),
{
    assert((p + q)[i] == p[i]);
    assert((p + q)[i + 1] == p[i + 1]);
    assert((p + q)[i + 2] == p[i + 2]);
    assert((p + q)[i + 3] == p[i + 3]);
}

/// More bytes after a recognised record, or after a header that can never
/// describe a record, change nothing about it.
pub proof fn lemma_frame_check_extend(p: Seq<u8>, q: Seq<u8>)
    ensures
        frame_check(p) is Complete ==> {
            &&& frame_check(p + q) == frame_check(p)
            &&& (p + q).take(frame_check(p)->Complete_0 as int) == p.take(
                frame_check(p)->Complete_0 as int,
            )
            &&& (p + q).skip(frame_check(p)->Complete_0 as int) == p.skip(
                frame_check(p)->Complete_0 as int,
            ) + q
        },
        frame_check(p) is Corrupt ==> frame_check(p + q) is Corrupt,
{
    if p.len() >= 4 {
        lemma_le_u32_prefix(p, q, 0);
        if le_u32(p, 0) >= 12 && p.len() >= le_u32(p, 0) {
            lemma_le_u32_prefix(p, q, 8);
        }
    }
    if frame_check(p) is Complete {
        let n = frame_check(p)->Complete_0 as int;
        assert((p + q).take(n) =~= p.take(n));
        assert((p + q).skip(n) =~= p.skip(n) + q);
    }
}

/// The records of a stream do not depend on where it is cut: the first
/// record of `p` is the first record of `p + q`, and what follows is read
/// from the rest.
pub proof fn lemma_records_in_extend(p: Seq<u8>, q: Seq<u8>)
    ensures
        frame_check(p) is Complete ==> records_in(p + q) == seq![
            decode_frame(p.take(frame_check(p)->Complete_0 as int)),
        ] + records_in(p.skip(frame_check(p)->Complete_0 as int) + q),
        frame_check(p) is Corrupt ==> records_in(p + q) == Seq::<RecordModel>::empty(),
{
    lemma_frame_check_extend(p, q);
    if frame_check(p) is Complete {
        let n = frame_check(p)->Complete_0 as int;
        assert(0 < n <= p.len());
    }
}

/// Each step of the framer keeps what it will still deliver equal to the
/// records of its pending bytes followed by the bytes not read yet: a
/// delivered record is the first of them, a request for bytes comes only
/// when no whole record is pending and changes nothing, and the end comes
/// only where no record is left.
pub proof fn lemma_step_keeps_records(
    p: Seq<u8>,
    e: bool,
    p2: Seq<u8>,
    e2: bool,
    a: Action,
    unread: Seq<u8>,
)
    requires
        next_step(p, e, p2, e2, a),
        e ==> unread.len() == 0,
    ensures
        a is Deliver ==> records_in(p + unread) == seq![a->Deliver_0@] + records_in(p2 + unread),
        a is Fill ==> frame_check(p) is Incomplete && p2 == p && !e2 && !e,
        a is Finish ==> records_in(p + unread) == Seq::<RecordModel>::empty(),
{
    lemma_records_in_extend(p, unread);
    if e {
        assert(p + unread =~= p);
    }
}

/// Supplying bytes moves them from the unread part of the stream to the
/// pending bytes; a timeout changes nothing.
pub proof fn lemma_supply_keeps_stream(
    p: Seq<u8>,
    e: bool,
    fill: Fill,
    p2: Seq<u8>,
    e2: bool,
    rest: Seq<u8>,
)
    requires
        supplied(p, e, fill, p2, e2),
    ensures
        fill is Data ==> p2 + rest == p + (fill->Data_0@ + rest),
        fill is Timeout ==> p2 == p && e2 == e,
{
    if fill is Data {
        assert(p2 + rest =~= p + (fill->Data_0@ + rest));
    }
}

/// However the stream is cut into chunks, the framer delivers the records of
/// the pending bytes followed by all the chunks.
pub proof fn lemma_run_any_chunking(p: Seq<u8>, e: bool, chunks: Seq<Seq<u8>>)
    requires
        e ==> chunks.len() == 0,
    ensures
        run(p, e, chunks) == records_in(p + chunks.flatten()),
    decreases chunks.len(), if e { 0int } else { 1int }, p.len(),
{
    let q = chunks.flatten();
    lemma_records_in_extend(p, q);
    match frame_check(p) {
        FrameCheck::Complete(n) => {
            lemma_run_any_chunking(p.skip(n as int), e, chunks);
        },
        FrameCheck::Corrupt => {},
        FrameCheck::Incomplete => {
            if e {
                assert(p + q =~= p);
            } else if chunks.len() == 0 {
                lemma_run_any_chunking(p, true, chunks);
            } else {
                lemma_run_any_chunking(p + chunks[0], e, chunks.drop_first());
                assert(q == chunks[0] + chunks.drop_first().flatten());
                assert(p + q =~= (p + chunks[0]) + chunks.drop_first().flatten());
            }
        },
    }
}

/// The stream `s` cut into chunks of one byte each.
pub open spec fn byte_chunks(s: Seq<u8>) -> Seq<Seq<u8>> {
    Seq::new(s.len(), |i: int| seq![s[i]])
}

proof fn lemma_byte_chunks_flatten(s: Seq<u8>)
    ensures
        byte_chunks(s).flatten() == s,
    decreases s.len(),
{
    if s.len() > 0 {
        lemma_byte_chunks_flatten(s.drop_first());
        assert(byte_chunks(s).drop_first() =~= byte_chunks(s.drop_first()));
        assert(s =~= seq![s[0]] + s.drop_first());
    } else {
        assert(s =~= Seq::<u8>::empty());
    }
}

/// Feeding a stream one byte at a time delivers the same records as feeding
/// it whole.
pub proof fn lemma_byte_at_a_time(s: Seq<u8>)
    ensures
        run(Seq::empty(), false, byte_chunks(s)) == run(Seq::empty(), false, seq![s]),
        run(Seq::empty(), false, seq![s]) == records_in(s),
{
    lemma_run_any_chunking(Seq::empty(), false, byte_chunks(s));
    lemma_run_any_chunking(Seq::empty(), false, seq![s]);
    lemma_byte_chunks_flatten(s);
    seq![s].lemma_flatten_one_element();
    assert(Seq::<u8>::empty() + s =~= s);
}

/// While no whole record is pending, a timeout leaves the framer as it was,
/// and its next step is another request for bytes, never the end.
pub proof fn lemma_timeout_is_not_end(
    p: Seq<u8>,
    p2: Seq<u8>,
    e2: bool,
    p3: Seq<u8>,
    e3: bool,
    a: Action,
)
    requires
        frame_check(p) is Incomplete,
        supplied(p, false, Fill::Timeout, p2, e2),
        next_step(p2, e2, p3, e3, a),
    ensures
        a is Fill,
        p3 == p,
        !e3,
{
}

/// The byte sequences that `chunks` hold.
pub open spec fn chunk_views(chunks: Seq<Vec<u8>>) -> Seq<Seq<u8>> {
    chunks.map_values(|c: Vec<u8>| c@)
}

/// What the records `rs` are.
pub open spec fn record_views(rs: Seq<Record>) -> Seq<RecordModel> {
    rs.map_values(|r: Record| r@)
}

proof fn lemma_flatten_skip(cs: Seq<Seq<u8>>, i: int)
    requires
        0 <= i < cs.len(),
    ensures
        cs.skip(i).flatten() == cs[i] + cs.skip(i + 1).flatten(),
{
    assert(cs.skip(i).drop_first() =~= cs.skip(i + 1));
}

/// Reads a finite stream that arrives as `chunks` until it ends, and returns
/// every record it holds: the records of all the chunks' bytes together,
/// however they are cut.
pub fn read_chunks(chunks: &Vec<Vec<u8>>) -> (r: Vec<Record>)
    requires
        chunk_views(chunks@).flatten().len() <= usize::MAX,
    ensures
        record_views(r@) == records_in(chunk_views(chunks@).flatten()),
{
    let ghost cs = chunk_views(chunks@);
    let ghost total = cs.flatten();
    let mut framer = Framer::new();
    let mut out: Vec<Record> = Vec::new();
    let mut i: usize = 0;
    proof {
        assert(cs.skip(0) =~= cs);
        assert(Seq::<u8>::empty() + total =~= total);
        assert(record_views(out@) + records_in(total) =~= records_in(total));
    }
    loop
        invariant
            framer.wf(),
            i <= chunks@.len(),
            cs == chunk_views(chunks@),
            total == cs.flatten(),
            total.len() <= usize::MAX,
            framer.ended() ==> i == chunks@.len(),
            (framer.pending() + cs.skip(i as int).flatten()).len() <= total.len(),
            record_views(out@) + records_in(framer.pending() + cs.skip(i as int).flatten())
                == records_in(total),
        decreases chunks@.len() - i, if framer.ended() { 0int } else { 1int }, framer.pending().len(),
    {
        let ghost p = framer.pending();
        let ghost e = framer.ended();
        let ghost unread = cs.skip(i as int).flatten();
        let a = framer.next_action();
        proof {
            if e {
                assert(cs.skip(i as int) =~= Seq::<Seq<u8>>::empty());
            }
            lemma_step_keeps_records(p, e, framer.pending(), framer.ended(), a, unread);
        }
        match a {
            Action::Deliver(rec) => {
                proof {
                    let n = frame_check(p)->Complete_0 as int;
                    assert(framer.pending() == p.skip(n));
                    assert(record_views(out@.push(rec)) =~= record_views(out@).push(rec@));
                    assert(record_views(out@).push(rec@) + records_in(framer.pending() + unread)
                        =~= record_views(out@) + (seq![rec@] + records_in(framer.pending() + unread)));
                }
                out.push(rec);
            },
            Action::Fill => {
                if i < chunks.len() {
                    let c = chunks[i].clone();
                    let ghost cv = c@;
                    proof {
                        lemma_flatten_skip(cs, i as int);
                        assert(cs[i as int] == cv);
                    }
                    framer.supply(Fill::Data(c));
                    proof {
                        lemma_supply_keeps_stream(
                            p,
                            e,
                            Fill::Data(c),
                            framer.pending(),
                            framer.ended(),
                            cs.skip(i + 1).flatten(),
                        );
                    }
                    i = i + 1;
                } else {
                    proof {
                        assert(cs.skip(i as int) =~= Seq::<Seq<u8>>::empty());
                    }
                    framer.supply(Fill::End);
                }
            },
            Action::Finish => {
                proof {
                    assert(record_views(out@) + Seq::<RecordModel>::empty() =~= record_views(out@));
                }
                return out;
            },
        }
    }
}

} // verus!
