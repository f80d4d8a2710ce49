use vstd::prelude::*;
use crate::codec::{
    check_frame, decode_frame, decode_record, frame_check, wire_len, FrameCheck, Record, RecordModel,
};

verus! {

/// The outcome of one attempt to get more bytes from a source.
pub enum Fill {
    /// These bytes arrived (possibly none).
    Data(Vec<u8>),
    /// Nothing arrived within the wait; the source is still alive.
    Timeout,
    /// The source is exhausted or failed for good.
    End,
}

/// What the framer asks of its caller next.
pub enum Action {
    /// Here is the next record.
    Deliver(Record),
    /// A whole record is not buffered yet: get more bytes and supply them.
    Fill,
    /// The stream is over; no record will follow.
    Finish,
}

/// The step that `next_action` takes from pending bytes `p` with end flag `e`
/// to `p2` and `e2`, answering `a`.
pub open spec fn next_step(p: Seq<u8>, e: bool, p2: Seq<u8>, e2: bool, a: Action) -> bool {
    match frame_check(p) {
        FrameCheck::Complete(n) => {
            &&& a is Deliver
            &&& a->Deliver_0@ == decode_frame(p.take(n as int))
            &&& wire_len(a->Deliver_0@) == n
            &&& p2 == p.skip(n as int)
            &&& e2 == e
        },
        FrameCheck::Corrupt => a is Finish && p2 == Seq::<u8>::empty() && e2,
        FrameCheck::Incomplete => if e {
            a is Finish && p2 == Seq::<u8>::empty() && e2
        } else {
            a is Fill && p2 == p && !e2
        },
    }
}

/// The records that the stream `s` holds, in order, up to the first place
/// where no whole record can be recognised.
pub open spec fn records_in(s: Seq<u8>) -> Seq<RecordModel>
    decreases s.len(),
{
    match frame_check(s) {
        FrameCheck::Complete(n) => if 0 < n <= s.len() {
            seq![decode_frame(s.take(n as int))] + records_in(s.skip(n as int))
        } else {
            Seq::empty()
        },
        _ => Seq::empty(),
    }
}

/// What taking the fill outcome `fill` does to pending bytes `p` and end flag
/// `e`: new bytes are appended, a timeout changes nothing, an end is recorded.
pub open spec fn supplied(p: Seq<u8>, e: bool, fill: Fill, p2: Seq<u8>, e2: bool) -> bool {
    match fill {
        Fill::Data(v) => p2 == p + v@ && e2 == e,
        Fill::Timeout => p2 == p && e2 == e,
        Fill::End => p2 == p && e2,
    }
}

/// The buffering record framer: a byte buffer of which `[cursor, bytes_in_buffer)`
/// holds the bytes received and not yet returned as records.
pub struct Framer {
    buffer: Vec<u8>,
    cursor: usize,
    bytes_in_buffer: usize,
    ended: bool,
}

impl Framer {
    pub closed spec fn wf(&self) -> bool {
        &&& self.cursor <= self.bytes_in_buffer
        &&& self.bytes_in_buffer == self.buffer@.len()
    }

    /// The bytes received and not yet consumed.
    pub closed spec fn pending(&self) -> Seq<u8> {
        self.buffer@.subrange(self.cursor as int, self.bytes_in_buffer as int)
    }

    /// Whether the source has signalled its end.
    pub closed spec fn ended(&self) -> bool {
        self.ended
    }

    /// A framer with nothing buffered.
    pub fn new() -> (r: Framer)
        ensures
            r.wf(),
            r.pending() == Seq::<u8>::empty(),
            !r.ended(),
    {
        let r = Framer { buffer: Vec::new(), cursor: 0, bytes_in_buffer: 0, ended: false };
        proof {
            assert(r.pending() =~= Seq::<u8>::empty());
        }
        r
    }

    /// Number of bytes received and not yet consumed.
    pub fn buffered(&self) -> (r: usize)
        requires
            self.wf(),
        ensures
            r == self.pending().len(),
    {
        self.bytes_in_buffer - self.cursor
    }

    /// Moves the unconsumed bytes to the start of the buffer.
    fn compact(&mut self)
        requires
            old(self).wf(),
        ensures
            final(self).wf(),
            final(self).cursor == 0,
            final(self).pending() == old(self).pending(),
            final(self).ended == old(self).ended,
    {
        let remaining = self.bytes_in_buffer - self.cursor;
        let ghost before = self.pending();
        let ghost old_buf = self.buffer@;
        let mut j: usize = 0;
        while j < remaining
            invariant
                old(self).wf(),
                self.cursor == old(self).cursor,
                self.bytes_in_buffer == old(self).bytes_in_buffer,
                self.ended == old(self).ended,
                remaining == self.bytes_in_buffer - self.cursor,
                before == old_buf.subrange(self.cursor as int, self.bytes_in_buffer as int),
                self.buffer@.len() == old_buf.len(),
                old_buf.len() == self.bytes_in_buffer,
                0 <= j <= remaining,
                forall|k: int| 0 <= k < j ==> self.buffer@[k] == before[k],
                forall|k: int| j <= k < old_buf.len() ==> self.buffer@[k] == old_buf[k],
            decreases remaining - j,
        {
            let b = self.buffer[self.cursor + j];
            self.buffer.set(j, b);
            j = j + 1;
        }
        self.buffer.truncate(remaining);
        self.bytes_in_buffer = remaining;
        self.cursor = 0;
        proof {
            assert(self.pending() =~= before);
        }
    }

    /// Drops every buffered byte and marks the stream as over.
    fn finish(&mut self)
        requires
            old(self).wf(),
        ensures
            final(self).wf(),
            final(self).pending() == Seq::<u8>::empty(),
            final(self).ended(),
    {
        self.cursor = self.bytes_in_buffer;
        self.ended = true;
        proof {
            assert(self.pending() =~= Seq::<u8>::empty());
        }
    }

    /// Decides the next step: hand out the record at the front of the
    /// pending bytes, ask for more bytes, or end the stream.
    ///
    /// A header that can never describe a record ends the stream, as does an
    /// incomplete record once the source has ended; no partial record is
    /// ever returned.
    pub fn next_action(&mut self) -> (a: Action)
        requires
            old(self).wf(),
        ensures
            final(self).wf(),
            next_step(old(self).pending(), old(self).ended(), final(self).pending(), final(self).ended(), a),
    {
        let check = check_frame(self.buffer.as_slice(), self.cursor, self.bytes_in_buffer);
        match check {
            FrameCheck::Complete(len) => {
                let ghost p = self.pending();
                proof {
                    assert(self.buffer@.subrange(self.cursor as int, self.buffer@.len() as int) =~= p);
                }
                let r = decode_record(self.buffer.as_slice(), self.cursor, len);
                proof {
                    assert(self.buffer@.subrange(self.cursor as int, self.cursor + len) =~= p.take(len as int));
                }
                self.cursor = self.cursor + len;
                proof {
                    assert(self.pending() =~= p.skip(len as int));
                }
                Action::Deliver(r)
            },
            FrameCheck::Corrupt => {
                self.finish();
                Action::Finish
            },
            FrameCheck::Incomplete => {
                if self.ended {
                    self.finish();
                    Action::Finish
                } else {
                    Action::Fill
                }
            },
        }
    }

    /// Takes the outcome of a fill attempt.
    pub fn supply(&mut self, fill: Fill)
        requires
            old(self).wf(),
            fill is Data ==> old(self).pending().len() + fill->Data_0@.len() <= usize::MAX,
        ensures
            final(self).wf(),
            supplied(old(self).pending(), old(self).ended(), fill, final(self).pending(), final(self).ended()),
    {
        match fill {
            Fill::Data(v) => {
                self.compact();
                let ghost start = self.buffer@;
                proof {
                    assert(start =~= self.pending());
                }
                let mut i: usize = 0;
                while i < v.len()
                    invariant
                        self.cursor == 0,
                        self.ended == old(self).ended,
                        self.bytes_in_buffer == start.len(),
                        start.len() + v@.len() <= usize::MAX,
                        0 <= i <= v@.len(),
                        self.buffer@ == start + v@.subrange(0, i as int),
                    decreases v@.len() - i,
                {
                    self.buffer.push(v[i]);
                    i = i + 1;
                    proof {
                        assert(self.buffer@ =~= start + v@.subrange(0, i as int));
                    }
                }
                self.bytes_in_buffer = self.buffer.len();
                proof {
                    assert(v@.subrange(0, v@.len() as int) =~= v@);
                    assert(self.pending() =~= self.buffer@);
                }
            },
            Fill::Timeout => {},
            Fill::End => {
                self.ended = true;
            },
        }
    }
}

} // verus!
