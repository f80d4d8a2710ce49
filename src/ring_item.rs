use vstd::prelude::*;
use rust_ringitem_format::RingItem;
use crate::codec::{wire_len, BodyHeader, Record};

verus! {

#[verifier::external_type_specification]
#[verifier::external_body]
pub struct ExRingItem(RingItem);

/// The bytes that a ring item holds after its three header fields, as its
/// `payload()` accessor returns them.
pub uninterp spec fn item_payload(r: RingItem) -> Seq<u8>;

/// The size that a ring item records for itself, header fields included.
pub uninterp spec fn item_size(r: RingItem) -> nat;

/// The type tag of a ring item.
pub uninterp spec fn item_type(r: RingItem) -> u32;

/// Whether a ring item's body-header size field announces a body header, as
/// `has_body_header()` returns it.
pub uninterp spec fn item_has_body_header(r: RingItem) -> bool;

/// Timestamp, source id and barrier type of a ring item's body header, as
/// `get_bodyheader()` returns them.
pub uninterp spec fn item_body_header(r: RingItem) -> Option<(u64, u32, u32)>;

/// Relies on `RingItem::new`: an item of type `t` with no body header, an
/// empty payload and a size of three `u32` fields.
pub assume_specification[ RingItem::new ](t: u32) -> (r: RingItem)
    ensures
        item_type(r) == t,
        !item_has_body_header(r),
        item_body_header(r) == None::<(u64, u32, u32)>,
        item_payload(r) == Seq::<u8>::empty(),
        item_size(r) == 12,
;

/// Relies on `RingItem::new_with_body_header`: the body header is stored as
/// the first 16 payload bytes and read back unchanged by `get_bodyheader`.
pub assume_specification[ RingItem::new_with_body_header ](
    t: u32,
    stamp: u64,
    source: u32,
    barrier: u32,
) -> (r: RingItem)
    ensures
        item_type(r) == t,
        item_has_body_header(r),
        item_body_header(r) == Some((stamp, source, barrier)),
        item_payload(r).len() == 16,
        item_size(r) == 28,
;

/// Relies on `RingItem::add_byte_vec`: appends the bytes to the payload and
/// grows the `u32` size by their number, which must not overflow. The body
/// header is read from the first 16 payload bytes, so it is kept only where
/// they are already there.
pub assume_specification[ RingItem::add_byte_vec ](r: &mut RingItem, v: &Vec<u8>)
    requires
        item_size(*old(r)) + v@.len() <= u32::MAX,
        item_has_body_header(*old(r)) ==> item_payload(*old(r)).len() >= 16,
    ensures
        item_type(*final(r)) == item_type(*old(r)),
        item_has_body_header(*final(r)) == item_has_body_header(*old(r)),
        item_body_header(*final(r)) == item_body_header(*old(r)),
        item_payload(*final(r)) == item_payload(*old(r)) + v@,
        item_size(*final(r)) == item_size(*old(r)) + v@.len(),
;

/// The body header as the ring item format hands it out.
pub open spec fn header_fields(h: Option<BodyHeader>) -> Option<(u64, u32, u32)> {
    match h {
        Some(b) => Some((b.timestamp, b.source_id, b.barrier_type)),
        None => None,
    }
}

impl Record {
    /// Builds the ring item of the format library that holds this record.
    pub fn to_ring_item(&self) -> (r: RingItem)
        requires
            wire_len(self@) <= u32::MAX,
        ensures
            item_type(r) == self.type_id,
            item_has_body_header(r) == self.body_header is Some,
            item_body_header(r) == header_fields(self.body_header),
            item_size(r) == wire_len(self@),
            self.body_header is None ==> item_payload(r) == self.payload@,
            self.body_header is Some ==> item_payload(r).len() == 16 + self.payload@.len()
                && item_payload(r).skip(16) == self.payload@,
    {
        let mut item = match self.body_header {
            Some(h) => RingItem::new_with_body_header(
                self.type_id,
                h.timestamp,
                h.source_id,
                h.barrier_type,
            ),
            None => RingItem::new(self.type_id),
        };
        let ghost before = item_payload(item);
        item.add_byte_vec(&self.payload);
        proof {
            assert((before + self.payload@).skip(before.len() as int) =~= self.payload@);
        }
        item
    }
}

} // verus!
