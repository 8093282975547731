//! The ingestion sink: serialization of records to store documents,
//! and the bounded queue between the capture loop and the store
//! writers.
//!
//! The capture loop must never block on a slow write.  The sink is
//! therefore a first-in first-out buffer with an explicit limit:
//! `submit` returns at once, either accepting the document or handing
//! it back when the buffer is full — never dropping it silently — and
//! a fixed number of writer tasks outside the library drain the buffer
//! with `take_next`.  The queue's invariant says that nothing is lost:
//! what was accepted is exactly what was handed to writers followed by
//! what is still pending, in order.

use vstd::prelude::*;

use crate::addr::{format_ip, format_mac, ip_text, mac_text};
use crate::bytes::{dec_text, format_u64};
use crate::record::{format_label, label_text, PacketStruct};
use crate::timestamp::{format_timestamp, timestamp_text};

verus! {

/// The wire shape of one stored packet record: each field in the
/// string or numeric form the document store receives, and the payload
/// as a sequence of small integers.
pub struct PacketDocument {
    pub number: u64,
    pub timestamp: Vec<u8>,
    pub protocol: Vec<u8>,
    pub source_mac: Vec<u8>,
    pub source_ip: Vec<u8>,
    pub source_port: Vec<u8>,
    pub dest_mac: Vec<u8>,
    pub dest_ip: Vec<u8>,
    pub dest_port: Vec<u8>,
    pub length: Vec<u8>,
    pub payload: Vec<i32>,
}

/// The payload bytes, each widened to a small integer.
fn small_ints(p: &Vec<u8>) -> (r: Vec<i32>)
    ensures
        r@.len() == p@.len(),
        forall|i: int| 0 <= i < p@.len() ==> r@[i] == p@[i] as i32,
{
    let mut r: Vec<i32> = Vec::new();
    let mut i: usize = 0;
    while i < p.len()
        invariant
            0 <= i <= p@.len(),
            r@.len() == i,
            forall|j: int| 0 <= j < i ==> r@[j] == p@[j] as i32,
        decreases p@.len() - i,
    {
        r.push(p[i] as i32);
        i = i + 1;
    }
    r
}

/// Serializes one record to the document the store receives: addresses
/// and the timestamp as their canonical text, ports and length as
/// decimal text, the payload as small integers.
pub fn packet_document(r: &PacketStruct) -> (d: PacketDocument)
    ensures
        d.number == r.number,
        d.timestamp@ == timestamp_text(r.time),
        d.protocol@ == label_text(r.protocol),
        d.source_mac@ == mac_text(r.source_mac@),
        d.source_ip@ == ip_text(r.source_ip@),
        d.source_port@ == dec_text(r.source_port as nat),
        d.dest_mac@ == mac_text(r.dest_mac@),
        d.dest_ip@ == ip_text(r.dest_ip@),
        d.dest_port@ == dec_text(r.dest_port as nat),
        d.length@ == dec_text(r.length as nat),
        d.payload@.len() == r.payload@.len(),
        forall|i: int| 0 <= i < r.payload@.len() ==> d.payload@[i] == r.payload@[i] as i32,
{
    PacketDocument {
        number: r.number,
        timestamp: format_timestamp(&r.time),
        protocol: format_label(r.protocol),
        source_mac: format_mac(&r.source_mac),
        source_ip: format_ip(&r.source_ip),
        source_port: format_u64(r.source_port as u64),
        dest_mac: format_mac(&r.dest_mac),
        dest_ip: format_ip(&r.dest_ip),
        dest_port: format_u64(r.dest_port as u64),
        length: format_u64(r.length as u64),
        payload: small_ints(&r.payload),
    }
}

/// What the sink stores as a record's `length`, the analytics side can
/// always read back: the decimal text of the frame length is a digit
/// run denoting exactly that length, and whenever the length fits in a
/// signed 64-bit value — every real frame does — it parses and counts
/// toward a computed total.
pub proof fn lemma_stored_length_parses(r: PacketStruct)
    ensures
        crate::bytes::all_dec_digits(dec_text(r.length as nat)),
        crate::bytes::dec_value(dec_text(r.length as nat)) == r.length,
        r.length <= i64::MAX ==> crate::bytes::fits_dec_i64(dec_text(r.length as nat)),
{
    crate::bytes::lemma_dec_text_value(r.length as nat);
}

/// The first-in first-out buffer between capture and store writers.
///
/// The two ghost histories record every document ever accepted and
/// every document ever handed to a writer; the invariant ties them to
/// the pending buffer.
pub struct IngestQueue {
    pending: Vec<PacketDocument>,
    capacity: usize,
    accepted: Ghost<Seq<PacketDocument>>,
    delivered: Ghost<Seq<PacketDocument>>,
}

impl IngestQueue {
    /// Every document ever accepted, in submission order.
    pub closed spec fn accepted(self) -> Seq<PacketDocument> {
        self.accepted@
    }

    /// Every document handed to a writer so far, in hand-out order.
    pub closed spec fn delivered(self) -> Seq<PacketDocument> {
        self.delivered@
    }

    /// The documents accepted and not yet handed out, oldest first.
    pub closed spec fn pending(self) -> Seq<PacketDocument> {
        self.pending@
    }

    /// The buffer limit the queue was created with.
    pub closed spec fn capacity(self) -> nat {
        self.capacity as nat
    }

    /// Conservation: the accepted history is the delivered history
    /// followed by the pending buffer, and the buffer respects its
    /// limit.
    pub open spec fn wf(self) -> bool {
        self.accepted() == self.delivered() + self.pending() && self.pending().len()
            <= self.capacity()
    }

    /// An empty queue with the given buffer limit.
    pub fn new(capacity: usize) -> (q: IngestQueue)
        ensures
            q.wf(),
            q.capacity() == capacity,
            q.accepted() == Seq::<PacketDocument>::empty(),
            q.delivered() == Seq::<PacketDocument>::empty(),
            q.pending() == Seq::<PacketDocument>::empty(),
    {
        let q = IngestQueue {
            pending: Vec::new(),
            capacity,
            accepted: Ghost(Seq::empty()),
            delivered: Ghost(Seq::empty()),
        };
        proof {
            assert(q.accepted() =~= q.delivered() + q.pending());
        }
        q
    }

    /// How many documents are pending.
    pub fn pending_len(&self) -> (r: usize)
        ensures
            r == self.pending().len(),
    {
        self.pending.len()
    }

    /// Accepts one document without blocking.
    ///
    /// Succeeds exactly when the buffer has room; a document that does
    /// not fit is handed back to the caller unchanged, never dropped
    /// silently.  Either way the call returns at once: the capture
    /// loop never waits on a writer.
    pub fn submit(&mut self, d: PacketDocument) -> (r: Result<(), PacketDocument>)
        requires
            old(self).wf(),
        ensures
            final(self).wf(),
            final(self).capacity() == old(self).capacity(),
            final(self).delivered() == old(self).delivered(),
            if old(self).pending().len() < old(self).capacity() {
                &&& r is Ok
                &&& final(self).accepted() == old(self).accepted().push(d)
                &&& final(self).pending() == old(self).pending().push(d)
            } else {
                &&& r matches Err(back) && back == d
                &&& final(self).accepted() == old(self).accepted()
                &&& final(self).pending() == old(self).pending()
            },
    {
        if self.pending.len() < self.capacity {
            let ghost dd = d;
            self.pending.push(d);
            proof {
                self.accepted@ = self.accepted@.push(dd);
                assert(self.accepted() =~= self.delivered() + self.pending());
            }
            Ok(())
        } else {
            Err(d)
        }
    }

    /// Hands the oldest pending document to a writer, if any.
    pub fn take_next(&mut self) -> (r: Option<PacketDocument>)
        requires
            old(self).wf(),
        ensures
            final(self).wf(),
            final(self).capacity() == old(self).capacity(),
            final(self).accepted() == old(self).accepted(),
            match r {
                Some(d) => {
                    &&& old(self).pending().len() > 0
                    &&& d == old(self).pending()[0]
                    &&& final(self).pending() == old(self).pending().skip(1)
                    &&& final(self).delivered() == old(self).delivered().push(d)
                },
                None => {
                    &&& old(self).pending().len() == 0
                    &&& final(self).pending() == old(self).pending()
                    &&& final(self).delivered() == old(self).delivered()
                },
            },
    {
        if self.pending.len() == 0 {
            None
        } else {
            let d = self.pending.remove(0);
            let ghost dd = d;
            proof {
                self.delivered@ = self.delivered@.push(dd);
                assert(self.pending@ =~= old(self).pending().skip(1));
                assert(self.accepted() =~= self.delivered() + self.pending());
            }
            Some(d)
        }
    }
}

/// Nothing submitted is ever lost: in every reachable queue state the
/// delivered documents are exactly the oldest accepted ones, in order,
/// and the pending buffer is exactly the rest.  Together with `submit`
/// never blocking, this is the sink's safety side: a slow store delays
/// hand-out but cannot corrupt or reorder what the capture loop
/// produced.
pub proof fn lemma_queue_conserves(q: IngestQueue)
    requires
        q.wf(),
    ensures
        q.accepted() == q.delivered() + q.pending(),
        q.delivered() == q.accepted().take(q.delivered().len() as int),
        q.pending() == q.accepted().skip(q.delivered().len() as int),
{
    assert(q.delivered() =~= q.accepted().take(q.delivered().len() as int));
    assert(q.pending() =~= q.accepted().skip(q.delivered().len() as int));
}

} // verus!
