//! Range-query analytics: index management and the total-bytes metric
//! over a closed timestamp interval.
//!
//! The store itself is outside the library.  Index requests are
//! validated here against the fixed field whitelist before anything
//! touches the store, and an index registry models what the store
//! holds, so that repeating a request is provably a no-op.  For the
//! metric, the caller hands in the fetched documents; the aggregation
//! over them — interval filter, length parsing, skipping of missing or
//! unparseable lengths — is all here.

use vstd::prelude::*;

use crate::bytes::{
    bytes_le, dec_value, fits_dec_i64, lemma_dec_value_nonneg, lex_le, parse_dec_i64, slice_range,
};

verus! {

use vstd::string::StringExecFns;

/// Rejections of an index request, found before any store interaction.
#[derive(Clone, Copy, Debug, PartialEq, Eq, Structural)]
pub enum IndexError {
    /// The direction is neither ascending (`1`) nor descending (`-1`).
    InvalidDirection,
    /// The field is not a stored packet field.
    InvalidField,
}

/// The sort direction is one of the two sentinel values.
pub open spec fn valid_index_direction(ascend: int) -> bool {
    ascend == 1 || ascend == -1
}

/// The field is one of the stored packet fields.
pub open spec fn valid_index_field(name: Seq<char>) -> bool {
    ||| name == "_id"@
    ||| name == "number"@
    ||| name == "timestamp"@
    ||| name == "protocol"@
    ||| name == "source_mac"@
    ||| name == "source_ip"@
    ||| name == "source_port"@
    ||| name == "dest_mac"@
    ||| name == "dest_ip"@
    ||| name == "dest_port"@
    ||| name == "length"@
    ||| name == "payload"@
}

/// Decides the field whitelist.
fn is_index_field(field: &String) -> (r: bool)
    ensures
        r == valid_index_field(field@),
{
    field.eq(&String::from_str("_id")) || field.eq(&String::from_str("number")) || field.eq(
        &String::from_str("timestamp"),
    ) || field.eq(&String::from_str("protocol")) || field.eq(&String::from_str("source_mac"))
        || field.eq(&String::from_str("source_ip")) || field.eq(&String::from_str("source_port"))
        || field.eq(&String::from_str("dest_mac")) || field.eq(&String::from_str("dest_ip"))
        || field.eq(&String::from_str("dest_port")) || field.eq(&String::from_str("length"))
        || field.eq(&String::from_str("payload"))
}

/// An index request already granted: a field and a direction.
pub open spec fn registry_contains(entries: Seq<(Seq<char>, int)>, field: Seq<char>, ascend: int) -> bool {
    exists|i: int| 0 <= i < entries.len() && entries[i] == (field, ascend)
}

/// What granting a request does to the granted set: nothing when it is
/// already there, else it is appended.
pub open spec fn registry_after(
    entries: Seq<(Seq<char>, int)>,
    field: Seq<char>,
    ascend: int,
) -> Seq<(Seq<char>, int)> {
    if registry_contains(entries, field, ascend) {
        entries
    } else {
        entries.push((field, ascend))
    }
}

/// Granting the same request twice is the same as granting it once:
/// index creation is idempotent, and the second grant is as much a
/// success as the first.
pub proof fn lemma_create_index_idempotent(
    entries: Seq<(Seq<char>, int)>,
    field: Seq<char>,
    ascend: int,
)
    ensures
        registry_after(registry_after(entries, field, ascend), field, ascend) == registry_after(
            entries,
            field,
            ascend,
        ),
{
    let once = registry_after(entries, field, ascend);
    if !registry_contains(entries, field, ascend) {
        assert(once[once.len() - 1] == (field, ascend));
    }
}

/// The indexes the store holds, as the library models them.
pub struct IndexRegistry {
    entries: Vec<(String, i64)>,
}

impl IndexRegistry {
    /// The granted requests, in grant order.
    pub closed spec fn view_entries(self) -> Seq<(Seq<char>, int)> {
        self.entries@.map_values(|e: (String, i64)| (e.0@, e.1 as int))
    }

    /// A registry with nothing granted.
    pub fn new() -> (r: IndexRegistry)
        ensures
            r.view_entries() == Seq::<(Seq<char>, int)>::empty(),
    {
        let r = IndexRegistry { entries: Vec::new() };
        proof {
            assert(r.view_entries() =~= Seq::<(Seq<char>, int)>::empty());
        }
        r
    }

    /// Grants an index request after local validation.
    ///
    /// The direction must be one of the two sentinel values and the
    /// field must belong to the whitelist; anything else is rejected
    /// here, before any store interaction, with the direction checked
    /// first.  A valid request always succeeds: granting one that is
    /// already granted changes nothing and is no error.
    #[verifier::loop_isolation(false)]
    pub fn create_index(&mut self, field: String, ascend: i64) -> (r: Result<(), IndexError>)
        ensures
            match r {
                Ok(()) => {
                    &&& valid_index_direction(ascend as int)
                    &&& valid_index_field(field@)
                    &&& final(self).view_entries() == registry_after(
                        old(self).view_entries(),
                        field@,
                        ascend as int,
                    )
                },
                Err(e) => {
                    &&& final(self).view_entries() == old(self).view_entries()
                    &&& e == IndexError::InvalidDirection <==> !valid_index_direction(ascend as int)
                    &&& e == IndexError::InvalidField <==> valid_index_direction(ascend as int)
                        && !valid_index_field(field@)
                },
            },
            r is Ok <==> valid_index_direction(ascend as int) && valid_index_field(field@),
    {
        if ascend != 1 && ascend != -1 {
            return Err(IndexError::InvalidDirection);
        }
        if !is_index_field(&field) {
            return Err(IndexError::InvalidField);
        }
        let mut i: usize = 0;
        while i < self.entries.len()
            invariant
                0 <= i <= self.entries@.len(),
                forall|j: int|
                    0 <= j < i ==> self.view_entries()[j] != (field@, ascend as int),
            decreases self.entries@.len() - i,
        {
            if self.entries[i].0.eq(&field) && self.entries[i].1 == ascend {
                proof {
                    assert(self.view_entries()[i as int] == (field@, ascend as int));
                    assert(registry_contains(self.view_entries(), field@, ascend as int));
                }
                return Ok(());
            }
            i = i + 1;
        }
        proof {
            assert(!registry_contains(self.view_entries(), field@, ascend as int));
        }
        let ghost before = self.view_entries();
        self.entries.push((field, ascend));
        proof {
            assert(self.view_entries() =~= before.push((field@, ascend as int)));
        }
        Ok(())
    }

    /// Grants the standing index on the timestamp field, ascending.
    /// Creating it when it already exists is a no-op, not an error.
    pub fn create_timestamp_index(&mut self) -> (r: Result<(), IndexError>)
        ensures
            r is Ok,
            final(self).view_entries() == registry_after(old(self).view_entries(), "timestamp"@, 1),
    {
        self.create_index(String::from_str("timestamp"), 1)
    }
}

// ---------------------------------------------------------------------
// The total-bytes metric
// ---------------------------------------------------------------------

/// One document as fetched back from the store: its timestamp text and
/// its length field, which may be missing.
pub struct FetchedRecord {
    pub timestamp: Vec<u8>,
    pub length: Option<Vec<u8>>,
}

/// The timestamp lies in the closed interval, in the store's
/// lexicographic string order.
pub open spec fn in_interval(ts: Seq<u8>, start: Seq<u8>, end: Seq<u8>) -> bool {
    lex_le(start, ts) && lex_le(ts, end)
}

/// What one fetched document adds to the total: its parsed length if
/// it lies in the interval and the length is present and parses, and
/// nothing otherwise — a missing or unparseable length is skipped, it
/// neither aborts the aggregation nor counts.
pub open spec fn record_contribution(rec: FetchedRecord, start: Seq<u8>, end: Seq<u8>) -> int {
    if in_interval(rec.timestamp@, start, end) {
        match rec.length {
            Some(b) => if fits_dec_i64(b@) {
                dec_value(b@)
            } else {
                0
            },
            None => 0,
        }
    } else {
        0
    }
}

/// The sum of the contributions of all fetched documents.
pub open spec fn total_in_interval(docs: Seq<FetchedRecord>, start: Seq<u8>, end: Seq<u8>) -> int
    decreases docs.len(),
{
    if docs.len() == 0 {
        0
    } else {
        total_in_interval(docs.drop_last(), start, end) + record_contribution(
            docs.last(),
            start,
            end,
        )
    }
}

/// A nonnegative total, capped at the largest signed 64-bit value.
pub open spec fn clamp_i64(x: int) -> int {
    if x > i64::MAX {
        i64::MAX as int
    } else {
        x
    }
}

/// Contributions are never negative, so neither is the total.
pub proof fn lemma_total_nonneg(docs: Seq<FetchedRecord>, start: Seq<u8>, end: Seq<u8>)
    ensures
        total_in_interval(docs, start, end) >= 0,
    decreases docs.len(),
{
    if docs.len() > 0 {
        lemma_total_nonneg(docs.drop_last(), start, end);
        let rec = docs.last();
        if in_interval(rec.timestamp@, start, end) {
            match rec.length {
                Some(b) => {
                    if fits_dec_i64(b@) {
                        lemma_dec_value_nonneg(b@);
                    }
                },
                None => (),
            }
        }
    }
}

/// An interval that matches no fetched document totals zero — and the
/// metric for it is still produced, with value zero.
pub proof fn lemma_total_zero_when_none_match(
    docs: Seq<FetchedRecord>,
    start: Seq<u8>,
    end: Seq<u8>,
)
    requires
        forall|i: int| 0 <= i < docs.len() ==> !in_interval(docs[i].timestamp@, start, end),
    ensures
        total_in_interval(docs, start, end) == 0,
    decreases docs.len(),
{
    if docs.len() > 0 {
        lemma_total_zero_when_none_match(docs.drop_last(), start, end);
    }
}

/// The derived metric document, appended to the metrics store.
pub struct MetricRecord {
    pub start_timestamp: Vec<u8>,
    pub end_timestamp: Vec<u8>,
    pub metric_name: Vec<u8>,
    pub value: i64,
}

/// The name under which the total-bytes metric is stored: `size`.
pub open spec fn metric_total_size_name() -> Seq<u8> {
    seq![115u8, 105u8, 122u8, 101u8]
}

/// Sums the `length` fields of the fetched documents whose timestamp
/// lies within the closed interval, and builds the metric record that
/// captures the interval and the computed total.
///
/// An empty or entirely non-matching fetch totals zero and still
/// yields a metric record with value zero.  A document whose length is
/// missing or unparseable is skipped.  The running total saturates at
/// the largest signed 64-bit value instead of overflowing.
pub fn compute_total_size(
    docs: &Vec<FetchedRecord>,
    start_timestamp: &Vec<u8>,
    end_timestamp: &Vec<u8>,
) -> (r: (i64, MetricRecord))
    ensures
        r.0 == clamp_i64(total_in_interval(docs@, start_timestamp@, end_timestamp@)),
        r.1.value == r.0,
        r.1.start_timestamp@ == start_timestamp@,
        r.1.end_timestamp@ == end_timestamp@,
        r.1.metric_name@ == metric_total_size_name(),
{
    let mut total: i64 = 0;
    let mut i: usize = 0;
    proof {
        assert(docs@.take(0) =~= Seq::<FetchedRecord>::empty());
    }
    while i < docs.len()
        invariant
            0 <= i <= docs@.len(),
            0 <= total,
            total == clamp_i64(total_in_interval(docs@.take(i as int), start_timestamp@, end_timestamp@)),
        decreases docs@.len() - i,
    {
        proof {
            assert(docs@.take(i + 1).drop_last() =~= docs@.take(i as int));
            assert(docs@.take(i + 1).last() == docs@[i as int]);
            lemma_total_nonneg(docs@.take(i as int), start_timestamp@, end_timestamp@);
        }
        let doc = &docs[i];
        if bytes_le(start_timestamp, &doc.timestamp) && bytes_le(&doc.timestamp, end_timestamp) {
            match &doc.length {
                Some(b) => {
                    match parse_dec_i64(b) {
                        Some(v) => {
                            if total > i64::MAX - v {
                                total = i64::MAX;
                            } else {
                                total = total + v;
                            }
                        },
                        None => (),
                    }
                },
                None => (),
            }
        }
        i = i + 1;
    }
    proof {
        assert(docs@.take(i as int) =~= docs@);
    }
    let metric = MetricRecord {
        start_timestamp: clone_bytes(start_timestamp),
        end_timestamp: clone_bytes(end_timestamp),
        metric_name: size_name(),
        value: total,
    };
    (total, metric)
}

/// A copy of a byte string.
fn clone_bytes(v: &Vec<u8>) -> (r: Vec<u8>)
    ensures
        r@ == v@,
{
    let r = slice_range(v, 0, v.len());
    proof {
        assert(v@.subrange(0, v@.len() as int) =~= v@);
    }
    r
}

/// The metric name as a value.
fn size_name() -> (r: Vec<u8>)
    ensures
        r@ == metric_total_size_name(),
{
    let r: Vec<u8> = vec![115u8, 105u8, 122u8, 101u8];
    proof {
        assert(r@ =~= metric_total_size_name());
    }
    r
}

} // verus!
