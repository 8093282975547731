//! The capture run: interface resolution, channel acceptance, and the
//! loop that turns frame-read attempts into numbered records.
//!
//! The run makes exactly `target_count` read attempts.  A failed read
//! is logged by the caller and skipped: it consumes an attempt but no
//! sequence number, so the numbers of the produced records are exactly
//! one up to the number of successful reads, in draw order.  The device
//! itself lives outside the library; the caller feeds each attempt's
//! outcome in as an event.

use vstd::prelude::*;

use crate::clock::current_timestamp;
use crate::dissect::{parse_packet, record_fields, spec_dissect};
use crate::record::PacketStruct;
use crate::timestamp::Timestamp;

verus! {

/// What one capture run is asked to do; immutable for its duration.
pub struct CaptureConfig {
    pub interface_name: String,
    pub target_count: u64,
}

/// The fatal, run-aborting failures.  Per-frame read errors are not
/// among them: those stay inside the run.
#[derive(Clone, Copy, Debug, PartialEq, Eq, Structural)]
pub enum CaptureError {
    /// No visible interface bears the configured name.
    InterfaceNotFound,
    /// The capture channel is not a plain link-layer channel.
    UnsupportedChannel,
    /// The device refused to open a channel at all.
    ChannelOpenFailed,
}

/// What opening the capture channel yielded, as the device layer
/// reports it.
#[derive(Clone, Copy, Debug, PartialEq, Eq, Structural)]
pub enum ChannelOutcome {
    /// A plain link-layer channel: the only kind the pipeline accepts.
    Ethernet,
    /// A channel of any other kind.
    Other,
    /// No channel could be opened.
    OpenFailed,
}

/// The outcome of one frame-read attempt.
#[derive(Debug)]
pub enum FrameEvent {
    /// A frame arrived, with its raw bytes.
    Frame(Vec<u8>),
    /// The read failed; the attempt is spent, nothing is produced.
    ReadError,
}

/// Finds the configured interface among the visible ones.
///
/// Returns the index of the first interface with exactly the requested
/// name, and fails — fatally, the run never starts — when no name
/// matches.
pub fn resolve_interface(name: &String, available: &Vec<String>) -> (r: Result<
    usize,
    CaptureError,
>)
    ensures
        match r {
            Ok(i) => i < available@.len() && available@[i as int]@ == name@ && (forall|j: int|
                0 <= j < i ==> available@[j]@ != name@),
            Err(e) => e == CaptureError::InterfaceNotFound && (forall|j: int|
                0 <= j < available@.len() ==> available@[j]@ != name@),
        },
{
    let mut i: usize = 0;
    while i < available.len()
        invariant
            0 <= i <= available@.len(),
            forall|j: int| 0 <= j < i ==> available@[j]@ != name@,
        decreases available@.len() - i,
    {
        if available[i].eq(name) {
            return Ok(i);
        }
        i = i + 1;
    }
    Err(CaptureError::InterfaceNotFound)
}

// ---------------------------------------------------------------------
// Counting frames among events
// ---------------------------------------------------------------------

/// How many of the events carry a frame.
pub open spec fn count_frames(evs: Seq<FrameEvent>) -> int
    decreases evs.len(),
{
    if evs.len() == 0 {
        0
    } else {
        (match evs[0] {
            FrameEvent::Frame(_) => 1int,
            FrameEvent::ReadError => 0int,
        }) + count_frames(evs.skip(1))
    }
}

/// The bytes of the `k`-th frame-carrying event, counting from zero.
pub open spec fn nth_frame(evs: Seq<FrameEvent>, k: int) -> Seq<u8>
    decreases evs.len(),
{
    if evs.len() == 0 {
        Seq::empty()
    } else {
        match evs[0] {
            FrameEvent::Frame(b) => if k == 0 {
                b@
            } else {
                nth_frame(evs.skip(1), k - 1)
            },
            FrameEvent::ReadError => nth_frame(evs.skip(1), k),
        }
    }
}

/// The frame count lies between zero and the event count.
pub proof fn lemma_count_frames_bounds(evs: Seq<FrameEvent>)
    ensures
        0 <= count_frames(evs) <= evs.len(),
    decreases evs.len(),
{
    if evs.len() > 0 {
        lemma_count_frames_bounds(evs.skip(1));
    }
}

/// Appending one event raises the frame count by one exactly when the
/// event carries a frame.
pub proof fn lemma_count_frames_push(evs: Seq<FrameEvent>, e: FrameEvent)
    ensures
        count_frames(evs.push(e)) == count_frames(evs) + (match e {
            FrameEvent::Frame(_) => 1int,
            FrameEvent::ReadError => 0int,
        }),
    decreases evs.len(),
{
    if evs.len() == 0 {
        assert(evs.push(e)[0] == e);
        assert(evs.push(e).skip(1) =~= Seq::<FrameEvent>::empty());
        assert(count_frames(Seq::<FrameEvent>::empty()) == 0);
        assert(count_frames(evs) == 0);
    } else {
        assert(evs.push(e).skip(1) =~= evs.skip(1).push(e));
        lemma_count_frames_push(evs.skip(1), e);
    }
}

/// Appending one event leaves the earlier frames where they were, and
/// a frame-carrying event becomes the next frame.
pub proof fn lemma_nth_frame_push(evs: Seq<FrameEvent>, e: FrameEvent, k: int)
    ensures
        0 <= k < count_frames(evs) ==> nth_frame(evs.push(e), k) == nth_frame(evs, k),
        e matches FrameEvent::Frame(b) ==> (k == count_frames(evs) ==> nth_frame(evs.push(e), k)
            == b@),
    decreases evs.len(),
{
    lemma_count_frames_bounds(evs);
    if evs.len() == 0 {
        assert(evs.push(e)[0] == e);
        assert(evs.push(e).skip(1) =~= Seq::<FrameEvent>::empty());
        assert(count_frames(Seq::<FrameEvent>::empty()) == 0);
        assert(count_frames(evs) == 0);
    } else {
        assert(evs.push(e).skip(1) =~= evs.skip(1).push(e));
        assert(evs.push(e)[0] == evs[0]);
        lemma_count_frames_bounds(evs.skip(1));
        match evs[0] {
            FrameEvent::Frame(_) => {
                assert(count_frames(evs) == 1 + count_frames(evs.skip(1)));
                lemma_nth_frame_push(evs.skip(1), e, k - 1);
            },
            FrameEvent::ReadError => {
                assert(count_frames(evs) == count_frames(evs.skip(1)));
                lemma_nth_frame_push(evs.skip(1), e, k);
            },
        }
    }
}

// ---------------------------------------------------------------------
// The run
// ---------------------------------------------------------------------

/// One capture run in progress.  `attempts` counts the read attempts
/// made so far, `produced` the records dissected; the next record gets
/// sequence number `produced + 1`.
pub struct CaptureRun {
    pub target_count: u64,
    pub attempts: u64,
    pub produced: u64,
    pub cancelled: bool,
}

impl CaptureRun {
    /// Attempts never outrun the target, and every record came from an
    /// attempt.
    pub open spec fn wf(self) -> bool {
        self.produced <= self.attempts <= self.target_count
    }

    /// The run is over: the attempt budget is spent or the run was
    /// cancelled.
    pub open spec fn done(self) -> bool {
        self.attempts == self.target_count || self.cancelled
    }

    /// Accepts the channel the device layer opened, and starts a run
    /// on it.  Anything but a plain link-layer channel aborts the run
    /// with a fatal configuration error.
    pub fn begin(config: &CaptureConfig, channel: ChannelOutcome) -> (r: Result<
        CaptureRun,
        CaptureError,
    >)
        ensures
            match r {
                Ok(run) => channel == ChannelOutcome::Ethernet && run == (CaptureRun {
                    target_count: config.target_count,
                    attempts: 0,
                    produced: 0,
                    cancelled: false,
                }),
                Err(e) => match channel {
                    ChannelOutcome::Ethernet => false,
                    ChannelOutcome::Other => e == CaptureError::UnsupportedChannel,
                    ChannelOutcome::OpenFailed => e == CaptureError::ChannelOpenFailed,
                },
            },
    {
        match channel {
            ChannelOutcome::Ethernet => Ok(
                CaptureRun {
                    target_count: config.target_count,
                    attempts: 0,
                    produced: 0,
                    cancelled: false,
                },
            ),
            ChannelOutcome::Other => Err(CaptureError::UnsupportedChannel),
            ChannelOutcome::OpenFailed => Err(CaptureError::ChannelOpenFailed),
        }
    }

    /// Whether the run still accepts attempts.
    pub fn is_done(&self) -> (r: bool)
        ensures
            r == self.done(),
    {
        self.attempts == self.target_count || self.cancelled
    }

    /// Stops the run early.  In-flight work elsewhere may finish, but
    /// this run accepts no further attempt.
    pub fn cancel(&mut self)
        ensures
            final(self).cancelled,
            final(self).target_count == old(self).target_count,
            final(self).attempts == old(self).attempts,
            final(self).produced == old(self).produced,
    {
        self.cancelled = true;
    }

    /// Makes one read attempt count.
    ///
    /// A frame is dissected under the next sequence number; a read
    /// error consumes the attempt and nothing else — it neither gets a
    /// sequence number nor changes the records produced so far.
    pub fn step(&mut self, event: &FrameEvent, now: Timestamp) -> (r: Option<PacketStruct>)
        requires
            old(self).wf(),
            !old(self).done(),
        ensures
            final(self).wf(),
            final(self).target_count == old(self).target_count,
            final(self).cancelled == old(self).cancelled,
            final(self).attempts == old(self).attempts + 1,
            match *event {
                FrameEvent::Frame(f) => {
                    &&& final(self).produced == old(self).produced + 1
                    &&& r matches Some(rec)
                    &&& rec.number == old(self).produced + 1
                    &&& rec.time == now
                    &&& rec.length == f@.len()
                    &&& record_fields(rec) == spec_dissect(f@)
                },
                FrameEvent::ReadError => final(self).produced == old(self).produced && r is None,
            },
    {
        self.attempts = self.attempts + 1;
        match event {
            FrameEvent::Frame(f) => {
                let seqno = self.produced + 1;
                self.produced = seqno;
                Some(parse_packet(&f, seqno, now))
            },
            FrameEvent::ReadError => None,
        }
    }
}

/// Runs a whole capture over a sequence of read outcomes, timestamping
/// each frame from the clock.
///
/// The run stops after `target_count` attempts, or earlier when the
/// outcomes run out.  The produced records' sequence numbers are
/// exactly one up to the number of frames among the attempts made, in
/// draw order, with no gaps and no repeats: failed reads consume no
/// sequence number.
pub fn run_capture(target_count: u64, events: Vec<FrameEvent>) -> (records: Vec<PacketStruct>)
    ensures
        ({
            let n = vstd::math::min(target_count as int, events@.len() as int);
            &&& records@.len() == count_frames(events@.take(n))
            &&& forall|i: int|
                0 <= i < records@.len() ==> (#[trigger] records@[i]).number == i + 1
            &&& forall|i: int|
                0 <= i < records@.len() ==> record_fields(#[trigger] records@[i]) == spec_dissect(
                    nth_frame(events@.take(n), i),
                ) && records@[i].length == nth_frame(events@.take(n), i).len()
                    && records@[i].time.valid()
        }),
{
    let mut run = CaptureRun {
        target_count,
        attempts: 0,
        produced: 0,
        cancelled: false,
    };
    let mut records: Vec<PacketStruct> = Vec::new();
    let mut idx: usize = 0;
    proof {
        assert(events@.take(0) =~= Seq::<FrameEvent>::empty());
    }
    while idx < events.len() && run.attempts < run.target_count
        invariant
            run.target_count == target_count,
            run.wf(),
            !run.cancelled,
            run.attempts == idx,
            idx <= events@.len(),
            idx <= target_count,
            records@.len() == run.produced,
            records@.len() == count_frames(events@.take(idx as int)),
            forall|i: int| 0 <= i < records@.len() ==> (#[trigger] records@[i]).number == i + 1,
            forall|i: int|
                0 <= i < records@.len() ==> record_fields(#[trigger] records@[i]) == spec_dissect(
                    nth_frame(events@.take(idx as int), i),
                ) && records@[i].length == nth_frame(events@.take(idx as int), i).len()
                    && records@[i].time.valid(),
        decreases events@.len() - idx,
    {
        proof {
            lemma_count_frames_bounds(events@.take(idx as int));
            assert(events@.take(idx + 1) =~= events@.take(idx as int).push(events@[idx as int]));
            lemma_count_frames_push(events@.take(idx as int), events@[idx as int]);
        }
        let now = current_timestamp();
        match run.step(&events[idx], now) {
            Some(rec) => {
                records.push(rec);
            },
            None => (),
        }
        proof {
            assert forall|i: int| 0 <= i < records@.len() implies record_fields(
                #[trigger] records@[i],
            ) == spec_dissect(nth_frame(events@.take(idx + 1), i)) && records@[i].length
                == nth_frame(events@.take(idx + 1), i).len() && records@[i].time.valid() by {
                lemma_nth_frame_push(events@.take(idx as int), events@[idx as int], i);
            }
        }
        idx = idx + 1;
    }
    proof {
        let n = vstd::math::min(target_count as int, events@.len() as int);
        assert(events@.take(idx as int) =~= events@.take(n));
    }
    records
}

} // verus!
