//! A trace: its events in the order of the file, and its metadata. Processes, timing
//! and the histogram of the timestamps are worked out anew on every call.

use vstd::prelude::*;
use crate::event::{EventView, TraceEvents};
use crate::histogram::{Histogram, HistogramError, HistogramView};
use crate::json::{Json, JsonValue};

verus! {

/// The number of buckets of the histogram of the timestamps.
pub const NUM_BUCKETS: usize = 100;

/// A trace as it is read from a file.
#[derive(Debug, PartialEq)]
pub struct Trace {
    pub trace_events: Vec<TraceEvents>,
    pub metadata: JsonValue,
}

/// What a trace holds.
#[verifier::ext_equal]
pub struct TraceView {
    pub events: Seq<EventView>,
    pub metadata: Json,
}

/// The span of the timestamps of a trace, in microseconds. Timestamps of 0 do not count.
#[derive(Debug, Clone, Copy, PartialEq, Eq, Structural)]
pub struct Timing {
    /// The latest timestamp less the earliest.
    pub duration: u64,
    /// The earliest timestamp, 0 where there is none.
    pub min_timestamp: u64,
    /// The latest timestamp, 0 where there is none.
    pub max_timestamp: u64,
}

/// The events of a list, each by its view.
pub open spec fn events_view(events: Seq<TraceEvents>) -> Seq<EventView> {
    Seq::new(events.len(), |i: int| events[i]@)
}

/// The events that a list of references points to, each by its view.
pub open spec fn refs_view(refs: Seq<&TraceEvents>) -> Seq<EventView> {
    Seq::new(refs.len(), |i: int| (*refs[i])@)
}

impl View for Trace {
    type V = TraceView;

    open spec fn view(&self) -> TraceView {
        TraceView { events: events_view(self.trace_events@), metadata: self.metadata@ }
    }
}

/// The line that says when a trace was captured and by which version of the product:
/// the metadata members `trace-capture-datetime` and `product-version`, each empty where
/// it is missing or no string.
pub open spec fn info_of(metadata: Json) -> Seq<char> {
    "captured="@ + metadata.text_at("trace-capture-datetime"@) + ", version="@ + metadata.text_at(
        "product-version"@,
    )
}

/// Whether an event is bookkeeping of the trace: its category is `__metadata`.
pub open spec fn is_metadata(e: EventView) -> bool {
    e.cat == "__metadata"@
}

/// `is_metadata` as a function value.
pub open spec fn metadata_pred() -> spec_fn(EventView) -> bool {
    |e: EventView| is_metadata(e)
}

/// The metadata events among `events`, in their order.
pub open spec fn metadata_of(events: Seq<EventView>) -> Seq<EventView> {
    events.filter(metadata_pred())
}

/// `is_metadata` of an event as it is held.
pub open spec fn held_metadata_pred() -> spec_fn(TraceEvents) -> bool {
    |e: TraceEvents| is_metadata(e@)
}

/// The events that a list of references points to.
pub open spec fn targets(refs: Seq<&TraceEvents>) -> Seq<TraceEvents> {
    Seq::new(refs.len(), |i: int| *refs[i])
}

/// The timestamps of `events`, in their order.
pub open spec fn timestamps(events: Seq<EventView>) -> Seq<u64> {
    Seq::new(events.len(), |i: int| events[i].ts)
}

/// Whether a timestamp is set.
pub open spec fn nonzero_pred() -> spec_fn(u64) -> bool {
    |t: u64| t != 0
}

/// The timestamps of `events` that are set, in their order.
pub open spec fn set_timestamps(events: Seq<EventView>) -> Seq<u64> {
    timestamps(events).filter(nonzero_pred())
}

/// The smallest timestamp of `ts` that is not 0; 0 where there is none.
pub open spec fn earliest(ts: Seq<u64>) -> u64
    decreases ts.len(),
{
    if ts.len() == 0 {
        0
    } else {
        let rest = earliest(ts.drop_last());
        let t = ts.last();
        if t != 0 && (rest == 0 || t < rest) {
            t
        } else {
            rest
        }
    }
}

/// The largest timestamp of `ts`; 0 where there is none.
pub open spec fn latest(ts: Seq<u64>) -> u64
    decreases ts.len(),
{
    if ts.len() == 0 {
        0
    } else {
        let rest = latest(ts.drop_last());
        let t = ts.last();
        if t > rest {
            t
        } else {
            rest
        }
    }
}

/// The timing of `events`.
pub open spec fn timing_of(events: Seq<EventView>) -> Timing {
    let min = earliest(timestamps(events));
    let max = latest(timestamps(events));
    Timing { duration: (max - min) as u64, min_timestamp: min, max_timestamp: max }
}

/// The histogram of the timestamps of `events`: `NUM_BUCKETS` buckets from the earliest
/// to the latest timestamp, and every timestamp that is set as a sample. `None` where
/// the latest timestamp is not after the earliest.
pub open spec fn timing_histogram_of(events: Seq<EventView>) -> Option<HistogramView> {
    let timing = timing_of(events);
    if timing.min_timestamp < timing.max_timestamp {
        Some(
            HistogramView::empty(
                timing.min_timestamp as int,
                timing.max_timestamp as int,
                NUM_BUCKETS as nat,
            ).record_all(set_timestamps(events)),
        )
    } else {
        None
    }
}

/// What `earliest` and `latest` are: where no timestamp is set both are 0; else both are
/// timestamps of the list, and every timestamp that is set lies between them.
pub proof fn lemma_earliest_latest(ts: Seq<u64>)
    ensures
        (forall|i: int| 0 <= i < ts.len() ==> ts[i] == 0) ==> earliest(ts) == 0 && latest(ts) == 0,
        (exists|i: int| 0 <= i < ts.len() && ts[i] != 0) ==> {
            &&& earliest(ts) != 0
            &&& exists|i: int| 0 <= i < ts.len() && ts[i] == earliest(ts)
            &&& exists|i: int| 0 <= i < ts.len() && ts[i] == latest(ts)
        },
        forall|i: int| 0 <= i < ts.len() && ts[i] != 0 ==> earliest(ts) <= #[trigger] ts[i],
        forall|i: int| 0 <= i < ts.len() ==> #[trigger] ts[i] <= latest(ts),
        earliest(ts) <= latest(ts),
    decreases ts.len(),
{
    if ts.len() > 0 {
        let front = ts.drop_last();
        let last = ts.len() - 1;
        lemma_earliest_latest(front);
        assert(forall|i: int| 0 <= i < front.len() ==> front[i] == ts[i]);
        if forall|i: int| 0 <= i < ts.len() ==> ts[i] == 0 {
            assert(ts[last] == 0);
        }
        if exists|i: int| 0 <= i < ts.len() && ts[i] != 0 {
            if exists|i: int| 0 <= i < front.len() && front[i] != 0 {
                let a = choose|i: int| 0 <= i < front.len() && front[i] == earliest(front);
                let b = choose|i: int| 0 <= i < front.len() && front[i] == latest(front);
                assert(ts[a] == earliest(front));
                assert(ts[b] == latest(front));
                assert(ts[last] == ts.last());
            } else {
                assert(ts[last] != 0);
                assert(ts[last] == earliest(ts));
                assert(ts[last] == latest(ts));
            }
        }
        assert forall|i: int| 0 <= i < ts.len() && ts[i] != 0 implies earliest(ts) <= #[trigger] ts[i] by {
            if i < last {
                assert(front[i] == ts[i]);
            }
        }
        assert forall|i: int| 0 <= i < ts.len() implies #[trigger] ts[i] <= latest(ts) by {
            if i < last {
                assert(front[i] == ts[i]);
            }
        }
    }
}

/// A trace without a timestamp that is set has the timing 0, 0, 0.
pub proof fn lemma_timing_all_zero(events: Seq<EventView>)
    requires
        forall|i: int| 0 <= i < events.len() ==> (#[trigger] events[i]).ts == 0,
    ensures
        timing_of(events) == (Timing { duration: 0, min_timestamp: 0, max_timestamp: 0 }),
{
    let ts = timestamps(events);
    lemma_earliest_latest(ts);
    assert forall|i: int| 0 <= i < ts.len() implies ts[i] == 0 by {
        assert(events[i].ts == 0);
    }
}

/// A trace in which the timestamp `t` is set, and no other, starts and ends at `t` and
/// has the duration 0.
pub proof fn lemma_timing_single(events: Seq<EventView>, t: u64)
    requires
        t != 0,
        exists|i: int| 0 <= i < events.len() && (#[trigger] events[i]).ts == t,
        forall|i: int| 0 <= i < events.len() ==> (#[trigger] events[i]).ts == 0 || events[i].ts == t,
    ensures
        timing_of(events) == (Timing { duration: 0, min_timestamp: t, max_timestamp: t }),
{
    let ts = timestamps(events);
    lemma_earliest_latest(ts);
    let k = choose|i: int| 0 <= i < events.len() && (#[trigger] events[i]).ts == t;
    assert(ts[k] == t);
    assert forall|i: int| 0 <= i < ts.len() implies ts[i] == 0 || ts[i] == t by {
        assert(events[i].ts == 0 || events[i].ts == t);
    }
    let a = choose|i: int| 0 <= i < ts.len() && ts[i] == earliest(ts);
    let b = choose|i: int| 0 <= i < ts.len() && ts[i] == latest(ts);
    assert(ts[a] == 0 || ts[a] == t);
    assert(ts[b] == 0 || ts[b] == t);
    assert(ts[k] <= latest(ts));
}

/// The timing of any trace: the duration is the latest timestamp less the earliest, and
/// every timestamp that is set lies between the two.
pub proof fn lemma_timing_bounds(events: Seq<EventView>)
    ensures
        timing_of(events).min_timestamp <= timing_of(events).max_timestamp,
        timing_of(events).duration == timing_of(events).max_timestamp - timing_of(
            events,
        ).min_timestamp,
        forall|i: int|
            0 <= i < events.len() && (#[trigger] events[i]).ts != 0 ==> timing_of(
                events,
            ).min_timestamp <= events[i].ts <= timing_of(events).max_timestamp,
{
    let ts = timestamps(events);
    lemma_earliest_latest(ts);
    assert forall|i: int| 0 <= i < events.len() && (#[trigger] events[i]).ts != 0 implies timing_of(
        events,
    ).min_timestamp <= events[i].ts <= timing_of(events).max_timestamp by {
        assert(ts[i] == events[i].ts);
    }
}

impl Trace {
    /// When the trace was captured and by which version of the product.
    pub fn info(&self) -> (r: String)
        ensures
            r@ == info_of(self@.metadata),
    {
        let mut out = String::from_str("captured=");
        let captured = self.metadata.text_at("trace-capture-datetime");
        out.append(captured.as_str());
        out.append(", version=");
        let version = self.metadata.text_at("product-version");
        out.append(version.as_str());
        assert(out@ =~= info_of(self@.metadata));
        out
    }

    /// The metadata events of the trace, in the order of the trace: references to the
    /// events of the trace whose category is `__metadata`.
    pub fn metadata_events(&self) -> (r: Vec<&TraceEvents>)
        ensures
            targets(r@) == self.trace_events@.filter(held_metadata_pred()),
            refs_view(r@) == metadata_of(self@.events),
    {
        let marker = String::from_str("__metadata");
        let mut out: Vec<&TraceEvents> = Vec::new();
        let mut i: usize = 0;
        let ghost held = self.trace_events@;
        let ghost all = self@.events;
        proof {
            assert(all.take(0).filter(metadata_pred()) =~= Seq::<EventView>::empty()) by {
                all.take(0).lemma_filter_len(metadata_pred());
            }
            assert(held.take(0).filter(held_metadata_pred()) =~= Seq::<TraceEvents>::empty()) by {
                held.take(0).lemma_filter_len(held_metadata_pred());
            }
        }
        while i < self.trace_events.len()
            invariant
                i <= self.trace_events.len(),
                marker@ == "__metadata"@,
                held == self.trace_events@,
                all == self@.events,
                targets(out@) == held.take(i as int).filter(held_metadata_pred()),
                refs_view(out@) == all.take(i as int).filter(metadata_pred()),
            decreases self.trace_events.len() - i,
        {
            let event = &self.trace_events[i];
            let ghost before = refs_view(out@);
            let ghost targets_before = targets(out@);
            proof {
                assert(all.take(i + 1) =~= all.take(i as int).push(all[i as int]));
                all.take(i as int).lemma_filter_push(all[i as int], metadata_pred());
                assert(held.take(i + 1) =~= held.take(i as int).push(held[i as int]));
                held.take(i as int).lemma_filter_push(held[i as int], held_metadata_pred());
            }
            if event.cat == marker {
                out.push(event);
                assert(refs_view(out@) =~= before.push(all[i as int]));
                assert(targets(out@) =~= targets_before.push(held[i as int]));
            }
            i = i + 1;
        }
        assert(all.take(i as int) =~= all);
        assert(held.take(i as int) =~= held);
        out
    }

    /// The earliest and the latest timestamp of the trace, timestamps of 0 left out:
    /// `(0, 0)` where no timestamp is set.
    pub fn timestamp_range(&self) -> (r: (u64, u64))
        ensures
            r.0 == earliest(timestamps(self@.events)),
            r.1 == latest(timestamps(self@.events)),
            r.0 <= r.1,
    {
        let mut min: u64 = 0;
        let mut max: u64 = 0;
        let mut i: usize = 0;
        let ghost ts = timestamps(self@.events);
        while i < self.trace_events.len()
            invariant
                i <= self.trace_events.len(),
                ts == timestamps(self@.events),
                min == earliest(ts.take(i as int)),
                max == latest(ts.take(i as int)),
            decreases self.trace_events.len() - i,
        {
            let t: u64 = self.trace_events[i].ts;
            proof {
                assert(ts.take(i + 1).drop_last() =~= ts.take(i as int));
                assert(ts.take(i + 1).last() == t);
            }
            if t != 0 && (min == 0 || t < min) {
                min = t;
            }
            if t > max {
                max = t;
            }
            i = i + 1;
        }
        proof {
            assert(ts.take(i as int) =~= ts);
            lemma_earliest_latest(ts);
        }
        (min, max)
    }

    /// The span of the timestamps of the trace.
    pub fn timings(&self) -> (r: Timing)
        ensures
            r == timing_of(self@.events),
    {
        let range = self.timestamp_range();
        Timing { duration: range.1 - range.0, min_timestamp: range.0, max_timestamp: range.1 }
    }

    /// The histogram of the timestamps of the trace that are set, over the span of the
    /// trace. There is none where the latest timestamp is not after the earliest.
    pub fn timing_buckets(&self) -> (r: Result<Histogram, HistogramError>)
        ensures
            match r {
                Ok(h) => {
                    &&& h.well_formed()
                    &&& timing_histogram_of(self@.events) == Some(h@)
                    &&& h@.sample_count == set_timestamps(self@.events).len()
                },
                Err(e) => e == HistogramError::InvalidRange && timing_histogram_of(self@.events)
                    is None,
            },
    {
        let timings = self.timings();
        let mut h = match Histogram::new(timings.min_timestamp, timings.max_timestamp, NUM_BUCKETS) {
            Ok(h) => h,
            Err(e) => {
                return Err(e);
            },
        };
        let ghost start = h@;
        let ghost ts = timestamps(self@.events);
        let mut i: usize = 0;
        proof {
            assert(ts.take(0).filter(nonzero_pred()) =~= Seq::<u64>::empty()) by {
                ts.take(0).lemma_filter_len(nonzero_pred());
            }
            lemma_earliest_latest(ts);
        }
        while i < self.trace_events.len()
            invariant
                i <= self.trace_events.len(),
                ts == timestamps(self@.events),
                start.valid(),
                start.sample_count == 0,
                start.min == earliest(ts),
                forall|k: int| 0 <= k < ts.len() && ts[k] != 0 ==> earliest(ts) <= #[trigger] ts[k],
                h.well_formed(),
                h@ == start.record_all(ts.take(i as int).filter(nonzero_pred())),
                h@.min == start.min,
                h@.sample_count == ts.take(i as int).filter(nonzero_pred()).len(),
                h@.sample_count <= i,
            decreases self.trace_events.len() - i,
        {
            let t: u64 = self.trace_events[i].ts;
            proof {
                assert(ts[i as int] == t);
                assert(ts.take(i + 1) =~= ts.take(i as int).push(t));
                ts.take(i as int).lemma_filter_push(t, nonzero_pred());
            }
            if t != 0 {
                let ghost done = ts.take(i as int).filter(nonzero_pred());
                h.add_sample(t);
                proof {
                    assert(done.push(t).drop_last() =~= done);
                }
            }
            i = i + 1;
        }
        assert(ts.take(i as int) =~= ts);
        Ok(h)
    }
}

} // verus!
