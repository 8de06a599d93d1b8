//! Cutting a trace down to the events of chosen processes. Process ids are compared as
//! texts: an event is kept where the decimal rendering of its process id is among the
//! ids asked for.

use vstd::prelude::*;
use crate::event::{EventView, TraceEvents};
use crate::listing::{infos_view, other_pred, processes_of};
use crate::process::ProcessView;
use crate::sequences::lemma_filter_all;
use crate::text::{decimal, i64_to_string, lemma_decimal_injective, texts};
use crate::trace::{events_view, Trace, TraceView};

verus! {

/// The events whose process id, written in decimal, is one of `ids`.
pub open spec fn keeps(ids: Seq<Seq<char>>) -> spec_fn(EventView) -> bool {
    |e: EventView| ids.contains(decimal(e.pid as int))
}

/// The trace with the events of the processes `ids` alone, in their order, and the same
/// metadata.
pub open spec fn filtered(t: TraceView, ids: Seq<Seq<char>>) -> TraceView {
    TraceView { events: t.events.filter(keeps(ids)), metadata: t.metadata }
}

/// The ids of the processes of `processes`, written in decimal.
pub open spec fn ids_of(processes: Seq<ProcessView>) -> Seq<Seq<char>> {
    Seq::new(processes.len(), |i: int| decimal(processes[i].id as int))
}

/// The ids that a request for `ids` keeps: `ids` themselves, and after them the id of
/// every process of the trace that is no renderer.
pub open spec fn retained_ids(events: Seq<EventView>, ids: Seq<Seq<char>>) -> Seq<Seq<char>> {
    ids + ids_of(processes_of(events).filter(other_pred()))
}

/// The events of the process `pid`.
pub open spec fn of_process(pid: i64) -> spec_fn(EventView) -> bool {
    |e: EventView| e.pid == pid
}

/// Comparing ids as texts is comparing them as numbers: filtering by the decimal
/// rendering of one process id keeps the events of that process, and no others.
pub proof fn lemma_filter_single_id(t: TraceView, pid: i64)
    ensures
        filtered(t, seq![decimal(pid as int)]).events == t.events.filter(of_process(pid)),
{
    let ids = seq![decimal(pid as int)];
    assert forall|e: EventView| #[trigger] keeps(ids)(e) == of_process(pid)(e) by {
        if ids.contains(decimal(e.pid as int)) {
            let i = choose|i: int| 0 <= i < ids.len() && ids[i] == decimal(e.pid as int);
            assert(ids[i] == decimal(pid as int));
            lemma_decimal_injective(e.pid as int, pid as int);
        }
        if e.pid == pid {
            assert(ids[0] == decimal(e.pid as int));
        }
    }
    assert(keeps(ids) =~= of_process(pid));
}

/// A trace filtered by ids that cover the process id of every one of its events is the
/// trace itself.
pub proof fn lemma_filter_all_ids(t: TraceView, ids: Seq<Seq<char>>)
    requires
        forall|i: int|
            0 <= i < t.events.len() ==> ids.contains(decimal((#[trigger] t.events[i]).pid as int)),
    ensures
        filtered(t, ids) == t,
{
    lemma_filter_all(t.events, keeps(ids));
}

/// What a filtered trace holds: its events are events of the trace whose process id is
/// among the ids, and every such event of the trace is among them.
pub proof fn lemma_filtered_events(t: TraceView, ids: Seq<Seq<char>>)
    ensures
        forall|i: int|
            0 <= i < filtered(t, ids).events.len() ==> ids.contains(
                decimal((#[trigger] filtered(t, ids).events[i]).pid as int),
            ) && t.events.contains(filtered(t, ids).events[i]),
        forall|i: int|
            0 <= i < t.events.len() && ids.contains(decimal((#[trigger] t.events[i]).pid as int))
                ==> filtered(t, ids).events.contains(t.events[i]),
        filtered(t, ids).metadata == t.metadata,
{
    let kept = t.events.filter(keeps(ids));
    assert forall|i: int| 0 <= i < kept.len() implies ids.contains(
        decimal((#[trigger] kept[i]).pid as int),
    ) && t.events.contains(kept[i]) by {
        t.events.lemma_filter_pred(keeps(ids), i);
        assert(kept.contains(kept[i]));
        t.events.lemma_filter_contains_rev(keeps(ids), kept[i]);
    }
    assert forall|i: int|
        0 <= i < t.events.len() && ids.contains(
            decimal((#[trigger] t.events[i]).pid as int),
        ) implies kept.contains(t.events[i]) by {
        t.events.lemma_filter_contains(keeps(ids), i);
    }
}

/// A request keeps every event of every process that is no renderer, whatever ids it
/// names.
pub proof fn lemma_retained_keeps_others(events: Seq<EventView>, ids: Seq<Seq<char>>, i: int, k: int)
    requires
        0 <= i < events.len(),
        0 <= k < processes_of(events).len(),
        !processes_of(events)[k].is_renderer(),
        processes_of(events)[k].id == events[i].pid,
    ensures
        events.filter(keeps(retained_ids(events, ids))).contains(events[i]),
{
    let listed = processes_of(events);
    let others = listed.filter(other_pred());
    let all = retained_ids(events, ids);
    listed.lemma_filter_contains(other_pred(), k);
    let j = choose|j: int| 0 <= j < others.len() && others[j] == listed[k];
    assert(ids_of(others)[j] == decimal(events[i].pid as int));
    assert(all[ids.len() + j] == decimal(events[i].pid as int));
    events.lemma_filter_contains(keeps(all), i);
}

/// Whether `wanted` is one of `ids`.
fn contains_text(ids: &Vec<String>, wanted: &String) -> (r: bool)
    ensures
        r == texts(ids@).contains(wanted@),
{
    let mut i: usize = 0;
    while i < ids.len()
        invariant
            i <= ids.len(),
            forall|k: int| 0 <= k < i ==> texts(ids@)[k] != wanted@,
        decreases ids.len() - i,
    {
        if ids[i] == *wanted {
            assert(texts(ids@)[i as int] == wanted@);
            return true;
        }
        i = i + 1;
    }
    false
}

impl Trace {
    /// A new trace with the events of the processes `filtered_process_ids` alone and the
    /// metadata of this one, which stays as it is.
    pub fn filter(&self, filtered_process_ids: Vec<String>) -> (r: Trace)
        ensures
            r@ == filtered(self@, texts(filtered_process_ids@)),
    {
        let ghost ids = texts(filtered_process_ids@);
        let ghost all = self@.events;
        let mut events: Vec<TraceEvents> = Vec::new();
        let mut i: usize = 0;
        proof {
            assert(all.take(0).filter(keeps(ids)) =~= Seq::<EventView>::empty()) by {
                all.take(0).lemma_filter_len(keeps(ids));
            }
            assert(events_view(events@) =~= Seq::<EventView>::empty());
        }
        while i < self.trace_events.len()
            invariant
                i <= self.trace_events.len(),
                ids == texts(filtered_process_ids@),
                all == self@.events,
                events_view(events@) == all.take(i as int).filter(keeps(ids)),
            decreases self.trace_events.len() - i,
        {
            let event = &self.trace_events[i];
            let ghost before = events_view(events@);
            proof {
                assert(all.take(i + 1) =~= all.take(i as int).push(all[i as int]));
                all.take(i as int).lemma_filter_push(all[i as int], keeps(ids));
            }
            let id = i64_to_string(event.pid);
            if contains_text(&filtered_process_ids, &id) {
                events.push(event.clone());
                assert(events_view(events@) =~= before.push(all[i as int]));
            }
            i = i + 1;
        }
        assert(all.take(i as int) =~= all);
        let trace = Trace { trace_events: events, metadata: self.metadata.clone() };
        assert(trace@ =~= filtered(self@, ids));
        trace
    }
}

/// The trace that a request for the processes `filtered_process_ids` gives: the events
/// of these processes and of every process that is no renderer.
pub fn filter(trace: &Trace, filtered_process_ids: Vec<String>) -> (r: Trace)
    ensures
        r@ == filtered(trace@, retained_ids(trace@.events, texts(filtered_process_ids@))),
{
    let mut ids = filtered_process_ids;
    let processes = trace.processes();
    let ghost given = texts(ids@);
    let ghost listed = infos_view(processes@);
    let mut i: usize = 0;
    proof {
        assert(listed.take(0).filter(other_pred()) =~= Seq::<ProcessView>::empty()) by {
            listed.take(0).lemma_filter_len(other_pred());
        }
        assert(texts(ids@) =~= given + ids_of(listed.take(0).filter(other_pred())));
    }
    while i < processes.len()
        invariant
            i <= processes.len(),
            listed == infos_view(processes@),
            texts(ids@) == given + ids_of(listed.take(i as int).filter(other_pred())),
        decreases processes.len() - i,
    {
        let p = &processes[i];
        let ghost before = listed.take(i as int).filter(other_pred());
        let ghost ids_before = texts(ids@);
        proof {
            assert(listed[i as int] == p@);
            assert(listed.take(i + 1) =~= listed.take(i as int).push(p@));
            listed.take(i as int).lemma_filter_push(p@, other_pred());
        }
        if !p.is_renderer() {
            let id = i64_to_string(p.id);
            ids.push(id);
            assert(texts(ids@) =~= ids_before.push(decimal(p.id as int)));
            assert(ids_of(before.push(p@)) =~= ids_of(before).push(decimal(p.id as int)));
            assert(texts(ids@) =~= given + ids_of(before.push(p@)));
        }
        i = i + 1;
    }
    assert(listed.take(i as int) =~= listed);
    trace.filter(ids)
}

} // verus!
