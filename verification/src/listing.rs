//! The processes of a trace, as its metadata events name them: one process for each
//! process id that a `process_name` event names, with its label and the names of its
//! threads, renderers listed last.

use vstd::prelude::*;
use crate::event::{EventView, TraceEvents};
use crate::process::{ProcessInfo, ProcessView};
use crate::sequences::{lemma_filter_all, lemma_filter_none};
use crate::text::texts;
use crate::trace::{is_metadata, metadata_of, metadata_pred, refs_view, Trace};

verus! {

/// Whether a metadata event names a process.
pub open spec fn names_process(e: EventView) -> bool {
    e.name == "process_name"@
}

/// Whether a metadata event gives the labels of the process `pid`.
pub open spec fn labels_process(e: EventView, pid: i64) -> bool {
    e.pid == pid && e.name == "process_labels"@
}

/// Whether a metadata event names a thread of the process `pid`.
pub open spec fn names_thread(e: EventView, pid: i64) -> bool {
    e.pid == pid && e.name == "thread_name"@
}

/// The label of the process `pid`: the `labels` argument of the first event that gives
/// its labels, empty where there is none.
pub open spec fn label_of(meta: Seq<EventView>, pid: i64) -> Seq<char>
    decreases meta.len(),
{
    if meta.len() == 0 {
        Seq::empty()
    } else if labels_process(meta.first(), pid) {
        meta.first().args.text_at("labels"@)
    } else {
        label_of(meta.drop_first(), pid)
    }
}

/// The names of the threads of the process `pid`: the `name` argument of every event
/// that names one of its threads, in the order of the events.
pub open spec fn thread_names_of(meta: Seq<EventView>, pid: i64) -> Seq<Seq<char>>
    decreases meta.len(),
{
    if meta.len() == 0 {
        Seq::empty()
    } else {
        let rest = thread_names_of(meta.drop_last(), pid);
        if names_thread(meta.last(), pid) {
            rest.push(meta.last().args.text_at("name"@))
        } else {
            rest
        }
    }
}

/// Whether one of the first `k` events names the process `pid`.
pub open spec fn named_before(meta: Seq<EventView>, k: int, pid: i64) -> bool {
    exists|j: int| 0 <= j < k && j < meta.len() && names_process(#[trigger] meta[j]) && meta[j].pid == pid
}

/// Whether the event `k` is the first to name its process.
pub open spec fn introduces_process(meta: Seq<EventView>, k: int) -> bool {
    names_process(meta[k]) && !named_before(meta, k, meta[k].pid)
}

/// The process that the event `e` names: its name is the `name` argument of `e`.
pub open spec fn info_of(meta: Seq<EventView>, e: EventView) -> ProcessView {
    ProcessView {
        id: e.pid,
        name: e.args.text_at("name"@),
        label: label_of(meta, e.pid),
        threads: thread_names_of(meta, e.pid),
    }
}

/// The processes that the first `k` events name, each once, in the order in which
/// they are first named.
pub open spec fn collected(meta: Seq<EventView>, k: int) -> Seq<ProcessView>
    decreases k,
{
    if k <= 0 {
        Seq::empty()
    } else {
        let before = collected(meta, k - 1);
        if introduces_process(meta, k - 1) {
            before.push(info_of(meta, meta[k - 1]))
        } else {
            before
        }
    }
}

/// The processes that are renderers.
pub open spec fn renderer_pred() -> spec_fn(ProcessView) -> bool {
    |p: ProcessView| p.is_renderer()
}

/// The processes that are no renderers.
pub open spec fn other_pred() -> spec_fn(ProcessView) -> bool {
    |p: ProcessView| !p.is_renderer()
}

/// The processes in the order of the list: those that are no renderers, then the
/// renderers, each group in the order of `all`.
pub open spec fn renderers_last(all: Seq<ProcessView>) -> Seq<ProcessView> {
    all.filter(other_pred()) + all.filter(renderer_pred())
}

/// The processes of a trace with the events `events`.
pub open spec fn processes_of(events: Seq<EventView>) -> Seq<ProcessView> {
    let meta = metadata_of(events);
    renderers_last(collected(meta, meta.len() as int))
}

/// The processes of a list, each by its view.
pub open spec fn infos_view(infos: Seq<ProcessInfo>) -> Seq<ProcessView> {
    Seq::new(infos.len(), |i: int| infos[i]@)
}

/// In the list of the processes every renderer comes after every process that is none,
/// and within each of the two groups the processes keep the order in which they were
/// collected.
pub proof fn lemma_renderers_last(all: Seq<ProcessView>)
    ensures
        forall|i: int, j: int|
            0 <= i < j < renderers_last(all).len() && (#[trigger] renderers_last(
                all,
            )[i]).is_renderer() ==> (#[trigger] renderers_last(all)[j]).is_renderer(),
        renderers_last(all).filter(other_pred()) == all.filter(other_pred()),
        renderers_last(all).filter(renderer_pred()) == all.filter(renderer_pred()),
        renderers_last(all).len() == all.len(),
{
    let others = all.filter(other_pred());
    let renderers = all.filter(renderer_pred());
    let listed = renderers_last(all);
    assert forall|i: int| 0 <= i < others.len() implies !(#[trigger] others[i]).is_renderer() by {
        all.lemma_filter_pred(other_pred(), i);
    }
    assert forall|i: int| 0 <= i < renderers.len() implies (#[trigger] renderers[i]).is_renderer() by {
        all.lemma_filter_pred(renderer_pred(), i);
    }
    assert forall|i: int, j: int|
        0 <= i < j < listed.len() && (#[trigger] listed[i]).is_renderer() implies (#[trigger] listed[j]).is_renderer() by {
        if i < others.len() {
            assert(listed[i] == others[i]);
        }
        assert(listed[j] == renderers[j - others.len()]);
    }
    Seq::filter_distributes_over_add(others, renderers, other_pred());
    Seq::filter_distributes_over_add(others, renderers, renderer_pred());
    assert forall|i: int| 0 <= i < others.len() implies other_pred()(#[trigger] others[i]) by {}
    assert forall|i: int| 0 <= i < others.len() implies !renderer_pred()(#[trigger] others[i]) by {}
    assert forall|i: int| 0 <= i < renderers.len() implies renderer_pred()(#[trigger] renderers[i]) by {}
    assert forall|i: int| 0 <= i < renderers.len() implies !other_pred()(#[trigger] renderers[i]) by {}
    lemma_filter_all(others, other_pred());
    lemma_filter_none(renderers, other_pred());
    lemma_filter_none(others, renderer_pred());
    lemma_filter_all(renderers, renderer_pred());
    assert(others + Seq::<ProcessView>::empty() =~= others);
    assert(Seq::<ProcessView>::empty() + renderers =~= renderers);
    lemma_partition_len(all);
}

/// Every process is in exactly one of the two groups.
pub proof fn lemma_partition_len(all: Seq<ProcessView>)
    ensures
        all.filter(other_pred()).len() + all.filter(renderer_pred()).len() == all.len(),
    decreases all.len(),
{
    reveal(Seq::filter);
    if all.len() > 0 {
        lemma_partition_len(all.drop_last());
    }
}

/// The processes of a trace list every renderer after every process that is none, and
/// each of the two groups in the order in which the trace first names its processes.
pub proof fn lemma_processes_renderers_last(events: Seq<EventView>)
    ensures
        forall|i: int, j: int|
            0 <= i < j < processes_of(events).len() && (#[trigger] processes_of(
                events,
            )[i]).is_renderer() ==> (#[trigger] processes_of(events)[j]).is_renderer(),
        processes_of(events).filter(other_pred()) == collected(
            metadata_of(events),
            metadata_of(events).len() as int,
        ).filter(other_pred()),
        processes_of(events).filter(renderer_pred()) == collected(
            metadata_of(events),
            metadata_of(events).len() as int,
        ).filter(renderer_pred()),
{
    let meta = metadata_of(events);
    lemma_renderers_last(collected(meta, meta.len() as int));
}

/// A process id is among the collected processes exactly if one of the events names
/// it, and no id is collected twice.
pub proof fn lemma_collected_ids(meta: Seq<EventView>, k: int)
    requires
        0 <= k <= meta.len(),
    ensures
        forall|pid: i64|
            named_before(meta, k, pid) <==> exists|i: int|
                0 <= i < collected(meta, k).len() && (#[trigger] collected(meta, k)[i]).id == pid,
        forall|i: int, j: int|
            0 <= i < j < collected(meta, k).len() ==> (#[trigger] collected(meta, k)[i]).id != (
            #[trigger] collected(meta, k)[j]).id,
    decreases k,
{
    if k > 0 {
        lemma_collected_ids(meta, k - 1);
        let before = collected(meta, k - 1);
        let now = collected(meta, k);
        let e = meta[k - 1];
        assert forall|pid: i64| named_before(meta, k, pid) implies exists|i: int|
            0 <= i < now.len() && (#[trigger] now[i]).id == pid by {
            let j = choose|j: int|
                0 <= j < k && j < meta.len() && names_process(#[trigger] meta[j]) && meta[j].pid
                    == pid;
            if j < k - 1 {
                assert(named_before(meta, k - 1, pid));
                let i = choose|i: int| 0 <= i < before.len() && (#[trigger] before[i]).id == pid;
                assert(now[i].id == pid);
            } else if introduces_process(meta, k - 1) {
                assert(now[now.len() - 1].id == pid);
            } else {
                assert(named_before(meta, k - 1, pid));
                let i = choose|i: int| 0 <= i < before.len() && (#[trigger] before[i]).id == pid;
                assert(now[i].id == pid);
            }
        }
        assert forall|pid: i64|
            (exists|i: int| 0 <= i < now.len() && (#[trigger] now[i]).id == pid) implies named_before(
            meta,
            k,
            pid,
        ) by {
            let i = choose|i: int| 0 <= i < now.len() && (#[trigger] now[i]).id == pid;
            if i < before.len() {
                assert(before[i].id == pid);
                assert(named_before(meta, k - 1, pid));
                let j = choose|j: int|
                    0 <= j < k - 1 && j < meta.len() && names_process(#[trigger] meta[j])
                        && meta[j].pid == pid;
                assert(names_process(meta[j]) && meta[j].pid == pid);
            } else {
                assert(names_process(meta[k - 1]) && meta[k - 1].pid == pid);
            }
        }
        assert forall|i: int, j: int| 0 <= i < j < now.len() implies (#[trigger] now[i]).id != (
        #[trigger] now[j]).id by {
            if j < before.len() {
                assert(before[i].id != before[j].id);
            } else {
                assert(before[i].id == now[i].id);
                if now[i].id == now[j].id {
                    assert(named_before(meta, k - 1, e.pid));
                }
            }
        }
    }
}

/// A process id is listed exactly if a `process_name` metadata event of the trace names
/// it.
pub proof fn lemma_processes_named(events: Seq<EventView>, pid: i64)
    ensures
        (exists|i: int|
            0 <= i < processes_of(events).len() && (#[trigger] processes_of(events)[i]).id == pid)
            <==> (exists|j: int|
            0 <= j < events.len() && is_metadata(#[trigger] events[j]) && names_process(events[j])
                && events[j].pid == pid),
{
    let meta = metadata_of(events);
    let all = collected(meta, meta.len() as int);
    let listed = renderers_last(all);
    let others = all.filter(other_pred());
    let renderers = all.filter(renderer_pred());
    lemma_collected_ids(meta, meta.len() as int);
    assert(listed == processes_of(events));
    if exists|i: int| 0 <= i < listed.len() && (#[trigger] listed[i]).id == pid {
        let i = choose|i: int| 0 <= i < listed.len() && (#[trigger] listed[i]).id == pid;
        if i < others.len() {
            assert(others.contains(others[i]));
            all.lemma_filter_contains_rev(other_pred(), listed[i]);
        } else {
            assert(renderers.contains(renderers[i - others.len()]));
            all.lemma_filter_contains_rev(renderer_pred(), listed[i]);
        }
        let k = choose|k: int| 0 <= k < all.len() && all[k] == listed[i];
        assert(all[k].id == pid);
        assert(named_before(meta, meta.len() as int, pid));
        let m = choose|m: int|
            0 <= m < meta.len() && m < meta.len() && names_process(#[trigger] meta[m]) && meta[m].pid
                == pid;
        events.lemma_filter_pred(metadata_pred(), m);
        assert(meta.contains(meta[m]));
        events.lemma_filter_contains_rev(metadata_pred(), meta[m]);
        let j = choose|j: int| 0 <= j < events.len() && events[j] == meta[m];
        assert(is_metadata(events[j]) && names_process(events[j]) && events[j].pid == pid);
    }
    if exists|j: int|
        0 <= j < events.len() && is_metadata(#[trigger] events[j]) && names_process(events[j])
            && events[j].pid == pid {
        let j = choose|j: int|
            0 <= j < events.len() && is_metadata(#[trigger] events[j]) && names_process(events[j])
                && events[j].pid == pid;
        events.lemma_filter_contains(metadata_pred(), j);
        let m = choose|m: int| 0 <= m < meta.len() && meta[m] == events[j];
        assert(names_process(meta[m]) && meta[m].pid == pid);
        assert(named_before(meta, meta.len() as int, pid));
        let k = choose|k: int| 0 <= k < all.len() && (#[trigger] all[k]).id == pid;
        if all[k].is_renderer() {
            all.lemma_filter_contains(renderer_pred(), k);
            let r = choose|r: int| 0 <= r < renderers.len() && renderers[r] == all[k];
            assert(processes_of(events)[others.len() + r].id == pid);
        } else {
            all.lemma_filter_contains(other_pred(), k);
            let r = choose|r: int| 0 <= r < others.len() && others[r] == all[k];
            assert(processes_of(events)[r].id == pid);
        }
    }
}

/// No process id is listed twice.
pub proof fn lemma_processes_distinct(events: Seq<EventView>)
    ensures
        forall|i: int, j: int|
            0 <= i < j < processes_of(events).len() ==> (#[trigger] processes_of(events)[i]).id != (
            #[trigger] processes_of(events)[j]).id,
{
    let meta = metadata_of(events);
    let all = collected(meta, meta.len() as int);
    let listed = renderers_last(all);
    lemma_collected_ids(meta, meta.len() as int);
    assert forall|i: int, j: int| 0 <= i < j < listed.len() implies (#[trigger] listed[i]).id != (
    #[trigger] listed[j]).id by {
        lemma_listed_ids_differ(all, i, j);
    }
}

/// Two processes at different places of the list have different ids, where the
/// collected processes have.
proof fn lemma_listed_ids_differ(all: Seq<ProcessView>, i: int, j: int)
    requires
        forall|a: int, b: int| 0 <= a < b < all.len() ==> (#[trigger] all[a]).id != (#[trigger] all[b]).id,
        0 <= i < j < renderers_last(all).len(),
    ensures
        renderers_last(all)[i].id != renderers_last(all)[j].id,
{
    let others = all.filter(other_pred());
    let renderers = all.filter(renderer_pred());
    let listed = renderers_last(all);
    lemma_filter_ids_differ(all, other_pred());
    lemma_filter_ids_differ(all, renderer_pred());
    if j < others.len() {
        assert(listed[i] == others[i] && listed[j] == others[j]);
    } else if i >= others.len() {
        assert(listed[i] == renderers[i - others.len()]);
        assert(listed[j] == renderers[j - others.len()]);
    } else {
        assert(listed[i] == others[i]);
        assert(listed[j] == renderers[j - others.len()]);
        all.lemma_filter_pred(other_pred(), i);
        all.lemma_filter_pred(renderer_pred(), j - others.len());
        assert(others.contains(others[i]));
        assert(renderers.contains(renderers[j - others.len()]));
        all.lemma_filter_contains_rev(other_pred(), others[i]);
        all.lemma_filter_contains_rev(renderer_pred(), renderers[j - others.len()]);
        let a = choose|a: int| 0 <= a < all.len() && all[a] == others[i];
        let b = choose|b: int| 0 <= b < all.len() && all[b] == renderers[j - others.len()];
        assert(a != b);
        if a < b {
            assert(all[a].id != all[b].id);
        } else {
            assert(all[b].id != all[a].id);
        }
    }
}

/// What is kept of a list without two equal ids has no two equal ids.
proof fn lemma_filter_ids_differ(all: Seq<ProcessView>, pred: spec_fn(ProcessView) -> bool)
    requires
        forall|a: int, b: int| 0 <= a < b < all.len() ==> (#[trigger] all[a]).id != (#[trigger] all[b]).id,
    ensures
        forall|a: int, b: int|
            0 <= a < b < all.filter(pred).len() ==> (#[trigger] all.filter(pred)[a]).id != (
            #[trigger] all.filter(pred)[b]).id,
    decreases all.len(),
{
    reveal(Seq::filter);
    if all.len() > 0 {
        let front = all.drop_last();
        assert forall|a: int, b: int| 0 <= a < b < front.len() implies (#[trigger] front[a]).id != (
        #[trigger] front[b]).id by {
            assert(front[a] == all[a] && front[b] == all[b]);
        }
        lemma_filter_ids_differ(front, pred);
        let kept = all.filter(pred);
        let kept_front = front.filter(pred);
        assert forall|a: int, b: int| 0 <= a < b < kept.len() implies (#[trigger] kept[a]).id != (
        #[trigger] kept[b]).id by {
            if b < kept_front.len() {
                assert(kept[a] == kept_front[a] && kept[b] == kept_front[b]);
            } else {
                assert(kept[b] == all.last());
                assert(kept[a] == kept_front[a]);
                assert(kept_front.contains(kept_front[a]));
                front.lemma_filter_contains_rev(pred, kept_front[a]);
                let k = choose|k: int| 0 <= k < front.len() && front[k] == kept_front[a];
                assert(all[k] == front[k]);
                assert(all[k].id != all[all.len() - 1].id);
            }
        }
    }
}

/// Whether one of the first `k` events of `meta` names the process `pid`.
fn is_named_before(meta: &Vec<&TraceEvents>, k: usize, pid: i64) -> (r: bool)
    requires
        k <= meta.len(),
    ensures
        r == named_before(refs_view(meta@), k as int, pid),
{
    let wanted = String::from_str("process_name");
    let ghost m = refs_view(meta@);
    let mut j: usize = 0;
    while j < k
        invariant
            j <= k <= meta.len(),
            wanted@ == "process_name"@,
            m == refs_view(meta@),
            !named_before(m, j as int, pid),
        decreases k - j,
    {
        let e = meta[j];
        if e.pid == pid && e.name == wanted {
            assert(names_process(m[j as int]) && m[j as int].pid == pid);
            return true;
        }
        j = j + 1;
    }
    false
}

/// The label of the process `pid`.
fn find_label(meta: &Vec<&TraceEvents>, pid: i64) -> (r: String)
    ensures
        r@ == label_of(refs_view(meta@), pid),
{
    let wanted = String::from_str("process_labels");
    let ghost m = refs_view(meta@);
    let mut i: usize = 0;
    proof {
        assert(m.skip(0) =~= m);
    }
    while i < meta.len()
        invariant
            i <= meta.len(),
            wanted@ == "process_labels"@,
            m == refs_view(meta@),
            label_of(m, pid) == label_of(m.skip(i as int), pid),
        decreases meta.len() - i,
    {
        let e = meta[i];
        proof {
            assert(m.skip(i as int).first() == m[i as int]);
            assert(m.skip(i as int).drop_first() =~= m.skip(i + 1));
        }
        if e.pid == pid && e.name == wanted {
            return e.args.text_at("labels");
        }
        i = i + 1;
    }
    String::new()
}

/// The names of the threads of the process `pid`.
fn find_threads(meta: &Vec<&TraceEvents>, pid: i64) -> (r: Vec<String>)
    ensures
        texts(r@) == thread_names_of(refs_view(meta@), pid),
{
    let wanted = String::from_str("thread_name");
    let ghost m = refs_view(meta@);
    let mut out: Vec<String> = Vec::new();
    let mut i: usize = 0;
    proof {
        assert(texts(out@) =~= thread_names_of(m.take(0), pid));
    }
    while i < meta.len()
        invariant
            i <= meta.len(),
            wanted@ == "thread_name"@,
            m == refs_view(meta@),
            texts(out@) == thread_names_of(m.take(i as int), pid),
        decreases meta.len() - i,
    {
        let e = meta[i];
        let ghost before = texts(out@);
        proof {
            assert(m.take(i + 1).drop_last() =~= m.take(i as int));
            assert(m.take(i + 1).last() == m[i as int]);
        }
        if e.pid == pid && e.name == wanted {
            let name = e.args.text_at("name");
            out.push(name);
            assert(texts(out@) =~= before.push(name@));
        }
        i = i + 1;
    }
    proof {
        assert(m.take(i as int) =~= m);
    }
    out
}

impl Trace {
    /// The processes of the trace: one for each process id that a `process_name`
    /// metadata event names, with the name that the first such event gives it, the label
    /// of its first `process_labels` event and the names of all its `thread_name` events.
    /// Processes named `Renderer` come last; apart from that the processes stand in the
    /// order in which the trace first names them.
    pub fn processes(&self) -> (r: Vec<ProcessInfo>)
        ensures
            infos_view(r@) == processes_of(self@.events),
    {
        let meta = self.metadata_events();
        let wanted = String::from_str("process_name");
        let ghost m = refs_view(meta@);
        let mut others: Vec<ProcessInfo> = Vec::new();
        let mut renderers: Vec<ProcessInfo> = Vec::new();
        let mut k: usize = 0;
        proof {
            assert(infos_view(others@) =~= Seq::<ProcessView>::empty());
            assert(infos_view(renderers@) =~= Seq::<ProcessView>::empty());
            lemma_filter_none(collected(m, 0), other_pred());
            lemma_filter_none(collected(m, 0), renderer_pred());
        }
        while k < meta.len()
            invariant
                k <= meta.len(),
                wanted@ == "process_name"@,
                m == refs_view(meta@),
                infos_view(others@) == collected(m, k as int).filter(other_pred()),
                infos_view(renderers@) == collected(m, k as int).filter(renderer_pred()),
            decreases meta.len() - k,
        {
            let e = meta[k];
            let ghost before = collected(m, k as int);
            let ghost others_before = infos_view(others@);
            let ghost renderers_before = infos_view(renderers@);
            assert(m[k as int] == e@);
            if e.name == wanted && !is_named_before(&meta, k, e.pid) {
                let info = ProcessInfo {
                    id: e.pid,
                    name: e.args.text_at("name"),
                    label: find_label(&meta, e.pid),
                    threads: find_threads(&meta, e.pid),
                };
                proof {
                    assert(info@ =~= info_of(m, m[k as int]));
                    before.lemma_filter_push(info@, other_pred());
                    before.lemma_filter_push(info@, renderer_pred());
                }
                if info.is_renderer() {
                    renderers.push(info);
                    assert(infos_view(renderers@) =~= renderers_before.push(info@));
                } else {
                    others.push(info);
                    assert(infos_view(others@) =~= others_before.push(info@));
                }
            }
            k = k + 1;
        }
        let ghost first = infos_view(others@);
        let ghost second = infos_view(renderers@);
        others.append(&mut renderers);
        assert(infos_view(others@) =~= first + second);
        others
    }
}

} // verus!
