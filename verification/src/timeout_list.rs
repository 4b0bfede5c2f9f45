//! Shared timer service: absolute-deadline timer entries grouped into
//! per-duration interval lists, plus a priority queue of interval heads.
//!
//! Entries that share one duration live in one *interval list*, appended at
//! the tail; because the duration is fixed per list and the clock is
//! monotonic, each list is naturally sorted by expiry. The priority queue
//! (`heap`) holds at most one head entry per *active* interval list — the
//! in-use flag records exactly whether a list is in the queue.
//!
//! The clock itself is outside work: every operation takes `now` (nanoseconds
//! of a monotonic clock) from the caller, and a ghost field tracks that the
//! values only grow.
use vstd::prelude::*;

use core::time::Duration;

verus! {

pub const NANOS_PER_MILLI: u64 = 1_000_000;
pub const NANOS_PER_SEC: u64 = 1_000_000_000;

/// Past this many distinct intervals, an interval list that runs empty is
/// removed from the table instead of being kept for reuse.
pub const HASH_CAP: usize = 1024;

// ---------------------------------------------------------------------------
// Durations. `core::time::Duration` is opaque to the verifier; these names
// stand for its two components, and the trusted specifications below state
// what std documents about them.
// ---------------------------------------------------------------------------

/// The whole-second part of a `Duration` (what `as_secs` returns).
pub uninterp spec fn dur_secs(d: Duration) -> u64;

/// The fractional part of a `Duration` in nanoseconds (what `subsec_nanos`
/// returns; always below one billion).
pub uninterp spec fn dur_subsec_nanos(d: Duration) -> u32;

/// Relies on core::time::Duration::as_secs: the whole-second part of the
/// duration.
pub assume_specification[ Duration::as_secs ](d: &Duration) -> (r: u64)
    ensures
        r == dur_secs(*d),
;

/// Relies on core::time::Duration::subsec_nanos: the fractional part in
/// nanoseconds, documented to lie below one billion.
pub assume_specification[ Duration::subsec_nanos ](d: &Duration) -> (r: u32)
    ensures
        r == dur_subsec_nanos(*d),
        r < 1_000_000_000,
;

/// Relies on core::time::Duration::new: seconds plus nanoseconds, with the
/// nanoseconds above one billion carried into the seconds (it panics when
/// that carry overflows, so such inputs are excluded).
pub assume_specification[ Duration::new ](secs: u64, nanos: u32) -> (r: Duration)
    requires
        secs + nanos as int / 1_000_000_000 <= u64::MAX,
    ensures
        dur_secs(r) == secs + nanos as int / 1_000_000_000,
        dur_subsec_nanos(r) == nanos as int % 1_000_000_000,
;

/// A duration as nanoseconds, saturating at `u64::MAX`.
pub open spec fn dur_ns(d: Duration) -> u64 {
    let total = dur_secs(d) * (NANOS_PER_SEC as int) + dur_subsec_nanos(d);
    if total > u64::MAX {
        u64::MAX
    } else {
        total as u64
    }
}

/// Convert a duration to nanoseconds, saturating at `u64::MAX`.
fn dur_to_ns(dur: Duration) -> (r: u64)
    ensures
        r == dur_ns(dur),
{
    let secs = dur.as_secs();
    let nanos = dur.subsec_nanos();
    match secs.checked_mul(NANOS_PER_SEC) {
        Some(v) => v.saturating_add(nanos as u64),
        None => u64::MAX,
    }
}

/// Convert nanoseconds to a duration, exactly.
pub fn ns_to_dur(ns: u64) -> (r: Duration)
    ensures
        dur_secs(r) == ns / NANOS_PER_SEC,
        dur_subsec_nanos(r) == ns % NANOS_PER_SEC,
        dur_ns(r) == ns,
{
    let r = Duration::new(ns / NANOS_PER_SEC, (ns % NANOS_PER_SEC) as u32);
    proof {
        vstd::arithmetic::div_mod::lemma_fundamental_div_mod(ns as int, NANOS_PER_SEC as int);
    }
    r
}

/// Nanoseconds rounded up to whole milliseconds.
pub fn ns_to_ms(ns: u64) -> (r: u64)
    requires
        ns + NANOS_PER_MILLI <= u64::MAX,
    ensures
        r == (ns + NANOS_PER_MILLI - 1) / (NANOS_PER_MILLI as int),
{
    (ns + NANOS_PER_MILLI - 1) / NANOS_PER_MILLI
}

// ---------------------------------------------------------------------------
// The timer table.
// ---------------------------------------------------------------------------

/// A timer entry: the absolute expiry (nanoseconds of the monotonic clock)
/// and the payload handed back when it fires.
pub struct TimeoutData<T> {
    time: u64,
    pub data: T,
}

impl<T> TimeoutData<T> {
    /// The absolute expiry of this entry.
    pub closed spec fn spec_time(&self) -> u64 {
        self.time
    }
}

/// Identifies one live timer entry: the interval it was filed under and a
/// service-wide unique id, so a cancellation can find the exact entry.
#[derive(Debug, Copy, Clone, PartialEq, Eq, Structural)]
pub struct TimeoutHandle {
    pub interval: u64,
    pub id: u64,
}

struct IdEntry<T> {
    id: u64,
    item: TimeoutData<T>,
}

struct IntervalSlot<T> {
    interval: u64,
    entries: Vec<IdEntry<T>>,
    in_use: u64,
}

struct HeapEntry {
    time: u64,
    interval: u64,
}

/// The timeout list: a table from interval (duration in nanoseconds) to its
/// interval list, and a priority queue over the heads of the active lists.
pub struct TimeOutList<T> {
    slots: Vec<IntervalSlot<T>>,
    heap: Vec<HeapEntry>,
    next_id: u64,
    clock: Ghost<u64>,
}

// --- spec-level view -------------------------------------------------------

/// View of one interval list: the sequence of (id, expiry, payload) triples
/// in queue order (head first).
spec fn slot_view<T>(s: IntervalSlot<T>) -> Seq<(u64, u64, T)> {
    s.entries@.map(|k: int, e: IdEntry<T>| (e.id, e.item.time, e.item.data))
}

spec fn has_slot<T>(slots: Seq<IntervalSlot<T>>, interval: u64) -> bool {
    exists|i: int| 0 <= i < slots.len() && slots[i].interval == interval
}

spec fn slot_idx<T>(slots: Seq<IntervalSlot<T>>, interval: u64) -> int {
    choose|i: int| 0 <= i < slots.len() && slots[i].interval == interval
}

spec fn pending_of<T>(slots: Seq<IntervalSlot<T>>, interval: u64) -> Seq<(u64, u64, T)> {
    if has_slot(slots, interval) {
        slot_view(slots[slot_idx(slots, interval)])
    } else {
        Seq::empty()
    }
}

/// Expiries within a view are nondecreasing (head first).
pub open spec fn times_sorted<T>(v: Seq<(u64, u64, T)>) -> bool {
    forall|k: int, l: int| 0 <= k <= l < v.len() ==> v[k].1 <= v[l].1
}

/// How many entries at the head of a (sorted) interval list have expired at
/// `now`.
pub open spec fn count_expired<T>(s: Seq<(u64, u64, T)>, now: u64) -> nat
    decreases s.len(),
{
    if s.len() == 0 {
        0
    } else if s[0].1 > now {
        0
    } else {
        1 + count_expired(s.skip(1), now)
    }
}

/// The payloads of the first `n` entries of a view, in order.
pub open spec fn data_prefix<T>(s: Seq<(u64, u64, T)>, n: int) -> Seq<T> {
    s.take(n).map(|k: int, e: (u64, u64, T)| e.2)
}

/// The payloads of the expired head of a view, in firing order.
pub open spec fn expired_data<T>(s: Seq<(u64, u64, T)>, now: u64) -> Seq<T> {
    data_prefix(s, count_expired(s, now) as int)
}

/// A view with the entry of a given id removed (there is at most one).
pub open spec fn remove_id<T>(s: Seq<(u64, u64, T)>, id: u64) -> Seq<(u64, u64, T)> {
    if exists|k: int| 0 <= k < s.len() && s[k].0 == id {
        s.remove(choose|k: int| 0 <= k < s.len() && s[k].0 == id)
    } else {
        s
    }
}

/// The expired payloads of a set of intervals, concatenated in the order
/// the intervals are listed, each interval's payloads in queue order.
pub open spec fn expired_concat<T>(l: TimeOutList<T>, ivs: Seq<u64>, now: u64) -> Seq<T>
    decreases ivs.len(),
{
    if ivs.len() == 0 {
        Seq::empty()
    } else {
        expired_data(l.pending(ivs[0]), now) + expired_concat(l, ivs.skip(1), now)
    }
}

/// What one scheduling sweep appends to `fired`: the expired entries of the
/// intervals in `ivs` — every interval holding expired entries, each once,
/// each interval's payloads in queue order.
pub open spec fn schedule_fired_witness<T>(
    l: TimeOutList<T>,
    ivs: Seq<u64>,
    now: u64,
    fired0: Seq<T>,
    fired1: Seq<T>,
) -> bool {
    &&& ivs.no_duplicates()
    &&& forall|k: int| 0 <= k < ivs.len() ==> count_expired(l.pending(ivs[k]), now) > 0
    &&& forall|iv: u64| count_expired(#[trigger] l.pending(iv), now) > 0 ==> ivs.contains(iv)
    &&& fired1 == fired0 + expired_concat(l, ivs, now)
}

proof fn lemma_expired_concat_push<T>(l: TimeOutList<T>, ivs: Seq<u64>, iv: u64, now: u64)
    ensures
        expired_concat(l, ivs.push(iv), now) == expired_concat(l, ivs, now) + expired_data(
            l.pending(iv),
            now,
        ),
    decreases ivs.len(),
{
    if ivs.len() == 0 {
        assert(ivs.push(iv).skip(1) =~= Seq::<u64>::empty());
        assert(ivs.push(iv)[0] == iv);
        assert(expired_concat(l, ivs.push(iv), now) == expired_data(l.pending(iv), now)
            + expired_concat(l, Seq::<u64>::empty(), now));
        assert(expired_concat(l, Seq::<u64>::empty(), now) == Seq::<T>::empty());
        assert(expired_data(l.pending(iv), now) + Seq::<T>::empty() =~= expired_data(
            l.pending(iv),
            now,
        ));
        assert(expired_concat(l, ivs, now) =~= Seq::<T>::empty());
        assert(expired_concat(l, ivs, now) + expired_data(l.pending(iv), now) =~= expired_data(
            l.pending(iv),
            now,
        ));
    } else {
        assert(ivs.push(iv).skip(1) =~= ivs.skip(1).push(iv));
        lemma_expired_concat_push(l, ivs.skip(1), iv, now);
        assert(expired_concat(l, ivs.push(iv), now) =~= expired_concat(l, ivs, now)
            + expired_data(l.pending(iv), now));
    }
}

/// How many entries of the queue carry this interval.
spec fn heap_count_of(heap: Seq<HeapEntry>, interval: u64) -> nat
    decreases heap.len(),
{
    if heap.len() == 0 {
        0
    } else {
        (if heap[0].interval == interval {
            1nat
        } else {
            0nat
        }) + heap_count_of(heap.skip(1), interval)
    }
}

spec fn heap_has(heap: Seq<HeapEntry>, interval: u64) -> bool {
    exists|i: int| 0 <= i < heap.len() && heap[i].interval == interval
}

spec fn slot_ok<T>(s: IntervalSlot<T>, clock: u64, next_id: u64) -> bool {
    &&& times_sorted(slot_view(s))
    &&& forall|k: int| 0 <= k < s.entries@.len() ==> s.entries@[k].item.time <= clock + s.interval
    &&& forall|k: int| 0 <= k < s.entries@.len() ==> s.entries@[k].id < next_id
    &&& forall|k: int, l: int|
        0 <= k < l < s.entries@.len() ==> s.entries@[k].id != s.entries@[l].id
    &&& s.in_use <= 1
}


proof fn lemma_slot_idx_is<T>(slots: Seq<IntervalSlot<T>>, i: int)
    requires
        0 <= i < slots.len(),
        forall|a: int, b: int| 0 <= a < b < slots.len() ==> slots[a].interval != slots[b].interval,
    ensures
        has_slot(slots, slots[i].interval),
        slot_idx(slots, slots[i].interval) == i,
{
    assert(has_slot(slots, slots[i].interval));
    let j = slot_idx(slots, slots[i].interval);
    if j < i {
        assert(slots[j].interval != slots[i].interval);
    } else if j > i {
        assert(slots[i].interval != slots[j].interval);
    }
}

proof fn lemma_slot_view_push<T>(pre: IntervalSlot<T>, post: IntervalSlot<T>, e: (u64, u64, T))
    requires
        post.entries@.len() == pre.entries@.len() + 1,
        post.entries@.subrange(0, pre.entries@.len() as int) == pre.entries@,
        post.entries@[pre.entries@.len() as int].id == e.0,
        post.entries@[pre.entries@.len() as int].item.time == e.1,
        post.entries@[pre.entries@.len() as int].item.data == e.2,
    ensures
        slot_view(post) == slot_view(pre).push(e),
{
    assert forall|k: int| 0 <= k < pre.entries@.len() implies post.entries@[k]
        == pre.entries@[k] by {
        assert(post.entries@.subrange(0, pre.entries@.len() as int)[k] == post.entries@[k]);
    }
    assert(slot_view(post) =~= slot_view(pre).push(e));
}

/// Replacing one slot with another of the same interval leaves every other
/// interval's pending view unchanged.
proof fn lemma_pending_after_update<T>(pre: Seq<IntervalSlot<T>>, post: Seq<IntervalSlot<T>>, i: int)
    requires
        0 <= i < pre.len(),
        post.len() == pre.len(),
        forall|a: int| 0 <= a < pre.len() && a != i ==> post[a] == pre[a],
        post[i].interval == pre[i].interval,
        forall|a: int, b: int| 0 <= a < b < pre.len() ==> pre[a].interval != pre[b].interval,
    ensures
        forall|iv: u64|
            iv != pre[i].interval ==> #[trigger] pending_of(post, iv) == pending_of(pre, iv),
        pending_of(post, pre[i].interval) == slot_view(post[i]),
        pending_of(pre, pre[i].interval) == slot_view(pre[i]),
{
    assert forall|a: int| 0 <= a < pre.len() implies post[a].interval == pre[a].interval by {}
    lemma_slot_idx_is(pre, i);
    assert forall|a: int, b: int|
        0 <= a < b < post.len() implies post[a].interval != post[b].interval by {}
    lemma_slot_idx_is(post, i);
    assert forall|iv: u64|
        iv != pre[i].interval implies #[trigger] pending_of(post, iv) == pending_of(pre, iv) by {
        if has_slot(pre, iv) {
            let a = slot_idx(pre, iv);
            lemma_slot_idx_is(post, a);
            assert(has_slot(post, iv));
            assert(slot_idx(post, iv) == a);
            assert(post[a] == pre[a]);
        } else {
            if has_slot(post, iv) {
                let a = slot_idx(post, iv);
                assert(pre[a].interval == iv);
            }
        }
    }
}

/// Appending a slot for a fresh interval leaves every other interval's
/// pending view unchanged and makes the new one visible.
proof fn lemma_pending_after_push<T>(pre: Seq<IntervalSlot<T>>, s: IntervalSlot<T>)
    requires
        !has_slot(pre, s.interval),
        forall|a: int, b: int| 0 <= a < b < pre.len() ==> pre[a].interval != pre[b].interval,
    ensures
        forall|iv: u64|
            iv != s.interval ==> #[trigger] pending_of(pre.push(s), iv) == pending_of(pre, iv),
        pending_of(pre.push(s), s.interval) == slot_view(s),
        pending_of(pre, s.interval) == Seq::<(u64, u64, T)>::empty(),
        forall|a: int, b: int|
            0 <= a < b < pre.push(s).len() ==> pre.push(s)[a].interval != pre.push(s)[b].interval,
{
    let post = pre.push(s);
    assert forall|a: int, b: int|
        0 <= a < b < post.len() implies post[a].interval != post[b].interval by {
        if b == pre.len() as int {
            assert(pre[a].interval != s.interval);
        }
    }
    lemma_slot_idx_is(post, pre.len() as int);
    assert forall|iv: u64|
        iv != s.interval implies #[trigger] pending_of(post, iv) == pending_of(pre, iv) by {
        if has_slot(pre, iv) {
            let a = slot_idx(pre, iv);
            lemma_slot_idx_is(post, a);
        } else {
            if has_slot(post, iv) {
                let a = slot_idx(post, iv);
                assert(0 <= a < pre.len() ==> pre[a].interval == iv);
            }
        }
    }
}


/// If one slot's entry list shrinks (same interval, same in-use flag, head
/// expiry moving no earlier) and everything else is untouched, the whole
/// structure stays well formed.
proof fn lemma_wf_after_entries_shrink<T>(pre: TimeOutList<T>, post: TimeOutList<T>, ii: int)
    requires
        pre.wf(),
        0 <= ii < pre.slots@.len(),
        post.heap@ == pre.heap@,
        post.next_id == pre.next_id,
        post.clock@ == pre.clock@,
        post.slots@.len() == pre.slots@.len(),
        forall|a: int| 0 <= a < pre.slots@.len() && a != ii ==> post.slots@[a] == pre.slots@[a],
        post.slots@[ii].interval == pre.slots@[ii].interval,
        post.slots@[ii].in_use == pre.slots@[ii].in_use,
        slot_ok(post.slots@[ii], pre.clock@, pre.next_id),
        post.slots@[ii].entries@.len() > 0 ==> pre.slots@[ii].entries@.len() > 0
            && pre.slots@[ii].entries@[0].item.time <= post.slots@[ii].entries@[0].item.time,
    ensures
        post.wf(),
{
    assert forall|a: int|
        0 <= a < post.slots@.len() implies post.slots@[a].interval == pre.slots@[a].interval
        && post.slots@[a].in_use == pre.slots@[a].in_use by {}
    assert forall|a: int|
        0 <= a < post.slots@.len() implies slot_ok(post.slots@[a], post.clock@, post.next_id) by {
        if a != ii {
            assert(slot_ok(pre.slots@[a], pre.clock@, pre.next_id));
        }
    }
    assert forall|a: int|
        0 <= a < post.heap@.len() implies has_slot(post.slots@, post.heap@[a].interval) by {
        assert(has_slot(pre.slots@, pre.heap@[a].interval));
        let w = slot_idx(pre.slots@, pre.heap@[a].interval);
        assert(post.slots@[w].interval == pre.heap@[a].interval);
    }
    assert forall|a: int|
        0 <= a < post.slots@.len() implies (post.slots@[a].in_use == 1 <==> heap_has(
        post.heap@,
        post.slots@[a].interval,
    )) by {
        assert(pre.slots@[a].in_use == 1 <==> heap_has(pre.heap@, pre.slots@[a].interval));
    }
    assert forall|a: int|
        0 <= a < post.slots@.len() && post.slots@[a].entries@.len() > 0 implies post.slots@[a].in_use
        == 1 by {
        if a != ii {
            assert(pre.slots@[a].entries@.len() > 0);
        } else {
            assert(pre.slots@[ii].entries@.len() > 0);
        }
    }
    assert forall|a: int, b: int|
        0 <= a < post.heap@.len() && 0 <= b < post.slots@.len() && post.heap@[a].interval
            == post.slots@[b].interval && post.slots@[b].entries@.len() > 0 implies post.heap@[a].time
        <= post.slots@[b].entries@[0].item.time by {
        if b == ii {
            assert(pre.heap@[a].time <= pre.slots@[ii].entries@[0].item.time);
        } else {
            assert(post.slots@[b] == pre.slots@[b]);
        }
    }
}


/// The expired prefix is never longer than the list itself.
proof fn lemma_count_expired_le_len<T>(s: Seq<(u64, u64, T)>, now: u64)
    ensures
        count_expired(s, now) <= s.len(),
    decreases s.len(),
{
    if s.len() > 0 && s[0].1 <= now {
        lemma_count_expired_le_len(s.skip(1), now);
    }
}

/// Draining the expired prefix leaves a list with nothing expired.
proof fn lemma_count_expired_skip_all<T>(s: Seq<(u64, u64, T)>, now: u64)
    ensures
        count_expired(s.skip(count_expired(s, now) as int), now) == 0,
    decreases s.len(),
{
    if s.len() == 0 {
        assert(s.skip(0) =~= s);
    } else if s[0].1 > now {
        assert(s.skip(0) =~= s);
    } else {
        lemma_count_expired_skip_all(s.skip(1), now);
        lemma_count_expired_le_len(s.skip(1), now);
        let c = count_expired(s.skip(1), now) as int;
        assert(s.skip(1 + c) =~= s.skip(1).skip(c));
    }
}

/// Removing one queue entry keeps the other intervals' membership and the
/// pairwise distinctness.
proof fn lemma_heap_remove_facts(heap: Seq<HeapEntry>, mi: int)
    requires
        0 <= mi < heap.len(),
        forall|a: int, b: int| 0 <= a < b < heap.len() ==> heap[a].interval != heap[b].interval,
    ensures
        forall|a: int, b: int|
            0 <= a < b < heap.remove(mi).len() ==> heap.remove(mi)[a].interval != heap.remove(
                mi,
            )[b].interval,
        !heap_has(heap.remove(mi), heap[mi].interval),
        forall|iv: u64|
            iv != heap[mi].interval ==> (heap_has(heap.remove(mi), iv) <==> heap_has(heap, iv)),
        forall|a: int|
            0 <= a < heap.remove(mi).len() ==> exists|b: int|
                0 <= b < heap.len() && #[trigger] heap.remove(mi)[a] == heap[b],
{
    let post = heap.remove(mi);
    assert forall|a: int, b: int|
        0 <= a < b < post.len() implies post[a].interval != post[b].interval by {
        let a0: int = if a < mi {
            a
        } else {
            a + 1
        };
        let b0: int = if b < mi {
            b
        } else {
            b + 1
        };
        assert(heap[a0].interval != heap[b0].interval);
    }
    assert forall|a: int| 0 <= a < post.len() implies exists|b: int|
        0 <= b < heap.len() && #[trigger] post[a] == heap[b] by {
        let a0: int = if a < mi {
            a
        } else {
            a + 1
        };
        assert(post[a] == heap[a0]);
    }
    if heap_has(post, heap[mi].interval) {
        let w = choose|w: int| 0 <= w < post.len() && post[w].interval == heap[mi].interval;
        let w0: int = if w < mi {
            w
        } else {
            w + 1
        };
        assert(heap[w0].interval == heap[mi].interval);
        if w0 < mi {
            assert(heap[w0].interval != heap[mi].interval);
        } else {
            assert(heap[mi].interval != heap[w0].interval);
        }
    }
    assert forall|iv: u64|
        iv != heap[mi].interval implies (heap_has(post, iv) <==> heap_has(heap, iv)) by {
        if heap_has(heap, iv) {
            let w = choose|w: int| 0 <= w < heap.len() && heap[w].interval == iv;
            let w1: int = if w < mi {
                w
            } else {
                w - 1
            };
            assert(post[w1] == heap[w]);
        }
        if heap_has(post, iv) {
            let w = choose|w: int| 0 <= w < post.len() && post[w].interval == iv;
            let w0: int = if w < mi {
                w
            } else {
                w + 1
            };
            assert(heap[w0].interval == iv);
        }
    }
}

/// Removing a slot that the queue does not reference keeps everything well
/// formed, and only that interval's (empty) pending view disappears.
proof fn lemma_wf_after_slot_remove<T>(pre: TimeOutList<T>, post: TimeOutList<T>, si: int)
    requires
        pre.wf(),
        0 <= si < pre.slots@.len(),
        post.slots@ == pre.slots@.remove(si),
        post.heap@ == pre.heap@,
        post.next_id == pre.next_id,
        post.clock@ == pre.clock@,
        !heap_has(pre.heap@, pre.slots@[si].interval),
        pre.slots@[si].entries@.len() == 0,
        pre.slots@[si].in_use == 0,
    ensures
        post.wf(),
        forall|iv: u64|
            iv != pre.slots@[si].interval ==> #[trigger] pending_of(post.slots@, iv) == pending_of(
                pre.slots@,
                iv,
            ),
        pending_of(post.slots@, pre.slots@[si].interval) == Seq::<(u64, u64, T)>::empty(),
{
    let ps = post.slots@;
    assert forall|a: int| 0 <= a < ps.len() implies exists|b: int|
        0 <= b < pre.slots@.len() && #[trigger] ps[a] == pre.slots@[b] && b != si by {
        let a0: int = if a < si {
            a
        } else {
            a + 1
        };
        assert(ps[a] == pre.slots@[a0]);
    }
    assert forall|a: int, b: int|
        0 <= a < b < ps.len() implies ps[a].interval != ps[b].interval by {
        let a0: int = if a < si {
            a
        } else {
            a + 1
        };
        let b0: int = if b < si {
            b
        } else {
            b + 1
        };
        assert(pre.slots@[a0].interval != pre.slots@[b0].interval);
    }
    assert forall|a: int|
        0 <= a < ps.len() implies slot_ok(ps[a], post.clock@, post.next_id) && (ps[a].in_use == 1
            <==> heap_has(post.heap@, ps[a].interval)) && (ps[a].entries@.len() > 0 ==> ps[a].in_use
            == 1) by {
        let a0: int = if a < si {
            a
        } else {
            a + 1
        };
        assert(ps[a] == pre.slots@[a0]);
        assert(slot_ok(pre.slots@[a0], pre.clock@, pre.next_id));
    }
    assert forall|a: int|
        0 <= a < post.heap@.len() implies has_slot(ps, post.heap@[a].interval) by {
        assert(has_slot(pre.slots@, pre.heap@[a].interval));
        let w = slot_idx(pre.slots@, pre.heap@[a].interval);
        assert(pre.slots@[w].interval == pre.heap@[a].interval);
        if w == si {
            assert(heap_has(pre.heap@, pre.slots@[si].interval));
        } else {
            let w1: int = if w < si {
                w
            } else {
                w - 1
            };
            assert(ps[w1] == pre.slots@[w]);
        }
    }
    assert forall|a: int, b: int|
        0 <= a < post.heap@.len() && 0 <= b < ps.len() && post.heap@[a].interval == ps[b].interval
            && ps[b].entries@.len() > 0 implies post.heap@[a].time
        <= ps[b].entries@[0].item.time by {
        let b0: int = if b < si {
            b
        } else {
            b + 1
        };
        assert(ps[b] == pre.slots@[b0]);
    }
    assert(post.wf());
    // pending views
    assert forall|iv: u64|
        iv != pre.slots@[si].interval implies #[trigger] pending_of(ps, iv) == pending_of(
        pre.slots@,
        iv,
    ) by {
        if has_slot(pre.slots@, iv) {
            let w = slot_idx(pre.slots@, iv);
            assert(pre.slots@[w].interval == iv);
            assert(w != si);
            let w1: int = if w < si {
                w
            } else {
                w - 1
            };
            assert(ps[w1] == pre.slots@[w]);
            lemma_slot_idx_is(ps, w1);
            lemma_slot_idx_is(pre.slots@, w);
        } else {
            if has_slot(ps, iv) {
                let w = choose|w: int| 0 <= w < ps.len() && ps[w].interval == iv;
                let w0: int = if w < si {
                    w
                } else {
                    w + 1
                };
                assert(pre.slots@[w0].interval == iv);
            }
        }
    }
    if has_slot(ps, pre.slots@[si].interval) {
        let w = choose|w: int| 0 <= w < ps.len() && ps[w].interval == pre.slots@[si].interval;
        let w0: int = if w < si {
            w
        } else {
            w + 1
        };
        assert(pre.slots@[w0].interval == pre.slots@[si].interval);
        if w0 < si {
            assert(pre.slots@[w0].interval != pre.slots@[si].interval);
        } else {
            assert(pre.slots@[si].interval != pre.slots@[w0].interval);
        }
    }
}


/// After a sweep drained one interval list, replacing its queue entry with
/// one carrying the new head expiry keeps the structure well formed.
proof fn lemma_requeue_wf<T>(s1: TimeOutList<T>, post: TimeOutList<T>, mi: int, sii: int, t: u64)
    requires
        s1.wf(),
        0 <= mi < s1.heap@.len(),
        0 <= sii < s1.slots@.len(),
        s1.slots@[sii].interval == s1.heap@[mi].interval,
        s1.slots@[sii].in_use == 1,
        post.slots@ == s1.slots@,
        post.heap@ == s1.heap@.remove(mi).push(
            HeapEntry { time: t, interval: s1.heap@[mi].interval },
        ),
        post.next_id == s1.next_id,
        post.clock@ == s1.clock@,
        s1.slots@[sii].entries@.len() > 0,
        t == s1.slots@[sii].entries@[0].item.time,
    ensures
        post.wf(),
{
    let hiv = s1.heap@[mi].interval;
    let removed = s1.heap@.remove(mi);
    lemma_heap_remove_facts(s1.heap@, mi);
    let nlen = removed.len() as int;
    assert(post.heap@[nlen] == HeapEntry { time: t, interval: hiv });
    assert forall|a: int, b: int|
        0 <= a < b < post.heap@.len() implies post.heap@[a].interval != post.heap@[b].interval by {
        if b == nlen {
            if post.heap@[a].interval == hiv {
                assert(removed[a].interval == hiv);
                assert(heap_has(removed, hiv));
            }
        }
    }
    assert(slot_ok(s1.slots@[sii], s1.clock@, s1.next_id));
    assert(t <= s1.clock@ + s1.slots@[sii].interval);
    assert forall|a: int|
        0 <= a < post.heap@.len() implies has_slot(post.slots@, post.heap@[a].interval)
            && post.heap@[a].time <= post.clock@ + post.heap@[a].interval by {
        if a < nlen {
            let b = choose|b: int| 0 <= b < s1.heap@.len() && removed[a] == s1.heap@[b];
            assert(has_slot(s1.slots@, s1.heap@[b].interval));
        } else {
            assert(has_slot(s1.slots@, hiv));
        }
    }
    assert forall|a: int|
        0 <= a < post.slots@.len() implies (post.slots@[a].in_use == 1 <==> heap_has(
        post.heap@,
        post.slots@[a].interval,
    )) by {
        let iv = s1.slots@[a].interval;
        if iv == hiv {
            if a != sii {
                assert(s1.slots@[sii].interval == s1.slots@[a].interval);
                if a < sii {
                    assert(s1.slots@[a].interval != s1.slots@[sii].interval);
                } else {
                    assert(s1.slots@[sii].interval != s1.slots@[a].interval);
                }
            }
            assert(post.heap@[nlen].interval == iv);
            assert(heap_has(post.heap@, iv));
        } else {
            assert(heap_has(removed, iv) <==> heap_has(s1.heap@, iv));
            if heap_has(removed, iv) {
                let w = choose|w: int| 0 <= w < removed.len() && removed[w].interval == iv;
                assert(post.heap@[w].interval == iv);
                assert(heap_has(post.heap@, iv));
            }
            if heap_has(post.heap@, iv) {
                let w = choose|w: int| 0 <= w < post.heap@.len() && post.heap@[w].interval == iv;
                assert(w < nlen);
                assert(removed[w].interval == iv);
                assert(heap_has(removed, iv));
            }
        }
    }
    assert forall|a: int, b: int|
        0 <= a < post.heap@.len() && 0 <= b < post.slots@.len() && post.heap@[a].interval
            == post.slots@[b].interval && post.slots@[b].entries@.len() > 0 implies post.heap@[a].time
        <= post.slots@[b].entries@[0].item.time by {
        if a < nlen {
            let a0 = choose|a0: int| 0 <= a0 < s1.heap@.len() && removed[a] == s1.heap@[a0];
            assert(s1.heap@[a0].time <= s1.slots@[b].entries@[0].item.time);
        } else {
            if b != sii {
                if b < sii {
                    assert(s1.slots@[b].interval != s1.slots@[sii].interval);
                } else {
                    assert(s1.slots@[sii].interval != s1.slots@[b].interval);
                }
            }
        }
    }
    assert(post.wf());
}

/// After a sweep drained one interval list empty, dropping its queue entry
/// and clearing the in-use flag keeps the structure well formed.
proof fn lemma_retire_wf<T>(s1: TimeOutList<T>, post: TimeOutList<T>, mi: int, sii: int)
    requires
        s1.wf(),
        0 <= mi < s1.heap@.len(),
        0 <= sii < s1.slots@.len(),
        s1.slots@[sii].interval == s1.heap@[mi].interval,
        s1.slots@[sii].entries@.len() == 0,
        post.slots@.len() == s1.slots@.len(),
        forall|a: int| 0 <= a < s1.slots@.len() && a != sii ==> post.slots@[a] == s1.slots@[a],
        post.slots@[sii].interval == s1.slots@[sii].interval,
        post.slots@[sii].in_use == 0,
        post.slots@[sii].entries@ == s1.slots@[sii].entries@,
        post.heap@ == s1.heap@.remove(mi),
        post.next_id == s1.next_id,
        post.clock@ == s1.clock@,
    ensures
        post.wf(),
        !heap_has(post.heap@, post.slots@[sii].interval),
{
    let hiv = s1.heap@[mi].interval;
    lemma_heap_remove_facts(s1.heap@, mi);
    assert forall|a: int|
        0 <= a < post.slots@.len() implies post.slots@[a].interval == s1.slots@[a].interval by {}
    assert forall|a: int|
        0 <= a < post.slots@.len() implies slot_ok(post.slots@[a], post.clock@, post.next_id) by {
        assert(slot_ok(s1.slots@[a], s1.clock@, s1.next_id));
    }
    assert forall|a: int|
        0 <= a < post.heap@.len() implies has_slot(post.slots@, post.heap@[a].interval)
            && post.heap@[a].time <= post.clock@ + post.heap@[a].interval by {
        let b = choose|b: int| 0 <= b < s1.heap@.len() && post.heap@[b - b + a] == s1.heap@[b];
        assert(exists|b: int| 0 <= b < s1.heap@.len() && #[trigger] post.heap@[a] == s1.heap@[b]);
        let b0 = choose|b0: int| 0 <= b0 < s1.heap@.len() && post.heap@[a] == s1.heap@[b0];
        assert(has_slot(s1.slots@, s1.heap@[b0].interval));
        let w = slot_idx(s1.slots@, s1.heap@[b0].interval);
        assert(post.slots@[w].interval == s1.slots@[w].interval);
    }
    assert forall|a: int|
        0 <= a < post.slots@.len() implies (post.slots@[a].in_use == 1 <==> heap_has(
        post.heap@,
        post.slots@[a].interval,
    )) by {
        let iv = post.slots@[a].interval;
        if a == sii {
            if iv != hiv {
                assert(s1.slots@[sii].interval == hiv);
            }
            assert(!heap_has(post.heap@, iv));
        } else {
            if iv == hiv {
                if a < sii {
                    assert(s1.slots@[a].interval != s1.slots@[sii].interval);
                } else {
                    assert(s1.slots@[sii].interval != s1.slots@[a].interval);
                }
            } else {
                assert(heap_has(post.heap@, iv) <==> heap_has(s1.heap@, iv));
            }
        }
    }
    assert forall|a: int, b: int|
        0 <= a < post.heap@.len() && 0 <= b < post.slots@.len() && post.heap@[a].interval
            == post.slots@[b].interval && post.slots@[b].entries@.len() > 0 implies post.heap@[a].time
        <= post.slots@[b].entries@[0].item.time by {
        assert(exists|c: int| 0 <= c < s1.heap@.len() && #[trigger] post.heap@[a] == s1.heap@[c]);
        let a0 = choose|a0: int| 0 <= a0 < s1.heap@.len() && post.heap@[a] == s1.heap@[a0];
        assert(b != sii);
        assert(post.slots@[b] == s1.slots@[b]);
        assert(s1.heap@[a0].time <= s1.slots@[b].entries@[0].item.time);
    }
    assert(post.wf());
}


/// How many queue entries are due at `now`.
spec fn heap_due_count(heap: Seq<HeapEntry>, now: u64) -> nat
    decreases heap.len(),
{
    if heap.len() == 0 {
        0
    } else {
        (if heap[0].time <= now {
            1nat
        } else {
            0nat
        }) + heap_due_count(heap.skip(1), now)
    }
}

proof fn lemma_due_push(heap: Seq<HeapEntry>, h: HeapEntry, now: u64)
    ensures
        heap_due_count(heap.push(h), now) == heap_due_count(heap, now) + (if h.time <= now {
            1nat
        } else {
            0nat
        }),
    decreases heap.len(),
{
    if heap.len() == 0 {
        assert(heap.push(h)[0] == h);
        assert(heap.push(h).skip(1) =~= Seq::<HeapEntry>::empty());
        assert(heap_due_count(Seq::<HeapEntry>::empty(), now) == 0);
        assert(heap_due_count(heap, now) == 0);
        assert(heap_due_count(heap.push(h), now) == (if h.time <= now {
            1nat
        } else {
            0nat
        }) + heap_due_count(heap.push(h).skip(1), now));
    } else {
        assert(heap.push(h).skip(1) =~= heap.skip(1).push(h));
        assert(heap.push(h)[0] == heap[0]);
        lemma_due_push(heap.skip(1), h, now);
        assert(heap_due_count(heap.push(h), now) == (if heap[0].time <= now {
            1nat
        } else {
            0nat
        }) + heap_due_count(heap.skip(1).push(h), now));
    }
}

proof fn lemma_due_remove(heap: Seq<HeapEntry>, mi: int, now: u64)
    requires
        0 <= mi < heap.len(),
    ensures
        heap_due_count(heap, now) == heap_due_count(heap.remove(mi), now) + (if heap[mi].time
            <= now {
            1nat
        } else {
            0nat
        }),
    decreases heap.len(),
{
    if mi == 0 {
        assert(heap.remove(0) =~= heap.skip(1));
    } else {
        assert(heap.remove(mi)[0] == heap[0]);
        assert(heap.remove(mi).skip(1) =~= heap.skip(1).remove(mi - 1));
        lemma_due_remove(heap.skip(1), mi - 1, now);
    }
}


/// Position of the entry carrying `id`, if it is still in the list.
fn find_entry<T>(entries: &Vec<IdEntry<T>>, id: u64) -> (r: Option<usize>)
    ensures
        match r {
            Some(k) => k < entries@.len() && entries@[k as int].id == id,
            None => forall|j: int| 0 <= j < entries@.len() ==> entries@[j].id != id,
        },
{
    let mut k: usize = 0;
    while k < entries.len()
        invariant
            k <= entries@.len(),
            forall|j: int| 0 <= j < k ==> entries@[j].id != id,
        decreases entries@.len() - k,
    {
        if entries[k].id == id {
            return Some(k);
        }
        k = k + 1;
    }
    None
}

impl<T> TimeOutList<T> {
    /// The last clock value this list has seen; callers must hand in
    /// nondecreasing `now` values (a monotonic clock).
    pub closed spec fn clock(&self) -> u64 {
        self.clock@
    }

    /// Entry ids are not exhausted (a machine limit, not a design one).
    pub closed spec fn can_add(&self) -> bool {
        self.next_id < u64::MAX
    }

    /// How many entry ids have been handed out so far.
    pub closed spec fn next_id_val(&self) -> u64 {
        self.next_id
    }

    /// The live entries filed under `interval`, head first, as
    /// (id, expiry, payload) triples.
    pub closed spec fn pending(&self, interval: u64) -> Seq<(u64, u64, T)> {
        pending_of(self.slots@, interval)
    }

    /// Whether the handle still refers to a live entry.
    pub open spec fn contains_handle(&self, h: TimeoutHandle) -> bool {
        exists|k: int|
            0 <= k < self.pending(h.interval).len() && self.pending(h.interval)[k].0 == h.id
    }

    /// How many queue entries the priority queue holds for `interval`.
    pub closed spec fn heap_count(&self, interval: u64) -> nat {
        heap_count_of(self.heap@, interval)
    }

    /// The in-use flag of the interval list for `interval` (0 when absent).
    pub closed spec fn in_use_flag(&self, interval: u64) -> u64 {
        if has_slot(self.slots@, interval) {
            self.slots@[slot_idx(self.slots@, interval)].in_use
        } else {
            0
        }
    }

    /// The priority queue and the slot skeleton (intervals and in-use
    /// flags) of two states agree; only entry lists may differ.
    pub closed spec fn same_shape(&self, other: &Self) -> bool {
        &&& self.heap@ == other.heap@
        &&& self.slots@.len() == other.slots@.len()
        &&& forall|a: int|
            0 <= a < self.slots@.len() ==> self.slots@[a].interval == other.slots@[a].interval
                && self.slots@[a].in_use == other.slots@[a].in_use
    }

    /// Everything the structure maintains across operations.
    pub closed spec fn wf(&self) -> bool {
        &&& forall|i: int, j: int|
            0 <= i < j < self.slots@.len() ==> self.slots@[i].interval != self.slots@[j].interval
        &&& forall|i: int|
            0 <= i < self.slots@.len() ==> slot_ok(self.slots@[i], self.clock@, self.next_id)
        &&& forall|i: int, j: int|
            0 <= i < j < self.heap@.len() ==> self.heap@[i].interval != self.heap@[j].interval
        &&& forall|i: int|
            0 <= i < self.heap@.len() ==> has_slot(self.slots@, self.heap@[i].interval)
        &&& forall|i: int|
            0 <= i < self.slots@.len() ==> (self.slots@[i].in_use == 1 <==> heap_has(
                self.heap@,
                self.slots@[i].interval,
            ))
        &&& forall|i: int|
            0 <= i < self.slots@.len() && self.slots@[i].entries@.len() > 0
                ==> self.slots@[i].in_use == 1
        &&& forall|i: int|
            0 <= i < self.heap@.len() ==> self.heap@[i].time <= self.clock@
                + self.heap@[i].interval
        &&& forall|i: int, j: int|
            0 <= i < self.heap@.len() && 0 <= j < self.slots@.len() && self.heap@[i].interval
                == self.slots@[j].interval && self.slots@[j].entries@.len() > 0
                ==> self.heap@[i].time <= self.slots@[j].entries@[0].item.time
    }

    /// A fresh, empty timeout list.
    pub fn new() -> (r: Self)
        ensures
            r.wf(),
            r.can_add(),
            r.clock() == 0,
            forall|iv: u64| r.pending(iv) == Seq::<(u64, u64, T)>::empty(),
    {
        TimeOutList { slots: Vec::new(), heap: Vec::new(), next_id: 0, clock: Ghost(0) }
    }

    /// Add a timeout event `dur` from `now`, filed under its interval.
    /// Returns the handle of the fresh entry and whether it became the head
    /// of its interval list (so the timer thread must recompute its sleep).
    pub fn add_timer(&mut self, now: u64, dur: Duration, data: T) -> (r: (TimeoutHandle, bool))
        requires
            old(self).wf(),
            old(self).can_add(),
            old(self).clock() <= now,
            now + dur_ns(dur) <= u64::MAX,
        ensures
            final(self).wf(),
            final(self).clock() == now,
            final(self).next_id_val() == old(self).next_id_val() + 1,
            r.0.interval == dur_ns(dur),
            r.0.id == old(self).next_id_val(),
            !old(self).contains_handle(r.0),
            final(self).pending(dur_ns(dur)) == old(self).pending(dur_ns(dur)).push(
                (r.0.id, (now + dur_ns(dur)) as u64, data),
            ),
            forall|iv: u64| iv != dur_ns(dur) ==> final(self).pending(iv) == old(self).pending(iv),
            r.1 == (old(self).pending(dur_ns(dur)).len() == 0),
    {
        let interval = dur_to_ns(dur);
        let time = now + interval;
        let id = self.next_id;
        self.next_id = id + 1;
        self.clock = Ghost(now);

        proof {
            // growing the clock and the id bound keeps every slot well formed
            assert forall|a: int|
                0 <= a < self.slots@.len() implies slot_ok(
                self.slots@[a],
                self.clock@,
                self.next_id,
            ) by {
                assert(slot_ok(old(self).slots@[a], old(self).clock@, old(self).next_id));
            }
        }

        let entry = IdEntry { id, item: TimeoutData { time, data } };
        let ghost e = (id, time, data);
        let ghost pre = self.slots@;
        let ghost heap_pre = self.heap@;

        match self.find_slot(interval) {
            Some(i) => {
                let ghost ii = i as int;
                proof {
                    lemma_slot_idx_is(pre, ii);
                    // the fresh id is not among the live entries
                    assert(slot_ok(pre[ii], old(self).clock@, id));
                    assert forall|k: int|
                        0 <= k < old(self).pending(interval).len() implies old(self).pending(
                        interval,
                    )[k].0 != id by {
                        assert(old(self).pending(interval)[k].0 == pre[ii].entries@[k].id);
                    }
                }
                let is_head = self.slots[i].entries.len() == 0;
                let slot = &mut self.slots[i];
                slot.entries.push(entry);
                let ghost mid = self.slots@;
                proof {
                    assert(mid[ii].entries@ == pre[ii].entries@.push(entry));
                    assert(mid[ii].entries@.subrange(0, pre[ii].entries@.len() as int)
                        =~= pre[ii].entries@);
                    lemma_slot_view_push(pre[ii], mid[ii], e);
                    lemma_pending_after_update(pre, mid, ii);
                }
                let mut installed = false;
                if is_head {
                    if self.slots[i].in_use == 0 {
                        let slot = &mut self.slots[i];
                        slot.in_use = 1;
                        self.heap.push(HeapEntry { time, interval });
                        installed = true;
                    }
                }
                proof {
                    let post = self.slots@;
                    lemma_pending_after_update(mid, post, ii);
                    assert(self.pending(interval) == old(self).pending(interval).push(e));
                    assert forall|iv: u64|
                        iv != interval implies self.pending(iv) == old(self).pending(iv) by {
                        assert(pending_of(mid, iv) == pending_of(pre, iv));
                        assert(pending_of(post, iv) == pending_of(mid, iv));
                    }

                    // --- well-formedness, clause by clause ---
                    let sv_pre = slot_view(pre[ii]);
                    let sv = slot_view(post[ii]);
                    assert(sv == sv_pre.push(e));
                    assert(slot_ok(pre[ii], old(self).clock@, id));
                    // the updated slot stays well formed
                    assert(slot_ok(post[ii], now, (id + 1) as u64)) by {
                        assert forall|k: int, l: int|
                            0 <= k <= l < sv.len() implies sv[k].1 <= sv[l].1 by {
                            if l < sv.len() - 1 {
                                assert(sv_pre[k].1 <= sv_pre[l].1);
                            } else if k < sv.len() - 1 {
                                assert(pre[ii].entries@[k].item.time <= old(self).clock@
                                    + pre[ii].interval);
                            }
                        }
                        assert forall|k: int|
                            0 <= k < post[ii].entries@.len() implies post[ii].entries@[k].item.time
                            <= now + post[ii].interval by {
                            if k < post[ii].entries@.len() - 1 {
                                assert(pre[ii].entries@[k].item.time <= old(self).clock@
                                    + pre[ii].interval);
                            }
                        }
                        assert forall|k: int|
                            0 <= k < post[ii].entries@.len() implies post[ii].entries@[k].id < id
                            + 1 by {
                            if k < post[ii].entries@.len() - 1 {
                                assert(pre[ii].entries@[k].id < id);
                            }
                        }
                        assert forall|k: int, l: int|
                            0 <= k < l < post[ii].entries@.len() implies post[ii].entries@[k].id
                            != post[ii].entries@[l].id by {
                            if l < post[ii].entries@.len() - 1 {
                                assert(pre[ii].entries@[k].id != pre[ii].entries@[l].id);
                            } else {
                                assert(pre[ii].entries@[k].id < id);
                            }
                        }
                    }
                    assert forall|a: int|
                        0 <= a < post.len() implies slot_ok(post[a], now, (id + 1) as u64) by {
                        if a != ii {
                            assert(slot_ok(pre[a], now, (id + 1) as u64));
                        }
                    }
                    // heap-related clauses
                    if installed {
                        assert(pre[ii].in_use == 0);
                        assert(!heap_has(heap_pre, interval));
                        assert(self.heap@ == heap_pre.push(HeapEntry { time, interval }));
                        assert forall|a: int, b: int|
                            0 <= a < b < self.heap@.len() implies self.heap@[a].interval
                            != self.heap@[b].interval by {
                            if b == heap_pre.len() as int {
                                if self.heap@[a].interval == interval {
                                    assert(heap_has(heap_pre, interval));
                                }
                            }
                        }
                        assert forall|a: int|
                            0 <= a < post.len() implies (post[a].in_use == 1 <==> heap_has(
                            self.heap@,
                            post[a].interval,
                        )) by {
                            if a == ii {
                                assert(self.heap@[heap_pre.len() as int].interval == interval);
                            } else {
                                assert(post[a].interval != interval);
                                if post[a].in_use == 1 {
                                    let w = choose|w: int|
                                        0 <= w < heap_pre.len() && heap_pre[w].interval == post[a].interval;
                                    assert(self.heap@[w].interval == post[a].interval);
                                } else {
                                    if heap_has(self.heap@, post[a].interval) {
                                        let w = choose|w: int|
                                            0 <= w < self.heap@.len() && self.heap@[w].interval
                                                == post[a].interval;
                                        assert(w < heap_pre.len());
                                        assert(heap_has(heap_pre, post[a].interval));
                                    }
                                }
                            }
                        }
                    } else {
                        assert(self.heap@ == heap_pre);
                        assert(post[ii].in_use == pre[ii].in_use);
                        if is_head {
                            assert(pre[ii].in_use == 1);
                        } else {
                            assert(pre[ii].entries@.len() > 0);
                            assert(pre[ii].in_use == 1);
                        }
                        assert forall|a: int|
                            0 <= a < post.len() implies (post[a].in_use == 1 <==> heap_has(
                            self.heap@,
                            post[a].interval,
                        )) by {
                            assert(post[a].in_use == pre[a].in_use);
                            assert(post[a].interval == pre[a].interval);
                        }
                    }
                    assert forall|a: int|
                        0 <= a < self.heap@.len() implies has_slot(
                        self.slots@,
                        self.heap@[a].interval,
                    ) by {
                        if a < heap_pre.len() {
                            let w = slot_idx(pre, heap_pre[a].interval);
                            assert(has_slot(pre, heap_pre[a].interval));
                            assert(post[w].interval == pre[w].interval);
                        } else {
                            assert(post[ii].interval == interval);
                        }
                    }
                    assert forall|a: int|
                        0 <= a < self.heap@.len() implies self.heap@[a].time <= self.clock@
                        + self.heap@[a].interval by {
                        if a < heap_pre.len() {
                            assert(heap_pre[a].time <= old(self).clock@ + heap_pre[a].interval);
                        }
                    }
                    // head expiry bound per heap entry
                    assert forall|a: int, b: int|
                        0 <= a < self.heap@.len() && 0 <= b < post.len() && self.heap@[a].interval
                        == post[b].interval && post[b].entries@.len() > 0 implies self.heap@[a].time <= post[b].entries@[0].item.time by {
                        if b != ii {
                            assert(post[b] == pre[b]);
                            if a < heap_pre.len() {
                            } else {
                                assert(post[b].interval != interval);
                            }
                        } else {
                            if is_head {
                                assert(post[ii].entries@[0].item.time == time);
                                if a < heap_pre.len() {
                                    assert(heap_pre[a].time <= old(self).clock@
                                        + heap_pre[a].interval);
                                }
                            } else {
                                assert(post[ii].entries@[0] == pre[ii].entries@[0]);
                                assert(a < heap_pre.len());
                            }
                        }
                    }
                    assert(self.wf());
                }
                (TimeoutHandle { interval, id }, is_head)
            },
            None => {
                let mut entries: Vec<IdEntry<T>> = Vec::new();
                entries.push(entry);
                let new_slot = IntervalSlot { interval, entries, in_use: 1 };
                proof {
                    assert(slot_view(new_slot) =~= seq![e]);
                }
                self.slots.push(new_slot);
                self.heap.push(HeapEntry { time, interval });
                proof {
                    let post = self.slots@;
                    assert(post == pre.push(post[pre.len() as int]));
                    lemma_pending_after_push(pre, post[pre.len() as int]);
                    assert(old(self).pending(interval) == Seq::<(u64, u64, T)>::empty());
                    assert(self.pending(interval) =~= old(self).pending(interval).push(e));

                    // --- well-formedness ---
                    let ni = pre.len() as int;
                    assert(slot_view(post[ni]).len() == 1);
                    assert(slot_ok(post[ni], now, (id + 1) as u64));
                    assert forall|a: int|
                        0 <= a < post.len() implies slot_ok(post[a], now, (id + 1) as u64) by {
                        if a != ni {
                            assert(slot_ok(pre[a], now, (id + 1) as u64));
                        }
                    }
                    assert(!heap_has(heap_pre, interval)) by {
                        if heap_has(heap_pre, interval) {
                            let w = choose|w: int|
                                0 <= w < heap_pre.len() && heap_pre[w].interval == interval;
                            assert(has_slot(pre, interval));
                        }
                    }
                    assert forall|a: int, b: int|
                        0 <= a < b < self.heap@.len() implies self.heap@[a].interval
                        != self.heap@[b].interval by {
                        if b == heap_pre.len() as int {
                            if self.heap@[a].interval == interval {
                                assert(heap_has(heap_pre, interval));
                            }
                        }
                    }
                    assert forall|a: int|
                        0 <= a < self.heap@.len() implies has_slot(
                        self.slots@,
                        self.heap@[a].interval,
                    ) by {
                        if a < heap_pre.len() {
                            let w = slot_idx(pre, heap_pre[a].interval);
                            assert(has_slot(pre, heap_pre[a].interval));
                            assert(post[w].interval == pre[w].interval);
                        } else {
                            assert(post[ni].interval == interval);
                        }
                    }
                    assert forall|a: int|
                        0 <= a < post.len() implies (post[a].in_use == 1 <==> heap_has(
                        self.heap@,
                        post[a].interval,
                    )) by {
                        if a == ni {
                            assert(self.heap@[heap_pre.len() as int].interval == interval);
                        } else {
                            assert(post[a] == pre[a]);
                            assert(post[a].interval != interval);
                            if post[a].in_use == 1 {
                                let w = choose|w: int|
                                    0 <= w < heap_pre.len() && heap_pre[w].interval == post[a].interval;
                                assert(self.heap@[w].interval == post[a].interval);
                            } else {
                                if heap_has(self.heap@, post[a].interval) {
                                    let w = choose|w: int|
                                        0 <= w < self.heap@.len() && self.heap@[w].interval
                                            == post[a].interval;
                                    assert(w < heap_pre.len());
                                    assert(heap_has(heap_pre, post[a].interval));
                                }
                            }
                        }
                    }
                    assert forall|a: int|
                        0 <= a < self.heap@.len() implies self.heap@[a].time <= self.clock@
                        + self.heap@[a].interval by {
                        if a < heap_pre.len() {
                            assert(heap_pre[a].time <= old(self).clock@ + heap_pre[a].interval);
                        }
                    }
                    assert forall|a: int, b: int|
                        0 <= a < self.heap@.len() && 0 <= b < post.len() && self.heap@[a].interval
                        == post[b].interval && post[b].entries@.len() > 0 implies self.heap@[a].time <= post[b].entries@[0].item.time by {
                        if b != ni {
                            assert(post[b] == pre[b]);
                            if a == heap_pre.len() as int {
                                assert(post[b].interval != interval);
                            }
                        } else {
                            assert(post[ni].entries@[0].item.time == time);
                            if a < heap_pre.len() {
                                assert(heap_has(heap_pre, interval));
                            }
                        }
                    }
                    assert(self.wf());
                }
                (TimeoutHandle { interval, id }, true)
            },
        }
    }


    /// Cancel the entry a handle refers to. A handle whose entry has
    /// already fired or been removed is a no-op.
    pub fn del_timer(&mut self, h: TimeoutHandle)
        requires
            old(self).wf(),
        ensures
            final(self).wf(),
            final(self).clock() == old(self).clock(),
            final(self).next_id_val() == old(self).next_id_val(),
            final(self).pending(h.interval) == remove_id(old(self).pending(h.interval), h.id),
            forall|iv: u64| iv != h.interval ==> final(self).pending(iv) == old(self).pending(iv),
    {
        let ghost pre = self.slots@;
        match self.find_slot(h.interval) {
            None => {
                proof {
                    assert(old(self).pending(h.interval) == Seq::<(u64, u64, T)>::empty());
                    assert(remove_id(old(self).pending(h.interval), h.id) == old(self).pending(
                        h.interval,
                    ));
                }
            },
            Some(i) => {
                let ghost ii = i as int;
                proof {
                    lemma_slot_idx_is(pre, ii);
                }
                let ghost sv_pre = slot_view(pre[ii]);
                let found = find_entry(&self.slots[i].entries, h.id);
                if let Some(fk) = found {
                    let ghost kk = fk as int;
                    let slot = &mut self.slots[i];
                    slot.entries.remove(fk);
                    proof {
                        let post = self.slots@;
                        assert(post[ii].entries@ == pre[ii].entries@.remove(kk));
                        assert(slot_view(post[ii]) =~= sv_pre.remove(kk));
                        lemma_pending_after_update(pre, post, ii);
                        // the found index is the unique one carrying this id
                        assert(slot_ok(pre[ii], old(self).clock@, old(self).next_id));
                        assert(sv_pre[kk].0 == h.id);
                        let w = choose|w: int| 0 <= w < sv_pre.len() && sv_pre[w].0 == h.id;
                        assert(sv_pre[w].0 == h.id);
                        assert(pre[ii].entries@[w].id == h.id);
                        if w < kk {
                            assert(pre[ii].entries@[w].id != pre[ii].entries@[kk].id);
                        } else if w > kk {
                            assert(pre[ii].entries@[kk].id != pre[ii].entries@[w].id);
                        }
                        assert(w == kk);
                        assert(remove_id(sv_pre, h.id) == sv_pre.remove(kk));
                        assert(self.pending(h.interval) == remove_id(
                            old(self).pending(h.interval),
                            h.id,
                        ));

                        // well-formedness: the slot keeps a sorted subsequence
                        let sv = slot_view(post[ii]);
                        assert(slot_ok(post[ii], self.clock@, self.next_id)) by {
                            assert forall|a: int, b: int|
                                0 <= a <= b < sv.len() implies sv[a].1 <= sv[b].1 by {
                                let a0 = if a < kk { a } else { a + 1 };
                                let b0 = if b < kk { b } else { b + 1 };
                                assert(sv_pre[a0].1 <= sv_pre[b0].1);
                            }
                            assert forall|a: int|
                                0 <= a < post[ii].entries@.len() implies post[ii].entries@[a].item.time
                                <= self.clock@ + post[ii].interval && post[ii].entries@[a].id
                                < self.next_id by {
                                let a0 = if a < kk { a } else { a + 1 };
                                assert(pre[ii].entries@[a0].item.time <= self.clock@
                                    + pre[ii].interval);
                            }
                            assert forall|a: int, b: int|
                                0 <= a < b < post[ii].entries@.len() implies post[ii].entries@[a].id
                                != post[ii].entries@[b].id by {
                                let a0 = if a < kk { a } else { a + 1 };
                                let b0 = if b < kk { b } else { b + 1 };
                                assert(pre[ii].entries@[a0].id != pre[ii].entries@[b0].id);
                            }
                        }
                        // the head expiry can only move later when an entry leaves
                        if post[ii].entries@.len() > 0 {
                            let f0: int = if 0 < kk {
                                0
                            } else {
                                1
                            };
                            assert(post[ii].entries@[0] == pre[ii].entries@[f0]);
                            assert(sv_pre[0].1 <= sv_pre[f0].1);
                        }
                        lemma_wf_after_entries_shrink(*old(self), *self, ii);
                        assert(self.wf());
                    }
                } else {
                    proof {
                        assert forall|j: int|
                            0 <= j < sv_pre.len() implies sv_pre[j].0 != h.id by {
                            assert(pre[ii].entries@[j].id != h.id);
                        }
                        assert(remove_id(sv_pre, h.id) == sv_pre);
                        assert(self.pending(h.interval) == sv_pre);
                    }
                }
            },
        }
    }

    /// Fire the expired head of one interval list: remove every entry whose
    /// expiry is at or before `now`, appending their payloads to `fired` in
    /// queue order (the insertion order of the interval list). Returns the
    /// expiry of the remaining head entry, if any.
    pub fn pop_timeout(&mut self, interval: u64, now: u64, fired: &mut Vec<T>) -> (next: Option<
        u64,
    >)
        requires
            old(self).wf(),
        ensures
            final(self).wf(),
            final(self).clock() == old(self).clock(),
            final(self).next_id_val() == old(self).next_id_val(),
            final(self).same_shape(old(self)),
            final(self).pending(interval) == old(self).pending(interval).skip(
                count_expired(old(self).pending(interval), now) as int,
            ),
            forall|iv: u64| iv != interval ==> final(self).pending(iv) == old(self).pending(iv),
            final(fired)@ == old(fired)@ + expired_data(old(self).pending(interval), now),
            next == (if final(self).pending(interval).len() > 0 {
                Some(final(self).pending(interval)[0].1)
            } else {
                None::<u64>
            }),
    {
        let ghost pre = self.slots@;
        match self.find_slot(interval) {
            None => {
                proof {
                    assert(old(self).pending(interval) == Seq::<(u64, u64, T)>::empty());
                    assert(fired@ =~= old(fired)@ + expired_data(
                        old(self).pending(interval),
                        now,
                    ));
                }
                None
            },
            Some(i) => {
                let ghost ii = i as int;
                proof {
                    lemma_slot_idx_is(pre, ii);
                }
                let ghost sv_pre = slot_view(pre[ii]);
                let ghost cnt0 = count_expired(sv_pre, now) as int;
                let ghost fired_pre = fired@;
                let ghost mut n: int = 0;
                proof {
                    assert(sv_pre.skip(0) =~= sv_pre);
                    assert(data_prefix(sv_pre, 0) =~= Seq::<T>::empty());
                    assert(fired@ =~= fired_pre + data_prefix(sv_pre, 0));
                }
                loop
                    invariant
                        ii == i as int,
                        0 <= ii < self.slots@.len(),
                        self.slots@.len() == pre.len(),
                        forall|a: int| 0 <= a < pre.len() && a != ii ==> self.slots@[a] == pre[a],
                        self.slots@[ii].interval == pre[ii].interval,
                        self.slots@[ii].in_use == pre[ii].in_use,
                        0 <= n <= sv_pre.len(),
                        self.slots@[ii].entries@ == pre[ii].entries@.skip(n),
                        count_expired(sv_pre.skip(n), now) == cnt0 - n,
                        fired@ == fired_pre + data_prefix(sv_pre, n),
                        self.heap@ == old(self).heap@,
                        self.next_id == old(self).next_id,
                        self.clock@ == old(self).clock@,
                        pre == old(self).slots@,
                        old(self).wf(),
                        pre[ii].interval == interval,
                        sv_pre == slot_view(pre[ii]),
                        cnt0 == count_expired(sv_pre, now) as int,
                    ensures
                        count_expired(sv_pre.skip(n), now) == 0,
                    decreases sv_pre.len() - n,
                {
                    let len = self.slots[i].entries.len();
                    if len == 0 {
                        break;
                    }
                    let t = self.slots[i].entries[0].item.time;
                    proof {
                        assert(self.slots@[ii].entries@[0] == pre[ii].entries@[n]);
                        assert(slot_view(self.slots@[ii]) =~= sv_pre.skip(n));
                        assert(sv_pre.skip(n)[0].1 == t);
                    }
                    if t > now {
                        break;
                    }
                    proof {
                        assert(count_expired(sv_pre.skip(n), now) == 1 + count_expired(
                            sv_pre.skip(n).skip(1),
                            now,
                        ));
                        assert(sv_pre.skip(n).skip(1) =~= sv_pre.skip(n + 1));
                    }
                    let slot = &mut self.slots[i];
                    let e = slot.entries.remove(0);
                    fired.push(e.item.data);
                    proof {
                        assert(self.slots@[ii].entries@ =~= pre[ii].entries@.skip(n + 1));
                        assert(e.item.data == sv_pre[n].2);
                        assert(data_prefix(sv_pre, n + 1) =~= data_prefix(sv_pre, n).push(
                            sv_pre[n].2,
                        ));
                        n = n + 1;
                    }
                }
                proof {
                    // at exit the remaining head has not expired, so exactly
                    // the expired prefix was drained
                    assert(count_expired(sv_pre.skip(n), now) == 0);
                    assert(n == cnt0);
                    let post = self.slots@;
                    assert(slot_view(post[ii]) =~= sv_pre.skip(cnt0));
                    lemma_pending_after_update(pre, post, ii);
                    assert(self.pending(interval) == sv_pre.skip(cnt0));
                    assert(fired@ == fired_pre + expired_data(sv_pre, now));

                    // well-formedness: a suffix of a sorted list, same heap
                    let sv = slot_view(post[ii]);
                    assert(slot_ok(post[ii], self.clock@, self.next_id)) by {
                        assert forall|a: int, b: int|
                            0 <= a <= b < sv.len() implies sv[a].1 <= sv[b].1 by {
                            assert(sv_pre[a + cnt0].1 <= sv_pre[b + cnt0].1);
                        }
                        assert forall|a: int|
                            0 <= a < post[ii].entries@.len() implies post[ii].entries@[a].item.time
                            <= self.clock@ + post[ii].interval && post[ii].entries@[a].id
                            < self.next_id by {
                            assert(post[ii].entries@[a] == pre[ii].entries@[a + cnt0]);
                            assert(pre[ii].entries@[a + cnt0].item.time <= self.clock@
                                + pre[ii].interval);
                        }
                        assert forall|a: int, b: int|
                            0 <= a < b < post[ii].entries@.len() implies post[ii].entries@[a].id
                            != post[ii].entries@[b].id by {
                            assert(pre[ii].entries@[a + cnt0].id != pre[ii].entries@[b + cnt0].id);
                        }
                    }
                    if post[ii].entries@.len() > 0 {
                        assert(post[ii].entries@[0] == pre[ii].entries@[cnt0]);
                        assert(sv_pre[0].1 <= sv_pre[cnt0].1);
                    }
                    lemma_wf_after_entries_shrink(*old(self), *self, ii);
                    assert(self.wf());
                }
                if self.slots[i].entries.len() > 0 {
                    let t = self.slots[i].entries[0].item.time;
                    proof {
                        assert(self.pending(interval)[0].1 == t);
                    }
                    Some(t)
                } else {
                    None
                }
            },
        }
    }

    /// Position of an entry with the least expiry in the priority queue.
    fn heap_min_index(&self) -> (r: Option<usize>)
        ensures
            match r {
                Some(mi) => mi < self.heap@.len() && forall|j: int|
                    0 <= j < self.heap@.len() ==> self.heap@[mi as int].time
                        <= #[trigger] self.heap@[j].time,
                None => self.heap@.len() == 0,
            },
    {
        let n = self.heap.len();
        if n == 0 {
            return None;
        }
        let mut best: usize = 0;
        let mut j: usize = 1;
        while j < n
            invariant
                n == self.heap@.len(),
                best < j <= n,
                forall|k: int|
                    0 <= k < j ==> self.heap@[best as int].time <= #[trigger] self.heap@[k].time,
            decreases n - j,
        {
            if self.heap[j].time < self.heap[best].time {
                best = j;
            }
            j = j + 1;
        }
        Some(best)
    }

    /// One sweep of the timer thread: fire every entry whose expiry is at or
    /// before `now` (appending the payloads to `fired`), and return how long
    /// to sleep until the next expiry — `None` when no timer is pending.
    ///
    /// Entries of one interval fire in queue order; intervals fire in the
    /// order the priority queue yields them.
    pub fn schedule_timer(&mut self, now: u64, fired: &mut Vec<T>) -> (next: Option<u64>)
        requires
            old(self).wf(),
            old(self).clock() <= now,
        ensures
            final(self).wf(),
            final(self).clock() == now,
            final(self).next_id_val() == old(self).next_id_val(),
            // nothing expired remains anywhere
            forall|iv: u64, k: int|
                0 <= k < final(self).pending(iv).len() ==> (#[trigger] final(self).pending(
                    iv,
                )[k]).1 > now,
            // per interval, exactly the expired prefix was drained
            forall|iv: u64|
                #[trigger] final(self).pending(iv) == old(self).pending(iv).skip(
                    count_expired(old(self).pending(iv), now) as int,
                ),
            // what was appended to fired: every expired interval exactly
            // once, each interval's payloads in queue order
            exists|ivs: Seq<u64>|
                schedule_fired_witness(*old(self), ivs, now, old(fired)@, final(fired)@),
            // the sleep hint: nothing will expire before `now + d`
            (next is None ==> forall|iv: u64|
                #[trigger] final(self).pending(iv).len() == 0),
            (match next {
                Some(d) => d > 0 && forall|iv: u64, k: int|
                    0 <= k < final(self).pending(iv).len() ==> (#[trigger] final(self).pending(
                        iv,
                    )[k]).1 >= now + d,
                None => true,
            }),
    {
        self.clock = Ghost(now);
        proof {
            assert forall|a: int|
                0 <= a < self.slots@.len() implies slot_ok(
                self.slots@[a],
                self.clock@,
                self.next_id,
            ) by {
                assert(slot_ok(old(self).slots@[a], old(self).clock@, old(self).next_id));
            }
            assert(self.wf());
            assert forall|iv: u64| #[trigger] self.pending(iv) == old(self).pending(iv) by {}
        }
        let ghost fired0 = fired@;
        let ghost mut ivs: Seq<u64> = Seq::empty();
        proof {
            assert(fired@ =~= fired0 + expired_concat(*old(self), ivs, now));
        }
        loop
            invariant
                self.wf(),
                self.clock@ == now,
                self.next_id == old(self).next_id,
                old(self).wf(),
                ivs.no_duplicates(),
                forall|k: int|
                    0 <= k < ivs.len() ==> count_expired(
                        old(self).pending(#[trigger] ivs[k]),
                        now,
                    ) > 0,
                forall|iv: u64|
                    ivs.contains(iv) ==> #[trigger] self.pending(iv) == old(self).pending(
                        iv,
                    ).skip(count_expired(old(self).pending(iv), now) as int),
                forall|iv: u64|
                    !ivs.contains(iv) ==> #[trigger] self.pending(iv) == old(self).pending(iv),
                fired@ == fired0 + expired_concat(*old(self), ivs, now),
                fired0 == old(fired)@,
            ensures
                self.heap@.len() == 0,
            decreases heap_due_count(self.heap@, now),
        {
            let ghost heap_at_head = self.heap@;
            let mi = match self.heap_min_index() {
                None => {
                    break;
                },
                Some(mi) => mi,
            };
            let htime = self.heap[mi].time;
            let hinterval = self.heap[mi].interval;
            if htime > now {
                proof {
                    // every pending entry sits behind a queue head that is
                    // not yet due, so nothing expires before now + d
                    assert forall|iv: u64, k: int|
                        0 <= k < self.pending(iv).len() implies (#[trigger] self.pending(
                        iv,
                    )[k]).1 >= now + (htime - now) by {
                        let slots = self.slots@;
                        assert(has_slot(slots, iv));
                        let w = slot_idx(slots, iv);
                        assert(slots[w].entries@.len() > 0);
                        assert(slots[w].in_use == 1);
                        assert(heap_has(self.heap@, slots[w].interval));
                        let ha = choose|ha: int|
                            0 <= ha < self.heap@.len() && self.heap@[ha].interval == slots[w].interval;
                        assert(self.heap@[ha].time >= htime);
                        assert(self.heap@[ha].time <= slots[w].entries@[0].item.time);
                        assert(slot_view(slots[w])[0].1 <= slot_view(slots[w])[k].1);
                    }
                    // the drained prefixes are final: nothing expired is left
                    assert forall|iv: u64|
                        #[trigger] self.pending(iv) == old(self).pending(iv).skip(
                        count_expired(old(self).pending(iv), now) as int,
                    ) by {
                        if !ivs.contains(iv) {
                            if self.pending(iv).len() > 0 {
                                assert(self.pending(iv)[0].1 >= now + (htime - now));
                            }
                            assert(count_expired(self.pending(iv), now) == 0);
                            assert(self.pending(iv).skip(0) =~= self.pending(iv));
                        }
                    }
                    assert(schedule_fired_witness(*old(self), ivs, now, fired0, fired@)) by {
                        assert forall|iv: u64|
                            count_expired(#[trigger] old(self).pending(iv), now) > 0 implies ivs.contains(
                            iv,
                        ) by {
                            if !ivs.contains(iv) {
                                assert(self.pending(iv) == old(self).pending(iv));
                                if self.pending(iv).len() > 0 {
                                    assert(self.pending(iv)[0].1 >= now + (htime - now));
                                }
                                assert(count_expired(self.pending(iv), now) == 0);
                            }
                        }
                    }
                }
                return Some(htime - now);
            }
            // this queue entry is due: drain its interval list
            proof {
                assert(has_slot(self.slots@, hinterval));
            }
            let ghost before_pop = *self;
            let ghost cnt_cur = count_expired(before_pop.pending(hinterval), now);
            let next_t = self.pop_timeout(hinterval, now, fired);
            proof {
                lemma_count_expired_le_len(before_pop.pending(hinterval), now);
                if ivs.contains(hinterval) {
                    // already drained earlier in this sweep: nothing moved
                    lemma_count_expired_skip_all(old(self).pending(hinterval), now);
                    assert(cnt_cur == 0);
                    assert(before_pop.pending(hinterval).skip(0) =~= before_pop.pending(
                        hinterval,
                    ));
                    assert(expired_data(before_pop.pending(hinterval), now) =~= Seq::<
                        T,
                    >::empty());
                    assert(fired@ =~= fired0 + expired_concat(*old(self), ivs, now));
                } else {
                    assert(before_pop.pending(hinterval) == old(self).pending(hinterval));
                    if cnt_cur > 0 {
                        lemma_expired_concat_push(*old(self), ivs, hinterval, now);
                        let ivs0 = ivs;
                        assert forall|a: int, b: int|
                            0 <= a < b < ivs0.push(hinterval).len() implies ivs0.push(
                            hinterval,
                        )[a] != ivs0.push(hinterval)[b] by {
                            if b == ivs0.len() as int {
                                assert(!ivs0.contains(hinterval));
                                assert(ivs0.push(hinterval)[a] == ivs0[a]);
                            }
                        }
                        ivs = ivs.push(hinterval);
                        assert(ivs[ivs.len() - 1] == hinterval);
                        assert(ivs.contains(hinterval));
                        assert forall|iv: u64| ivs.contains(iv) implies ivs0.contains(iv) || iv
                            == hinterval by {
                            let w = choose|w: int| 0 <= w < ivs.len() && ivs[w] == iv;
                            if w < ivs0.len() {
                                assert(ivs0[w] == iv);
                            }
                        }
                        assert forall|iv: u64| ivs0.contains(iv) implies ivs.contains(iv) by {
                            let w = choose|w: int| 0 <= w < ivs0.len() && ivs0[w] == iv;
                            assert(ivs[w] == iv);
                        }
                        assert forall|iv: u64|
                            ivs.contains(iv) implies #[trigger] self.pending(iv) == old(
                            self,
                        ).pending(iv).skip(count_expired(old(self).pending(iv), now) as int) by {
                            if iv != hinterval {
                                assert(ivs0.contains(iv));
                                assert(self.pending(iv) == before_pop.pending(iv));
                            } else {
                                assert(self.pending(hinterval) == before_pop.pending(
                                    hinterval,
                                ).skip(cnt_cur as int));
                            }
                        }
                        assert forall|iv: u64|
                            !ivs.contains(iv) implies #[trigger] self.pending(iv) == old(
                            self,
                        ).pending(iv) by {
                            assert(!ivs0.contains(iv));
                            assert(iv != hinterval);
                            assert(self.pending(iv) == before_pop.pending(iv));
                        }
                    } else {
                        assert(before_pop.pending(hinterval).skip(0) =~= before_pop.pending(
                            hinterval,
                        ));
                        assert(expired_data(before_pop.pending(hinterval), now) =~= Seq::<
                            T,
                        >::empty());
                        assert(fired@ =~= fired0 + expired_concat(*old(self), ivs, now));
                    }
                }
            }
            // take the entry out of the queue and reset the in-use flag
            let ghost s1 = *self;
            self.heap.remove(mi);
            let si = match self.find_slot(hinterval) {
                Some(si) => si,
                None => {
                    proof {
                        assert(has_slot(s1.slots@, hinterval));
                        assert(false);
                    }
                    vstd::pervasive::unreached()
                },
            };
            proof {
                lemma_slot_idx_is(s1.slots@, si as int);
                lemma_heap_remove_facts(s1.heap@, mi as int);
            }
            {
                let slot = &mut self.slots[si];
                slot.in_use = 0;
            }
            let ghost s2 = *self;
            // re-arm the interval list or retire it
            match next_t {
                Some(t) => {
                    {
                        let slot = &mut self.slots[si];
                        slot.in_use = 1;
                    }
                    self.heap.push(HeapEntry { time: t, interval: hinterval });
                    proof {
                        let sii = si as int;
                        assert(self.slots@ =~= s1.slots@);
                        lemma_requeue_wf(s1, *self, mi as int, sii, t);
                        assert forall|iv: u64| #[trigger] self.pending(iv) == s1.pending(iv) by {}
                        // the re-queued entry is no longer due, so the sweep
                        // makes progress
                        lemma_count_expired_skip_all(before_pop.pending(hinterval), now);
                        assert(count_expired(s1.pending(hinterval), now) == 0);
                        assert(t > now);
                        lemma_due_remove(heap_at_head, mi as int, now);
                        lemma_due_push(
                            heap_at_head.remove(mi as int),
                            HeapEntry { time: t, interval: hinterval },
                            now,
                        );
                        assert(heap_due_count(self.heap@, now) < heap_due_count(
                            heap_at_head,
                            now,
                        ));
                    }
                },
                None => {
                    proof {
                        let sii = si as int;
                        assert(s1.pending(hinterval).len() == 0);
                        assert(slot_view(s1.slots@[sii]).len() == 0);
                        assert(s2.slots@[sii].entries@.len() == 0);
                    }
                    if self.slots.len() > HASH_CAP {
                        let ghost pre_rm = *self;
                        self.slots.remove(si);
                        proof {
                            let sii = si as int;
                            assert(pre_rm.wf() && !heap_has(
                                pre_rm.heap@,
                                pre_rm.slots@[sii].interval,
                            )) by {
                                lemma_retire_wf(s1, pre_rm, mi as int, sii);
                            }
                            lemma_wf_after_slot_remove(pre_rm, *self, sii);
                            lemma_due_remove(heap_at_head, mi as int, now);
                            assert forall|iv: u64|
                                #[trigger] self.pending(iv) == s1.pending(iv) by {
                                if iv == hinterval {
                                    assert(pending_of(self.slots@, iv) == Seq::<(
                                        u64,
                                        u64,
                                        T,
                                    )>::empty());
                                    assert(s1.pending(iv).len() == 0);
                                    assert(s1.pending(iv) =~= Seq::<(u64, u64, T)>::empty());
                                } else {
                                    assert(pending_of(pre_rm.slots@, iv) == pending_of(
                                        s1.slots@,
                                        iv,
                                    )) by {
                                        lemma_pending_after_update(
                                            s1.slots@,
                                            pre_rm.slots@,
                                            sii,
                                        );
                                    }
                                }
                            }
                        }
                    } else {
                        proof {
                            let sii = si as int;
                            lemma_retire_wf(s1, *self, mi as int, sii);
                            lemma_due_remove(heap_at_head, mi as int, now);
                            assert forall|iv: u64|
                                #[trigger] self.pending(iv) == s1.pending(iv) by {
                                lemma_pending_after_update(s1.slots@, self.slots@, sii);
                            }
                        }
                    }
                },
            }
        }
        // the queue is empty: every interval list is empty
        proof {
            assert forall|iv: u64| #[trigger] self.pending(iv).len() == 0 by {
                if has_slot(self.slots@, iv) {
                    let w = slot_idx(self.slots@, iv);
                    if self.slots@[w].entries@.len() > 0 {
                        assert(self.slots@[w].in_use == 1);
                        assert(heap_has(self.heap@, self.slots@[w].interval));
                    }
                }
            }
            assert forall|iv: u64|
                #[trigger] self.pending(iv) == old(self).pending(iv).skip(
                count_expired(old(self).pending(iv), now) as int,
            ) by {
                if !ivs.contains(iv) {
                    assert(self.pending(iv) == old(self).pending(iv));
                    assert(count_expired(self.pending(iv), now) == 0);
                    assert(self.pending(iv).skip(0) =~= self.pending(iv));
                }
            }
            assert(schedule_fired_witness(*old(self), ivs, now, fired0, fired@)) by {
                assert forall|iv: u64|
                    count_expired(#[trigger] old(self).pending(iv), now) > 0 implies ivs.contains(
                    iv,
                ) by {
                    if !ivs.contains(iv) {
                        assert(self.pending(iv) == old(self).pending(iv));
                        assert(self.pending(iv).len() == 0);
                    }
                }
            }
        }
        None
    }

    /// Find the position of the interval list for `interval`, if any.
    fn find_slot(&self, interval: u64) -> (r: Option<usize>)
        ensures
            match r {
                Some(i) => i < self.slots@.len() && self.slots@[i as int].interval == interval,
                None => !has_slot(self.slots@, interval),
            },
    {
        let n = self.slots.len();
        let mut i: usize = 0;
        while i < n
            invariant
                i <= n,
                n == self.slots@.len(),
                forall|j: int| 0 <= j < i ==> self.slots@[j].interval != interval,
            decreases n - i,
        {
            if self.slots[i].interval == interval {
                return Some(i);
            }
            i = i + 1;
        }
        None
    }
}

/// A pairwise-distinct queue holds each interval at most once, and exactly
/// once iff it holds it at all.
proof fn lemma_distinct_heap_count(heap: Seq<HeapEntry>, iv: u64)
    requires
        forall|a: int, b: int| 0 <= a < b < heap.len() ==> heap[a].interval != heap[b].interval,
    ensures
        heap_count_of(heap, iv) <= 1,
        heap_count_of(heap, iv) >= 1 <==> heap_has(heap, iv),
    decreases heap.len(),
{
    if heap.len() == 0 {
    } else {
        let tail = heap.skip(1);
        assert forall|a: int, b: int|
            0 <= a < b < tail.len() implies tail[a].interval != tail[b].interval by {
            assert(heap[a + 1].interval != heap[b + 1].interval);
        }
        lemma_distinct_heap_count(tail, iv);
        if heap[0].interval == iv {
            if heap_has(tail, iv) {
                let w = choose|w: int| 0 <= w < tail.len() && tail[w].interval == iv;
                assert(heap[0].interval != heap[w + 1].interval);
            }
        } else {
            if heap_has(heap, iv) {
                let w = choose|w: int| 0 <= w < heap.len() && heap[w].interval == iv;
                assert(tail[w - 1].interval == iv);
            }
            if heap_has(tail, iv) {
                let w = choose|w: int| 0 <= w < tail.len() && tail[w].interval == iv;
                assert(heap[w + 1].interval == iv);
            }
        }
    }
}

/// Heap minimality: each active interval list appears in the priority queue
/// at most once; the in-use flag is the exact indicator of queue membership,
/// and every nonempty interval list is in the queue.
pub proof fn lemma_heap_minimality<T>(l: TimeOutList<T>, iv: u64)
    requires
        l.wf(),
    ensures
        l.heap_count(iv) <= 1,
        l.in_use_flag(iv) <= 1,
        l.heap_count(iv) == 1 <==> l.in_use_flag(iv) == 1,
        l.pending(iv).len() > 0 ==> l.in_use_flag(iv) == 1,
{
    lemma_distinct_heap_count(l.heap@, iv);
    if has_slot(l.slots@, iv) {
        let w = slot_idx(l.slots@, iv);
        assert(slot_ok(l.slots@[w], l.clock@, l.next_id));
        assert(l.slots@[w].in_use == 1 <==> heap_has(l.heap@, iv));
    } else {
        if heap_has(l.heap@, iv) {
            let a = choose|a: int| 0 <= a < l.heap@.len() && l.heap@[a].interval == iv;
            assert(has_slot(l.slots@, iv));
        }
    }
}

/// The pending view of any interval is sorted by expiry, head first.
pub proof fn lemma_pending_sorted<T>(l: TimeOutList<T>, iv: u64)
    requires
        l.wf(),
    ensures
        times_sorted(l.pending(iv)),
{
    if has_slot(l.slots@, iv) {
        let w = slot_idx(l.slots@, iv);
        assert(slot_ok(l.slots@[w], l.clock@, l.next_id));
    }
}

/// Timer monotonicity, one half: an entry that is not yet due lies beyond
/// the expired prefix, so a sweep at `now` (which drains exactly that
/// prefix) leaves it in place.
pub proof fn lemma_unexpired_survives<T>(s: Seq<(u64, u64, T)>, now: u64, k: int)
    requires
        times_sorted(s),
        0 <= k < s.len(),
        s[k].1 > now,
    ensures
        count_expired(s, now) <= k,
    decreases s.len(),
{
    if s[0].1 > now {
    } else {
        assert(s[0].1 <= now);
        assert(k >= 1);
        let tail = s.skip(1);
        assert forall|a: int, b: int|
            0 <= a <= b < tail.len() implies tail[a].1 <= tail[b].1 by {
            assert(s[a + 1].1 <= s[b + 1].1);
        }
        assert(tail[k - 1].1 == s[k].1);
        lemma_unexpired_survives(tail, now, k - 1);
    }
}

} // verus!
