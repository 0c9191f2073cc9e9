//! Per-CPU event collection.
//!
//! Each CPU owns a page of at most [`SLOTS`] records. An event recorded on a CPU goes
//! to that CPU's page; a full page is moved to the aggregate and a fresh page takes
//! its place. Events that cannot go to a CPU page (no RSEQ support, or a CPU number
//! beyond the known ones) go to a fallback queue, which is moved to the aggregate
//! once it holds `2 * SLOTS` events. Reading steals every page and the fallback
//! queue into the aggregate and hands the aggregate out.
use vstd::prelude::*;
use vstd::pervasive::VecAdditionalExecFns;
use vstd::seq_lib::lemma_multiset_commutative;
use crossbeam_queue::SegQueue;
use crate::trace_file::EventRecord;

verus! {

/// Number of event slots per page.
pub const SLOTS: usize = 8191;

/// Declares the lock-free queue that holds fallback events.
#[verifier::external_type_specification]
#[verifier::external_body]
#[verifier::reject_recursive_types(T)]
pub struct ExSegQueue<T>(SegQueue<T>);

/// The events a queue of records holds, from head to tail.
pub uninterp spec fn queued_events(q: SegQueue<EventRecord>) -> Seq<EventRecord>;

/// `SegQueue::new`: a queue that holds nothing.
#[verifier::external_body]
fn new_event_queue() -> (q: SegQueue<EventRecord>)
    ensures
        queued_events(q) == Seq::<EventRecord>::empty(),
{
    SegQueue::new()
}

/// `SegQueue::push_mut`: adds the event at the tail.
#[verifier::external_body]
fn push_event(q: &mut SegQueue<EventRecord>, e: EventRecord)
    ensures
        queued_events(*final(q)) == queued_events(*old(q)).push(e),
{
    q.push_mut(e)
}

/// `SegQueue::pop_mut`: removes and returns the head, or `None` when the queue is empty.
#[verifier::external_body]
fn pop_event(q: &mut SegQueue<EventRecord>) -> (r: Option<EventRecord>)
    ensures
        queued_events(*old(q)).len() == 0 ==> r is None && queued_events(*final(q)) == queued_events(*old(q)),
        queued_events(*old(q)).len() > 0 ==> r == Some(queued_events(*old(q))[0])
            && queued_events(*final(q)) == queued_events(*old(q)).drop_first(),
{
    q.pop_mut()
}

/// `SegQueue::len`: the number of queued events.
#[verifier::external_body]
fn queued_len(q: &SegQueue<EventRecord>) -> (n: usize)
    ensures
        n == queued_events(*q).len(),
{
    q.len()
}

/// The records of each page a pool of pages holds, from head to tail.
pub uninterp spec fn pooled_pages(q: SegQueue<Page>) -> Seq<Seq<EventRecord>>;

/// `SegQueue::new`: a pool that holds no page.
#[verifier::external_body]
fn new_page_pool() -> (q: SegQueue<Page>)
    ensures
        pooled_pages(q) == Seq::<Seq<EventRecord>>::empty(),
{
    SegQueue::new()
}

/// `SegQueue::push_mut`: adds the page at the tail.
#[verifier::external_body]
fn pool_page(q: &mut SegQueue<Page>, p: Page)
    ensures
        pooled_pages(*final(q)) == pooled_pages(*old(q)).push(p.records()),
{
    q.push_mut(p)
}

/// `SegQueue::pop_mut`: removes and returns the page at the head, or `None` when the
/// pool is empty.
#[verifier::external_body]
fn take_pooled_page(q: &mut SegQueue<Page>) -> (r: Option<Page>)
    ensures
        pooled_pages(*old(q)).len() == 0 ==> r is None && pooled_pages(*final(q)) == pooled_pages(*old(q)),
        pooled_pages(*old(q)).len() > 0 ==> r is Some && r->0.records() == pooled_pages(*old(q))[0]
            && pooled_pages(*final(q)) == pooled_pages(*old(q)).drop_first(),
{
    q.pop_mut()
}

/// A page of event records for a single CPU.
pub struct Page {
    slots: Vec<EventRecord>,
}

impl Page {
    /// The records the page holds, oldest first.
    pub closed spec fn records(self) -> Seq<EventRecord> {
        self.slots@
    }

    /// An empty page.
    pub fn new() -> (p: Page)
        ensures
            p.records() == Seq::<EventRecord>::empty(),
    {
        Page { slots: Vec::new() }
    }
}

/// The events held by the pages, page after page.
pub open spec fn flatten(lanes: Seq<Seq<EventRecord>>) -> Seq<EventRecord>
    decreases lanes.len(),
{
    if lanes.len() == 0 {
        Seq::empty()
    } else {
        flatten(lanes.drop_last()) + lanes.last()
    }
}

/// The abstract state of a collector.
pub struct CollectorState {
    /// What each CPU page holds (empty where the CPU has no page).
    pub lanes: Seq<Seq<EventRecord>>,
    /// The fallback queue, oldest first.
    pub fallback: Seq<EventRecord>,
    /// Events already moved out of pages and the queue, waiting to be read.
    pub aggregate: Seq<EventRecord>,
    /// Whether CPU pages are unavailable, so that every event takes the fallback queue.
    pub must_use_fallback: bool,
    /// Events counted as dropped.
    pub dropped: u64,
    /// Emptied pages kept for reuse.
    pub pooled: nat,
}

/// The number of pages in use: the lanes that hold events.
pub open spec fn pages_held(lanes: Seq<Seq<EventRecord>>) -> nat
    decreases lanes.len(),
{
    if lanes.len() == 0 {
        0
    } else {
        pages_held(lanes.drop_last()) + (if lanes.last().len() > 0 {
            1nat
        } else {
            0nat
        })
    }
}

/// The pool size after a fresh page is installed, taken from the pool when it has one,
/// and the page it replaces, if there was one, joins the pool.
pub open spec fn pool_after_install(pooled: nat, replaced: bool) -> nat {
    (if pooled > 0 {
        (pooled - 1) as nat
    } else {
        0nat
    }) + (if replaced {
        1nat
    } else {
        0nat
    })
}

/// `d + 1`, or `d` when that does not fit.
pub open spec fn saturating_inc(d: u64) -> u64 {
    if d < u64::MAX {
        (d + 1) as u64
    } else {
        d
    }
}

impl CollectorState {
    /// Every event recorded and not read yet, in the order a read returns them.
    pub open spec fn pending(self) -> Seq<EventRecord> {
        self.aggregate + flatten(self.lanes) + self.fallback
    }

    /// The state after an event goes to the fallback queue.
    pub open spec fn push_fallback(self, e: EventRecord) -> CollectorState {
        let q = self.fallback.push(e);
        if q.len() < 2 * SLOTS {
            CollectorState { fallback: q, ..self }
        } else {
            CollectorState { fallback: Seq::empty(), aggregate: self.aggregate + q, ..self }
        }
    }

    /// The state after an event is recorded on `cpu`.
    pub open spec fn record_on_cpu(self, cpu: int, e: EventRecord) -> CollectorState {
        if self.must_use_fallback || cpu < 0 || cpu >= self.lanes.len() {
            self.push_fallback(e)
        } else if 0 < self.lanes[cpu].len() < SLOTS {
            CollectorState { lanes: self.lanes.update(cpu, self.lanes[cpu].push(e)), ..self }
        } else {
            CollectorState {
                lanes: self.lanes.update(cpu, seq![e]),
                aggregate: self.aggregate + self.lanes[cpu],
                pooled: pool_after_install(self.pooled, self.lanes[cpu].len() > 0),
                ..self
            }
        }
    }

    /// The state after every page and the fallback queue are moved to the aggregate,
    /// each emptied page joining the pool.
    pub open spec fn steal(self) -> CollectorState {
        CollectorState {
            lanes: Seq::new(self.lanes.len(), |i: int| Seq::<EventRecord>::empty()),
            fallback: Seq::empty(),
            aggregate: self.pending(),
            pooled: self.pooled + pages_held(self.lanes),
            ..self
        }
    }

    /// The state after an event is dropped and counted.
    pub open spec fn drop_event(self) -> CollectorState {
        CollectorState { dropped: saturating_inc(self.dropped), ..self }
    }
}

/// Per-CPU event collector.
pub struct RseqCollector {
    per_cpu: Vec<Option<Page>>,
    /// If true, per-CPU pages are unavailable and every event takes the fallback queue.
    must_use_fallback: bool,
    /// Fallback queue for events that cannot go to a CPU page.
    fallback: SegQueue<EventRecord>,
    /// Emptied pages kept for reuse, so that recording allocates no page while the
    /// pool has one.
    empty_pages: SegQueue<Page>,
    /// Events collected from pages and the queue, waiting to be read.
    aggregate: Vec<EventRecord>,
    /// Counter of dropped events.
    dropped_count: u64,
}

/// What a page slot holds.
pub open spec fn lane_of(p: Option<Page>) -> Seq<EventRecord> {
    match p {
        Some(page) => page.records(),
        None => Seq::empty(),
    }
}

impl View for RseqCollector {
    type V = CollectorState;

    open spec fn view(&self) -> CollectorState {
        CollectorState {
            lanes: self.lanes_view(),
            fallback: self.fallback_view(),
            aggregate: self.aggregate_view(),
            must_use_fallback: self.pages_unavailable(),
            dropped: self.dropped_view(),
            pooled: self.pooled_view(),
        }
    }
}

/// What each page slot holds.
pub open spec fn lanes_of(per_cpu: Seq<Option<Page>>) -> Seq<Seq<EventRecord>> {
    Seq::new(per_cpu.len(), |i: int| lane_of(per_cpu[i]))
}

/// Every pooled page holds no record.
pub open spec fn pool_empty(pool: Seq<Seq<EventRecord>>) -> bool {
    forall|i: int| 0 <= i < pool.len() ==> #[trigger] pool[i].len() == 0
}

/// Every page present holds between one and `SLOTS` records.
pub open spec fn pages_ok(per_cpu: Seq<Option<Page>>) -> bool {
    forall|i: int| 0 <= i < per_cpu.len() ==> match #[trigger] per_cpu[i] {
        Some(p) => 0 < p.records().len() <= SLOTS,
        None => true,
    }
}

impl RseqCollector {
    pub closed spec fn lanes_view(self) -> Seq<Seq<EventRecord>> {
        lanes_of(self.per_cpu@)
    }

    pub closed spec fn fallback_view(self) -> Seq<EventRecord> {
        queued_events(self.fallback)
    }

    pub closed spec fn aggregate_view(self) -> Seq<EventRecord> {
        self.aggregate@
    }

    pub closed spec fn pages_unavailable(self) -> bool {
        self.must_use_fallback
    }

    pub closed spec fn dropped_view(self) -> u64 {
        self.dropped_count
    }

    pub closed spec fn pooled_view(self) -> nat {
        pooled_pages(self.empty_pages).len()
    }

    /// Pages hold between one and `SLOTS` events, pooled pages none, the fallback
    /// queue fewer than `2 * SLOTS`, and no page exists while pages are unavailable.
    pub closed spec fn wf(self) -> bool {
        &&& pages_ok(self.per_cpu@)
        &&& pool_empty(pooled_pages(self.empty_pages))
        &&& queued_events(self.fallback).len() < 2 * SLOTS
        &&& self.must_use_fallback ==> forall|i: int|
            0 <= i < self.per_cpu@.len() ==> #[trigger] self.per_cpu@[i] is None
    }

    /// A collector with one empty page slot for each CPU numbered `0..=possible_cpus`,
    /// using the pages unless `must_use_fallback` says they are unavailable.
    pub fn new(possible_cpus: usize, must_use_fallback: bool) -> (c: RseqCollector)
        requires
            possible_cpus < usize::MAX,
        ensures
            c.wf(),
            c@.lanes == Seq::new(possible_cpus as nat + 1, |i: int| Seq::<EventRecord>::empty()),
            c@.fallback == Seq::<EventRecord>::empty(),
            c@.aggregate == Seq::<EventRecord>::empty(),
            c@.must_use_fallback == must_use_fallback,
            c@.dropped == 0,
            c@.pooled == 0,
    {
        let mut per_cpu: Vec<Option<Page>> = Vec::new();
        let mut i: usize = 0;
        while i <= possible_cpus
            invariant
                i <= possible_cpus + 1,
                possible_cpus < usize::MAX,
                per_cpu@.len() == i,
                forall|j: int| 0 <= j < i ==> #[trigger] per_cpu@[j] is None,
            decreases possible_cpus + 1 - i,
        {
            per_cpu.push(None);
            i = i + 1;
        }
        let c = RseqCollector {
            per_cpu,
            must_use_fallback,
            fallback: new_event_queue(),
            empty_pages: new_page_pool(),
            aggregate: Vec::new(),
            dropped_count: 0,
        };
        assert(c@.lanes =~= Seq::new(possible_cpus as nat + 1, |i: int| Seq::<EventRecord>::empty()));
        c
    }

    /// A collector without CPU pages: every event takes the fallback queue, as on
    /// systems without restartable sequences.
    pub fn fallback_only() -> (c: RseqCollector)
        ensures
            c.wf(),
            c@.lanes == Seq::<Seq<EventRecord>>::empty(),
            c@.fallback == Seq::<EventRecord>::empty(),
            c@.aggregate == Seq::<EventRecord>::empty(),
            c@.must_use_fallback,
            c@.dropped == 0,
            c@.pooled == 0,
    {
        let c = RseqCollector {
            per_cpu: Vec::new(),
            must_use_fallback: true,
            fallback: new_event_queue(),
            empty_pages: new_page_pool(),
            aggregate: Vec::new(),
            dropped_count: 0,
        };
        assert(c@.lanes =~= Seq::<Seq<EventRecord>>::empty());
        c
    }

    /// Number of CPU page slots.
    pub fn cpu_slots(&self) -> (n: usize)
        ensures
            n == self@.lanes.len(),
    {
        self.per_cpu.len()
    }

    /// Records an event through the fallback queue, as on systems without
    /// restartable sequences.
    pub fn record(&mut self, event: EventRecord)
        requires
            old(self).wf(),
        ensures
            final(self).wf(),
            final(self)@ == old(self)@.push_fallback(event),
    {
        self.fallback_push(event);
    }

    /// Records an event on the page of `cpu`, the CPU the caller runs on.
    pub fn record_on_cpu(&mut self, cpu: usize, event: EventRecord)
        requires
            old(self).wf(),
        ensures
            final(self).wf(),
            final(self)@ == old(self)@.record_on_cpu(cpu as int, event),
    {
        if self.must_use_fallback || cpu >= self.per_cpu.len() {
            self.fallback_push(event);
            return;
        }
        let ghost old_lanes = self@.lanes;
        let mut slot: Option<Page> = None;
        self.per_cpu.set_and_swap(cpu, &mut slot);
        match slot {
            Some(page0) => {
                let mut page = page0;
                assert(old_lanes[cpu as int] == page.slots@);
                if page.slots.len() < SLOTS {
                    page.slots.push(event);
                    let mut back: Option<Page> = Some(page);
                    self.per_cpu.set_and_swap(cpu, &mut back);
                    assert(self@.lanes =~= old_lanes.update(cpu as int, old_lanes[cpu as int].push(event)));
                } else {
                    let ghost taken = page.slots@;
                    self.record_slow(cpu, event, Some(page));
                    assert(self@.lanes =~= old_lanes.update(cpu as int, seq![event]));
                    assert(self@.aggregate == old(self)@.aggregate + taken);
                    assert(old_lanes[cpu as int].len() == SLOTS);
                }
            },
            None => {
                self.record_slow(cpu, event, None);
                assert(self@.lanes =~= old_lanes.update(cpu as int, seq![event]));
                assert(old_lanes[cpu as int] =~= Seq::<EventRecord>::empty());
                assert(self@.aggregate =~= old(self)@.aggregate + old_lanes[cpu as int]);
            },
        }
    }

    /// Installs a page holding `event` for `cpu`, taken from the pool when it has one,
    /// and moves the records of the page it replaces to the aggregate, that page
    /// joining the pool.
    fn record_slow(&mut self, cpu: usize, event: EventRecord, taken: Option<Page>)
        requires
            old(self).wf_except(cpu as int),
            cpu < old(self).per_cpu@.len(),
            old(self).per_cpu@[cpu as int] is None,
            !old(self).must_use_fallback,
            lane_of(taken).len() <= SLOTS,
        ensures
            final(self).wf(),
            final(self)@.lanes == old(self)@.lanes.update(cpu as int, seq![event]),
            final(self)@.aggregate == old(self)@.aggregate + lane_of(taken),
            final(self)@.fallback == old(self)@.fallback,
            final(self)@.must_use_fallback == old(self)@.must_use_fallback,
            final(self)@.dropped == old(self)@.dropped,
            final(self)@.pooled == pool_after_install(old(self)@.pooled, taken is Some),
    {
        let ghost pool0 = pooled_pages(self.empty_pages);
        let mut new_page = match take_pooled_page(&mut self.empty_pages) {
            Some(p) => p,
            None => Page::new(),
        };
        assert(new_page.slots@.len() == 0) by {
            if pool0.len() > 0 {
                assert(pool0[0].len() == 0);
            }
        }
        assert(pool_empty(pooled_pages(self.empty_pages))) by {
            if pool0.len() > 0 {
                assert forall|i: int| 0 <= i < pooled_pages(self.empty_pages).len() implies
                    #[trigger] pooled_pages(self.empty_pages)[i].len() == 0 by {
                    assert(pooled_pages(self.empty_pages)[i] == pool0[i + 1]);
                }
            }
        }
        new_page.slots.push(event);
        assert(new_page.slots@ =~= seq![event]);
        let mut slot: Option<Page> = Some(new_page);
        let ghost before = self@.lanes;
        self.per_cpu.set_and_swap(cpu, &mut slot);
        assert(self@.lanes =~= before.update(cpu as int, seq![event]));
        if let Some(page) = taken {
            self.handle_events(page);
        }
    }

    /// Every slot but `cpu` is well formed.
    closed spec fn wf_except(self, cpu: int) -> bool {
        &&& forall|i: int| 0 <= i < self.per_cpu@.len() && i != cpu ==> match #[trigger] self.per_cpu@[i] {
            Some(p) => 0 < p.records().len() <= SLOTS,
            None => true,
        }
        &&& queued_events(self.fallback).len() < 2 * SLOTS
        &&& pool_empty(pooled_pages(self.empty_pages))
    }

    /// Moves the records of a page to the aggregate and the emptied page to the pool.
    fn handle_events(&mut self, page: Page)
        ensures
            final(self).per_cpu == old(self).per_cpu,
            final(self).fallback == old(self).fallback,
            final(self).must_use_fallback == old(self).must_use_fallback,
            final(self).dropped_count == old(self).dropped_count,
            final(self)@.aggregate == old(self)@.aggregate + page.records(),
            pooled_pages(final(self).empty_pages) == pooled_pages(old(self).empty_pages).push(
                Seq::<EventRecord>::empty(),
            ),
    {
        let mut page = page;
        self.aggregate.append(&mut page.slots);
        assert(page.slots@ =~= Seq::<EventRecord>::empty());
        pool_page(&mut self.empty_pages, page);
    }

    fn fallback_push(&mut self, event: EventRecord)
        requires
            old(self).wf(),
        ensures
            final(self).wf(),
            final(self)@ == old(self)@.push_fallback(event),
    {
        push_event(&mut self.fallback, event);
        if queued_len(&self.fallback) < 2 * SLOTS {
            return;
        }
        self.aggregate_fallback();
    }

    /// Moves every queued fallback event to the aggregate, oldest first.
    fn aggregate_fallback(&mut self)
        ensures
            final(self).per_cpu == old(self).per_cpu,
            final(self).empty_pages == old(self).empty_pages,
            final(self).must_use_fallback == old(self).must_use_fallback,
            final(self).dropped_count == old(self).dropped_count,
            final(self)@.aggregate == old(self)@.aggregate + old(self)@.fallback,
            final(self)@.fallback == Seq::<EventRecord>::empty(),
    {
        let ghost start = self.aggregate@;
        let ghost queued = queued_events(self.fallback);
        loop
            invariant
                self.per_cpu == old(self).per_cpu,
                self.empty_pages == old(self).empty_pages,
                self.must_use_fallback == old(self).must_use_fallback,
                self.dropped_count == old(self).dropped_count,
                start == old(self).aggregate@,
                queued == queued_events(old(self).fallback),
                self.aggregate@ + queued_events(self.fallback) == start + queued,
            ensures
                self.per_cpu == old(self).per_cpu,
                self.empty_pages == old(self).empty_pages,
                self.must_use_fallback == old(self).must_use_fallback,
                self.dropped_count == old(self).dropped_count,
                self.aggregate@ == start + queued,
                queued_events(self.fallback) == Seq::<EventRecord>::empty(),
            decreases queued_events(self.fallback).len(),
        {
            let ghost before = queued_events(self.fallback);
            match pop_event(&mut self.fallback) {
                Some(e) => {
                    self.aggregate.push(e);
                    assert(self.aggregate@ + queued_events(self.fallback) =~= start + queued) by {
                        assert(before =~= seq![e] + before.drop_first());
                    }
                },
                None => {
                    assert(before.len() == 0);
                    assert(queued_events(self.fallback) =~= Seq::<EventRecord>::empty());
                    assert(self.aggregate@ =~= start + queued);
                    break;
                },
            }
        }
    }

    /// Moves every page, CPU by CPU, and then the fallback queue to the aggregate.
    pub fn steal_pages(&mut self)
        requires
            old(self).wf(),
        ensures
            final(self).wf(),
            final(self)@ == old(self)@.steal(),
    {
        let n: usize = self.per_cpu.len();
        let ghost lanes0 = self@.lanes;
        let ghost agg0 = self@.aggregate;
        let mut i: usize = 0;
        while i < n
            invariant
                n == self.per_cpu@.len(),
                lanes0.len() == n,
                i <= n,
                self.wf(),
                self.must_use_fallback == old(self).must_use_fallback,
                self.dropped_count == old(self).dropped_count,
                self.fallback == old(self).fallback,
                lanes0 == old(self)@.lanes,
                agg0 == old(self)@.aggregate,
                self@.pooled == old(self)@.pooled + pages_held(lanes0.subrange(0, i as int)),
                forall|j: int| 0 <= j < i ==> #[trigger] self.per_cpu@[j] is None,
                forall|j: int| i <= j < n ==> #[trigger] self@.lanes[j] == lanes0[j],
                self@.aggregate == agg0 + flatten(lanes0.subrange(0, i as int)),
            decreases n - i,
        {
            let ghost before = self.per_cpu@;
            assert(self@.lanes[i as int] == lanes0[i as int]);
            assert(self@.lanes[i as int] == lane_of(before[i as int]));
            let mut slot: Option<Page> = None;
            self.per_cpu.set_and_swap(i, &mut slot);
            let ghost taken = lane_of(slot);
            assert(taken == lanes0[i as int]);
            if let Some(page) = slot {
                self.handle_events(page);
            }
            proof {
                assert forall|j: int| i < j < n implies #[trigger] self@.lanes[j] == lanes0[j] by {
                    assert(self.per_cpu@[j] == before[j]);
                    assert(lanes_of(before)[j] == lanes0[j]);
                }
                let pre = lanes0.subrange(0, i as int);
                let post = lanes0.subrange(0, i + 1);
                assert(post.drop_last() =~= pre);
                assert(post.last() == lanes0[i as int]);
                assert(self@.aggregate =~= agg0 + flatten(post));
                assert(pages_held(post) == pages_held(pre) + (if taken.len() > 0 {
                    1nat
                } else {
                    0nat
                }));
                assert(pool_empty(pooled_pages(self.empty_pages)));
            }
            i = i + 1;
        }
        self.aggregate_fallback();
        proof {
            assert(lanes0.subrange(0, n as int) =~= lanes0);
            assert(self@.pooled == old(self)@.pooled + pages_held(lanes0));
            assert(self@.lanes =~= Seq::new(lanes0.len(), |i: int| Seq::<EventRecord>::empty()));
            assert(self@.aggregate =~= old(self)@.pending());
        }
    }

    /// Steals every page and the fallback queue, and hands out every pending event,
    /// leaving the collector empty.
    pub fn read_events(&mut self) -> (events: Vec<EventRecord>)
        requires
            old(self).wf(),
        ensures
            final(self).wf(),
            events@ == old(self)@.pending(),
            final(self)@ == (CollectorState { aggregate: Seq::empty(), ..old(self)@.steal() }),
            final(self)@.pending() == Seq::<EventRecord>::empty(),
    {
        self.steal_pages();
        let mut out: Vec<EventRecord> = Vec::new();
        std::mem::swap(&mut out, &mut self.aggregate);
        proof {
            lemma_flatten_all_empty(self@.lanes);
            assert(self@.pending() =~= Seq::<EventRecord>::empty());
        }
        out
    }

    /// Returns the dropped-event count and resets it to zero.
    pub fn take_dropped_count(&mut self) -> (n: u64)
        requires
            old(self).wf(),
        ensures
            final(self).wf(),
            n == old(self)@.dropped,
            final(self)@ == (CollectorState { dropped: 0, ..old(self)@ }),
    {
        let n: u64 = self.dropped_count;
        self.dropped_count = 0;
        n
    }

    /// The number of events counted as dropped.
    pub fn dropped_count(&self) -> (n: u64)
        ensures
            n == self@.dropped,
    {
        self.dropped_count
    }

    /// Counts one dropped event (the count stays at `u64::MAX` once it gets there).
    pub fn count_dropped(&mut self)
        requires
            old(self).wf(),
        ensures
            final(self).wf(),
            final(self)@ == old(self)@.drop_event(),
    {
        if self.dropped_count < u64::MAX {
            self.dropped_count = self.dropped_count + 1;
        }
    }

    /// Whether at least `limit` events are pending.
    pub fn pending_at_least(&self, limit: usize) -> (r: bool)
        requires
            self.wf(),
        ensures
            r == (self@.pending().len() >= limit),
    {
        let mut acc: usize = self.aggregate.len();
        if acc >= limit {
            return true;
        }
        let n: usize = self.per_cpu.len();
        let ghost lanes = self@.lanes;
        proof {
            assert(lanes.subrange(0, 0) =~= Seq::<Seq<EventRecord>>::empty());
            assert(flatten(lanes.subrange(0, 0)).len() == 0);
        }
        let mut i: usize = 0;
        while i < n
            invariant
                n == self.per_cpu@.len(),
                lanes == self@.lanes,
                lanes.len() == n,
                i <= n,
                acc < limit,
                acc as int == self.aggregate@.len() + flatten(lanes.subrange(0, i as int)).len(),
            decreases n - i,
        {
            let len: usize = match &self.per_cpu[i] {
                Some(p) => p.slots.len(),
                None => 0,
            };
            proof {
                assert(lanes[i as int] == lane_of(self.per_cpu@[i as int]));
                assert(len == lanes[i as int].len());
                let post = lanes.subrange(0, i + 1);
                assert(post.drop_last() =~= lanes.subrange(0, i as int));
                assert(flatten(post).len() == flatten(lanes.subrange(0, i as int)).len() + len);
                lemma_flatten_prefix_len(lanes, i + 1);
            }
            if len >= limit - acc {
                return true;
            }
            acc = acc + len;
            i = i + 1;
        }
        assert(lanes.subrange(0, n as int) =~= lanes);
        let q: usize = queued_len(&self.fallback);
        q >= limit - acc
    }
}

/// The pages before `k` hold no more together than all pages do.
pub proof fn lemma_flatten_prefix_len(lanes: Seq<Seq<EventRecord>>, k: int)
    requires
        0 <= k <= lanes.len(),
    ensures
        flatten(lanes.subrange(0, k)).len() <= flatten(lanes).len(),
    decreases lanes.len(),
{
    if k == lanes.len() {
        assert(lanes.subrange(0, k) =~= lanes);
    } else {
        lemma_flatten_prefix_len(lanes.drop_last(), k);
        assert(lanes.drop_last().subrange(0, k) =~= lanes.subrange(0, k));
    }
}

/// Pages that all hold nothing hold nothing together.
pub proof fn lemma_flatten_all_empty(lanes: Seq<Seq<EventRecord>>)
    requires
        forall|i: int| 0 <= i < lanes.len() ==> #[trigger] lanes[i].len() == 0,
    ensures
        flatten(lanes) == Seq::<EventRecord>::empty(),
    decreases lanes.len(),
{
    if lanes.len() > 0 {
        lemma_flatten_all_empty(lanes.drop_last());
        assert(lanes.last().len() == 0);
        assert(flatten(lanes) =~= Seq::<EventRecord>::empty());
    }
}


/// Replacing one page's contents changes what the pages hold together by exactly that
/// page's events.
pub proof fn lemma_flatten_update(lanes: Seq<Seq<EventRecord>>, c: int, v: Seq<EventRecord>)
    requires
        0 <= c < lanes.len(),
    ensures
        flatten(lanes.update(c, v)).to_multiset().add(lanes[c].to_multiset())
            == flatten(lanes).to_multiset().add(v.to_multiset()),
    decreases lanes.len(),
{
    let upd = lanes.update(c, v);
    let init = lanes.drop_last();
    if c == lanes.len() - 1 {
        assert(upd.drop_last() =~= init);
        lemma_multiset_commutative(flatten(init), v);
        lemma_multiset_commutative(flatten(init), lanes[c]);
        assert(flatten(upd).to_multiset().add(lanes[c].to_multiset())
            =~= flatten(lanes).to_multiset().add(v.to_multiset()));
    } else {
        assert(upd.drop_last() =~= init.update(c, v));
        assert(upd.last() == lanes.last());
        assert(flatten(upd) == flatten(init.update(c, v)) + lanes.last());
        assert(init[c] == lanes[c]);
        lemma_flatten_update(init, c, v);
        lemma_multiset_commutative(flatten(init.update(c, v)), lanes.last());
        lemma_multiset_commutative(flatten(init), lanes.last());
        assert forall|x: EventRecord| #[trigger] flatten(upd).to_multiset().add(lanes[c].to_multiset()).count(x)
            == flatten(lanes).to_multiset().add(v.to_multiset()).count(x) by {
            assert(flatten(init.update(c, v)).to_multiset().add(init[c].to_multiset()).count(x)
                == flatten(init).to_multiset().add(v.to_multiset()).count(x));
        }
        assert(flatten(upd).to_multiset().add(lanes[c].to_multiset())
            =~= flatten(lanes).to_multiset().add(v.to_multiset()));
    }
}

/// Pages that all hold nothing but page `c` hold together what page `c` holds.
pub proof fn lemma_flatten_single(lanes: Seq<Seq<EventRecord>>, c: int)
    requires
        0 <= c < lanes.len(),
        forall|j: int| 0 <= j < lanes.len() && j != c ==> #[trigger] lanes[j].len() == 0,
    ensures
        flatten(lanes) == lanes[c],
    decreases lanes.len(),
{
    let init = lanes.drop_last();
    if c == lanes.len() - 1 {
        lemma_flatten_all_empty(init);
        assert(flatten(lanes) =~= lanes[c]);
    } else {
        lemma_flatten_single(init, c);
        assert(lanes.last().len() == 0);
        assert(flatten(lanes) =~= lanes[c]);
    }
}

/// Recording an event, on any CPU or through the fallback queue, adds exactly that
/// event to what is pending: nothing is lost or duplicated.
pub proof fn lemma_record_conserves_events(s: CollectorState, cpu: int, e: EventRecord)
    ensures
        s.record_on_cpu(cpu, e).pending().to_multiset() == s.pending().to_multiset().insert(e),
        s.push_fallback(e).pending().to_multiset() == s.pending().to_multiset().insert(e),
{
    broadcast use vstd::seq_lib::group_to_multiset_ensures;
    let a = s.aggregate;
    let f = flatten(s.lanes);
    let q = s.fallback;
    lemma_multiset_commutative(a, f);
    lemma_multiset_commutative(a + f, q);
    lemma_multiset_commutative(a + f, q.push(e));
    lemma_multiset_commutative(a + q.push(e), f);
    lemma_multiset_commutative(a, q.push(e));
    assert(s.pending().push(e) =~= a + f + q.push(e));
    if q.push(e).len() >= 2 * SLOTS {
        let t = s.push_fallback(e);
        lemma_flatten_all_empty(Seq::<Seq<EventRecord>>::empty());
        assert(t.pending() =~= (a + q.push(e)) + f);
        assert(t.pending().to_multiset() =~= s.pending().to_multiset().insert(e));
    } else {
        assert(s.push_fallback(e).pending() =~= s.pending().push(e));
    }
    if !(s.must_use_fallback || cpu < 0 || cpu >= s.lanes.len()) {
        let l = s.lanes[cpu];
        let t = s.record_on_cpu(cpu, e);
        lemma_multiset_commutative(l, seq![e]);
        assert(l.push(e) =~= l + seq![e]);
        lemma_multiset_commutative(t.aggregate, flatten(t.lanes));
        lemma_multiset_commutative(t.aggregate + flatten(t.lanes), q);
        if 0 < l.len() < SLOTS {
            lemma_flatten_update(s.lanes, cpu, l.push(e));
            assert(t.aggregate == a && t.fallback == q);
            assert forall|x: EventRecord| #[trigger] t.pending().to_multiset().count(x)
                == s.pending().to_multiset().insert(e).count(x) by {
                assert(flatten(t.lanes).to_multiset().add(l.to_multiset()).count(x)
                    == f.to_multiset().add(l.push(e).to_multiset()).count(x));
            }
            assert(t.pending().to_multiset() =~= s.pending().to_multiset().insert(e));
        } else {
            lemma_flatten_update(s.lanes, cpu, seq![e]);
            lemma_multiset_commutative(a, l);
            assert(t.aggregate == a + l && t.fallback == q);
            assert(seq![e].to_multiset() =~= Seq::<EventRecord>::empty().push(e).to_multiset()) by {
                assert(seq![e] =~= Seq::<EventRecord>::empty().push(e));
            }
            assert forall|x: EventRecord| #[trigger] t.pending().to_multiset().count(x)
                == s.pending().to_multiset().insert(e).count(x) by {
                assert(flatten(t.lanes).to_multiset().add(l.to_multiset()).count(x)
                    == f.to_multiset().add(seq![e].to_multiset()).count(x));
            }
            assert(t.pending().to_multiset() =~= s.pending().to_multiset().insert(e));
        }
    }
}

/// Moving pages and the fallback queue to the aggregate keeps every pending event
/// in its place.
pub proof fn lemma_steal_keeps_pending(s: CollectorState)
    ensures
        s.steal().pending() == s.pending(),
{
    lemma_flatten_all_empty(s.steal().lanes);
    assert(s.steal().pending() =~= s.pending());
}

/// While no other page and no queued event is pending, events recorded on one CPU
/// stay in recording order: each one goes to the end of what is pending.
pub proof fn lemma_single_cpu_keeps_order(s: CollectorState, cpu: int, e: EventRecord)
    requires
        0 <= cpu < s.lanes.len(),
        !s.must_use_fallback,
        s.fallback.len() == 0,
        forall|j: int| 0 <= j < s.lanes.len() && j != cpu ==> #[trigger] s.lanes[j].len() == 0,
    ensures
        s.record_on_cpu(cpu, e).pending() == s.pending().push(e),
        forall|j: int|
            0 <= j < s.lanes.len() && j != cpu ==> #[trigger] s.record_on_cpu(cpu, e).lanes[j].len() == 0,
        s.record_on_cpu(cpu, e).fallback.len() == 0,
{
    let t = s.record_on_cpu(cpu, e);
    lemma_flatten_single(s.lanes, cpu);
    lemma_flatten_single(t.lanes, cpu);
    assert(t.pending() =~= s.pending().push(e));
}

/// While no CPU page holds events, as when pages are unavailable, events recorded
/// through the fallback queue stay in recording order.
pub proof fn lemma_fallback_keeps_order(s: CollectorState, e: EventRecord)
    requires
        forall|j: int| 0 <= j < s.lanes.len() ==> #[trigger] s.lanes[j].len() == 0,
    ensures
        s.push_fallback(e).pending() == s.pending().push(e),
        s.push_fallback(e).lanes == s.lanes,
{
    lemma_flatten_all_empty(s.lanes);
    assert(s.push_fallback(e).pending() =~= s.pending().push(e));
}

/// One step of driving a collector: recording an event on a CPU, recording one
/// through the fallback queue, or reading every pending event.
pub enum CollectorOp {
    OnCpu(usize, EventRecord),
    Fallback(EventRecord),
    Read,
}

/// The state after the steps, and every event the reads returned, read after read.
pub open spec fn run_ops(s: CollectorState, ops: Seq<CollectorOp>) -> (CollectorState, Seq<EventRecord>)
    decreases ops.len(),
{
    if ops.len() == 0 {
        (s, Seq::empty())
    } else {
        let (t, out) = run_ops(s, ops.drop_last());
        match ops.last() {
            CollectorOp::OnCpu(cpu, e) => (t.record_on_cpu(cpu as int, e), out),
            CollectorOp::Fallback(e) => (t.push_fallback(e), out),
            CollectorOp::Read => (CollectorState { aggregate: Seq::empty(), ..t.steal() }, out + t.pending()),
        }
    }
}

/// The events the steps record, in order.
pub open spec fn recorded_events(ops: Seq<CollectorOp>) -> Seq<EventRecord>
    decreases ops.len(),
{
    if ops.len() == 0 {
        Seq::empty()
    } else {
        match ops.last() {
            CollectorOp::OnCpu(_, e) => recorded_events(ops.drop_last()).push(e),
            CollectorOp::Fallback(e) => recorded_events(ops.drop_last()).push(e),
            CollectorOp::Read => recorded_events(ops.drop_last()),
        }
    }
}

/// Every recorded event is handed out by exactly one read, or is still pending:
/// over any steps, what the reads return together with what is pending is what was
/// pending at the start plus every recorded event, each as often as it was recorded.
pub proof fn lemma_every_event_read_once(s: CollectorState, ops: Seq<CollectorOp>)
    ensures
        run_ops(s, ops).1.to_multiset().add(run_ops(s, ops).0.pending().to_multiset())
            == s.pending().to_multiset().add(recorded_events(ops).to_multiset()),
    decreases ops.len(),
{
    broadcast use vstd::seq_lib::group_to_multiset_ensures;
    if ops.len() == 0 {
        assert(Seq::<EventRecord>::empty().to_multiset() =~= vstd::multiset::Multiset::empty());
        assert(run_ops(s, ops).1.to_multiset().add(run_ops(s, ops).0.pending().to_multiset())
            =~= s.pending().to_multiset().add(recorded_events(ops).to_multiset()));
    } else {
        let init = ops.drop_last();
        lemma_every_event_read_once(s, init);
        let (t, out) = run_ops(s, init);
        let r = recorded_events(init);
        match ops.last() {
            CollectorOp::OnCpu(cpu, e) => {
                lemma_record_conserves_events(t, cpu as int, e);
                lemma_step_adds(out, t.pending(), t.record_on_cpu(cpu as int, e).pending(), s.pending(), r, e);
                assert(run_ops(s, ops).1.to_multiset().add(run_ops(s, ops).0.pending().to_multiset())
                    =~= s.pending().to_multiset().add(recorded_events(ops).to_multiset()));
            },
            CollectorOp::Fallback(e) => {
                lemma_record_conserves_events(t, 0, e);
                lemma_step_adds(out, t.pending(), t.push_fallback(e).pending(), s.pending(), r, e);
                assert(run_ops(s, ops).1.to_multiset().add(run_ops(s, ops).0.pending().to_multiset())
                    =~= s.pending().to_multiset().add(recorded_events(ops).to_multiset()));
            },
            CollectorOp::Read => {
                let u = CollectorState { aggregate: Seq::empty(), ..t.steal() };
                lemma_flatten_all_empty(u.lanes);
                assert(u.pending() =~= Seq::<EventRecord>::empty());
                lemma_multiset_commutative(out, t.pending());
                assert(run_ops(s, ops).1.to_multiset().add(run_ops(s, ops).0.pending().to_multiset())
                    =~= s.pending().to_multiset().add(recorded_events(ops).to_multiset()));
            },
        }
    }
}

/// One recorded event added to what is pending keeps the count of the reads, what
/// is pending and what was recorded in balance.
proof fn lemma_step_adds(
    out: Seq<EventRecord>,
    p: Seq<EventRecord>,
    p2: Seq<EventRecord>,
    start: Seq<EventRecord>,
    r: Seq<EventRecord>,
    e: EventRecord,
)
    requires
        out.to_multiset().add(p.to_multiset()) == start.to_multiset().add(r.to_multiset()),
        p2.to_multiset() == p.to_multiset().insert(e),
    ensures
        out.to_multiset().add(p2.to_multiset()) == start.to_multiset().add(r.push(e).to_multiset()),
{
    vstd::seq_lib::to_multiset_build(r, e);
    let a = out.to_multiset();
    let b = start.to_multiset();
    let pm = p.to_multiset();
    let rm = r.to_multiset();
    assert(r.push(e).to_multiset() == rm.insert(e));
    assert forall|x: EventRecord| #[trigger] a.add(p2.to_multiset()).count(x)
        == b.add(r.push(e).to_multiset()).count(x) by {
        assert(a.add(pm).count(x) == b.add(rm).count(x));
        assert(a.add(pm).count(x) == a.count(x) + pm.count(x));
        assert(b.add(rm).count(x) == b.count(x) + rm.count(x));
        assert(pm.insert(e).count(x) == pm.count(x) + if x == e { 1nat } else { 0nat });
        assert(rm.insert(e).count(x) == rm.count(x) + if x == e { 1nat } else { 0nat });
    }
    assert(out.to_multiset().add(p2.to_multiset()) =~= start.to_multiset().add(r.push(e).to_multiset()));
}

} // verus!
