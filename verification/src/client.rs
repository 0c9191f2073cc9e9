//! The tracing client: configuring a tracer, recording events, and cutting the
//! recorded events into trace files.
use vstd::prelude::*;
use vstd::string::StringExecFns;
use std::time::Duration;
use crate::collector::RseqCollector;
use crate::collector::CollectorState;
use crate::schema::Schema;
use crate::schema::generate_merged_schema as merged_schema_of;
use crate::schema::fnv1a;
use crate::schema::hash_input;
use crate::schema::merged_entries;
use crate::schema::schema_json;
use crate::trace_file::EventRecord;
use crate::trace_file::FileHeader;
use crate::trace_file::ByteOrder;
use crate::trace_file::native_byte_order;
use crate::trace_file::RECORD_SIZE;
use crate::trace_file::encode_trace_file;
use crate::trace_file::trace_file_bytes;
use crate::trace_file::spec_decode_trace_file;
use crate::trace_file::LoadError;
use crate::trace_file::lemma_trace_file_roundtrip;
use crate::names::trace_name;
use crate::loader::TraceColumns;
use crate::loader::columns_match;
use crate::loader::is_drop_marker;
use crate::loader::spec_dropped_events;
use crate::names::trace_file_name;

verus! {

/// What `Duration::from_millis` returns for a number of milliseconds.
pub uninterp spec fn millis_duration(ms: u64) -> Duration;

/// `Duration::from_millis`: the duration of `ms` milliseconds.
#[verifier::external_body]
fn duration_from_millis(ms: u64) -> (d: Duration)
    ensures
        d == millis_duration(ms),
{
    Duration::from_millis(ms)
}

/// Default size of the event buffer: 512 MiB.
pub const DEFAULT_BUFFER_SIZE: usize = 536870912;

/// Builder for constructing a tracer.
pub struct Builder {
    /// Directory under which `staging/`, `raw/` and `schema/` are created.
    pub output_dir: String,
    /// Size of the event buffer, in bytes.
    pub buffer_size: usize,
    /// How often recorded events are written out.
    pub flush_interval: Duration,
    /// The schemas to describe in the trace, in registration order.
    pub schemas: Vec<&'static Schema>,
}

impl Default for Builder {
    fn default() -> (b: Builder)
        ensures
            b.output_dir@ == "./traces"@,
            b.buffer_size == DEFAULT_BUFFER_SIZE,
            b.flush_interval == millis_duration(500),
            b.schemas@ == Seq::<&'static Schema>::empty(),
    {
        Builder {
            output_dir: String::from_str("./traces"),
            buffer_size: DEFAULT_BUFFER_SIZE,
            flush_interval: duration_from_millis(500),
            schemas: Vec::new(),
        }
    }
}

impl Builder {
    /// A builder with the default configuration: `./traces`, a 512 MiB buffer,
    /// flushes every 500 ms, no schemas.
    pub fn new() -> (b: Builder)
        ensures
            b.output_dir@ == "./traces"@,
            b.buffer_size == DEFAULT_BUFFER_SIZE,
            b.flush_interval == millis_duration(500),
            b.schemas@ == Seq::<&'static Schema>::empty(),
    {
        Builder::default()
    }

    /// Sets the output directory.
    pub fn output_dir(self, output_dir: &str) -> (b: Builder)
        ensures
            b.output_dir@ == output_dir@,
            b.buffer_size == self.buffer_size,
            b.flush_interval == self.flush_interval,
            b.schemas@ == self.schemas@,
    {
        Builder { output_dir: String::from_str(output_dir), ..self }
    }

    /// Sets the buffer size in bytes.
    pub fn buffer_size(self, size: usize) -> (b: Builder)
        ensures
            b.output_dir@ == self.output_dir@,
            b.buffer_size == size,
            b.flush_interval == self.flush_interval,
            b.schemas@ == self.schemas@,
    {
        Builder { buffer_size: size, ..self }
    }

    /// Sets the flush interval.
    pub fn flush_interval(self, interval: Duration) -> (b: Builder)
        ensures
            b.output_dir@ == self.output_dir@,
            b.buffer_size == self.buffer_size,
            b.flush_interval == interval,
            b.schemas@ == self.schemas@,
    {
        Builder { flush_interval: interval, ..self }
    }

    /// Registers a schema to be included in the trace.
    pub fn schema(self, schema: &'static Schema) -> (b: Builder)
        ensures
            b.output_dir@ == self.output_dir@,
            b.buffer_size == self.buffer_size,
            b.flush_interval == self.flush_interval,
            b.schemas@ == self.schemas@.push(schema),
    {
        let mut b = self;
        b.schemas.push(schema);
        b
    }

    /// How many events the buffer holds: its size over the size of a record.
    pub fn max_records(&self) -> (n: usize)
        ensures
            n == self.buffer_size / 40,
    {
        self.buffer_size / RECORD_SIZE
    }

    /// The schema version and the JSON schema document of the registered schemas. The
    /// version hashes event values in the byte order of this machine, which is left
    /// unsaid; [`crate::schema::generate_merged_schema`] gives the result for each order.
    pub fn generate_merged_schema(&self) -> (r: (u64, String))
        ensures
            exists|o: ByteOrder| r.0 == fnv1a(42, hash_input(o, merged_entries(self.schemas@))),
            r.1@ == schema_json(r.0, merged_entries(self.schemas@)),
    {
        let o = native_byte_order();
        let r = merged_schema_of(&self.schemas, o);
        assert(r.0 == fnv1a(42, hash_input(o, merged_entries(self.schemas@))));
        r
    }
}

/// A trace file ready to be written: its name and its bytes.
pub struct TraceFile {
    pub name: String,
    pub bytes: Vec<u8>,
}

/// The record that reports `n` dropped events.
pub open spec fn dropped_marker(n: u64) -> EventRecord {
    EventRecord { ts_delta_ns: 0, flow_id: u64::MAX, event_type: u64::MAX, primary: n, secondary: 0 }
}

/// The records a batch file holds: the pending events, then a dropped-event record
/// when events were dropped.
pub open spec fn batch_records(events: Seq<EventRecord>, dropped: u64) -> Seq<EventRecord> {
    if dropped > 0 {
        events.push(dropped_marker(dropped))
    } else {
        events
    }
}

/// The header of the files of a tracer.
pub open spec fn batch_header(batch_start_ns: u64, schema_version: u64) -> FileHeader {
    FileHeader {
        magic: [111u8, 106u8, 111u8, 0u8],
        version: 1,
        reserved: [0u8, 0u8, 0u8],
        batch_start_ns,
        schema_version,
    }
}

/// State shared by the recording side and the flushing side of a tracer.
pub struct SharedState {
    pub collector: RseqCollector,
    pub batch_start_ns: u64,
    pub schema_version: u64,
    /// How many events may be pending before further events are dropped.
    pub max_records: usize,
    /// The byte order in which files are written.
    pub byte_order: ByteOrder,
}

/// The collector after the tracer is handed an event: dropped and counted when
/// `max_records` events are already pending, else recorded as `record` does it.
pub open spec fn accept_or_drop(s: CollectorState, max_records: usize, recorded: CollectorState) -> CollectorState {
    if s.pending().len() >= max_records {
        s.drop_event()
    } else {
        recorded
    }
}

/// Takes every pending event out of the collector and, when there is any or when
/// events were dropped, returns the next batch file: named by the batch start and
/// counter, holding the header, the events and, if events were dropped, a record of
/// how many. The counter advances with each file.
pub fn flush_events_from_ring_buffer(state: &mut SharedState, batch_counter: &mut u64) -> (r: Option<
    TraceFile,
>)
    requires
        old(state).collector.wf(),
        old(state).collector@.pending().len() > 0 || old(state).collector@.dropped > 0 ==> *old(batch_counter)
            < u64::MAX,
    ensures
        final(state).collector.wf(),
        final(state).batch_start_ns == old(state).batch_start_ns,
        final(state).schema_version == old(state).schema_version,
        final(state).max_records == old(state).max_records,
        final(state).byte_order == old(state).byte_order,
        final(state).collector@ == (CollectorState {
            aggregate: Seq::empty(),
            dropped: 0,
            ..old(state).collector@.steal()
        }),
        old(state).collector@.pending().len() == 0 && old(state).collector@.dropped == 0 ==> r is None
            && *final(batch_counter) == *old(batch_counter),
        !(old(state).collector@.pending().len() == 0 && old(state).collector@.dropped == 0) ==> r is Some
            && *final(batch_counter) == *old(batch_counter) + 1,
        r matches Some(f) ==> f.name@ == trace_name(old(state).batch_start_ns, *old(batch_counter))
            && f.bytes@ == trace_file_bytes(
            old(state).byte_order,
            batch_header(old(state).batch_start_ns, old(state).schema_version),
            batch_records(old(state).collector@.pending(), old(state).collector@.dropped),
        ),
{
    let dropped: u64 = state.collector.take_dropped_count();
    let mut events = state.collector.read_events();
    if events.len() == 0 && dropped == 0 {
        return None;
    }
    let name = trace_file_name(state.batch_start_ns, *batch_counter);
    *batch_counter = *batch_counter + 1;
    if dropped > 0 {
        events.push(
            EventRecord { ts_delta_ns: 0, flow_id: u64::MAX, event_type: u64::MAX, primary: dropped, secondary: 0 },
        );
    }
    let header = FileHeader::new(state.batch_start_ns, state.schema_version);
    assert(header == batch_header(state.batch_start_ns, state.schema_version)) by {
        let h2 = batch_header(state.batch_start_ns, state.schema_version);
        assert(header.magic@ =~= h2.magic@);
        assert(header.reserved@ =~= h2.reserved@);
        assert(header.magic =~= h2.magic);
        assert(header.reserved =~= h2.reserved);
    }
    let bytes = encode_trace_file(&header, events.as_slice(), state.byte_order);
    Some(TraceFile { name, bytes })
}

/// Main tracer handle for recording events.
pub struct Tracer {
    pub shared_state: SharedState,
    /// Number of the next batch file.
    pub batch_counter: u64,
}

impl Tracer {
    /// A tracer whose files carry the given batch start and schema version and are
    /// written in `byte_order`, recording into `collector` and holding at most
    /// `max_records` pending events, past which events are dropped; its first file is
    /// batch 0.
    pub fn new(
        collector: RseqCollector,
        batch_start_ns: u64,
        schema_version: u64,
        max_records: usize,
        byte_order: ByteOrder,
    ) -> (t: Tracer)
        ensures
            t.shared_state.collector == collector,
            t.shared_state.batch_start_ns == batch_start_ns,
            t.shared_state.schema_version == schema_version,
            t.shared_state.max_records == max_records,
            t.shared_state.byte_order == byte_order,
            t.batch_counter == 0,
    {
        Tracer {
            shared_state: SharedState { collector, batch_start_ns, schema_version, max_records, byte_order },
            batch_counter: 0,
        }
    }

    /// Records a trace event. The caller fills in the whole record, timestamp
    /// included. The event goes through the fallback queue, as on systems without
    /// restartable sequences. When the buffer is full the event is dropped and
    /// counted instead.
    pub fn record(&mut self, record: EventRecord)
        requires
            old(self).shared_state.collector.wf(),
        ensures
            final(self).shared_state.collector.wf(),
            final(self).shared_state.collector@ == accept_or_drop(
                old(self).shared_state.collector@,
                old(self).shared_state.max_records,
                old(self).shared_state.collector@.push_fallback(record),
            ),
            final(self).shared_state.batch_start_ns == old(self).shared_state.batch_start_ns,
            final(self).shared_state.schema_version == old(self).shared_state.schema_version,
            final(self).shared_state.max_records == old(self).shared_state.max_records,
            final(self).batch_counter == old(self).batch_counter,
    {
        if self.shared_state.collector.pending_at_least(self.shared_state.max_records) {
            self.shared_state.collector.count_dropped();
        } else {
            self.shared_state.collector.record(record);
        }
    }

    /// Records a trace event on the page of `cpu`, the CPU the caller runs on. When
    /// the buffer is full the event is dropped and counted instead.
    pub fn record_on_cpu(&mut self, cpu: usize, record: EventRecord)
        requires
            old(self).shared_state.collector.wf(),
        ensures
            final(self).shared_state.collector.wf(),
            final(self).shared_state.collector@ == accept_or_drop(
                old(self).shared_state.collector@,
                old(self).shared_state.max_records,
                old(self).shared_state.collector@.record_on_cpu(cpu as int, record),
            ),
            final(self).shared_state.batch_start_ns == old(self).shared_state.batch_start_ns,
            final(self).shared_state.schema_version == old(self).shared_state.schema_version,
            final(self).shared_state.max_records == old(self).shared_state.max_records,
            final(self).batch_counter == old(self).batch_counter,
    {
        if self.shared_state.collector.pending_at_least(self.shared_state.max_records) {
            self.shared_state.collector.count_dropped();
        } else {
            self.shared_state.collector.record_on_cpu(cpu, record);
        }
    }

    /// Cuts the next batch file out of the recorded events (see
    /// [`flush_events_from_ring_buffer`]).
    pub fn flush(&mut self) -> (r: Option<TraceFile>)
        requires
            old(self).shared_state.collector.wf(),
            old(self).shared_state.collector@.pending().len() > 0 || old(self).shared_state.collector@.dropped
                > 0 ==> old(self).batch_counter < u64::MAX,
        ensures
            final(self).shared_state.collector.wf(),
            final(self).shared_state.max_records == old(self).shared_state.max_records,
            final(self).shared_state.batch_start_ns == old(self).shared_state.batch_start_ns,
            final(self).shared_state.schema_version == old(self).shared_state.schema_version,
            final(self).shared_state.collector@.pending() == Seq::<EventRecord>::empty(),
            final(self).shared_state.collector@.dropped == 0,
            old(self).shared_state.collector@.pending().len() == 0 && old(self).shared_state.collector@.dropped
                == 0 ==> r is None && final(self).batch_counter == old(self).batch_counter,
            !(old(self).shared_state.collector@.pending().len() == 0
                && old(self).shared_state.collector@.dropped == 0) ==> r is Some && final(self).batch_counter
                == old(self).batch_counter + 1,
            r matches Some(f) ==> f.name@ == trace_name(
                old(self).shared_state.batch_start_ns,
                old(self).batch_counter,
            ) && f.bytes@ == trace_file_bytes(
                old(self).shared_state.byte_order,
                batch_header(old(self).shared_state.batch_start_ns, old(self).shared_state.schema_version),
                batch_records(old(self).shared_state.collector@.pending(), old(self).shared_state.collector@.dropped),
            ),
    {
        let r = flush_events_from_ring_buffer(&mut self.shared_state, &mut self.batch_counter);
        proof {
            crate::collector::lemma_flatten_all_empty(self.shared_state.collector@.lanes);
            assert(self.shared_state.collector@.pending() =~= Seq::<EventRecord>::empty());
        }
        r
    }
}

/// A batch file, read in the byte order it was written in, reads back as the tracer's
/// header followed by exactly the events that were pending, in order, and then the
/// dropped-event record if events were dropped.
pub proof fn lemma_batch_file_reads_back(
    o: ByteOrder,
    batch_start_ns: u64,
    schema_version: u64,
    events: Seq<EventRecord>,
    dropped: u64,
)
    ensures
        spec_decode_trace_file(
            o,
            trace_file_bytes(o, batch_header(batch_start_ns, schema_version), batch_records(events, dropped)),
        ) == Ok::<(FileHeader, Seq<EventRecord>), LoadError>(
            (batch_header(batch_start_ns, schema_version), batch_records(events, dropped)),
        ),
{
    let h = batch_header(batch_start_ns, schema_version);
    assert(h.magic@ =~= crate::trace_file::magic_bytes());
    lemma_trace_file_roundtrip(o, h, batch_records(events, dropped));
}

/// A flushed batch file reports its dropped events: read into columns, its last row
/// gives the count exactly when events were dropped, provided no recorded event itself
/// looks like the marker.
pub proof fn lemma_flushed_file_reports_drops(
    batch_start_ns: u64,
    schema_version: u64,
    events: Seq<EventRecord>,
    dropped: u64,
    c: TraceColumns,
)
    requires
        columns_match(c, batch_header(batch_start_ns, schema_version), batch_records(events, dropped)),
        forall|i: int| 0 <= i < events.len() ==> !is_drop_marker(#[trigger] events[i].flow_id, events[i].event_type),
    ensures
        spec_dropped_events(c) == (if dropped > 0 {
            Some(dropped)
        } else {
            None::<u64>
        }),
{
    let rs = batch_records(events, dropped);
    let n = rs.len();
    if n > 0 {
        let last = c.timestamp_ns@[n - 1];
        assert(c.flow_id@[n - 1] == rs[n - 1].flow_id && c.event_type@[n - 1] == rs[n - 1].event_type
            && c.payload@[n - 1] == rs[n - 1].primary);
        if dropped == 0 {
            assert(rs[n - 1] == events[n - 1]);
        }
    }
}

} // verus!
