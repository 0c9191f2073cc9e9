//! Turning trace files and schema documents into the columns the database stores.
use vstd::prelude::*;
use crate::trace_file::EventRecord;
use crate::trace_file::FileHeader;
use crate::trace_file::LoadError;
use crate::trace_file::ByteOrder;
use crate::trace_file::decode_trace_file;
use crate::trace_file::spec_decode_trace_file;

verus! {

/// The event columns of one trace file, one entry per record.
pub struct TraceColumns {
    /// Absolute time of the event: batch start plus the record's delta, saturating.
    pub timestamp_ns: Vec<u64>,
    /// The batch start of the file.
    pub batch_id: Vec<u64>,
    pub flow_id: Vec<u64>,
    pub event_type: Vec<u64>,
    /// The record's primary value.
    pub payload: Vec<u64>,
}

/// `a + b`, or `u64::MAX` where that overflows.
pub open spec fn saturating_add(a: u64, b: u64) -> u64 {
    if a + b > u64::MAX {
        u64::MAX
    } else {
        (a + b) as u64
    }
}

/// The columns hold, row by row, the records under the header.
pub open spec fn columns_match(c: TraceColumns, h: FileHeader, rs: Seq<EventRecord>) -> bool {
    &&& c.timestamp_ns@.len() == rs.len()
    &&& c.batch_id@.len() == rs.len()
    &&& c.flow_id@.len() == rs.len()
    &&& c.event_type@.len() == rs.len()
    &&& c.payload@.len() == rs.len()
    &&& forall|i: int|
        0 <= i < rs.len() ==> {
            &&& #[trigger] c.timestamp_ns@[i] == saturating_add(h.batch_start_ns, rs[i].ts_delta_ns)
            &&& c.batch_id@[i] == h.batch_start_ns
            &&& c.flow_id@[i] == rs[i].flow_id
            &&& c.event_type@[i] == rs[i].event_type
            &&& c.payload@[i] == rs[i].primary
        }
}

/// The columns of the records of a file with the given header.
pub fn trace_columns(header: &FileHeader, records: &Vec<EventRecord>) -> (c: TraceColumns)
    ensures
        columns_match(c, *header, records@),
{
    let mut c = TraceColumns {
        timestamp_ns: Vec::new(),
        batch_id: Vec::new(),
        flow_id: Vec::new(),
        event_type: Vec::new(),
        payload: Vec::new(),
    };
    let mut i: usize = 0;
    while i < records.len()
        invariant
            i <= records@.len(),
            columns_match(c, *header, records@.subrange(0, i as int)),
        decreases records@.len() - i,
    {
        let r = records[i];
        let ts: u64 = header.batch_start_ns.saturating_add(r.ts_delta_ns);
        c.timestamp_ns.push(ts);
        c.batch_id.push(header.batch_start_ns);
        c.flow_id.push(r.flow_id);
        c.event_type.push(r.event_type);
        c.payload.push(r.primary);
        i = i + 1;
        assert forall|j: int| 0 <= j < i implies #[trigger] records@.subrange(0, i as int)[j] == records@[j] by {}
    }
    assert(records@.subrange(0, i as int) =~= records@);
    c
}

/// Reads a trace file written in byte order `o` into columns, or says why it is not one.
pub fn load_trace_bytes(bytes: &[u8], o: ByteOrder) -> (r: Result<TraceColumns, LoadError>)
    ensures
        match (r, spec_decode_trace_file(o, bytes@)) {
            (Ok(c), Ok((h, rs))) => columns_match(c, h, rs),
            (Err(e), Err(se)) => e == se,
            _ => false,
        },
{
    match decode_trace_file(bytes, o) {
        Ok((header, records)) => Ok(trace_columns(&header, &records)),
        Err(e) => Err(e),
    }
}

/// Whether a record is the marker a flush writes for dropped events.
pub open spec fn is_drop_marker(flow_id: u64, event_type: u64) -> bool {
    flow_id == u64::MAX && event_type == u64::MAX
}

/// The count of dropped events that a file's columns report: the payload of the last
/// row when that row is the dropped-event marker.
pub open spec fn spec_dropped_events(c: TraceColumns) -> Option<u64> {
    let n = c.flow_id@.len();
    if n > 0 && c.event_type@.len() == n && c.payload@.len() == n && is_drop_marker(
        c.flow_id@[n - 1],
        c.event_type@[n - 1],
    ) {
        Some(c.payload@[n - 1])
    } else {
        None
    }
}

/// Detects the dropped-event marker at the end of a file's columns and returns the
/// count of dropped events it reports.
pub fn dropped_events(c: &TraceColumns) -> (r: Option<u64>)
    ensures
        r == spec_dropped_events(*c),
{
    let n: usize = c.flow_id.len();
    if n > 0 && c.event_type.len() == n && c.payload.len() == n && c.flow_id[n - 1] == u64::MAX
        && c.event_type[n - 1] == u64::MAX {
        Some(c.payload[n - 1])
    } else {
        None
    }
}

/// One event of a schema document.
#[derive(Debug, Clone)]
pub struct SchemaEvent {
    pub value: u64,
    pub name: String,
    pub category: String,
    pub description: String,
    pub module: String,
}

/// The columns of the event types of a schema document, one entry per event.
pub struct SchemaColumns {
    pub ids: Vec<u64>,
    pub names: Vec<String>,
    pub categories: Vec<String>,
    pub descriptions: Vec<String>,
    pub modules: Vec<String>,
}

/// The columns hold, row by row, the events.
pub open spec fn schema_columns_match(c: SchemaColumns, evs: Seq<SchemaEvent>) -> bool {
    &&& c.ids@.len() == evs.len()
    &&& c.names@.len() == evs.len()
    &&& c.categories@.len() == evs.len()
    &&& c.descriptions@.len() == evs.len()
    &&& c.modules@.len() == evs.len()
    &&& forall|i: int|
        0 <= i < evs.len() ==> {
            &&& #[trigger] c.ids@[i] == evs[i].value
            &&& c.names@[i]@ == evs[i].name@
            &&& c.categories@[i]@ == evs[i].category@
            &&& c.descriptions@[i]@ == evs[i].description@
            &&& c.modules@[i]@ == evs[i].module@
        }
}

/// The columns of the events of a schema document.
pub fn schema_columns(events: &Vec<SchemaEvent>) -> (c: SchemaColumns)
    ensures
        schema_columns_match(c, events@),
{
    let mut c = SchemaColumns {
        ids: Vec::new(),
        names: Vec::new(),
        categories: Vec::new(),
        descriptions: Vec::new(),
        modules: Vec::new(),
    };
    let mut i: usize = 0;
    while i < events.len()
        invariant
            i <= events@.len(),
            schema_columns_match(c, events@.subrange(0, i as int)),
        decreases events@.len() - i,
    {
        let e = &events[i];
        c.ids.push(e.value);
        c.names.push(e.name.clone());
        c.categories.push(e.category.clone());
        c.descriptions.push(e.description.clone());
        c.modules.push(e.module.clone());
        i = i + 1;
        assert forall|j: int| 0 <= j < i implies #[trigger] events@.subrange(0, i as int)[j] == events@[j] by {}
    }
    assert(events@.subrange(0, i as int) =~= events@);
    c
}

} // verus!
