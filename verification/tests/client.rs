use ojo::client::{Builder, Tracer};
use ojo::collector::RseqCollector;
use ojo::schema::{EventTypeInfo, Schema, ValueType};
use ojo::trace_file::{decode_trace_file, native_byte_order, EventRecord, FileHeader};
use std::path::PathBuf;
use std::time::Duration;

static SCHEMA: Schema = Schema {
    module: "test",
    namespace: 1,
    events: &[EventTypeInfo {
        value: 1,
        name: "PACKET_SENT",
        category: "Packet",
        description: "Packet sent",
        value_type: ValueType::Identifier,
    }],
};

const PACKET_SENT: u64 = 1;

#[test]
fn test_builder_defaults() {
    let builder = Builder::new();
    assert_eq!(builder.buffer_size, 512 * 1024 * 1024);
    assert_eq!(builder.flush_interval, Duration::from_millis(500));
}

#[test]
fn test_builder_configuration() {
    let builder = Builder::new()
        .output_dir("/tmp/traces")
        .buffer_size(1024 * 1024)
        .flush_interval(Duration::from_millis(500));

    assert_eq!(PathBuf::from(&builder.output_dir), PathBuf::from("/tmp/traces"));
    assert_eq!(builder.buffer_size, 1024 * 1024);
    assert_eq!(builder.flush_interval, Duration::from_millis(500));
}

#[test]
fn test_file_header_format() {
    let batch_start = 123456789u64;
    let schema_version = 1u64;
    let header = FileHeader::new(batch_start, schema_version);

    assert_eq!(&header.magic, b"ojo\0");
    assert_eq!(header.version, 1);
    assert_eq!(header.batch_start_ns, batch_start);
    assert_eq!(header.schema_version, schema_version);
}

#[test]
fn test_binary_format_size() {
    assert_eq!(std::mem::size_of::<FileHeader>(), 24);
    assert_eq!(std::mem::size_of::<EventRecord>(), 40);
    assert_eq!(FileHeader::new(0, 0).to_bytes(native_byte_order()).len(), ojo::trace_file::HEADER_SIZE);
    let r = EventRecord { ts_delta_ns: 1, flow_id: 2, event_type: 3, primary: 4, secondary: 5 };
    assert_eq!(r.to_bytes(native_byte_order()).len(), ojo::trace_file::RECORD_SIZE);
}

#[test]
fn test_rseq_collector_basic() {
    let mut collector = RseqCollector::new(3, false);

    for i in 0..100 {
        collector.record_on_cpu(0, EventRecord {
            ts_delta_ns: i * 1000,
            flow_id: 1,
            event_type: PACKET_SENT,
            primary: i,
            secondary: 0,
        });
    }

    let mut all_events = Vec::new();
    all_events.extend_from_slice(&collector.read_events());

    assert_eq!(all_events.len(), 100, "Should have 100 events");

    for (i, event) in all_events.iter().enumerate() {
        assert_eq!(event.ts_delta_ns, i as u64 * 1000);
        assert_eq!(event.flow_id, 1);
        assert_eq!(event.event_type, PACKET_SENT);
        assert_eq!(event.primary, i as u64);
    }
}

#[test]
fn schema_registration_is_kept() {
    let b = Builder::new().schema(&SCHEMA);
    assert_eq!(b.schemas.len(), 1);
    let (version, json) = b.generate_merged_schema();
    assert!(json.contains("schema_version"));
    assert!(json.contains("events"));
    assert!(json.contains("PACKET_SENT"));
    assert!(json.starts_with(&format!("{{\"schema_version\":{version},\"events\":[")));
}

#[test]
fn tracer_flush_writes_readable_batch() {
    let mut tracer = Tracer::new(RseqCollector::new(3, false), 77, 9, 1000, native_byte_order());
    assert!(tracer.flush().is_none(), "nothing recorded, nothing flushed");
    for i in 0..10u64 {
        tracer.record_on_cpu(1, EventRecord { ts_delta_ns: i * 1000, flow_id: 1, event_type: 1, primary: i, secondary: 0 });
    }
    let file = tracer.flush().expect("a batch file");
    assert_eq!(file.name, "trace_000000000000004d_00000000.bin");
    let (header, records) = decode_trace_file(&file.bytes, native_byte_order()).unwrap();
    assert_eq!(header.batch_start_ns, 77);
    assert_eq!(header.schema_version, 9);
    assert_eq!(records.len(), 10);
    for (i, r) in records.iter().enumerate() {
        assert_eq!(r.primary, i as u64);
    }
    assert!(tracer.flush().is_none());
    tracer.record(EventRecord { ts_delta_ns: 5, flow_id: 2, event_type: 3, primary: 4, secondary: 5 });
    let second = tracer.flush().unwrap();
    assert_eq!(second.name, "trace_000000000000004d_00000001.bin");
}

#[test]
fn full_buffer_drops_and_counts_events() {
    let builder = Builder::new().buffer_size(3 * 40 + 39);
    assert_eq!(builder.max_records(), 3);
    let mut tracer = Tracer::new(RseqCollector::new(1, false), 5, 6, builder.max_records(), native_byte_order());
    for i in 0..5u64 {
        tracer.record_on_cpu(0, EventRecord { ts_delta_ns: i, flow_id: 1, event_type: 1, primary: i, secondary: 0 });
    }
    let file = tracer.flush().unwrap();
    let (_, records) = decode_trace_file(&file.bytes, native_byte_order()).unwrap();
    assert_eq!(records.len(), 4);
    assert_eq!(records[2].primary, 2);
    assert_eq!(
        records[3],
        EventRecord { ts_delta_ns: 0, flow_id: u64::MAX, event_type: u64::MAX, primary: 2, secondary: 0 }
    );
    tracer.record(EventRecord { ts_delta_ns: 9, flow_id: 1, event_type: 1, primary: 9, secondary: 0 });
    let (_, again) = decode_trace_file(&tracer.flush().unwrap().bytes, native_byte_order()).unwrap();
    assert_eq!(again.len(), 1);
    assert_eq!(again[0].primary, 9);
}

#[test]
fn fallback_only_tracer_flushes_in_order() {
    let mut tracer = Tracer::new(RseqCollector::fallback_only(), 1, 2, 100, native_byte_order());
    for i in 0..4u64 {
        tracer.record_on_cpu(0, EventRecord { ts_delta_ns: i, flow_id: 1, event_type: 1, primary: i, secondary: 0 });
    }
    let (_, records) = decode_trace_file(&tracer.flush().unwrap().bytes, native_byte_order()).unwrap();
    assert_eq!(records.iter().map(|r| r.primary).collect::<Vec<_>>(), vec![0, 1, 2, 3]);
}
