use ojo::cpus::parse_possible_cpus;
use ojo::loader::{dropped_events, load_trace_bytes, schema_columns, SchemaEvent};
use ojo::names::{schema_file_name, trace_file_name};
use ojo::text::{decimal_string, parse_u64};
use ojo::trace_file::{decode_trace_file, encode_trace_file, native_byte_order, ByteOrder, EventRecord, FileHeader, LoadError};

fn rec(i: u64) -> EventRecord {
    EventRecord { ts_delta_ns: i * 10, flow_id: i + 1, event_type: 7, primary: i * i, secondary: u64::MAX - i }
}

#[test]
fn trace_file_roundtrip() {
    let header = FileHeader::new(0x0102030405060708, 0xabcdef);
    let records: Vec<EventRecord> = (0..5).map(rec).collect();
    for o in [ByteOrder::Little, ByteOrder::Big] {
        let bytes = encode_trace_file(&header, &records, o);
        assert_eq!(bytes.len(), 24 + 5 * 40);
        assert_eq!(&bytes[0..8], &[b'o', b'j', b'o', 0, 1, 0, 0, 0]);
        let expected: [u8; 8] = match o {
            ByteOrder::Little => [8, 7, 6, 5, 4, 3, 2, 1],
            ByteOrder::Big => [1, 2, 3, 4, 5, 6, 7, 8],
        };
        assert_eq!(&bytes[8..16], &expected);
        let (h, rs) = decode_trace_file(&bytes, o).unwrap();
        assert_eq!(h.batch_start_ns, header.batch_start_ns);
        assert_eq!(h.schema_version, header.schema_version);
        assert_eq!(h.magic, header.magic);
        assert_eq!(rs, records);
    }
}

#[test]
fn native_order_is_the_machine_order() {
    let o = native_byte_order();
    let bytes = encode_trace_file(&FileHeader::new(0x0102030405060708, 0), &[], o);
    assert_eq!(&bytes[8..16], &0x0102030405060708u64.to_ne_bytes());
}

#[test]
fn trace_file_errors() {
    assert_eq!(decode_trace_file(&[0u8; 23], native_byte_order()).unwrap_err(), LoadError::TooShort);
    let mut bad = encode_trace_file(&FileHeader::new(1, 2), &[], native_byte_order());
    bad[0] = b'x';
    assert_eq!(decode_trace_file(&bad, native_byte_order()).unwrap_err(), LoadError::InvalidMagic([b'x', b'j', b'o', 0]));
    let mut odd = encode_trace_file(&FileHeader::new(1, 2), &[rec(1)], native_byte_order());
    odd.pop();
    assert_eq!(
        decode_trace_file(&odd, native_byte_order()).unwrap_err(),
        LoadError::BadLength { content_len: 39, record_size: 40 }
    );
    let empty = encode_trace_file(&FileHeader::new(1, 2), &[], native_byte_order());
    assert_eq!(decode_trace_file(&empty, native_byte_order()).unwrap().1.len(), 0);
    let mut newer = encode_trace_file(&FileHeader::new(1, 2), &[rec(1)], native_byte_order());
    newer[4] = 2;
    assert_eq!(decode_trace_file(&newer, native_byte_order()).unwrap_err(), LoadError::UnsupportedVersion(2));
}

#[test]
fn trace_columns_saturate_timestamps() {
    let header = FileHeader::new(u64::MAX - 1, 3);
    let bytes = encode_trace_file(&header, &[rec(0), rec(1)], native_byte_order());
    let c = load_trace_bytes(&bytes, native_byte_order()).unwrap();
    assert_eq!(c.timestamp_ns, vec![u64::MAX - 1, u64::MAX]);
    assert_eq!(c.batch_id, vec![u64::MAX - 1, u64::MAX - 1]);
    assert_eq!(c.flow_id, vec![1, 2]);
    assert_eq!(c.event_type, vec![7, 7]);
    assert_eq!(c.payload, vec![0, 1]);
    assert!(load_trace_bytes(&bytes[..30], native_byte_order()).is_err());
}

#[test]
fn schema_document_columns() {
    let evs = vec![
        SchemaEvent { value: 3, name: "A".into(), category: "C".into(), description: "D".into(), module: "m".into() },
        SchemaEvent { value: 9, name: "B".into(), category: "E".into(), description: "F".into(), module: "n".into() },
    ];
    let c = schema_columns(&evs);
    assert_eq!(c.ids, vec![3, 9]);
    assert_eq!(c.names, vec!["A", "B"]);
    assert_eq!(c.categories, vec!["C", "E"]);
    assert_eq!(c.descriptions, vec!["D", "F"]);
    assert_eq!(c.modules, vec!["m", "n"]);
}

#[test]
fn file_names() {
    assert_eq!(trace_file_name(0x4d, 0), "trace_000000000000004d_00000000.bin");
    assert_eq!(trace_file_name(u64::MAX, 0x1_0000_0000), "trace_ffffffffffffffff_100000000.bin");
    assert_ne!(trace_file_name(5, 1), trace_file_name(5, 2));
    assert_eq!(schema_file_name(0xdeadbeef), "event_schema_00000000deadbeef.json");
    assert_eq!(schema_file_name(0xdeadbeef), format!("event_schema_{:016x}.json", 0xdeadbeefu64));
}

#[test]
fn decimal_text() {
    assert_eq!(decimal_string(0), "0");
    assert_eq!(decimal_string(1234567890), "1234567890");
    assert_eq!(decimal_string(u64::MAX), u64::MAX.to_string());
    assert_eq!(parse_u64("42"), Some(42));
    assert_eq!(parse_u64("+42"), Some(42));
    assert_eq!(parse_u64("007"), Some(7));
    assert_eq!(parse_u64(""), None);
    assert_eq!(parse_u64("+"), None);
    assert_eq!(parse_u64("-1"), None);
    assert_eq!(parse_u64("12a"), None);
    assert_eq!(parse_u64(" 1"), None);
    assert_eq!(parse_u64("18446744073709551615"), Some(u64::MAX));
    assert_eq!(parse_u64("18446744073709551616"), None);
    assert_eq!(parse_u64(&decimal_string(987654321)), Some(987654321));
}

#[test]
fn possible_cpu_lists() {
    assert_eq!(parse_possible_cpus("0-7\n"), Some(8));
    assert_eq!(parse_possible_cpus("0,2-3"), Some(4));
    assert_eq!(parse_possible_cpus("3,1"), Some(4));
    assert_eq!(parse_possible_cpus(""), Some(1));
    assert_eq!(parse_possible_cpus("  5 \t"), Some(6));
    assert_eq!(parse_possible_cpus("0-x"), Some(1));
    assert_eq!(parse_possible_cpus("0-3-4"), Some(1));
    assert_eq!(parse_possible_cpus("\u{a0}0-63\u{2003}"), Some(64));
    assert_eq!(parse_possible_cpus("0-1,,"), Some(2));
}

#[test]
fn possible_cpu_list_overflow() {
    assert_eq!(parse_possible_cpus("0-18446744073709551615"), None);
    assert_eq!(parse_possible_cpus("18446744073709551614"), Some(usize::MAX));
}

#[test]
fn dropped_marker_is_detected() {
    let marker = EventRecord { ts_delta_ns: 0, flow_id: u64::MAX, event_type: u64::MAX, primary: 17, secondary: 0 };
    let with = load_trace_bytes(&encode_trace_file(&FileHeader::new(1, 2), &[rec(0), marker], native_byte_order()), native_byte_order()).unwrap();
    assert_eq!(dropped_events(&with), Some(17));
    let without = load_trace_bytes(&encode_trace_file(&FileHeader::new(1, 2), &[rec(0), rec(1)], native_byte_order()), native_byte_order()).unwrap();
    assert_eq!(dropped_events(&without), None);
    let empty = load_trace_bytes(&encode_trace_file(&FileHeader::new(1, 2), &[], native_byte_order()), native_byte_order()).unwrap();
    assert_eq!(dropped_events(&empty), None);
}
