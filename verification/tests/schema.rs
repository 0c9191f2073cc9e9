use ojo::client::Builder;
use ojo::schema::{generate_merged_schema, merge_schemas, EventTypeInfo, Schema, ValueType};
use ojo::trace_file::ByteOrder;

static FIRST: Schema = Schema {
    module: "first",
    namespace: 1,
    events: &[
        EventTypeInfo { value: 5, name: "FIVE", category: "Packet", description: "five", value_type: ValueType::Count },
        EventTypeInfo { value: 2, name: "TWO", category: "Stream", description: "two", value_type: ValueType::Bytes },
    ],
};

static SECOND: Schema = Schema {
    module: "second",
    namespace: 2,
    events: &[EventTypeInfo { value: 5, name: "FIVE_B", category: "Meta", description: "say \"5\"", value_type: ValueType::NoValue }],
};

fn fnv1a(key: u64, bytes: &[u8]) -> u64 {
    let mut h = key;
    for b in bytes {
        h ^= *b as u64;
        h = h.wrapping_mul(0x100000001b3);
    }
    h
}

#[test]
fn later_schema_wins_and_entries_are_sorted() {
    let merged = merge_schemas(&vec![&FIRST, &SECOND]);
    let values: Vec<u64> = merged.iter().map(|e| e.event.value).collect();
    assert_eq!(values, vec![2, 5]);
    assert_eq!(merged[1].event.name, "FIVE_B");
    assert_eq!(merged[1].module, "second");
    assert_eq!(merged[0].module, "first");
}

#[test]
fn empty_schema_document() {
    let (version, json) = Builder::new().generate_merged_schema();
    assert_eq!(version, 42);
    assert_eq!(json, "{\"schema_version\":42,\"events\":[]}");
}

#[test]
fn schema_version_is_fnv_of_entries() {
    let (version, json) = generate_merged_schema(&vec![&FIRST], ByteOrder::Little);
    let mut bytes = Vec::new();
    for (v, name, cat, desc, code) in [(2u64, "TWO", "Stream", "two", 3u8), (5, "FIVE", "Packet", "five", 2)] {
        bytes.extend_from_slice(&v.to_le_bytes());
        bytes.extend_from_slice(b"first");
        bytes.extend_from_slice(name.as_bytes());
        bytes.extend_from_slice(cat.as_bytes());
        bytes.extend_from_slice(desc.as_bytes());
        bytes.push(code);
    }
    assert_eq!(version, fnv1a(42, &bytes));
    assert_ne!(version, 42);
    assert_eq!(
        json,
        format!("{{\"schema_version\":{version},\"events\":[{{\"value\":2,\"name\":\"TWO\",\"category\":\"Stream\",\"description\":\"two\",\"module\":\"first\",\"value_type\":3}},{{\"value\":5,\"name\":\"FIVE\",\"category\":\"Packet\",\"description\":\"five\",\"module\":\"first\",\"value_type\":2}}]}}")
    );
    let again = generate_merged_schema(&vec![&FIRST], ByteOrder::Little);
    assert_eq!(again.0, version);
}

#[test]
fn strings_are_escaped_in_the_document() {
    let (_, json) = generate_merged_schema(&vec![&SECOND], ByteOrder::Little);
    assert!(json.contains("\"description\":\"say \\\"5\\\"\""), "{json}");
    assert!(json.contains("\"value_type\":0"));
}

static CONTROL: Schema = Schema {
    module: "ctl",
    namespace: 3,
    events: &[EventTypeInfo {
        value: 1,
        name: "a\\b",
        category: "tab\there",
        description: "line\nbell\u{7}é",
        value_type: ValueType::Count,
    }],
};

#[test]
fn control_characters_are_json_escaped() {
    let (_, json) = generate_merged_schema(&vec![&CONTROL], ByteOrder::Little);
    assert!(json.contains(r#""name":"a\\b""#), "{json}");
    assert!(json.contains(r#""category":"tab\there""#), "{json}");
    assert!(json.contains(r#""description":"line\nbell\u0007é""#), "{json}");
}

static THIRD: Schema = Schema {
    module: "third",
    namespace: 4,
    events: &[
        EventTypeInfo { value: 7, name: "SEVEN", category: "Meta", description: "seven", value_type: ValueType::Count },
        EventTypeInfo { value: 1, name: "ONE", category: "Meta", description: "one", value_type: ValueType::Bytes },
    ],
};

#[test]
fn disjoint_schemas_commute() {
    let a = generate_merged_schema(&vec![&FIRST, &THIRD], ByteOrder::Little);
    let b = generate_merged_schema(&vec![&THIRD, &FIRST], ByteOrder::Little);
    let c = generate_merged_schema(&vec![&FIRST, &THIRD, &FIRST], ByteOrder::Little);
    assert_eq!(a, b);
    assert_eq!(a, c);
    assert!(a.1.contains("\"value\":1,") && a.1.contains("\"value\":7,"));
}

#[test]
fn schema_version_follows_byte_order() {
    let (version, json) = generate_merged_schema(&vec![&FIRST], ByteOrder::Big);
    let mut bytes = Vec::new();
    for (v, name, cat, desc, code) in [(2u64, "TWO", "Stream", "two", 3u8), (5, "FIVE", "Packet", "five", 2)] {
        bytes.extend_from_slice(&v.to_be_bytes());
        bytes.extend_from_slice(b"first");
        bytes.extend_from_slice(name.as_bytes());
        bytes.extend_from_slice(cat.as_bytes());
        bytes.extend_from_slice(desc.as_bytes());
        bytes.push(code);
    }
    assert_eq!(version, fnv1a(42, &bytes));
    assert!(json.starts_with(&format!("{{\"schema_version\":{version},")));
    let native = Builder::new().schema(&FIRST).generate_merged_schema();
    let expected = if 1u16.to_ne_bytes()[0] == 1 {
        generate_merged_schema(&vec![&FIRST], ByteOrder::Little)
    } else {
        generate_merged_schema(&vec![&FIRST], ByteOrder::Big)
    };
    assert_eq!(native, expected);
}
