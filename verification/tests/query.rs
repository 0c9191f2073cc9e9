use ojo::query::{MaybeBigInt, Query};
use ojo::subscriptions::Subscriptions;

#[test]
fn flows_sql() {
    let q = Query::Flows { event_ids: vec![] };
    assert_eq!(q.to_sql(), "SELECT batch_id, flow_id, min(ts_delta_ns) as start_ts, max(ts_delta_ns) as end_ts, count(*) as event_count FROM events GROUP BY (batch_id, flow_id) ORDER BY start_ts DESC");
    let q = Query::Flows { event_ids: vec![MaybeBigInt(1), MaybeBigInt(18446744073709551615)] };
    assert_eq!(q.to_sql(), "SELECT batch_id, flow_id, min(ts_delta_ns) as start_ts, max(ts_delta_ns) as end_ts, count(*) as event_count FROM events WHERE event_type IN (1,18446744073709551615) GROUP BY (batch_id, flow_id) ORDER BY start_ts DESC");
}

#[test]
fn event_types_and_stats_sql() {
    assert_eq!(Query::EventTypes.to_sql(), "SELECT * FROM event_schemas");
    assert_eq!(Query::Stats { event_ids: vec![] }.to_sql(), "SELECT event_type, count(*) as count FROM events GROUP BY event_type");
    assert_eq!(
        Query::Stats { event_ids: vec![MaybeBigInt(5)] }.to_sql(),
        "SELECT event_type, count(*) as count FROM events WHERE event_type IN (5) GROUP BY event_type"
    );
}

#[test]
fn events_sql() {
    let base = "SELECT ts_delta_ns, batch_id, flow_id, event_type, primary_value, secondary_value FROM events";
    let q = Query::Events { flow_ids: vec![], event_ids: vec![] };
    assert_eq!(q.to_sql(), format!("{base} ORDER BY ts_delta_ns"));
    let q = Query::Events { flow_ids: vec![[MaybeBigInt(10), MaybeBigInt(2)], [MaybeBigInt(11), MaybeBigInt(3)]], event_ids: vec![] };
    assert_eq!(q.to_sql(), format!("{base} WHERE (batch_id, flow_id) IN ((10, 2),(11, 3)) ORDER BY ts_delta_ns"));
    let q = Query::Events { flow_ids: vec![], event_ids: vec![MaybeBigInt(4), MaybeBigInt(6)] };
    assert_eq!(q.to_sql(), format!("{base} WHERE event_type IN (4,6) ORDER BY ts_delta_ns"));
    let q = Query::Events { flow_ids: vec![[MaybeBigInt(1), MaybeBigInt(2)]], event_ids: vec![MaybeBigInt(3)] };
    assert_eq!(q.to_sql(), format!("{base} WHERE (batch_id, flow_id) IN ((1, 2)) AND event_type IN (3) ORDER BY ts_delta_ns"));
}

#[test]
fn big_int_text() {
    assert_eq!(MaybeBigInt::parse_str("18446744073709551615"), Some(MaybeBigInt(u64::MAX)));
    assert_eq!(MaybeBigInt::parse_str("12x"), None);
    assert_eq!(MaybeBigInt(9007199254740993).to_decimal(), "9007199254740993");
    let n = MaybeBigInt(123456789012345);
    assert_eq!(MaybeBigInt::parse_str(&n.to_decimal()), Some(n));
}

#[test]
fn subscriptions_track_last_result() {
    let mut s = Subscriptions::new();
    assert!(s.ids().is_empty());
    s.subscribe(1, Query::EventTypes, vec![1, 2, 3]);
    s.subscribe(2, Query::Stats { event_ids: vec![] }, vec![]);
    let mut ids = s.ids();
    ids.sort();
    assert_eq!(ids, vec![1, 2]);
    assert_eq!(s.sql_of(1).unwrap(), "SELECT * FROM event_schemas");
    assert!(!s.refresh(1, vec![1, 2, 3]));
    assert!(s.refresh(1, vec![1, 2, 4]));
    assert!(!s.refresh(1, vec![1, 2, 4]));
    assert!(!s.refresh(7, vec![9]));
    s.subscribe(1, Query::Flows { event_ids: vec![] }, vec![0]);
    assert!(s.sql_of(1).unwrap().starts_with("SELECT batch_id"));
    s.unsubscribe(1);
    assert!(s.sql_of(1).is_none());
    assert_eq!(s.ids(), vec![2]);
    assert!(!s.refresh(1, vec![5, 5]), "no update after unsubscribe");
    assert!(s.sql_of(1).is_none());
}
