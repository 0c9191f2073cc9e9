use ojo::collector::{RseqCollector, SLOTS};
use ojo::trace_file::EventRecord;

fn ev(i: u64, flow: u64) -> EventRecord {
    EventRecord { ts_delta_ns: i, flow_id: flow, event_type: 1, primary: i, secondary: 0 }
}

#[test]
fn one_cpu_keeps_order_across_full_pages() {
    let mut c = RseqCollector::new(1, false);
    assert_eq!(c.cpu_slots(), 2);
    let n = (SLOTS + 5) as u64;
    for i in 0..n {
        c.record_on_cpu(0, ev(i, 0));
    }
    let out = c.read_events();
    assert_eq!(out.len(), n as usize);
    for (i, e) in out.iter().enumerate() {
        assert_eq!(e.primary, i as u64);
    }
    assert!(c.read_events().is_empty());
}

#[test]
fn cpus_are_read_in_order_then_fallback() {
    let mut c = RseqCollector::new(2, false);
    c.record_on_cpu(2, ev(1, 2));
    c.record_on_cpu(0, ev(2, 0));
    c.record_on_cpu(9, ev(3, 9));
    c.record_on_cpu(1, ev(4, 1));
    let out = c.read_events();
    let flows: Vec<u64> = out.iter().map(|e| e.flow_id).collect();
    assert_eq!(flows, vec![0, 1, 2, 9]);
}

#[test]
fn fallback_only_collector_aggregates_large_queues() {
    let mut c = RseqCollector::new(0, true);
    assert_eq!(RseqCollector::fallback_only().cpu_slots(), 0);
    let n = (2 * SLOTS + 3) as u64;
    for i in 0..n {
        c.record_on_cpu(0, ev(i, 0));
    }
    let out = c.read_events();
    assert_eq!(out.len(), n as usize);
    assert!(out.iter().enumerate().all(|(i, e)| e.primary == i as u64));
    assert_eq!(c.take_dropped_count(), 0);
}

#[test]
fn no_event_is_lost_or_duplicated() {
    let mut c = RseqCollector::new(3, false);
    let mut expected = Vec::new();
    for i in 0..3000u64 {
        let cpu = (i * 7 % 5) as usize;
        let e = ev(i, cpu as u64);
        expected.push(e);
        if i % 11 == 0 {
            c.record(e);
        } else {
            c.record_on_cpu(cpu, e);
        }
    }
    let mut out = c.read_events();
    out.sort_by_key(|e| e.primary);
    assert_eq!(out, expected);
}

#[test]
fn pages_are_reused_after_reads() {
    let mut c = RseqCollector::new(0, false);
    for round in 0..3u64 {
        for i in 0..(SLOTS as u64 + 2) {
            c.record_on_cpu(0, ev(round * 100_000 + i, 0));
        }
        let out = c.read_events();
        assert_eq!(out.len(), SLOTS + 2);
        assert!(out.iter().enumerate().all(|(i, e)| e.primary == round * 100_000 + i as u64));
    }
}
