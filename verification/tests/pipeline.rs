use nautilus_core::pipeline::backpressure::{
    make_telemetry, BackpressureBuffer, TelemetryPriority, MAX_TELEMETRY_BUFFER,
};
use nautilus_core::pipeline::stream_join::{
    EventType, StreamBuffer, StreamJoinEngine, TemporalEvent, MAX_EVENTS_PER_STREAM, MAX_STREAMS,
};

#[test]
fn test_buffer_push_pop() {
    let mut buffer = BackpressureBuffer::new(70, 80, 90, 95);

    let event = make_telemetry(1, 12345, TelemetryPriority::Medium, b"test data", 0);
    assert!(buffer.push(event, 0).unwrap());

    let popped = buffer.pop();
    assert!(popped.is_some());
    assert_eq!(popped.unwrap().event_type, 1);
}

#[test]
fn test_backpressure_dropping() {
    let mut buffer = BackpressureBuffer::new(50, 60, 80, 90);

    for i in 0..MAX_TELEMETRY_BUFFER * 70 / 100 {
        let event = make_telemetry(i as u64, 1, TelemetryPriority::Low, b"low", 0);
        let _ = buffer.push(event, 0);
    }

    let med_event = make_telemetry(999, 1, TelemetryPriority::Medium, b"med", 0);
    let result = buffer.push(med_event, 0);
    assert!(!result.unwrap());

    let crit_event = make_telemetry(999, 1, TelemetryPriority::Critical, b"crit", 0);
    assert!(buffer.push(crit_event, 0).is_ok());

    let drained = buffer.emergency_drain();
    assert!(drained > 0);
    let kept = buffer.pop().unwrap();
    assert_eq!(kept.event_type, 999);
    assert_eq!(kept.priority, TelemetryPriority::Critical);
    assert!(buffer.pop().is_none());
}

#[test]
fn backpressure_test_ram_limits() {
    assert!(MAX_TELEMETRY_BUFFER > 0);
    assert!(MAX_TELEMETRY_BUFFER <= 8 * 1024 * 1024);
}

#[test]
fn payloads_are_cut_to_their_room() {
    let short = make_telemetry(1, 2, TelemetryPriority::High, b"abc", 7);
    assert_eq!(short.payload_len, 3);
    assert_eq!(&short.payload[..3], b"abc");
    assert_eq!(short.timestamp_ns, 7);
    let long = make_telemetry(1, 2, TelemetryPriority::High, &[9u8; 100], 7);
    assert_eq!(long.payload_len, 48);
}

#[test]
fn logged_lines_are_handed_out_once() {
    let mut buffer = BackpressureBuffer::new(50, 60, 80, 90);
    assert!(buffer.take_log_lines().is_empty());
    buffer.open_log();
    assert!(buffer.take_log_lines().is_empty());
    assert!(!buffer.is_backpressure_active());
    assert_eq!(buffer.get_utilization_pct(), 0);
    assert_eq!(buffer.get_stats().total_received, 0);
}

#[test]
fn test_stream_buffer_push_pop() {
    let mut buffer = StreamBuffer::default();
    let event = TemporalEvent { timestamp_ns: 1000, watermark_ns: 900, ..TemporalEvent::default() };

    assert!(buffer.push(event));
    assert_eq!(buffer.pending_count(), 1);

    let popped = buffer.pop_with_watermark(1100);
    assert!(popped.is_some());
    assert_eq!(popped.unwrap().timestamp_ns, 1000);
}

#[test]
fn test_stream_join_engine() {
    let mut engine = StreamJoinEngine::new(100);

    let event1 = TemporalEvent {
        timestamp_ns: 1000,
        watermark_ns: 900,
        event_type: EventType::Tick,
        ..TemporalEvent::default()
    };

    let event2 = TemporalEvent {
        timestamp_ns: 1001,
        watermark_ns: 900,
        event_type: EventType::Trade,
        ..TemporalEvent::default()
    };

    assert!(engine.ingest(0, event1));
    assert!(engine.ingest(1, event2));

    engine.advance_watermark(0, 1100);
    engine.advance_watermark(1, 1100);

    let joined = engine.join(1200);
    assert!(!joined.is_empty());
    assert_eq!(joined[0][0].timestamp_ns, 1000);
    assert_eq!(joined[0][1].timestamp_ns, 1001);
    assert_eq!(engine.stats().0, 1);
}

#[test]
fn stream_join_test_ram_limits() {
    assert!(MAX_EVENTS_PER_STREAM > 0);
    assert!(MAX_EVENTS_PER_STREAM <= 2 * 1024 * 1024);
    assert!(MAX_STREAMS <= 32);
}

#[test]
fn unknown_streams_are_refused_and_watermarks_hold_events_back() {
    let mut engine = StreamJoinEngine::new(100);
    assert!(!engine.ingest(MAX_STREAMS, TemporalEvent::default()));
    let mut buffer = StreamBuffer::default();
    let event = TemporalEvent { timestamp_ns: 1000, ..TemporalEvent::default() };
    assert!(buffer.push(event));
    assert!(buffer.pop_with_watermark(999).is_none());
    buffer.update_watermark(5);
    assert_eq!(buffer.get_watermark(), 5);
    assert!(!engine.needs_backpressure(50));
}

#[test]
fn a_blocked_round_takes_nothing() {
    let at = |timestamp_ns: u64| TemporalEvent { timestamp_ns, ..TemporalEvent::default() };
    let mut engine = StreamJoinEngine::new(100);
    engine.ingest(0, at(1000));
    engine.ingest(0, at(1002));
    engine.ingest(1, at(1001));
    engine.advance_watermark(0, 1100);
    engine.advance_watermark(1, 1100);
    assert_eq!(engine.join(0).len(), 1);
    assert_eq!(engine.stats().3[0], 1);
    engine.ingest(1, at(1003));
    let joined = engine.join(0);
    assert_eq!(joined.len(), 1);
    assert_eq!((joined[0][0].timestamp_ns, joined[0][1].timestamp_ns), (1002, 1003));
}

#[test]
fn joins_keep_the_order_of_every_stream() {
    let event = |timestamp_ns: u64, sequence: u64| TemporalEvent {
        timestamp_ns,
        sequence,
        ..TemporalEvent::default()
    };
    let mut engine = StreamJoinEngine::new(0);
    engine.advance_watermark(2, 900);
    engine.advance_watermark(5, 700);
    let times = [(100, 100), (150, 90), (80, 80), (500, 500)];
    for (k, (a, b)) in times.iter().enumerate() {
        engine.ingest(2, event(*a, k as u64));
        engine.ingest(5, event(*b, k as u64));
    }
    let first = engine.join(0);
    assert_eq!(engine.stats().2, 700);
    engine.ingest(2, event(600, 4));
    engine.ingest(5, event(600, 4));
    let second = engine.join(0);
    let order: Vec<u64> = first.iter().chain(second.iter()).map(|t| t[2].sequence).collect();
    assert_eq!(order, vec![0, 2, 3, 4]);
    let order: Vec<u64> = first.iter().chain(second.iter()).map(|t| t[5].sequence).collect();
    assert_eq!(order, vec![0, 2, 3, 4]);
    assert_eq!(engine.stats().0, 4);
}
