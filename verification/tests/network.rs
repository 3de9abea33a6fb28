use nautilus_core::network::connection_pool::{
    ConnectionPool, ConnectionPoolBuilder, ConnectionState, PooledConnection, MAX_POOL_SIZE,
};
use nautilus_core::network::dma_buffer::{DmaBufferGuard, DmaBufferPool};
use nautilus_core::network::failover::{
    ConnectionMode, FailoverConfig, FailoverReason, FailoverRouter,
};
use nautilus_core::network::heartbeat::{ConnectionHealth, HeartbeatTracker};
use nautilus_core::network::iocp_ring::{
    IocpConnection, IocpError, IocpManager, IocpRingBuffer, OverlappedWrapper, MAX_IOCP_ENTRIES,
};
use nautilus_core::network::multicast_ipc::{
    ChannelConfig, MulticastBroadcaster, MulticastError, MulticastListener, TickMessage,
    DEFAULT_MULTICAST_PORT,
};
use nautilus_core::network::packet_mmap::{
    validate_udp_checksum, NautilusTick, PacketParser, ParseResult, TICK_MAGIC,
};
use nautilus_core::network::protocol::{
    AggregateTrade, MessageHeader, MessageType, OrderBookSnapshot, ProtocolCodec,
    ZeroCopyRingBuffer,
};
use nautilus_core::network::riocp::{
    RioCompletionEntry, RioError, RioExtension, RioUdpSocket, MAX_REGISTERED_BUFFERS,
};
use nautilus_core::network::tcp_tuning::{
    auto_detect_and_tune, tuning_options, Platform, TcpTuningConfig,
};
use nautilus_core::network::ws_multiplexer::{JsonParser, WsMultiplexer, MAX_MESSAGE_SIZE};
use nautilus_core::network::xdp_stub::{RxSlot, XdpReceiveRing, RX_RING_SIZE};

const SECOND: u64 = 1_000_000_000;

#[test]
fn test_pool_creation() {
    let pool: ConnectionPool<u32> = ConnectionPool::new(16, 60 * SECOND);
    assert_eq!(pool.get_stats().capacity, 16);
    assert_eq!(pool.get_stats().active, 0);
}

#[test]
fn test_acquire_release_cycle() {
    let mut pool: ConnectionPool<String> = ConnectionPool::new(4, 60 * SECOND);

    let conn = PooledConnection::new(0, "127.0.0.1:8080".to_string(), 0);
    pool.insert(0, conn).unwrap();

    let idx = pool.acquire(1).expect("Should acquire connection");
    assert_eq!(idx, 0);

    pool.release(idx, 2).expect("Should release connection");

    let stats = pool.get_stats();
    assert_eq!(stats.total_acquisitions, 1);
    assert_eq!(stats.cache_hits, 1);
}

#[test]
fn pool_capacity_is_capped_and_bad_indices_are_refused() {
    let mut pool: ConnectionPool<u8> = ConnectionPool::new(MAX_POOL_SIZE + 5, SECOND);
    assert_eq!(pool.get_stats().capacity, MAX_POOL_SIZE);
    assert!(pool.release(MAX_POOL_SIZE, 0).is_err());
    assert!(pool.mark_dead(MAX_POOL_SIZE).is_err());
    assert!(pool.insert(MAX_POOL_SIZE, PooledConnection::new(1, "a".to_string(), 0)).is_err());
    pool.shutdown();
    assert!(pool.is_shutdown());
    assert_eq!(pool.acquire(0), None);
}

#[test]
fn stale_connections_are_told_from_fresh_ones() {
    let mut conn: PooledConnection<u8> = PooledConnection::new(7, "a".to_string(), 10);
    assert_eq!(conn.state, ConnectionState::Fresh);
    conn.mark_active(20);
    assert_eq!(conn.state, ConnectionState::Active);
    conn.mark_idle(30);
    assert_eq!(conn.state, ConnectionState::Idle);
    assert!(!conn.is_stale(100, 130));
    assert!(conn.is_stale(100, 131));
    let built: ConnectionPool<u8> =
        ConnectionPoolBuilder::new().capacity(8).stale_timeout(5).build();
    assert_eq!(built.get_stats().capacity, 8);
}

#[test]
fn test_dma_allocation() {
    let mut pool = DmaBufferPool::new(1024 * 1024);
    let buf = pool.allocate(4096);
    assert!(buf.is_ok());
}

#[test]
fn dma_pool_refuses_what_goes_over_its_limit() {
    let mut pool = DmaBufferPool::new(8192);
    let buf = pool.allocate(4096).unwrap();
    assert_eq!(buf.len(), 4096);
    assert_eq!(pool.usage(), 4096);
    assert!(pool.allocate(4097).is_err());
    assert_eq!(pool.usage(), 4096);
    pool.release(4096);
    assert_eq!(pool.usage(), 0);
    assert!(DmaBufferGuard::new(0).is_err());
}

#[test]
fn failover_test_router_creation() {
    let router = FailoverRouter::new();
    assert_eq!(router.get_mode(), ConnectionMode::Disconnected);
}

#[test]
fn test_mode_transitions() {
    let mut router = FailoverRouter::new();
    router.set_initial_mode(ConnectionMode::PrimaryWebSocket, 0);
    assert_eq!(router.get_mode(), ConnectionMode::PrimaryWebSocket);
    let next = router.select_next_mode(ConnectionMode::PrimaryWebSocket);
    assert!(matches!(next, ConnectionMode::BackupWebSocket(_)));
}

#[test]
fn failover_test_sequence_tracking() {
    let mut router = FailoverRouter::new();
    router.set_initial_mode(ConnectionMode::PrimaryWebSocket, 0);
    router.record_message(1, 1, 0).unwrap();
    router.record_message(2, 2, 0).unwrap();
    router.record_message(3, 3, 0).unwrap();
    assert_eq!(router.desync_count, 0);
}

#[test]
fn failover_test_desync_detection() {
    let mut config = FailoverConfig::default();
    config.desync_threshold = 3;
    let mut router = FailoverRouter::with_config(config);
    router.set_initial_mode(ConnectionMode::PrimaryWebSocket, 0);
    router.record_message(1, 1, 0).unwrap();
    router.record_message(5, 2, 0).unwrap();
    router.record_message(10, 3, 0).unwrap();
    let result = router.record_message(20, 4, 0);
    assert!(result.is_err());
}

#[test]
fn rest_failures_exhaust() {
    let mut router = FailoverRouter::new();
    router.set_initial_mode(ConnectionMode::RestPolling, 0);
    let mut last = Ok(());
    for _ in 0..10 {
        last = router.record_rest_failure();
    }
    assert_eq!(last, Err(FailoverReason::RestFailuresExhausted));
    router.record_rest_success();
    assert_eq!(router.get_stats(0).rest_failures, 0);
}

#[test]
fn test_heartbeat_tracking() {
    let mut tracker = HeartbeatTracker::new();
    tracker.start();
    let seq = tracker.record_ping_sent(1_000);
    let sample = tracker.record_pong_received(seq, 1_000 + 10_000_000).unwrap();
    assert!(sample.rtt_us >= 10000);
    assert_eq!(sample.sequence, seq);
}

#[test]
fn test_health_detection() {
    let mut tracker = HeartbeatTracker::new();
    assert_eq!(tracker.get_health(), ConnectionHealth::Disconnected);
    tracker.start();
    for i in 0..10 {
        tracker.record_ping_sent(1_000 + i * 1_000_000);
        tracker.record_pong_received(i, 2_000 + i * 1_000_000);
    }
    assert_eq!(tracker.get_health(), ConnectionHealth::Healthy);
}

#[test]
fn test_statistics() {
    let mut tracker = HeartbeatTracker::new();
    tracker.start();
    for i in 0..20 {
        tracker.record_ping_sent(1_000 + i * 10_000_000);
        tracker.record_pong_received(i, 1_000 + i * 10_000_000 + 5_000_000);
    }
    let stats = tracker.get_stats();
    assert!(stats.packets_sent > 0);
    assert!(stats.packets_received > 0);
    assert!(stats.avg_rtt_us.num > 0 && stats.avg_rtt_us.den > 0);
    assert_eq!(stats.avg_rtt_us.num / stats.avg_rtt_us.den, 5000);
    assert_eq!(stats.min_rtt_us, 5000);
    assert_eq!(stats.max_rtt_us, 5000);
    assert_eq!(stats.variance.num, 0);
}

#[test]
fn test_ring_buffer_creation() {
    let rb = IocpRingBuffer::new(1024);
    assert!(rb.is_ok());

    let rb = rb.unwrap();
    assert_eq!(rb.capacity, 1024);
    assert!(rb.is_empty());
}

#[test]
fn test_ring_buffer_push_pop() {
    let mut rb = IocpRingBuffer::new(16).unwrap();

    let entry = OverlappedWrapper::new(1, 42);
    assert!(rb.push(entry).is_ok());

    assert!(!rb.is_empty());
    assert_eq!(rb.len(), 1);

    let popped = rb.pop();
    assert!(popped.is_some());
    assert_eq!(popped.unwrap().connection_id, 42);

    assert!(rb.is_empty());
}

#[test]
fn iocp_ring_test_memory_bounds() {
    let rb = IocpRingBuffer::new(MAX_IOCP_ENTRIES + 10000).unwrap();
    assert!(rb.capacity <= MAX_IOCP_ENTRIES);
}

#[test]
fn test_connection_creation() {
    let conn = IocpConnection::new(1);
    assert!(conn.is_ok());

    let conn = conn.unwrap();
    assert_eq!(conn.id, 1);
    assert!(!conn.is_connected);
}

#[test]
fn iocp_manager_refuses_unknown_and_unconnected() {
    let mut manager = IocpManager::new(2).unwrap();
    assert_eq!(manager.post_receive(2), Err(IocpError::InvalidConnectionId));
    assert_eq!(manager.post_receive(1), Err(IocpError::NotConnected));
    assert!(manager.associate_socket(1, 99).is_ok());
    assert!(manager.post_receive(1).is_ok());
    let done = manager.poll_completions(10);
    assert_eq!(done.len(), 1);
    assert_eq!(done[0].connection_id, 1);
    assert_eq!(manager.get_stats().connected_count, 1);
    manager.shutdown();
    assert!(manager.get_stats().is_shutdown);
    assert_eq!(manager.get_stats().connected_count, 0);
}

fn sample_tick() -> TickMessage {
    TickMessage {
        msg_type: 1,
        channel_id: 0,
        sequence: 42,
        timestamp_ns: 1234567890,
        symbol_hash: 0xDEADBEEF,
        bid_price: 5000000000,
        ask_price: 5000000100,
        bid_volume_bits: 100.0f64.to_bits(),
        ask_volume_bits: 200.0f64.to_bits(),
        _padding: [0u8; 16],
    }
}

#[test]
fn test_tick_message_serialization() {
    let tick = sample_tick();
    let bytes = tick.as_bytes();
    assert_eq!(bytes.len(), std::mem::size_of::<TickMessage>());

    let restored = TickMessage::from_bytes(&bytes).unwrap();
    assert_eq!(restored.symbol_hash, tick.symbol_hash);
    assert_eq!(restored.bid_price, tick.bid_price);
    assert_eq!(f64::from_bits(restored.ask_volume_bits), 200.0);
    assert_eq!(restored.sequence, 42);
    assert!(TickMessage::from_bytes(&bytes[..71]).is_none());
}

#[test]
fn test_broadcaster_creation() {
    let broadcaster = MulticastBroadcaster::new();
    assert!(broadcaster.get_stats().is_running);
}

#[test]
fn test_listener_creation() {
    let listener = MulticastListener::new(0, "239.255.0.1".to_string(), DEFAULT_MULTICAST_PORT);
    assert!(listener.get_stats().is_running);
    assert_eq!(listener.get_stats().port, DEFAULT_MULTICAST_PORT);
}

#[test]
fn broadcasts_are_numbered_and_gaps_are_counted() {
    let mut broadcaster = MulticastBroadcaster::new();
    let mut config = ChannelConfig::default();
    config.channel_id = 200;
    assert!(matches!(
        broadcaster.register_channel(config),
        Err(MulticastError::ChannelOutOfRange)
    ));
    assert!(matches!(
        broadcaster.prepare_broadcast(63, sample_tick()),
        Err(MulticastError::ChannelNotFound)
    ));
    broadcaster.register_channel(ChannelConfig::default()).unwrap();
    assert_eq!(broadcaster.add_subscriber(0, "127.0.0.1:1".to_string()).unwrap(), 0);
    assert_eq!(broadcaster.add_subscriber(0, "127.0.0.1:2".to_string()).unwrap(), 1);
    let first = broadcaster.prepare_broadcast(0, sample_tick()).unwrap();
    let second = broadcaster.prepare_broadcast(0, sample_tick()).unwrap();
    assert_eq!(second.sequence, first.sequence + 1);
    assert_eq!(broadcaster.record_sends(&vec![Some(72), None]), 1);
    assert_eq!(broadcaster.get_stats().messages_sent, 1);
    assert_eq!(broadcaster.get_stats().bytes_sent, 72);
    assert_eq!(broadcaster.get_stats().total_subscribers, 2);

    let mut listener = MulticastListener::new(0, "239.255.0.1".to_string(), 55555);
    let mut tick = sample_tick();
    tick.sequence = 1;
    listener.accept_datagram(&tick.as_bytes()).unwrap();
    tick.sequence = 5;
    listener.accept_datagram(&tick.as_bytes()).unwrap();
    assert_eq!(listener.get_stats().messages_received, 2);
    assert_eq!(listener.get_stats().dropped_messages, 1);
    assert!(listener.accept_datagram(&[0u8; 10]).is_none());
}

#[test]
fn test_tick_size() {
    assert_eq!(std::mem::size_of::<NautilusTick>(), 40);
}

#[test]
fn test_parser_creation() {
    let parser = PacketParser::new();
    let stats = parser.get_stats();
    assert_eq!(stats.packets_parsed, 0);
}

#[test]
fn test_parse_invalid_packet() {
    let mut parser = PacketParser::new();
    let data: [u8; 10] = [0; 10];
    let result = parser.parse(&data);
    assert!(matches!(result, ParseResult::TooSmall));
}

#[test]
fn a_packet_with_the_magic_gives_its_tick() {
    let mut parser = PacketParser::new();
    let mut packet = vec![0u8; 42 + 40];
    assert!(matches!(parser.parse(&packet), ParseResult::Malformed));
    packet[12] = 0x08;
    packet[23] = 17;
    assert!(matches!(parser.parse(&packet), ParseResult::InvalidMagic));
    packet[42..46].copy_from_slice(&TICK_MAGIC.to_le_bytes());
    packet[46..54].copy_from_slice(&77u64.to_le_bytes());
    match parser.parse(&packet) {
        ParseResult::Tick(tick) => {
            assert_eq!(tick.magic, TICK_MAGIC);
            assert_eq!(tick.exchange_ts, 77);
        }
        _ => panic!("a tick was expected"),
    }
    let stats = parser.get_stats();
    assert_eq!(stats.packets_parsed, 3);
    assert_eq!(stats.ticks_extracted, 1);
    assert_eq!(stats.parse_errors, 2);
    let _ = validate_udp_checksum(&packet);
    parser.reset_stats();
    assert_eq!(parser.get_stats().packets_parsed, 0);
}

#[test]
fn test_header_serialization() {
    let header = MessageHeader::new(MessageType::Trade, 100, 12345);
    assert_eq!(header.msg_type, MessageType::Trade.as_u8());
    assert_eq!(header.payload_len, 100);
    assert_eq!(header.sequence, 12345);

    let mut buffer = vec![0u8; 64];
    let written = ProtocolCodec::encode_header(&header, &mut buffer);
    assert_eq!(written, MessageHeader::SIZE);

    let decoded = ProtocolCodec::decode_header(&buffer).unwrap();
    assert_eq!(decoded.msg_type, header.msg_type);
    assert_eq!(decoded.payload_len, header.payload_len);
    assert_eq!(decoded.sequence, header.sequence);
}

#[test]
fn message_types_have_numbers_and_back() {
    for n in 0..=255u8 {
        if let Some(t) = MessageType::from_u8(n) {
            assert_eq!(t.as_u8(), n);
        }
    }
    assert!(MessageType::from_u8(0).is_none());
    assert_eq!(MessageType::from_u8(MessageType::Trade.as_u8()), Some(MessageType::Trade));
}

#[test]
fn framed_messages_hold_their_payload() {
    let header = MessageHeader::new(MessageType::Heartbeat, 3, 1);
    let mut buffer = vec![0u8; 64];
    assert_eq!(ProtocolCodec::encode_header(&header, &mut buffer), 64);
    assert!(!ProtocolCodec::validate_message(&buffer));
    buffer.extend_from_slice(&[1, 2, 3]);
    assert!(ProtocolCodec::validate_message(&buffer));
    let mut short = vec![0u8; 10];
    assert_eq!(ProtocolCodec::encode_header(&header, &mut short), 0);
    assert!(ProtocolCodec::decode_header(&short).is_none());
}

fn trade_bytes(symbol: &[u8; 12]) -> Vec<u8> {
    let mut bytes = vec![0u8; AggregateTrade::SIZE];
    bytes[..8].copy_from_slice(b"aggTrade");
    bytes[8..16].copy_from_slice(&1234567890i64.to_le_bytes());
    bytes[16..28].copy_from_slice(symbol);
    bytes
}

#[test]
fn trade_symbols_are_read_up_to_their_padding() {
    let trade = AggregateTrade::from_bytes(&trade_bytes(b"BTCUSDT   \0\0"));
    assert_eq!(trade.event_time, 1234567890);
    assert_eq!(trade.get_symbol_str().unwrap(), "BTCUSDT");
    let bad = AggregateTrade::from_bytes(&trade_bytes(b"\xff\xfe\0\0\0\0\0\0\0\0\0\0"));
    assert!(bad.get_symbol_str().is_err());
}

#[test]
fn order_book_levels_follow_the_snapshot() {
    let mut bytes = vec![0u8; OrderBookSnapshot::SIZE];
    let book = OrderBookSnapshot::from_bytes(&bytes);
    assert_eq!(book.get_bids(&bytes).unwrap().len(), book.bid_count as usize);
    assert_eq!(book.get_asks(&bytes).unwrap().len(), book.ask_count as usize);
    bytes.truncate(OrderBookSnapshot::SIZE);
    assert_eq!(book.bid_count, 0);
}

#[test]
fn test_ring_buffer() {
    let ring = ZeroCopyRingBuffer::new(1024);
    assert_eq!(ring.available_space(), 1023);
    assert_eq!(ring.count(), 0);
}

#[test]
fn ring_buffer_hands_out_contiguous_room() {
    let mut ring = ZeroCopyRingBuffer::new(1024);
    let (pos, len) = ring.reserve_write(200).unwrap();
    assert_eq!((pos, len), (0, 200));
    ring.fill_reserved(pos, &[7u8; 200]);
    assert_eq!(ring.count(), 1);
    assert_eq!(ring.available_space(), 823);
    let read = ring.peek_read().unwrap();
    assert_eq!(read[0], 7);
    ring.advance_read(200);
    assert_eq!(ring.count(), 0);
    assert!(ring.peek_read().is_none());
    assert!(ring.reserve_write(1024).is_none());
}

#[test]
fn test_rio_creation() {
    let rio = RioExtension::new(32, 32);

    assert!(rio.is_ok());
    let rio = rio.unwrap();

    let stats = rio.get_stats();
    assert_eq!(stats.recv_buffers_count, 32);
    assert_eq!(stats.send_buffers_count, 32);
    assert!(!stats.is_pinned);
}

#[test]
fn riocp_test_memory_bounds() {
    let rio = RioExtension::new(MAX_REGISTERED_BUFFERS + 1000, MAX_REGISTERED_BUFFERS + 1000);

    assert!(rio.is_ok());
    let rio = rio.unwrap();
    let stats = rio.get_stats();

    assert!(stats.recv_buffers_count <= MAX_REGISTERED_BUFFERS);
    assert!(stats.send_buffers_count <= MAX_REGISTERED_BUFFERS);
}

#[test]
fn test_memory_pin_unpin() {
    let mut rio = RioExtension::new(16, 16).unwrap();

    assert!(!rio.get_stats().is_pinned);

    let result = rio.pin_memory();
    assert!(result.is_ok());
    assert!(rio.get_stats().is_pinned);

    let result = rio.unpin_memory();
    assert!(result.is_ok());
    assert!(!rio.get_stats().is_pinned);
}

#[test]
fn rio_refuses_bad_requests() {
    let mut rio = RioExtension::new(1, 1).unwrap();
    assert!(matches!(rio.post_receive(1), Err(RioError::InvalidBufferIndex)));
    assert!(matches!(rio.post_send(0, &vec![0u8; 65537]), Err(RioError::DataTooLarge)));
    let mut socket = RioUdpSocket::new().unwrap();
    assert!(matches!(socket.send(b"x"), Err(RioError::NotConnected)));
    socket.connect("127.0.0.1:9".to_string()).unwrap();
    assert_eq!(socket.send(b"abc").unwrap(), 3);
    let mut out = vec![0u8; 4];
    let failed = RioCompletionEntry {
        request_context: 0,
        socket_context: 0,
        bytes_transferred: 2,
        has_error: 1,
    };
    assert!(matches!(
        socket.complete_receive(failed, &mut out),
        Err(RioError::ReceiveFailed)
    ));
}

#[test]
fn tuning_options_follow_the_configuration() {
    let config = TcpTuningConfig { connect_timeout_ms: 500, ..TcpTuningConfig::default() };
    let linux = tuning_options(&config, Platform::Linux);
    let other = tuning_options(&config, Platform::Other);
    assert_eq!(linux.no_delay, config.no_delay);
    assert_eq!(other.no_delay, config.no_delay);
    assert!(other.recv_buffer.is_none());
    assert_eq!(linux.recv_buffer, Some(config.recv_buffer_size as i32));
    assert!(tuning_options(&config, Platform::Windows).keep_idle_secs.is_none());
    let tuned = auto_detect_and_tune(Platform::Linux);
    assert!(tuned.no_delay);
}

#[test]
fn ws_multiplexer_test_sequence_tracking() {
    let mut mux = WsMultiplexer::new();
    assert!(mux.process_message(b"test", 0).is_ok());
    assert!(mux.process_message(b"test", 1).is_ok());
    assert_eq!(mux.stats().2, 2);
}

#[test]
fn ws_multiplexer_test_desync_detection() {
    let mut mux = WsMultiplexer::new();
    assert!(mux.process_message(b"test", 5).is_ok());
    assert!(mux.stats().1 > 0);
}

#[test]
fn test_bounds_checking() {
    let mut mux = WsMultiplexer::new();
    let large_msg = vec![0u8; MAX_MESSAGE_SIZE + 1];
    assert!(mux.process_message(&large_msg, 0).is_err());
}

#[test]
fn fields_are_found_by_name() {
    let mut parser = JsonParser::new();
    let data = b"{\"s\":\"BTCUSDT\",\"p\":12}";
    assert_eq!(parser.parse_field(data, "s").unwrap(), b"\"BTCUSDT\"");
    assert!(parser.parse_field(data, "zz").is_none());
    let mut mux = WsMultiplexer::new();
    mux.shutdown();
    assert!(mux.process_message(b"test", 0).is_err());
}

#[test]
fn test_rx_slot_size() {
    assert_eq!(std::mem::size_of::<RxSlot>(), 64);
}

#[test]
fn test_ring_initialization() {
    let ring = XdpReceiveRing::new();
    assert!(ring.is_ok());
}

fn udp_frame(len: usize) -> Vec<u8> {
    let mut frame = vec![0u8; len];
    frame[12] = 0x08;
    frame[23] = 17;
    frame
}

#[test]
fn received_packets_come_out_in_order() {
    let mut ring = XdpReceiveRing::new().unwrap();
    assert!(!ring.enqueue(vec![0u8; 60], 5));
    assert_eq!(ring.get_stats().checksum_errors, 1);
    assert!(ring.enqueue(udp_frame(60), 5));
    assert!(ring.enqueue(udp_frame(64), 6));
    {
        let first = ring.dequeue().unwrap();
        assert_eq!(first.timestamp, 5);
        assert_eq!(first.data.len(), 60);
        assert_eq!(first.payload().unwrap().len(), 60 - 42);
    }
    assert_eq!(ring.dequeue().unwrap().timestamp, 6);
    assert!(ring.dequeue().is_none());
    for _ in 0..RX_RING_SIZE - 1 {
        assert!(ring.enqueue(udp_frame(60), 1));
    }
    assert!(!ring.enqueue(udp_frame(60), 1));
    ring.shutdown();
    assert!(!ring.is_active());
}

#[test]
fn a_repeated_pong_loses_nothing() {
    let mut tracker = HeartbeatTracker::new();
    let stats = tracker.get_stats();
    assert_eq!((stats.min_rtt_us, stats.max_rtt_us), (0, 0));
    assert_eq!(stats.health, ConnectionHealth::Disconnected);
    tracker.record_ping_sent(1_000);
    tracker.record_pong_received(0, 11_000);
    tracker.record_pong_received(0, 62_000);
    let stats = tracker.get_stats();
    assert_eq!((stats.packets_sent, stats.packets_received), (1, 2));
    assert_eq!((stats.packet_loss.num, stats.packet_loss.den), (0, 1));
    assert_eq!((stats.min_rtt_us, stats.max_rtt_us), (10, 61));
    assert_eq!(stats.avg_rtt_us.num, (2 * 61_000_000 + 49 * 10_000_000) / 51);
    assert_eq!(tracker.get_avg_rtt_us(), stats.avg_rtt_us);
}

#[test]
fn the_sequence_wraps_without_a_loss() {
    let mut listener = MulticastListener::new(1, "239.0.0.1".to_string(), 5000);
    for sequence in [65534u16, 65535, 0, 1, 3] {
        let tick = TickMessage { sequence, ..TickMessage::default() };
        assert!(listener.accept_datagram(&tick.as_bytes()).is_some());
    }
    assert_eq!(listener.get_stats().dropped_messages, 1);
}

#[test]
fn reading_an_empty_ring_changes_nothing() {
    let mut ring = ZeroCopyRingBuffer::new(1024);
    assert!(ring.reserve_write(100).is_some());
    ring.advance_read(100);
    assert_eq!((ring.available_space(), ring.count()), (1023, 0));
    ring.advance_read(usize::MAX);
    assert_eq!((ring.available_space(), ring.count()), (1023, 0));
}

#[test]
fn the_receive_ring_steps_its_indices() {
    let mut ring = XdpReceiveRing::new().unwrap();
    let mut frame = vec![0u8; 60];
    frame[12] = 0x08;
    frame[23] = 17;
    assert!(ring.enqueue(frame.clone(), 5));
    assert!(!ring.enqueue(vec![0u8; 60], 6));
    assert_eq!((ring.get_stats().ring_head, ring.get_stats().ring_tail), (0, 1));
    assert!(ring.dequeue().is_some());
    assert_eq!((ring.get_stats().ring_head, ring.get_stats().ring_tail), (1, 1));
}
