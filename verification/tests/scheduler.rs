use turbotransfer_core::manifest::schema::TransferStatus;
use turbotransfer_core::scheduler::metrics::{RollingWindowTracker, ThroughputTracker};
use turbotransfer_core::scheduler::multipath::{DispatchDecision, MultipathScheduler, SchedulerConfig};
use turbotransfer_core::scheduler::tracker::{ChannelState, ChannelTracker};
use turbotransfer_core::scheduler::window::{WindowController, WindowSignals};
use turbotransfer_core::transport::TransportKind;

fn config() -> SchedulerConfig {
    let mut c = SchedulerConfig::default();
    c.max_in_flight_per_transport = 2;
    c
}

#[test]
fn scheduler_config_defaults() {
    let c = SchedulerConfig::default();
    assert_eq!(c.max_in_flight_per_transport, 4);
    assert_eq!(c.buffer_count, 8);
    assert_eq!(c.chunk_size, 64 * 1024 * 1024);
    assert!(!c.enable_dynamic_scheduler);
}

#[test]
fn scheduler_dispatches_in_order_up_to_capacity() {
    let mut s = MultipathScheduler::new(1, 2, 5000, 1000, config(), vec![1]);
    assert_eq!(s.total_chunks(), 5);
    assert_eq!(s.completed_chunks(), 1);
    assert_eq!(s.get_status(), TransferStatus::InProgress);
    assert_eq!(s.next_dispatch(TransportKind::Usb, 10), DispatchDecision::Dispatch(0));
    assert_eq!(s.next_dispatch(TransportKind::Usb, 11), DispatchDecision::Dispatch(2));
    assert_eq!(s.next_dispatch(TransportKind::Usb, 12), DispatchDecision::AtCapacity);
    assert_eq!(s.next_dispatch(TransportKind::WifiDirect, 13), DispatchDecision::Dispatch(3));
    assert_eq!(s.next_dispatch(TransportKind::WifiDirect, 14), DispatchDecision::Dispatch(4));
    assert_eq!(s.next_dispatch(TransportKind::Tcp, 15), DispatchDecision::NoPending);
}

#[test]
fn scheduler_ack_nack_and_disconnect() {
    let mut s = MultipathScheduler::new(1, 2, 4000, 1000, config(), vec![]);
    assert_eq!(s.next_dispatch(TransportKind::Usb, 1), DispatchDecision::Dispatch(0));
    assert_eq!(s.next_dispatch(TransportKind::Usb, 1), DispatchDecision::Dispatch(1));
    assert_eq!(s.next_dispatch(TransportKind::WifiDirect, 1), DispatchDecision::Dispatch(2));
    assert!(s.handle_chunk_ack(0, TransportKind::Usb, 1000, 5));
    assert!(!s.handle_chunk_ack(0, TransportKind::Usb, 1000, 6));
    assert_eq!(s.completed_chunks(), 1);
    s.handle_chunk_nack(2, TransportKind::WifiDirect);
    assert_eq!(s.metrics().stats_snapshot(), (1000, 0, 1, 0, 1));
    assert_eq!(s.next_dispatch(TransportKind::WifiDirect, 2), DispatchDecision::Dispatch(2));
    s.requeue_transport_in_flight(TransportKind::Usb);
    let mut ids = s.in_flight_ids_of(TransportKind::Usb);
    assert!(ids.is_empty());
    assert_eq!(s.next_dispatch(TransportKind::Usb, 3), DispatchDecision::Dispatch(1));
    ids = s.in_flight_ids_of(TransportKind::Usb);
    assert_eq!(ids, vec![1]);
    assert!(s.handle_chunk_ack(1, TransportKind::Usb, 1000, 7));
    assert!(s.handle_chunk_ack(2, TransportKind::WifiDirect, 1000, 8));
    assert!(!s.is_complete());
    assert_eq!(s.next_dispatch(TransportKind::Usb, 4), DispatchDecision::Dispatch(3));
    assert!(s.handle_chunk_ack(3, TransportKind::Tcp, 1000, 9));
    assert!(s.is_complete());
    assert_eq!(s.metrics().stats_snapshot(), (2000, 1000, 1, 0, 1));
    s.mark_completed();
    assert_eq!(s.get_status(), TransferStatus::Completed);
}

#[test]
fn scheduler_pause_resume_cancel() {
    let mut s = MultipathScheduler::new(1, 2, 10, 0, config(), vec![]);
    assert_eq!(s.total_chunks(), 0);
    assert!(s.is_complete());
    s.pause();
    assert_eq!(s.get_status(), TransferStatus::Paused);
    s.resume();
    assert_eq!(s.get_status(), TransferStatus::InProgress);
    s.cancel();
    assert!(s.cancelled());
    assert_eq!(s.get_status(), TransferStatus::Cancelled);
}

#[test]
fn channel_tracker_lifecycle() {
    let mut t = ChannelTracker::new("USB".to_string(), 0);
    assert_eq!(t.state, ChannelState::Unknown);
    t.record_chunk_sent(1, 100, 10);
    t.record_chunk_sent(2, 200, 20);
    assert_eq!(t.state, ChannelState::WarmingUp);
    assert_eq!(t.in_flight_count(), 2);
    assert_eq!(t.in_flight_bytes(), 300);
    let s = t.record_chunk_ack(1, 100, 5_000, 1_000, Some(200), 1_000).unwrap();
    assert_eq!(s.chunk_id, 1);
    assert_eq!(s.ack_residual_us, 4_800);
    assert_eq!(t.in_flight_count(), 1);
    assert_eq!(t.in_flight_bytes(), 200);
    t.record_chunk_nack(2, 200, "bad", 2_000);
    assert_eq!(t.total_chunks_nacked, 1);
    assert_eq!(t.in_flight_count(), 0);
    assert_eq!(t.in_flight_bytes(), 0);
    t.record_chunk_sent(3, 10, 3_000);
    t.record_disconnect("eof", 4_000);
    assert_eq!(t.disconnect_count, 1);
    assert_eq!(t.in_flight_count(), 0);
    assert_eq!(t.recent_samples().len(), 1);
}

#[test]
fn channel_tracker_becomes_active_after_three_acks() {
    let mut t = ChannelTracker::new("Wi-Fi".to_string(), 0);
    for i in 0..3u32 {
        t.record_chunk_sent(i, 10, 100 * i as u64);
        t.record_chunk_ack(i, 10, 1_000, 100, None, 100 * i as u64 + 50);
    }
    assert_eq!(t.state, ChannelState::Active);
    assert_eq!(t.total_chunks_acked, 3);
}

#[test]
fn rolling_window_prunes_old_samples() {
    let mut w = RollingWindowTracker::new(1_000);
    w.record_bytes(100, 0);
    w.record_bytes(50, 500);
    assert_eq!(w.total_bytes_in_window(), 150);
    assert_eq!(w.oldest_timestamp_us(), Some(0));
    w.record_bytes(25, 1_400);
    assert_eq!(w.total_bytes_in_window(), 75);
    assert_eq!(w.oldest_timestamp_us(), Some(500));
    assert_eq!(w.window_duration_us(), 1_000);
}

#[test]
fn throughput_totals_per_transport() {
    let mut t = ThroughputTracker::default();
    t.record_transport_bytes(TransportKind::Usb, 10, 1);
    t.record_transport_bytes(TransportKind::WifiDirect, 20, 2);
    t.record_transport_bytes(TransportKind::Tcp, 40, 3);
    t.record_retry(TransportKind::Usb);
    t.record_retry(TransportKind::WifiDirect);
    let (usb, wifi, retries, usb_err, wifi_err) = t.stats_snapshot();
    assert_eq!(usb, 10);
    assert_eq!(wifi, 20);
    assert_eq!(retries, 2);
    assert_eq!(usb_err, 1);
    assert_eq!(wifi_err, 1);
    assert_eq!(t.window_tracker(TransportKind::Tcp).total_bytes_in_window(), 40);
}

#[test]
fn window_bounds_are_clamped() {
    let w = WindowController::with_bounds(0, 0, 99, 0);
    assert_eq!((w.min_window, w.max_window, w.current_window), (1, 1, 1));
    let w = WindowController::with_bounds(10, 5, 1, 0);
    assert_eq!((w.min_window, w.max_window, w.current_window), (10, 10, 10));
    let w = WindowController::for_usb(0);
    assert_eq!((w.min_window, w.max_window, w.current_window), (8, 32, 16));
    let w = WindowController::for_wifi(0);
    assert_eq!((w.min_window, w.max_window, w.current_window), (12, 32, 16));
}

#[test]
fn window_grows_by_one_and_shrinks_by_a_quarter() {
    let healthy = WindowSignals { congested: false, degraded: false, healthy: true };
    let congested = WindowSignals { congested: true, degraded: false, healthy: false };
    let mut w = WindowController::for_usb(0);
    let a = w.evaluate_and_adjust(healthy, 1);
    assert!(!a.adjusted);
    let a = w.evaluate_and_adjust(healthy, 2);
    assert!(a.adjusted);
    assert_eq!(a.window, 17);
    assert_eq!(w.window_before_probe, 16);
    for t in 3..6 {
        assert!(!w.evaluate_and_adjust(congested, t).adjusted);
    }
    let a = w.evaluate_and_adjust(congested, 6);
    assert!(a.adjusted);
    assert_eq!(a.window, 12);
    let mut small = WindowController::with_bounds(8, 32, 8, 0);
    for t in 0..10 {
        assert!(!small.evaluate_and_adjust(congested, t).adjusted);
    }
    assert_eq!(small.current_window, 8);
}

#[test]
fn window_retreats_after_a_degrading_probe() {
    let healthy = WindowSignals { congested: false, degraded: false, healthy: true };
    let degraded = WindowSignals { congested: false, degraded: true, healthy: false };
    let mut w = WindowController::for_wifi(0);
    w.evaluate_and_adjust(healthy, 1);
    assert_eq!(w.evaluate_and_adjust(healthy, 2).window, 17);
    assert!(!w.evaluate_and_adjust(degraded, 3).adjusted);
    let a = w.evaluate_and_adjust(degraded, 4);
    assert!(a.adjusted);
    assert_eq!(a.window, 16);
}

#[test]
fn throughput_snapshot_counts_bytes_and_retries() {
    let mut t = ThroughputTracker::new(2_000_000);
    t.record_transport_bytes(TransportKind::Usb, 100, 1);
    t.record_transport_bytes(TransportKind::WifiDirect, 50, 2);
    t.record_transport_bytes(TransportKind::Tcp, 7, 3);
    t.record_retry(TransportKind::Usb);
    t.record_retry(TransportKind::Tcp);
    assert_eq!(t.stats_snapshot(), (100, 50, 2, 1, 0));
}

#[test]
fn window_grows_at_most_one_chunk_per_step() {
    let mut w = WindowController::for_wifi(0);
    let healthy = WindowSignals { congested: false, degraded: false, healthy: true };
    let mut last = w.current_window;
    for i in 0..40u64 {
        let a = w.evaluate_and_adjust(healthy, i * 1_000);
        assert!(a.window <= last + 1);
        assert!(w.min_window <= a.window && a.window <= w.max_window);
        last = a.window;
    }
    assert_eq!(last, w.max_window);
}

#[test]
fn a_sample_stamped_earlier_than_the_last_one_is_still_kept() {
    let mut w = RollingWindowTracker::new(5);
    w.record_bytes(7, 100);
    w.record_bytes(3, 10);
    assert_eq!(w.total_bytes_in_window(), 10);
    assert_eq!(w.oldest_timestamp_us(), Some(100));
    w.record_bytes(1, 104);
    assert_eq!(w.total_bytes_in_window(), 11);
    w.record_bytes(2, 200);
    assert_eq!(w.total_bytes_in_window(), 2);
    assert_eq!(w.oldest_timestamp_us(), Some(200));
}
