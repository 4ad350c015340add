use std::collections::HashSet;
use turbotransfer_core::chunk::{calculate_chunk_plan, create_chunk, total_chunks, ChunkPlanEntry};
use turbotransfer_core::checksum::compute_xxhash64;
use turbotransfer_core::manifest::actor::{ActorMessage, MessageOutcome, MetaActorState, TransportType};
use turbotransfer_core::manifest::schema::{
    coalesce_ranges, expand_ranges, FileManifest, TransferMeta, TransferRole, TransferStatus,
};

#[test]
fn chunk_counts_round_up() {
    assert_eq!(total_chunks(0, 1024), 0);
    assert_eq!(total_chunks(100, 0), 0);
    assert_eq!(total_chunks(1, 1024), 1);
    assert_eq!(total_chunks(1024, 1024), 1);
    assert_eq!(total_chunks(1025, 1024), 2);
    assert_eq!(total_chunks(10 * 1024 * 1024, 4 * 1024 * 1024), 3);
}

#[test]
fn chunk_plan_tiles_the_file() {
    let plan = calculate_chunk_plan(2500, 1000);
    assert_eq!(
        plan,
        vec![
            ChunkPlanEntry { chunk_id: 0, file_offset: 0, payload_length: 1000 },
            ChunkPlanEntry { chunk_id: 1, file_offset: 1000, payload_length: 1000 },
            ChunkPlanEntry { chunk_id: 2, file_offset: 2000, payload_length: 500 },
        ]
    );
    assert!(calculate_chunk_plan(0, 1000).is_empty());
}

#[test]
fn chunk_carries_payload_hash() {
    let entry = ChunkPlanEntry { chunk_id: 7, file_offset: 7000, payload_length: 3 };
    let c = create_chunk(11, 22, &entry, vec![1, 2, 3]);
    assert_eq!(c.transfer_id, 11);
    assert_eq!(c.file_id, 22);
    assert_eq!(c.chunk_id, 7);
    assert_eq!(c.file_offset, 7000);
    assert_eq!(c.payload_length, 3);
    assert_eq!(c.checksum, compute_xxhash64(&[1, 2, 3]));
    assert_eq!(c.payload, vec![1, 2, 3]);
}

#[test]
fn coalesce_builds_minimal_ranges() {
    let set: HashSet<u32> = [5, 1, 2, 3, 9, 10, 0].into_iter().collect();
    assert_eq!(coalesce_ranges(&set), vec![(0, 3), (5, 5), (9, 10)]);
    assert!(coalesce_ranges(&HashSet::new()).is_empty());
    let edge: HashSet<u32> = [u32::MAX, u32::MAX - 1].into_iter().collect();
    assert_eq!(coalesce_ranges(&edge), vec![(u32::MAX - 1, u32::MAX)]);
}

#[test]
fn expand_inverts_coalesce() {
    let ranges = vec![(0, 3), (5, 5), (9, 10)];
    let set = expand_ranges(&ranges);
    let expected: HashSet<u32> = [0, 1, 2, 3, 5, 9, 10].into_iter().collect();
    assert_eq!(set, expected);
    assert_eq!(coalesce_ranges(&set), ranges);
    assert!(expand_ranges(&[(4, 2)]).is_empty());
    assert_eq!(expand_ranges(&[(1, 2), (2, 3)]).len(), 3);
}

#[test]
fn fresh_meta_is_in_progress() {
    let m = TransferMeta::new_at(
        1,
        2,
        "a.bin".to_string(),
        100,
        10,
        10,
        TransferRole::Sender,
        3,
        "2024-01-01T00:00:00+00:00".to_string(),
    );
    assert_eq!(m.status, TransferStatus::InProgress);
    assert!(m.completed_ranges.is_empty());
    assert_eq!(m.created_at, "2024-01-01T00:00:00+00:00");
    assert_eq!(m.updated_at, m.created_at);
    assert_eq!(m.transport_stats.usb.bytes, 0);
    let now = TransferMeta::new(1, 2, "a.bin".to_string(), 100, 10, 10, TransferRole::Receiver, 3);
    assert_eq!(now.created_at, now.updated_at);
    assert_eq!(now.role, TransferRole::Receiver);
}

#[test]
fn manifest_counts_chunks() {
    let m = FileManifest::describe(9, "f".to_string(), 2049, 1024);
    assert_eq!(m.total_chunks, 3);
    assert_eq!(m.file_size, 2049);
}

fn fresh_actor() -> MetaActorState {
    let meta = TransferMeta::new_at(1, 2, "a".to_string(), 100, 10, 10, TransferRole::Sender, 3, "t0".to_string());
    MetaActorState::new(meta, HashSet::new())
}

#[test]
fn actor_flushes_after_fifty_completions() {
    let mut a = fresh_actor();
    for i in 0..49u32 {
        let out = a.handle_message(ActorMessage::ChunkCompleted { chunk_id: i, transport: TransportType::Usb, bytes: 10 });
        assert_eq!(out, MessageOutcome::Continue);
    }
    let out = a.handle_message(ActorMessage::ChunkCompleted { chunk_id: 49, transport: TransportType::WifiDirect, bytes: 5 });
    assert_eq!(out, MessageOutcome::Flush);
    assert_eq!(a.meta().transport_stats.usb.bytes, 490);
    assert_eq!(a.meta().transport_stats.wifi_direct.bytes, 5);
    a.flush("t1".to_string());
    assert_eq!(a.dirty_events(), 0);
    assert_eq!(a.meta().completed_ranges, vec![(0, 49)]);
    assert_eq!(a.meta().updated_at, "t1");
}

#[test]
fn actor_flushes_after_ten_failures_and_exits_on_pause() {
    let mut a = fresh_actor();
    for i in 0..9u32 {
        assert_eq!(a.handle_message(ActorMessage::ChunkFailed { chunk_id: i, transport: TransportType::Usb }), MessageOutcome::Continue);
    }
    assert_eq!(a.handle_message(ActorMessage::TransportStatusChanged { transport: TransportType::Usb, connected: false }), MessageOutcome::Flush);
    assert_eq!(a.meta().transport_stats.usb.errors, 9);
    assert_eq!(a.meta().transport_stats.usb.retries, 9);
    assert!(a.needs_flush());
    assert_eq!(a.handle_message(ActorMessage::Pause), MessageOutcome::Exit);
    assert_eq!(a.meta().status, TransferStatus::Paused);
    assert_eq!(a.handle_message(ActorMessage::Cancel), MessageOutcome::Exit);
    assert_eq!(a.meta().status, TransferStatus::Cancelled);
}

#[test]
fn actor_get_meta_refreshes_ranges() {
    let mut a = fresh_actor();
    a.handle_message(ActorMessage::ChunkCompleted { chunk_id: 3, transport: TransportType::Usb, bytes: 1 });
    a.handle_message(ActorMessage::ChunkCompleted { chunk_id: 4, transport: TransportType::Usb, bytes: 1 });
    a.handle_message(ActorMessage::ChunkCompleted { chunk_id: 8, transport: TransportType::Usb, bytes: 1 });
    assert!(a.meta().completed_ranges.is_empty());
    assert_eq!(a.handle_message(ActorMessage::GetMeta), MessageOutcome::Continue);
    assert_eq!(a.meta().completed_ranges, vec![(3, 4), (8, 8)]);
    let reread = expand_ranges(&a.meta().completed_ranges);
    assert_eq!(&reread, a.completed_set());
}
