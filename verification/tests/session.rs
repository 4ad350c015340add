use std::collections::HashMap;
use turbotransfer_core::checksum::{compute_crc32c, compute_xxhash64};
use turbotransfer_core::chunk::{calculate_chunk_plan, ChunkPlanEntry};
use turbotransfer_core::manifest::schema::TransferStatus;
use turbotransfer_core::protocol::messages::{
    BatchChunkAckData, CancelData, ChunkAckData, ChunkDataPayload, HeartbeatData, Message, PauseData,
    ResumeData, TransferAcceptData, TransferOfferData, TransferRejectData, HelloData,
};
use turbotransfer_core::scheduler::tracker::ChannelTracker;
use turbotransfer_core::transfer::session::{
    classify_offer_reply, complete_ack, control_action, control_reply, final_ack_step, is_hello,
    on_chunk_nack, partition_for_resume, send_outcome, ChunkVerdict, CompleteVerdict, ControlAction,
    ControlReply, FinalAckStep, OfferReply, ReceiverSession, SendOutcome, SenderProgress, SessionOptions,
    next_to_send, requeue_lost_chunks, status_after_channels_closed, COMPLETE_ACK_ID,
};
use turbotransfer_core::transfer::tracker::{ChunkTracker, InMemoryChunkTracker};
use turbotransfer_core::benchmark::types::TransferPurpose;

#[test]
fn offer_replies_are_classified() {
    let accept = Message::TransferAccept(TransferAcceptData { transfer_id: 1, resume_from: Some(vec![(0, 2)]) });
    assert!(matches!(classify_offer_reply(Some(accept)), OfferReply::Accepted(Some(r)) if r == vec![(0, 2)]));
    let reject = Message::TransferReject(TransferRejectData { transfer_id: 1, reason: "busy".to_string() });
    assert!(matches!(classify_offer_reply(Some(reject)), OfferReply::Rejected(r) if r == "busy"));
    assert!(matches!(classify_offer_reply(None), OfferReply::Eof));
    assert!(matches!(classify_offer_reply(Some(Message::Heartbeat(HeartbeatData { sequence: 1 }))), OfferReply::Unexpected));
    let hello = Some(Message::Hello(HelloData { device_id: 1, device_name: "pc".to_string(), protocol_version: 1 }));
    assert!(is_hello(&hello));
    assert!(!is_hello(&None));
}

#[test]
fn resume_partition_splits_the_plan() {
    let plan = calculate_chunk_plan(4500, 1000);
    let p = partition_for_resume(&plan, &vec![(1, 2), (7, 9)]);
    assert_eq!(p.completed, vec![1, 2]);
    assert_eq!(p.bytes_done, 2000);
    assert_eq!(p.chunks_done, 2);
    let ids: Vec<u32> = p.to_send.iter().map(|e| e.chunk_id).collect();
    assert_eq!(ids, vec![0, 3, 4]);
    assert_eq!(p.to_send[2], ChunkPlanEntry { chunk_id: 4, file_offset: 4000, payload_length: 500 });
    let none = partition_for_resume(&plan, &Vec::new());
    assert_eq!(none.to_send.len(), 5);
    assert_eq!(none.bytes_done, 0);
}

#[test]
fn sender_progress_counts_first_acks_only() {
    let plan_vec = calculate_chunk_plan(2500, 1000);
    let plan: HashMap<u32, ChunkPlanEntry> = plan_vec.iter().map(|e| (e.chunk_id, e.clone())).collect();
    let mut progress = SenderProgress::new(&vec![], 0, 0);
    let mut tracker = ChannelTracker::new("USB".to_string(), 0);
    let mut times: HashMap<u32, u64> = HashMap::new();
    tracker.record_chunk_sent(2, 500, 100);
    times.insert(2, 100);
    let e = progress.on_chunk_ack(&mut tracker, &mut times, &plan, 2, Some(30), 700, 1_100);
    assert!(e.newly_completed);
    assert_eq!(e.bytes, 500);
    assert_eq!(e.sample.unwrap().ack_turnaround_us, 1_000);
    assert!(times.is_empty());
    let again = progress.on_chunk_ack(&mut tracker, &mut times, &plan, 2, None, 700, 1_200);
    assert!(!again.newly_completed);
    assert_eq!(again.sample.unwrap().ack_turnaround_us, 5_000);
    let stray = progress.on_chunk_ack(&mut tracker, &mut times, &plan, 99, None, 9_000, 1_300);
    assert!(stray.newly_completed);
    assert_eq!(stray.bytes, 0);
    assert_eq!(stray.sample.unwrap().ack_turnaround_us, 9_000);
    assert_eq!(progress.completed_count(), 2);
    assert_eq!(progress.progress(), (500, 1));
    assert!(!progress.all_done(3));
    assert!(progress.all_done(2));
    let resumed = SenderProgress::new(&vec![0, 1], 2000, 2);
    assert_eq!(resumed.completed_count(), 2);
    assert_eq!(resumed.progress(), (2000, 2));
}

#[test]
fn nack_requeues_the_plan_entry() {
    let plan_vec = calculate_chunk_plan(2500, 1000);
    let plan: HashMap<u32, ChunkPlanEntry> = plan_vec.iter().map(|e| (e.chunk_id, e.clone())).collect();
    let mut tracker = ChannelTracker::new("USB".to_string(), 0);
    let mut times: HashMap<u32, u64> = HashMap::new();
    tracker.record_chunk_sent(1, 1000, 5);
    times.insert(1, 5);
    let retry = on_chunk_nack(&mut tracker, &mut times, &plan, 1, "xxHash64 payload mismatch", 10);
    assert_eq!(retry, Some(ChunkPlanEntry { chunk_id: 1, file_offset: 1000, payload_length: 1000 }));
    assert_eq!(tracker.total_chunks_nacked, 1);
    assert_eq!(tracker.in_flight_bytes(), 0);
    assert_eq!(tracker.consecutive_severe_samples, 1);
    assert!(times.is_empty());
    assert_eq!(on_chunk_nack(&mut tracker, &mut times, &plan, 77, "x", 11), None);
}

#[test]
fn control_and_outcome_decisions() {
    assert_eq!(control_action(Some(TransferStatus::Paused)), ControlAction::Pause);
    assert_eq!(control_action(Some(TransferStatus::Cancelled)), ControlAction::Cancel);
    assert_eq!(control_action(Some(TransferStatus::InProgress)), ControlAction::Proceed);
    assert_eq!(control_action(None), ControlAction::Proceed);
    assert_eq!(send_outcome(5, 5, Some(TransferStatus::Paused)), SendOutcome::Finish);
    assert_eq!(send_outcome(4, 5, Some(TransferStatus::Paused)), SendOutcome::Paused);
    assert_eq!(send_outcome(4, 5, Some(TransferStatus::Cancelled)), SendOutcome::Cancelled);
    assert_eq!(send_outcome(4, 5, None), SendOutcome::Disconnected);
    let done = Message::ChunkAck(ChunkAckData { transfer_id: 1, chunk_id: COMPLETE_ACK_ID, receiver_verify_us: None });
    assert_eq!(final_ack_step(&done), FinalAckStep::Done);
    let late = Message::ChunkAck(ChunkAckData { transfer_id: 1, chunk_id: 3, receiver_verify_us: None });
    assert_eq!(final_ack_step(&late), FinalAckStep::KeepWaiting);
    let batch = Message::BatchChunkAck(BatchChunkAckData { transfer_id: 1, chunk_ids: vec![1], sum_receiver_verify_us: None });
    assert_eq!(final_ack_step(&batch), FinalAckStep::KeepWaiting);
    assert_eq!(final_ack_step(&Message::Heartbeat(HeartbeatData { sequence: 0 })), FinalAckStep::Unexpected);
    let o = SessionOptions::default();
    assert_eq!(o.purpose, TransferPurpose::Normal);
    assert_eq!(o.wifi_window_preset, None);
}

fn offer(total_chunks: u32) -> TransferOfferData {
    TransferOfferData {
        transfer_id: 5,
        file_id: 6,
        file_name: "f".to_string(),
        file_size: 6,
        chunk_size: 3,
        total_chunks,
        checksum_algo: "xxhash64".to_string(),
    }
}

fn chunk(id: u32, payload: Vec<u8>, corrupt: bool) -> ChunkDataPayload {
    let checksum = compute_xxhash64(&payload) ^ if corrupt { 1 } else { 0 };
    ChunkDataPayload {
        transfer_id: 5,
        file_id: 6,
        chunk_id: id,
        file_offset: id as u64 * 3,
        payload_length: payload.len() as u32,
        checksum,
        payload,
    }
}

#[test]
fn receiver_stores_refuses_and_deduplicates() {
    let mut session = ReceiverSession::new(&offer(2));
    let mut tracker = InMemoryChunkTracker::new();
    match session.on_chunk(&mut tracker, &chunk(0, vec![1, 2, 3], true), 10) {
        ChunkVerdict::Corrupt(Message::ChunkNack(n)) => {
            assert_eq!(n.chunk_id, 0);
            assert_eq!(n.reason, "xxHash64 payload mismatch");
        }
        other => panic!("unexpected {:?}", other),
    }
    assert_eq!(session.progress(), (0, 0));
    match session.on_chunk(&mut tracker, &chunk(0, vec![1, 2, 3], false), 12) {
        ChunkVerdict::Store(Message::ChunkAck(a)) => {
            assert_eq!(a.chunk_id, 0);
            assert_eq!(a.receiver_verify_us, Some(12));
        }
        other => panic!("unexpected {:?}", other),
    }
    assert_eq!(session.progress(), (3, 1));
    assert!(matches!(session.on_chunk(&mut tracker, &chunk(0, vec![1, 2, 3], false), 1), ChunkVerdict::Duplicate(_)));
    assert_eq!(session.progress(), (3, 1));
    assert_eq!(session.on_complete(0, None), CompleteVerdict::NeedsFileScan);
    assert!(matches!(session.on_chunk(&mut tracker, &chunk(1, vec![4, 5, 6], false), 1), ChunkVerdict::Store(_)));
    let whole = compute_crc32c(&[1, 2, 3, 4, 5, 6]);
    assert_eq!(session.on_complete(whole, None), CompleteVerdict::Verified);
    assert_eq!(session.on_complete(whole ^ 1, None), CompleteVerdict::Mismatch(whole));
    assert_eq!(tracker.get_completed_ranges(), Some(vec![(0, 1)]));
}

#[test]
fn receiver_uses_rescanned_checksum_when_chunks_are_missing() {
    let session = ReceiverSession::new(&offer(2));
    assert_eq!(session.on_complete(7, Some(7)), CompleteVerdict::Verified);
    assert_eq!(session.on_complete(7, Some(8)), CompleteVerdict::Mismatch(8));
}

#[test]
fn resumed_chunks_count_toward_the_file_checksum() {
    let mut session = ReceiverSession::new(&offer(2));
    let mut tracker = InMemoryChunkTracker::from_ranges(5, 6, &[(0, 0)]);
    session.record_resumed_chunk(0, &[1, 2, 3]);
    assert!(matches!(session.on_chunk(&mut tracker, &chunk(0, vec![1, 2, 3], false), 1), ChunkVerdict::Duplicate(_)));
    assert!(matches!(session.on_chunk(&mut tracker, &chunk(1, vec![4, 5, 6], false), 1), ChunkVerdict::Store(_)));
    assert_eq!(session.on_complete(compute_crc32c(&[1, 2, 3, 4, 5, 6]), None), CompleteVerdict::Verified);
    assert_eq!(session.progress(), (3, 1));
}

#[test]
fn a_duplicate_chunk_fills_a_missing_ledger_entry() {
    let mut session = ReceiverSession::new(&offer(2));
    let mut tracker = InMemoryChunkTracker::from_ranges(5, 6, &[(0, 0)]);
    assert!(matches!(session.on_chunk(&mut tracker, &chunk(0, vec![1, 2, 3], false), 1), ChunkVerdict::Duplicate(_)));
    assert!(matches!(session.on_chunk(&mut tracker, &chunk(0, vec![9, 9, 9], false), 1), ChunkVerdict::Duplicate(_)));
    assert!(matches!(session.on_chunk(&mut tracker, &chunk(1, vec![4, 5, 6], false), 1), ChunkVerdict::Store(_)));
    assert_eq!(session.on_complete(compute_crc32c(&[1, 2, 3, 4, 5, 6]), None), CompleteVerdict::Verified);
    assert_eq!(session.progress(), (3, 1));
}

#[test]
fn receiver_control_replies() {
    match control_reply(&Message::Pause(PauseData { transfer_id: 9 })) {
        ControlReply::Acknowledge(st, Message::ChunkAck(a)) => {
            assert_eq!(st, TransferStatus::Paused);
            assert_eq!(a.chunk_id, u32::MAX - 1);
            assert_eq!(a.transfer_id, 9);
        }
        other => panic!("unexpected {:?}", other),
    }
    match control_reply(&Message::Resume(ResumeData { transfer_id: 9 })) {
        ControlReply::Acknowledge(st, Message::ChunkAck(a)) => {
            assert_eq!(st, TransferStatus::InProgress);
            assert_eq!(a.chunk_id, u32::MAX - 2);
        }
        other => panic!("unexpected {:?}", other),
    }
    assert!(matches!(control_reply(&Message::Cancel(CancelData { transfer_id: 9 })), ControlReply::Cancelled));
    match control_reply(&Message::Heartbeat(HeartbeatData { sequence: 41 })) {
        ControlReply::Reply(Message::Heartbeat(h)) => assert_eq!(h.sequence, 42),
        other => panic!("unexpected {:?}", other),
    }
    match control_reply(&Message::Heartbeat(HeartbeatData { sequence: u64::MAX })) {
        ControlReply::Reply(Message::Heartbeat(h)) => assert_eq!(h.sequence, 0),
        other => panic!("unexpected {:?}", other),
    }
    assert!(matches!(control_reply(&Message::ChunkAck(ChunkAckData { transfer_id: 1, chunk_id: 1, receiver_verify_us: None })), ControlReply::Ignore));
    match complete_ack(4) {
        Message::ChunkAck(a) => {
            assert_eq!(a.chunk_id, u32::MAX);
            assert_eq!(a.receiver_verify_us, None);
        }
        other => panic!("unexpected {:?}", other),
    }
}

#[test]
fn tracker_matches_restored_chunks_by_any_checksum() {
    let mut t = InMemoryChunkTracker::from_ranges(1, 2, &[(3, 4)]);
    assert!(t.is_chunk_completed(1, 2, 3, 12345));
    assert!(t.is_chunk_completed(1, 2, 4, 0));
    assert!(!t.is_chunk_completed(1, 2, 5, 0));
    assert!(!t.is_chunk_completed(9, 2, 3, 0));
    t.mark_chunk_completed(1, 2, 10, 77);
    assert!(t.is_chunk_completed(1, 2, 10, 77));
    assert!(!t.is_chunk_completed(1, 2, 10, 78));
    assert_eq!(t.get_completed_ranges(), Some(vec![(3, 4), (10, 10)]));
    assert_eq!(InMemoryChunkTracker::new().get_completed_ranges(), None);
}

#[test]
fn closing_the_last_channel_fails_an_unfinished_transfer() {
    assert_eq!(status_after_channels_closed(Some(TransferStatus::InProgress)), Some(TransferStatus::Failed));
    assert_eq!(status_after_channels_closed(Some(TransferStatus::Failed)), Some(TransferStatus::Failed));
    assert_eq!(status_after_channels_closed(None), Some(TransferStatus::Failed));
    assert_eq!(status_after_channels_closed(Some(TransferStatus::Paused)), None);
    assert_eq!(status_after_channels_closed(Some(TransferStatus::Cancelled)), None);
    assert_eq!(status_after_channels_closed(Some(TransferStatus::Completed)), None);
}


#[test]
fn channels_take_chunks_while_their_window_has_room() {
    let plan = calculate_chunk_plan(3000, 1000);
    let mut queue: std::collections::VecDeque<ChunkPlanEntry> = plan.iter().cloned().collect();
    assert_eq!(next_to_send(&mut queue, 2, 2), None);
    assert_eq!(queue.len(), 3);
    assert_eq!(next_to_send(&mut queue, 1, 2), Some(plan[0].clone()));
    assert_eq!(queue.len(), 2);
    queue.clear();
    assert_eq!(next_to_send(&mut queue, 0, 2), None);
}

#[test]
fn lost_chunks_go_back_to_be_sent() {
    let plan_vec = calculate_chunk_plan(3000, 1000);
    let plan: HashMap<u32, ChunkPlanEntry> = plan_vec.iter().map(|e| (e.chunk_id, e.clone())).collect();
    let mut times: HashMap<u32, u64> = HashMap::new();
    times.insert(0, 5);
    times.insert(2, 6);
    times.insert(9, 7);
    let mut retry = requeue_lost_chunks(&mut times, &plan);
    retry.sort_by_key(|e| e.chunk_id);
    assert_eq!(retry, vec![plan_vec[0].clone(), plan_vec[2].clone()]);
    assert!(times.is_empty());
}
