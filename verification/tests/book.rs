use std::collections::HashMap;
use turbotransfer_core::chunk::calculate_chunk_plan;
use turbotransfer_core::scheduler::tracker::ChannelTracker;
use turbotransfer_core::transfer::book::SendBook;

#[test]
fn a_resumed_book_queues_what_is_left_and_counts_what_is_held() {
    let plan = calculate_chunk_plan(10, 4);
    let (book, split) = SendBook::resume(&plan, &vec![(0, 0)]);
    assert_eq!(split.completed, vec![0]);
    assert_eq!(split.to_send.len(), 2);
    assert_eq!(book.progress(), (4, 1));
    assert_eq!(book.completed_count(), 1);
    assert!(!book.all_done(3));
}

#[test]
fn chunks_leave_the_queue_while_the_window_has_room() {
    let plan = calculate_chunk_plan(10, 4);
    let (mut book, _) = SendBook::resume(&plan, &vec![]);
    assert_eq!(book.take_next(0, 0, 2).map(|e| e.chunk_id), Some(0));
    assert_eq!(book.take_next(0, 1, 2).map(|e| e.chunk_id), Some(1));
    assert_eq!(book.take_next(0, 2, 2), None);
    assert_eq!(book.take_next(1, 0, 2).map(|e| e.chunk_id), Some(2));
    assert_eq!(book.take_next(1, 1, 2), None);
}

#[test]
fn an_entry_put_back_is_sent_next() {
    let plan = calculate_chunk_plan(10, 4);
    let (mut book, _) = SendBook::resume(&plan, &vec![]);
    let first = book.take_next(0, 0, 4).unwrap();
    book.put_back(first.clone());
    assert_eq!(book.take_next(0, 0, 4), Some(first));
}

#[test]
fn acknowledged_chunks_finish_the_book() {
    let plan = calculate_chunk_plan(10, 4);
    let (mut book, _) = SendBook::resume(&plan, &vec![]);
    let mut tracker = ChannelTracker::new("usb".to_string(), 0);
    let mut times: HashMap<u32, u64> = HashMap::new();
    for (i, now) in [(0u32, 10u64), (1, 20), (2, 30)] {
        let e = book.take_next(0, 0, 4).unwrap();
        assert_eq!(e.chunk_id, i);
        tracker.record_chunk_sent(e.chunk_id, e.payload_length as u64, now);
        times.insert(e.chunk_id, now);
    }
    for (cid, now) in [(0u32, 100u64), (1, 110), (2, 120)] {
        let effect = book.on_chunk_ack(&mut tracker, &mut times, cid, None, 1_000, now);
        assert!(effect.newly_completed);
    }
    assert!(book.all_done(3));
    assert_eq!(book.progress(), (10, 3));
    let again = book.on_chunk_ack(&mut tracker, &mut times, 2, None, 1_000, 130);
    assert!(!again.newly_completed);
    assert_eq!(book.progress(), (10, 3));
}

#[test]
fn a_refused_chunk_goes_back_to_the_front() {
    let plan = calculate_chunk_plan(10, 4);
    let (mut book, _) = SendBook::resume(&plan, &vec![]);
    let mut tracker = ChannelTracker::new("wifi".to_string(), 0);
    let mut times: HashMap<u32, u64> = HashMap::new();
    let e = book.take_next(0, 0, 4).unwrap();
    tracker.record_chunk_sent(e.chunk_id, e.payload_length as u64, 5);
    times.insert(e.chunk_id, 5);
    let retry = book.on_chunk_nack(&mut tracker, &mut times, 0, "crc", 9);
    assert_eq!(retry.map(|r| r.chunk_id), Some(0));
    assert_eq!(book.take_next(0, 0, 4).map(|r| r.chunk_id), Some(0));
    assert_eq!(book.on_chunk_nack(&mut tracker, &mut times, 77, "crc", 10), None);
    assert_eq!(book.take_next(0, 0, 4).map(|r| r.chunk_id), Some(1));
}

#[test]
fn a_lost_channel_gives_its_chunks_back() {
    let plan = calculate_chunk_plan(12, 4);
    let (mut book, _) = SendBook::resume(&plan, &vec![]);
    let mut times: HashMap<u32, u64> = HashMap::new();
    for now in [1u64, 2] {
        let e = book.take_next(0, 0, 4).unwrap();
        times.insert(e.chunk_id, now);
    }
    assert_eq!(book.requeue_channel(&mut times), 2);
    assert!(times.is_empty());
    let mut ids = vec![
        book.take_next(1, 0, 4).unwrap().chunk_id,
        book.take_next(1, 0, 4).unwrap().chunk_id,
    ];
    ids.sort();
    assert_eq!(ids, vec![0, 1]);
    assert_eq!(book.take_next(1, 0, 4).map(|r| r.chunk_id), Some(2));
    assert_eq!(book.take_next(1, 0, 4), None);
}
