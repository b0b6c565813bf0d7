use datalogts::date::{today_utc, UtcDate};
use datalogts::frame::heartbeat_frame;
use datalogts::ingest::{handle_request, ingest_request, HttpMethod};
use datalogts::queue::{dequeue_all, TransferQueue};
use datalogts::writer::{writer_step, WriterState};

fn date(year: u16, month: u8, day: u8) -> UtcDate {
    UtcDate { year, month, day }
}

#[test]
fn fifo_order_preserved() {
    let mut q = TransferQueue::new();
    assert_eq!(q.len(), 0);
    let frames: Vec<Vec<u8>> = vec![
        vec![1, 2, 3],
        heartbeat_frame(),
        vec![4],
        heartbeat_frame(),
        vec![5, 6],
    ];
    for f in frames.iter() {
        q.enqueue(f.clone());
    }
    assert_eq!(q.len(), 5);
    for f in frames.iter() {
        assert_eq!(&q.dequeue(), f);
    }
    assert_eq!(q.len(), 0);
}

#[test]
fn queue_interleaves_producers_in_completion_order() {
    let mut q = TransferQueue::new();
    q.enqueue(vec![10]);
    q.enqueue(heartbeat_frame());
    q.enqueue(vec![11]);
    assert_eq!(q.dequeue(), vec![10]);
    q.enqueue(vec![12]);
    assert_eq!(q.dequeue(), heartbeat_frame());
    assert_eq!(q.dequeue(), vec![11]);
    assert_eq!(q.dequeue(), vec![12]);
}

#[test]
fn dequeue_all_returns_enqueue_order() {
    let mut q = TransferQueue::new();
    q.enqueue(vec![7, 8]);
    q.enqueue(heartbeat_frame());
    q.enqueue(vec![9]);
    let drained = dequeue_all(&mut q);
    assert_eq!(drained, vec![vec![7, 8], heartbeat_frame(), vec![9]]);
    assert_eq!(q.len(), 0);
}

#[test]
fn post_root_yields_ok_and_frame() {
    let d = date(2024, 1, 5);
    let path = b"/".to_vec();
    let body = b"api=a&app=b&env=c&data=XY".to_vec();
    let (resp, frame) = handle_request(HttpMethod::Post, &path, &body, &d);
    assert_eq!(resp.status, 200);
    assert_eq!(resp.body, b"ok".to_vec());
    let frame = frame.unwrap();
    assert_eq!(frame[0], 0xf0);
    assert_eq!(*frame.last().unwrap(), 0xfe);
    assert_eq!(frame.len(), 54);
    assert_eq!(&frame[43..51], b"20240105");
}

#[test]
fn get_root_yields_not_found() {
    let d = date(2024, 1, 5);
    let path = b"/".to_vec();
    let body = b"api=a&app=b&env=c&data=XY".to_vec();
    let (resp, frame) = handle_request(HttpMethod::Get, &path, &body, &d);
    assert_eq!(resp.status, 404);
    assert!(frame.is_none());
}

#[test]
fn post_other_path_yields_not_found() {
    let d = date(2024, 1, 5);
    let path = b"/x".to_vec();
    let body = b"api=a&app=b&env=c&data=XY".to_vec();
    let (resp, frame) = handle_request(HttpMethod::Post, &path, &body, &d);
    assert_eq!(resp.status, 404);
    assert!(resp.body.is_empty());
    assert!(frame.is_none());
}

#[test]
fn malformed_body_yields_bad_request() {
    let d = date(2024, 1, 5);
    let path = b"/".to_vec();
    let body = b"api=a&app=b".to_vec();
    let (resp, frame) = handle_request(HttpMethod::Post, &path, &body, &d);
    assert_eq!(resp.status, 400);
    assert!(frame.is_none());
}

#[test]
fn oversized_field_yields_bad_request() {
    let d = date(2024, 1, 5);
    let path = b"/".to_vec();
    let body = b"api=far-too-long-here&app=b&env=c&data=XY".to_vec();
    let (resp, frame) = handle_request(HttpMethod::Post, &path, &body, &d);
    assert_eq!(resp.status, 400);
    assert!(frame.is_none());
}

#[test]
fn ingest_request_enqueues_exactly_accepted_frames() {
    let d = date(2024, 1, 5);
    let mut q = TransferQueue::new();
    let root = b"/".to_vec();
    let good = b"api=a&app=b&env=c&data=XY".to_vec();
    let bad = b"api=a&app=b".to_vec();

    let resp = ingest_request(&mut q, HttpMethod::Post, &root, &good, &d);
    assert_eq!(resp.status, 200);
    assert_eq!(resp.body, b"ok".to_vec());
    assert_eq!(q.len(), 1);

    let resp = ingest_request(&mut q, HttpMethod::Post, &root, &bad, &d);
    assert_eq!(resp.status, 400);
    assert_eq!(q.len(), 1);

    let resp = ingest_request(&mut q, HttpMethod::Get, &root, &good, &d);
    assert_eq!(resp.status, 404);
    assert_eq!(q.len(), 1);

    let frame = q.dequeue();
    assert_eq!(frame.len(), 54);
    assert_eq!(frame[0], 0xf0);
    assert_eq!(frame[frame.len() - 1], 0xfe);
}

#[test]
fn writer_never_reconnects() {
    let s1 = writer_step(WriterState::Connected, true);
    assert_eq!(s1, WriterState::Connected);
    let s2 = writer_step(WriterState::Connected, false);
    assert_eq!(s2, WriterState::Failed);
    let s3 = writer_step(WriterState::Failed, true);
    assert_eq!(s3, WriterState::Failed);
    let s4 = writer_step(WriterState::Failed, false);
    assert_eq!(s4, WriterState::Failed);
}

#[test]
fn today_is_a_plausible_date() {
    let d = today_utc().unwrap();
    assert!(d.year >= 1970 && d.year <= 9999);
    assert!(d.month >= 1 && d.month <= 12);
    assert!(d.day >= 1 && d.day <= 31);
}
