use plotter_bridge::ingest::{ingest_batch, split_batch, BatchStatus};
use plotter_bridge::queue::CommandQueue;

#[test]
fn carriage_return_rejects_whole_batch() {
    let mut queue = CommandQueue::new();
    let status = ingest_batch(&mut queue, b"a\rb");
    assert_eq!(status, BatchStatus::Rejected);
    assert_eq!(queue.len(), 0);
}

#[test]
fn carriage_return_rejects_even_after_valid_lines() {
    let mut queue = CommandQueue::new();
    let status = ingest_batch(&mut queue, b"good\nalso good\nbad\r\n");
    assert_eq!(status, BatchStatus::Rejected);
    assert_eq!(queue.len(), 0);
}

#[test]
fn non_utf8_body_is_rejected() {
    let mut queue = CommandQueue::new();
    let status = ingest_batch(&mut queue, &[0xff, 0xfe, 0x61]);
    assert_eq!(status, BatchStatus::Rejected);
    assert_eq!(queue.len(), 0);
}

#[test]
fn non_utf8_body_leaves_queued_commands_alone() {
    let mut queue = CommandQueue::new();
    assert_eq!(ingest_batch(&mut queue, b"keep"), BatchStatus::Accepted);
    assert_eq!(ingest_batch(&mut queue, &[0xc0, 0x20]), BatchStatus::Rejected);
    assert_eq!(queue.len(), 1);
    assert_eq!(queue.drain(), vec!["keep".to_string()]);
}

#[test]
fn empty_segments_are_dropped() {
    let mut queue = CommandQueue::new();
    let status = ingest_batch(&mut queue, b"a\nb\n\nc");
    assert_eq!(status, BatchStatus::Accepted);
    assert_eq!(queue.len(), 3);
    assert_eq!(
        queue.drain(),
        vec!["a".to_string(), "b".to_string(), "c".to_string()]
    );
}

#[test]
fn body_without_separators_is_one_command() {
    let mut queue = CommandQueue::new();
    let status = ingest_batch(&mut queue, b"single");
    assert_eq!(status, BatchStatus::Accepted);
    assert_eq!(queue.drain(), vec!["single".to_string()]);
}

#[test]
fn trailing_line_feed_adds_no_command() {
    let mut queue = CommandQueue::new();
    let status = ingest_batch(&mut queue, b"SP,1\nSM,1000,200,200\n");
    assert_eq!(status, BatchStatus::Accepted);
    assert_eq!(
        queue.drain(),
        vec!["SP,1".to_string(), "SM,1000,200,200".to_string()]
    );
}

#[test]
fn empty_body_is_accepted_with_nothing_enqueued() {
    let mut queue = CommandQueue::new();
    let status = ingest_batch(&mut queue, b"");
    assert_eq!(status, BatchStatus::Accepted);
    assert_eq!(queue.len(), 0);
}

#[test]
fn body_of_only_line_feeds_enqueues_nothing() {
    let mut queue = CommandQueue::new();
    let status = ingest_batch(&mut queue, b"\n\n\n");
    assert_eq!(status, BatchStatus::Accepted);
    assert_eq!(queue.len(), 0);
}

#[test]
fn two_sequential_batches_keep_their_order() {
    let mut queue = CommandQueue::new();
    assert_eq!(ingest_batch(&mut queue, b"a\nb"), BatchStatus::Accepted);
    assert_eq!(ingest_batch(&mut queue, b"c\nd"), BatchStatus::Accepted);
    assert_eq!(
        queue.drain(),
        vec![
            "a".to_string(),
            "b".to_string(),
            "c".to_string(),
            "d".to_string()
        ]
    );
}

#[test]
fn split_batch_reports_carriage_return() {
    assert!(split_batch("one\rtwo").is_none());
    assert!(split_batch("\r").is_none());
}

#[test]
fn split_batch_splits_in_order() {
    let cmds = split_batch("first\nsecond\nthird").unwrap();
    assert_eq!(
        cmds,
        vec![
            "first".to_string(),
            "second".to_string(),
            "third".to_string()
        ]
    );
}

#[test]
fn split_batch_handles_multibyte_text() {
    let cmds = split_batch("héllo\nwörld").unwrap();
    assert_eq!(cmds, vec!["héllo".to_string(), "wörld".to_string()]);
}
