use plotter_bridge::queue::CommandQueue;

#[test]
fn dequeue_on_empty_returns_none() {
    let mut queue = CommandQueue::new();
    assert_eq!(queue.len(), 0);
    assert!(queue.dequeue().is_none());
    assert_eq!(queue.len(), 0);
}

#[test]
fn commands_come_out_in_arrival_order() {
    let mut queue = CommandQueue::new();
    queue.enqueue("first".to_string());
    queue.enqueue("second".to_string());
    queue.enqueue("third".to_string());
    assert_eq!(queue.len(), 3);
    assert_eq!(queue.dequeue(), Some("first".to_string()));
    assert_eq!(queue.dequeue(), Some("second".to_string()));
    assert_eq!(queue.dequeue(), Some("third".to_string()));
    assert_eq!(queue.dequeue(), None);
}

#[test]
fn interleaved_enqueue_and_dequeue_stay_fifo() {
    let mut queue = CommandQueue::new();
    queue.enqueue("a".to_string());
    queue.enqueue("b".to_string());
    assert_eq!(queue.dequeue(), Some("a".to_string()));
    queue.enqueue("c".to_string());
    assert_eq!(queue.dequeue(), Some("b".to_string()));
    assert_eq!(queue.dequeue(), Some("c".to_string()));
    assert_eq!(queue.dequeue(), None);
}
