use rredditr::queue::DeliveryQueue;

#[test]
fn entry_survives_failures_and_leaves_on_ack() {
    let mut q = DeliveryQueue::new();
    q.push("7 https://example.invalid/a".to_string());
    // First attempt fails twice, succeeds on the third.
    let first_payload = q.claim(1).unwrap();
    assert_eq!(first_payload, "7 https://example.invalid/a");
    assert_eq!(q.pending_count(), 0);
    assert_eq!(q.inflight_count(), 1);
    q.fail(1);
    assert_eq!(q.pending_count(), 1);
    assert_eq!(q.inflight_count(), 0);
    let second_payload = q.claim(1).unwrap();
    assert_eq!(second_payload, "7 https://example.invalid/a");
    q.fail(1);
    let third_payload = q.claim(1).unwrap();
    assert_eq!(third_payload, "7 https://example.invalid/a");
    q.ack(1);
    assert_eq!(q.pending_count(), 0);
    assert_eq!(q.inflight_count(), 0);
}

#[test]
fn claim_is_fifo_and_fail_requeues_at_the_tail() {
    let mut q = DeliveryQueue::new();
    q.push("1 a".to_string());
    q.push("2 b".to_string());
    q.push("3 c".to_string());
    let first = q.claim(1).unwrap();
    assert_eq!(first, "1 a");
    q.fail(1);
    // The failed entry is retried after the entries already pending.
    assert_eq!(q.claim(1).unwrap(), "2 b");
    q.ack(1);
    assert_eq!(q.claim(1).unwrap(), "3 c");
    q.ack(1);
    assert_eq!(q.claim(1).unwrap(), "1 a");
    q.ack(1);
    assert!(q.claim(1).is_none());
}

#[test]
fn claim_on_empty_pending_returns_nothing() {
    let mut q = DeliveryQueue::new();
    assert!(q.claim(4).is_none());
    assert_eq!(q.pending_count(), 0);
    assert_eq!(q.inflight_count(), 0);
}

#[test]
fn two_senders_hold_distinct_entries() {
    let mut q = DeliveryQueue::new();
    q.push("5 x".to_string());
    q.push("6 y".to_string());
    let a = q.claim(1).unwrap();
    let b = q.claim(2).unwrap();
    assert_eq!(a, "5 x");
    assert_eq!(b, "6 y");
    assert_eq!(q.inflight_count(), 2);
    q.fail(1);
    q.ack(2);
    assert_eq!(q.pending_count(), 1);
    assert_eq!(q.claim(2).unwrap(), "5 x");
    q.ack(2);
    assert_eq!(q.pending_count(), 0);
    assert_eq!(q.inflight_count(), 0);
}

#[test]
fn moves_conserve_the_entry_count() {
    let mut q = DeliveryQueue::new();
    for n in 0..100i64 {
        q.push(format!("{} https://example.invalid/{}", n, n));
    }
    let mut delivered = 0usize;
    let mut step = 0u64;
    while delivered < 100 {
        assert_eq!(q.pending_count() + q.inflight_count(), 100 - delivered);
        let worker = 1 + (step % 2);
        let claimed = q.claim(worker);
        assert!(claimed.is_some());
        assert_eq!(q.pending_count() + q.inflight_count(), 100 - delivered);
        if step % 3 == 0 {
            q.fail(worker);
        } else {
            q.ack(worker);
            delivered += 1;
        }
        step += 1;
    }
    assert_eq!(q.pending_count(), 0);
    assert_eq!(q.inflight_count(), 0);
}
