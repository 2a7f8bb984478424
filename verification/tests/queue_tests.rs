use ordering_regret::queue::BoundedQueue;
use ordering_regret::types::InternalTrade;

fn event(tx_index: u16) -> InternalTrade {
    InternalTrade {
        slot: 1,
        amount_in: 100,
        is_bundled: false,
        tx_index,
        tx_signature: format!("sig-{}", tx_index),
        token_mint_in: "SOL".to_string(),
    }
}

#[test]
fn capacity_bound_is_never_exceeded() {
    let mut q = BoundedQueue::with_capacity(3);
    for i in 0..3u16 {
        assert!(q.try_publish(event(i)).is_none());
    }
    assert_eq!(q.len(), 3);
    let refused = q.try_publish(event(99));
    let got_back = refused.expect("a full queue must hand the event back");
    assert_eq!(got_back.tx_index, 99);
    assert_eq!(q.len(), 3);
}

#[test]
fn events_leave_in_arrival_order_exactly_once() {
    let mut q = BoundedQueue::with_capacity(10);
    for i in 0..4u16 {
        assert!(q.try_publish(event(i)).is_none());
    }
    for i in 0..4u16 {
        let got = q.take_next().expect("queued event missing");
        assert_eq!(got.tx_index, i);
    }
    assert!(q.take_next().is_none());
}

#[test]
fn slow_consumer_drops_nothing() {
    // Producer runs far ahead of the consumer: whenever the queue is
    // full it must retry the very same event, and every event still
    // comes out exactly once, in order.
    let mut q = BoundedQueue::with_capacity(2);
    let mut delivered: Vec<u16> = Vec::new();
    let mut next: u16 = 0;
    let mut pending: Option<InternalTrade> = None;
    while next < 8 || pending.is_some() || q.len() > 0 {
        let offer = match pending.take() {
            Some(e) => Some(e),
            None if next < 8 => {
                let e = event(next);
                next += 1;
                Some(e)
            }
            None => None,
        };
        if let Some(e) = offer {
            pending = q.try_publish(e);
        }
        // The artificially slow consumer takes one event per round.
        if let Some(got) = q.take_next() {
            delivered.push(got.tx_index);
        }
    }
    assert_eq!(delivered, (0..8u16).collect::<Vec<u16>>());
}
