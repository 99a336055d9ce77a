use napoli::order::Order;
use napoli::registry::RecvOutcome;
use napoli::registry::Registry;

fn snapshot(order_id: i32, tag: &str) -> Order {
    Order { id: order_id, menu_url: tag.to_string(), state: 1, entries: Vec::new() }
}

fn recv_tag(reg: &mut Registry, handle: u64) -> String {
    match reg.recv(handle) {
        RecvOutcome::Item(o) => o.menu_url,
        RecvOutcome::Empty => panic!("expected a queued snapshot, channel was empty"),
        RecvOutcome::Gone => panic!("expected a queued snapshot, channel was gone"),
    }
}

#[test]
fn fresh_subscriber_sees_current_state_then_updates() {
    let mut reg = Registry::new(8);
    let h = reg.subscribe(1, snapshot(1, "s0"));
    reg.publish(1, &snapshot(1, "s1"));
    assert_eq!(recv_tag(&mut reg, h), "s0");
    assert_eq!(recv_tag(&mut reg, h), "s1");
    assert!(matches!(reg.recv(h), RecvOutcome::Empty));
}

#[test]
fn publishing_one_order_never_reaches_another() {
    let mut reg = Registry::new(8);
    let h1 = reg.subscribe(1, snapshot(1, "a0"));
    let h2 = reg.subscribe(2, snapshot(2, "b0"));
    reg.publish(2, &snapshot(2, "b1"));
    assert_eq!(recv_tag(&mut reg, h1), "a0");
    assert!(matches!(reg.recv(h1), RecvOutcome::Empty));
    assert_eq!(recv_tag(&mut reg, h2), "b0");
    assert_eq!(recv_tag(&mut reg, h2), "b1");
}

#[test]
fn subscriber_receives_snapshots_in_publish_order() {
    let mut reg = Registry::new(8);
    let h = reg.subscribe(5, snapshot(5, "s0"));
    reg.publish(5, &snapshot(5, "s1"));
    reg.publish(5, &snapshot(5, "s2"));
    reg.publish(5, &snapshot(5, "s3"));
    assert_eq!(recv_tag(&mut reg, h), "s0");
    assert_eq!(recv_tag(&mut reg, h), "s1");
    assert_eq!(recv_tag(&mut reg, h), "s2");
    assert_eq!(recv_tag(&mut reg, h), "s3");
}

#[test]
fn saturated_channel_misses_updates_but_blocks_nobody() {
    let mut reg = Registry::new(2);
    let h1 = reg.subscribe(1, snapshot(1, "s0"));
    reg.publish(1, &snapshot(1, "s1"));
    // h1's queue is now full; h2 subscribes seeing the current state s1
    let h2 = reg.subscribe(1, snapshot(1, "s1"));
    reg.publish(1, &snapshot(1, "s2"));
    // h1 never drained, so it holds s0 and s1 and missed s2
    assert_eq!(recv_tag(&mut reg, h1), "s0");
    assert_eq!(recv_tag(&mut reg, h1), "s1");
    assert!(matches!(reg.recv(h1), RecvOutcome::Empty));
    // h2 still got the update
    assert_eq!(recv_tag(&mut reg, h2), "s1");
    assert_eq!(recv_tag(&mut reg, h2), "s2");
}

#[test]
fn reap_removes_disconnected_channels() {
    let mut reg = Registry::new(4);
    let h1 = reg.subscribe(9, snapshot(9, "s0"));
    let _h2 = reg.subscribe(9, snapshot(9, "s0"));
    assert_eq!(reg.live_count(9), 2);
    reg.disconnect(h1);
    // nothing is removed before the reap pass
    assert_eq!(reg.live_count(9), 2);
    reg.reap();
    assert_eq!(reg.live_count(9), 1);
    assert!(matches!(reg.recv(h1), RecvOutcome::Gone));
}

#[test]
fn reap_drops_orders_left_without_channels() {
    let mut reg = Registry::new(4);
    let h = reg.subscribe(3, snapshot(3, "s0"));
    assert_eq!(reg.live_count(3), 1);
    reg.disconnect(h);
    reg.reap();
    assert_eq!(reg.live_count(3), 0);
}

#[test]
fn example_scenario_for_one_order() {
    let mut reg = Registry::new(8);
    assert_eq!(reg.live_count(7), 0);
    // the first subscriber arrives and immediately sees the current state
    let h1 = reg.subscribe(7, snapshot(7, "s0"));
    assert_eq!(recv_tag(&mut reg, h1), "s0");
    // a mutation is published; the subscriber sees it next
    reg.publish(7, &snapshot(7, "s1"));
    assert_eq!(recv_tag(&mut reg, h1), "s1");
    // a second subscriber arrives and sees the current state, not the old one
    let h2 = reg.subscribe(7, snapshot(7, "s1"));
    assert_eq!(recv_tag(&mut reg, h2), "s1");
    // the next update reaches both
    reg.publish(7, &snapshot(7, "s2"));
    assert_eq!(recv_tag(&mut reg, h1), "s2");
    assert_eq!(recv_tag(&mut reg, h2), "s2");
    // the first connection drops; one reap later its channel is gone
    reg.disconnect(h1);
    reg.reap();
    assert_eq!(reg.live_count(7), 1);
}

#[test]
fn handles_are_never_reused() {
    let mut reg = Registry::new(4);
    let h1 = reg.subscribe(1, snapshot(1, "s0"));
    reg.disconnect(h1);
    reg.reap();
    let h2 = reg.subscribe(1, snapshot(1, "s1"));
    assert_ne!(h1, h2);
}
