use livestream_build::relay::{Hub, MsgType, ReadOutcome, QUEUE_DEPTH};

fn msg(sender: u64, payload: &str) -> MsgType {
    MsgType { sender, payload: payload.to_string() }
}

fn hub_of(peers: usize) -> (Hub, Vec<u64>) {
    let mut hub = Hub::new();
    let ids = (0..peers).map(|_| hub.accept().unwrap()).collect();
    (hub, ids)
}

#[test]
fn queue_depth_is_ten() {
    assert_eq!(QUEUE_DEPTH, 10);
}

#[test]
fn new_hub_is_empty() {
    let mut hub = Hub::new();
    assert_eq!(hub.subscriber_count(), 0);
    assert!(!hub.is_subscribed(0));
    assert_eq!(hub.waiting(0), 0);
    assert_eq!(hub.poll(0), None);
    assert!(hub.publish(0, "nobody hears this\n"));
    assert_eq!(hub.subscriber_count(), 0);
}

#[test]
fn accept_gives_each_peer_a_new_identity() {
    let mut hub = Hub::new();
    assert_eq!(hub.accept(), Some(0));
    assert_eq!(hub.accept(), Some(1));
    assert!(hub.unsubscribe(0));
    assert!(hub.unsubscribe(1));
    assert_eq!(hub.accept(), Some(2));
    assert_eq!(hub.subscriber_count(), 1);
    assert!(hub.is_subscribed(2));
    assert!(!hub.is_subscribed(0));
    assert!(!hub.is_subscribed(3));
}

#[test]
fn publish_reaches_everyone_but_the_sender() {
    let (mut hub, ids) = hub_of(5);
    assert_eq!(ids, vec![0, 1, 2, 3, 4]);
    assert!(hub.publish(3, "hello\n"));
    for id in ids {
        if id == 3 {
            assert_eq!(hub.waiting(id), 0);
            assert_eq!(hub.poll(id), None);
        } else {
            assert_eq!(hub.waiting(id), 1);
            assert_eq!(hub.poll(id), Some(msg(3, "hello\n")));
            assert_eq!(hub.poll(id), None);
        }
    }
}

#[test]
fn publish_from_a_stranger_reaches_all() {
    let (mut hub, _) = hub_of(2);
    assert!(hub.publish(99, "x"));
    assert_eq!(hub.poll(0), Some(msg(99, "x")));
    assert_eq!(hub.poll(1), Some(msg(99, "x")));
}

#[test]
fn poll_hands_lines_out_oldest_first() {
    let (mut hub, _) = hub_of(3);
    hub.publish(0, "a\n");
    hub.publish(2, "b\n");
    hub.publish(0, "c\n");
    assert_eq!(hub.waiting(1), 3);
    assert_eq!(hub.poll(1), Some(msg(0, "a\n")));
    assert_eq!(hub.waiting(1), 2);
    assert_eq!(hub.poll(1), Some(msg(2, "b\n")));
    assert_eq!(hub.poll(1), Some(msg(0, "c\n")));
    assert_eq!(hub.poll(1), None);
    assert_eq!(hub.poll(0), Some(msg(2, "b\n")));
    assert_eq!(hub.poll(0), None);
    assert_eq!(hub.waiting(2), 2);
}

#[test]
fn a_full_queue_drops_for_that_peer_only() {
    let (mut hub, _) = hub_of(3);
    for k in 0..10 {
        assert!(hub.publish(0, &format!("{}\n", k)));
    }
    assert_eq!(hub.waiting(1), 10);
    assert_eq!(hub.waiting(2), 10);
    for k in 0..4 {
        assert_eq!(hub.poll(2), Some(msg(0, &format!("{}\n", k))));
    }
    assert!(!hub.publish(0, "late\n"));
    assert_eq!(hub.waiting(1), 10);
    assert_eq!(hub.waiting(2), 7);
    for k in 0..10 {
        assert_eq!(hub.poll(1), Some(msg(0, &format!("{}\n", k))));
    }
    assert_eq!(hub.poll(1), None);
    for k in 4..10 {
        assert_eq!(hub.poll(2), Some(msg(0, &format!("{}\n", k))));
    }
    assert_eq!(hub.poll(2), Some(msg(0, "late\n")));
}

#[test]
fn a_full_queue_of_the_sender_does_not_count_as_a_miss() {
    let (mut hub, _) = hub_of(2);
    for _ in 0..10 {
        hub.publish(1, "x\n");
    }
    assert_eq!(hub.waiting(0), 10);
    assert!(hub.publish(0, "y\n"));
    assert_eq!(hub.waiting(0), 10);
    assert_eq!(hub.waiting(1), 1);
}

#[test]
fn a_leaving_peer_changes_nothing_for_the_others() {
    let (mut hub, _) = hub_of(3);
    hub.publish(0, "before\n");
    assert!(hub.unsubscribe(1));
    assert!(!hub.unsubscribe(1));
    assert!(!hub.is_subscribed(1));
    assert_eq!(hub.subscriber_count(), 2);
    hub.publish(0, "after\n");
    assert_eq!(hub.poll(2), Some(msg(0, "before\n")));
    assert_eq!(hub.poll(2), Some(msg(0, "after\n")));
    assert_eq!(hub.poll(2), None);
    assert_eq!(hub.poll(1), None);
    assert_eq!(hub.waiting(0), 0);
}

#[test]
fn a_late_peer_starts_empty() {
    let (mut hub, _) = hub_of(2);
    hub.publish(0, "x\n");
    let late = hub.accept().unwrap();
    assert_eq!(late, 2);
    assert_eq!(hub.waiting(late), 0);
    assert_eq!(hub.waiting(1), 1);
}

#[test]
fn an_empty_read_closes_the_peer() {
    let (mut hub, _) = hub_of(2);
    assert_eq!(hub.line_read(0, "hello\n"), ReadOutcome::Published { complete: true });
    assert_eq!(hub.line_read(0, ""), ReadOutcome::Closed);
    assert!(!hub.is_subscribed(0));
    assert!(hub.is_subscribed(1));
    assert_eq!(hub.poll(1), Some(msg(0, "hello\n")));
}

#[test]
fn a_bare_newline_is_published() {
    let (mut hub, _) = hub_of(2);
    assert_eq!(hub.line_read(0, "\n"), ReadOutcome::Published { complete: true });
    assert_eq!(hub.poll(1), Some(msg(0, "\n")));
}

#[test]
fn a_read_reports_a_missed_delivery() {
    let (mut hub, _) = hub_of(2);
    for _ in 0..10 {
        assert_eq!(hub.line_read(0, "x\n"), ReadOutcome::Published { complete: true });
    }
    assert_eq!(hub.line_read(0, "x\n"), ReadOutcome::Published { complete: false });
    assert_eq!(hub.waiting(1), 10);
}

#[test]
fn a_fragment_is_not_published() {
    let (mut hub, _) = hub_of(2);
    assert_eq!(hub.line_read(0, "{\"Offer\":\"v="), ReadOutcome::Fragment);
    assert!(hub.is_subscribed(0));
    assert_eq!(hub.waiting(1), 0);
    assert_eq!(hub.poll(1), None);
}

#[test]
fn a_fragment_is_not_glued_to_the_next_line() {
    let (mut hub, ids) = hub_of(3);
    let (i, j, k) = (ids[0], ids[1], ids[2]);
    assert_eq!(hub.line_read(i, "{\"Offer\":\"v="), ReadOutcome::Fragment);
    assert_eq!(hub.line_read(i, ""), ReadOutcome::Closed);
    assert_eq!(
        hub.line_read(k, "{\"Answer\":\"x\"}\n"),
        ReadOutcome::Published { complete: true }
    );
    let mut written = String::new();
    while let Some(m) = hub.poll(j) {
        written.push_str(&m.payload);
    }
    assert_eq!(written, "{\"Answer\":\"x\"}\n");
}

#[test]
fn a_line_feed_inside_the_text_does_not_make_a_line() {
    let (mut hub, _) = hub_of(2);
    assert_eq!(hub.line_read(0, "a\nb"), ReadOutcome::Fragment);
    assert_eq!(hub.line_read(0, "a\nb\n"), ReadOutcome::Published { complete: true });
    assert_eq!(hub.poll(1), Some(msg(0, "a\nb\n")));
}
