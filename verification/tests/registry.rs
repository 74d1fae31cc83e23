use netraffic::{Filter, PacketHeader, Phase, Snapshot, Step, Traffic};

fn packet(len: u32, seconds: u64) -> PacketHeader {
    PacketHeader { len, seconds }
}

fn dns() -> Filter {
    Filter::new(String::from("any"), String::from("port 53"))
}

#[test]
fn test_get_data() {
    let mut traffic = Traffic::new();
    let id = traffic.add_listener(Filter::new(String::from("any"), String::from("port 53")));
    traffic.deliver(id, packet(74, 100));
    traffic.deliver(id, packet(60, 100));

    assert!(traffic.get_data().len() > 0);
    assert!(traffic.get_data().get("port 53").unwrap().len > 0);
    assert!(traffic.get_data().get("port 53").unwrap().total > 0);
    assert!(traffic.try_get_data().unwrap().len() > 0);
}

#[test]
fn test_suspend_resume_listener() {
    let rule = "port 53";
    let mut traffic = Traffic::new();
    let id = traffic.add_listener(Filter::new(String::from("any"), String::from(rule)));
    traffic.deliver(id, packet(74, 100));
    traffic.deliver(id, packet(60, 100));
    traffic.suspend_listener(rule.to_string());
    let total = traffic.get_data().get(rule).unwrap().total;
    assert_eq!(traffic.deliver(id, packet(74, 100)), Step::Wait);
    assert_eq!(traffic.deliver(id, packet(60, 100)), Step::Wait);
    assert_eq!(traffic.wake(id), Step::Wait);
    assert_eq!(traffic.get_data().get(rule).unwrap().total, total);
    traffic.resume_listener(rule.to_string());
    assert_eq!(traffic.wake(id), Step::Continue);
    assert_eq!(traffic.deliver(id, packet(60, 100)), Step::Publish);
    assert!(traffic.get_data().get(rule).unwrap().total > total);
}

#[test]
fn test_remove_listener() {
    let rule = "port 53";
    let mut traffic = Traffic::new();
    let id = traffic.add_listener(Filter::new(String::from("any"), String::from(rule)));
    traffic.deliver(id, packet(74, 100));
    traffic.deliver(id, packet(60, 100));
    traffic.remove_listener(rule.to_string());
    let length = traffic.get_data().get(rule).unwrap().len;
    assert_eq!(traffic.deliver(id, packet(1500, 100)), Step::Exit);
    assert_eq!(traffic.deliver(id, packet(1500, 100)), Step::Exit);
    assert_eq!(traffic.get_data().get(rule).unwrap().len, length);
}

#[test]
fn new_registry_is_empty() {
    let traffic = Traffic::new();
    assert_eq!(traffic.listeners(), 0);
    assert_eq!(traffic.get_data().len(), 0);
    assert!(traffic.listener(0).is_none());
    assert_eq!(traffic.route(&String::from("port 53")), None);
}

#[test]
fn entry_appears_with_the_second_packet() {
    let mut traffic = Traffic::new();
    let id = traffic.add_listener(dns());
    assert_eq!(id, 0);
    assert_eq!(traffic.get_data().get("port 53"), None);
    assert_eq!(traffic.deliver(id, packet(74, 1_000)), Step::Continue);
    assert_eq!(traffic.get_data().get("port 53"), None);
    assert_eq!(traffic.get_data().len(), 0);
    assert_eq!(traffic.deliver(id, packet(60, 1_001)), Step::Publish);
    assert_eq!(
        traffic.get_data().get("port 53"),
        Some(Snapshot { total: 134, len: 60, timestamp: 2_001 })
    );
}

#[test]
fn store_lags_the_worker_by_at_most_one_packet() {
    let mut traffic = Traffic::new();
    let id = traffic.add_listener(dns());
    traffic.deliver(id, packet(10, 1));
    traffic.deliver(id, packet(20, 2));
    assert_eq!(traffic.deliver(id, packet(30, 3)), Step::Continue);
    let worker = traffic.listener(id).unwrap().worker().snapshot();
    assert_eq!(worker, Snapshot { total: 60, len: 30, timestamp: 6 });
    assert_eq!(
        traffic.get_data().get("port 53"),
        Some(Snapshot { total: 30, len: 20, timestamp: 3 })
    );
    assert_eq!(traffic.deliver(id, packet(40, 4)), Step::Publish);
    assert_eq!(
        traffic.get_data().get("port 53"),
        Some(Snapshot { total: 100, len: 40, timestamp: 10 })
    );
}

#[test]
fn stop_after_an_odd_count_loses_the_last_packet() {
    let mut traffic = Traffic::new();
    let id = traffic.add_listener(dns());
    traffic.deliver(id, packet(10, 1));
    traffic.deliver(id, packet(20, 2));
    traffic.deliver(id, packet(30, 3));
    traffic.remove_listener(String::from("port 53"));
    assert_eq!(traffic.deliver(id, packet(40, 4)), Step::Exit);
    assert_eq!(traffic.listener(id).unwrap().worker().phase(), Phase::Stopped);
    assert_eq!(traffic.listener(id).unwrap().worker().count(), 3);
    assert_eq!(traffic.get_data().get("port 53").unwrap().total, 30);
}

#[test]
fn two_rules_are_counted_independently() {
    let mut traffic = Traffic::new();
    let web = traffic.add_listener(Filter::new(String::from("eth0"), String::from("port 443")));
    let local =
        traffic.add_listener(Filter::new(String::from("eth0"), String::from("src host 127.0.0.1")));
    assert_eq!((web, local), (0, 1));
    traffic.deliver(web, packet(1000, 5));
    traffic.deliver(local, packet(50, 5));
    traffic.deliver(web, packet(500, 6));
    assert_eq!(traffic.get_data().len(), 1);
    assert_eq!(traffic.get_data().get("port 443").unwrap().total, 1500);
    assert_eq!(traffic.get_data().get("src host 127.0.0.1"), None);
    traffic.deliver(local, packet(70, 6));
    assert_eq!(traffic.get_data().len(), 2);
    assert_eq!(traffic.get_data().get("port 443").unwrap().total, 1500);
    assert_eq!(
        traffic.get_data().get("src host 127.0.0.1"),
        Some(Snapshot { total: 120, len: 70, timestamp: 11 })
    );
    traffic.deliver(web, packet(1, 7));
    traffic.deliver(web, packet(1, 8));
    assert_eq!(traffic.get_data().get("port 443").unwrap().total, 1502);
    assert_eq!(traffic.get_data().get("src host 127.0.0.1").unwrap().total, 120);
}

#[test]
fn total_never_decreases_for_a_single_listener() {
    let mut traffic = Traffic::new();
    let id = traffic.add_listener(dns());
    let mut last = 0;
    for i in 0..20u32 {
        traffic.deliver(id, packet(i * 3, 1));
        if i == 7 {
            traffic.suspend_listener(String::from("port 53"));
        }
        if i == 11 {
            traffic.resume_listener(String::from("port 53"));
            traffic.wake(id);
        }
        if let Some(snapshot) = traffic.get_data().get("port 53") {
            assert!(snapshot.total >= last);
            last = snapshot.total;
        }
    }
    assert!(last > 0);
}

#[test]
fn signals_for_an_unknown_rule_do_nothing() {
    let mut traffic = Traffic::new();
    let id = traffic.add_listener(dns());
    traffic.remove_listener(String::from("port 80"));
    traffic.suspend_listener(String::from("port 80"));
    traffic.resume_listener(String::from("port 80"));
    assert_eq!(traffic.listener(id).unwrap().pending(), 0);
    assert_eq!(traffic.deliver(id, packet(10, 1)), Step::Continue);
    assert_eq!(traffic.deliver(id, packet(10, 1)), Step::Publish);
}

#[test]
fn signals_wait_in_order_until_polled() {
    let mut traffic = Traffic::new();
    let id = traffic.add_listener(dns());
    traffic.resume_listener(String::from("port 53"));
    traffic.suspend_listener(String::from("port 53"));
    traffic.remove_listener(String::from("port 53"));
    assert_eq!(traffic.listener(id).unwrap().pending(), 3);
    // the pending resume is taken first, so this packet is still counted
    assert_eq!(traffic.deliver(id, packet(10, 1)), Step::Continue);
    assert_eq!(traffic.listener(id).unwrap().pending(), 2);
    assert_eq!(traffic.deliver(id, packet(20, 1)), Step::Wait);
    assert_eq!(traffic.listener(id).unwrap().worker().phase(), Phase::Suspended);
    assert_eq!(traffic.wake(id), Step::Exit);
    assert_eq!(traffic.listener(id).unwrap().worker().phase(), Phase::Stopped);
    assert_eq!(traffic.listener(id).unwrap().worker().count(), 1);
    assert_eq!(traffic.get_data().len(), 0);
}

#[test]
fn signals_to_a_stopped_listener_are_dropped() {
    let mut traffic = Traffic::new();
    let id = traffic.add_listener(dns());
    traffic.remove_listener(String::from("port 53"));
    assert_eq!(traffic.deliver(id, packet(10, 1)), Step::Exit);
    traffic.resume_listener(String::from("port 53"));
    traffic.suspend_listener(String::from("port 53"));
    assert_eq!(traffic.listener(id).unwrap().pending(), 0);
    assert_eq!(traffic.wake(id), Step::Exit);
    assert_eq!(traffic.deliver(id, packet(10, 1)), Step::Exit);
    assert_eq!(traffic.listener(id).unwrap().worker().count(), 0);
}

#[test]
fn resume_of_a_running_listener_changes_nothing() {
    let mut with = Traffic::new();
    let mut without = Traffic::new();
    let a = with.add_listener(dns());
    let b = without.add_listener(dns());
    with.deliver(a, packet(10, 1));
    without.deliver(b, packet(10, 1));
    with.resume_listener(String::from("port 53"));
    assert_eq!(with.get_data().get("port 53"), without.get_data().get("port 53"));
    for i in 0..5u32 {
        assert_eq!(with.deliver(a, packet(i, 2)), without.deliver(b, packet(i, 2)));
        assert_eq!(with.wake(a), without.wake(b));
        assert_eq!(with.get_data().get("port 53"), without.get_data().get("port 53"));
        assert_eq!(
            with.listener(a).unwrap().worker().snapshot(),
            without.listener(b).unwrap().worker().snapshot()
        );
    }
    assert_eq!(with.get_data().get("port 53").unwrap().total, 10 + 0 + 1 + 2 + 3 + 4);
}

#[test]
fn suspended_listener_keeps_its_entry_until_resumed() {
    let mut traffic = Traffic::new();
    let id = traffic.add_listener(dns());
    let other = traffic.add_listener(Filter::new(String::from("any"), String::from("port 80")));
    traffic.deliver(id, packet(10, 1));
    traffic.deliver(id, packet(20, 2));
    traffic.suspend_listener(String::from("port 53"));
    let before = traffic.get_data().get("port 53");
    for i in 0..6u32 {
        traffic.deliver(id, packet(100 + i, 3));
        traffic.wake(id);
        traffic.deliver(other, packet(5, 3));
        traffic.resume_listener(String::from("port 80"));
        assert_eq!(traffic.get_data().get("port 53"), before);
    }
    assert_eq!(traffic.listener(id).unwrap().worker().count(), 2);
    assert_eq!(traffic.get_data().get("port 80").unwrap().total, 30);
    traffic.resume_listener(String::from("port 53"));
    // the packet held since the suspension is counted first
    assert_eq!(traffic.wake(id), Step::Continue);
    assert_eq!(traffic.listener(id).unwrap().worker().snapshot().total, 130);
    assert_eq!(traffic.deliver(id, packet(1, 4)), Step::Publish);
    assert_eq!(traffic.get_data().get("port 53").unwrap().total, 131);
}

#[test]
fn removed_listener_keeps_its_entry_for_good() {
    let mut traffic = Traffic::new();
    let id = traffic.add_listener(dns());
    traffic.deliver(id, packet(10, 1));
    traffic.deliver(id, packet(20, 2));
    traffic.remove_listener(String::from("port 53"));
    let before = traffic.get_data().get("port 53");
    assert_eq!(before, Some(Snapshot { total: 30, len: 20, timestamp: 3 }));
    for i in 0..6u32 {
        traffic.deliver(id, packet(100 + i, 3));
        traffic.wake(id);
        traffic.resume_listener(String::from("port 53"));
        traffic.suspend_listener(String::from("port 53"));
        assert_eq!(traffic.get_data().get("port 53"), before);
    }
    assert_eq!(traffic.listener(id).unwrap().worker().phase(), Phase::Stopped);
}

#[test]
fn removing_a_suspended_listener_stops_it() {
    let mut traffic = Traffic::new();
    let id = traffic.add_listener(dns());
    traffic.suspend_listener(String::from("port 53"));
    assert_eq!(traffic.deliver(id, packet(10, 1)), Step::Wait);
    traffic.remove_listener(String::from("port 53"));
    assert_eq!(traffic.wake(id), Step::Exit);
    assert_eq!(traffic.listener(id).unwrap().worker().phase(), Phase::Stopped);
    assert_eq!(traffic.listener(id).unwrap().worker().count(), 0);
}

#[test]
fn second_listener_for_a_rule_takes_over_the_signals() {
    let mut traffic = Traffic::new();
    let old = traffic.add_listener(dns());
    let new = traffic.add_listener(dns());
    assert_eq!((old, new), (0, 1));
    assert_eq!(traffic.route(&String::from("port 53")), Some(new));
    traffic.remove_listener(String::from("port 53"));
    assert_eq!(traffic.listener(old).unwrap().pending(), 0);
    assert_eq!(traffic.listener(new).unwrap().pending(), 1);
    // the new listener stops, the old one keeps running out of reach
    assert_eq!(traffic.deliver(new, packet(1, 1)), Step::Exit);
    assert_eq!(traffic.deliver(old, packet(10, 1)), Step::Continue);
    assert_eq!(traffic.deliver(old, packet(20, 1)), Step::Publish);
    assert_eq!(traffic.get_data().get("port 53").unwrap().total, 30);
    assert_eq!(traffic.listener(old).unwrap().worker().phase(), Phase::Running);
}

#[test]
fn listeners_of_one_rule_overwrite_each_other() {
    let mut traffic = Traffic::new();
    let old = traffic.add_listener(dns());
    let new = traffic.add_listener(dns());
    traffic.deliver(old, packet(1000, 1));
    traffic.deliver(old, packet(1000, 1));
    assert_eq!(traffic.get_data().get("port 53").unwrap().total, 2000);
    traffic.deliver(new, packet(1, 1));
    traffic.deliver(new, packet(1, 1));
    assert_eq!(traffic.get_data().get("port 53").unwrap().total, 2);
    assert_eq!(traffic.get_data().len(), 1);
}

#[test]
fn try_get_data_gives_what_get_data_gives() {
    let mut traffic = Traffic::new();
    assert_eq!(traffic.try_get_data().unwrap().len(), 0);
    let id = traffic.add_listener(dns());
    traffic.deliver(id, packet(10, 1));
    traffic.deliver(id, packet(20, 2));
    let quick = traffic.try_get_data().unwrap();
    let blocking = traffic.get_data();
    assert_eq!(quick.len(), 1);
    assert_eq!(quick.get("port 53"), blocking.get("port 53"));
    assert_eq!(quick.get("port 53"), Some(Snapshot { total: 30, len: 20, timestamp: 3 }));
}

#[test]
fn get_data_is_a_copy() {
    let mut traffic = Traffic::new();
    let id = traffic.add_listener(dns());
    traffic.deliver(id, packet(10, 1));
    traffic.deliver(id, packet(20, 2));
    let earlier = traffic.get_data();
    traffic.deliver(id, packet(30, 3));
    traffic.deliver(id, packet(40, 4));
    assert_eq!(earlier.get("port 53").unwrap().total, 30);
    assert_eq!(traffic.get_data().get("port 53").unwrap().total, 100);
}

#[test]
fn unknown_listener_is_not_driven() {
    let mut traffic = Traffic::new();
    traffic.add_listener(dns());
    assert!(traffic.can_deliver(5, packet(1, 1)));
    assert_eq!(traffic.deliver(5, packet(1, 1)), Step::Exit);
    assert_eq!(traffic.wake(5), Step::Exit);
    assert_eq!(traffic.close(5), Step::Exit);
    assert!(traffic.listener(5).is_none());
    assert_eq!(traffic.listeners(), 1);
    assert_eq!(traffic.get_data().len(), 0);
}

#[test]
fn capture_that_never_opened_publishes_nothing() {
    let mut traffic = Traffic::new();
    let id = traffic.add_listener(Filter::new(String::from("no-such-device"), String::from("tcp")));
    assert_eq!(traffic.close(id), Step::Exit);
    assert_eq!(traffic.listener(id).unwrap().worker().phase(), Phase::Stopped);
    assert_eq!(traffic.get_data().len(), 0);
    traffic.resume_listener(String::from("tcp"));
    assert_eq!(traffic.listener(id).unwrap().pending(), 0);
}

#[test]
fn capture_end_keeps_what_was_published() {
    let mut traffic = Traffic::new();
    let id = traffic.add_listener(dns());
    traffic.deliver(id, packet(10, 1));
    traffic.deliver(id, packet(20, 2));
    traffic.deliver(id, packet(30, 3));
    assert_eq!(traffic.close(id), Step::Exit);
    assert_eq!(traffic.deliver(id, packet(40, 4)), Step::Exit);
    assert_eq!(traffic.get_data().get("port 53").unwrap().total, 30);
}

#[test]
fn can_deliver_guards_the_counters() {
    let mut traffic = Traffic::new();
    let id = traffic.add_listener(dns());
    assert!(traffic.can_deliver(id, packet(u32::MAX, u64::MAX)));
    traffic.deliver(id, packet(u32::MAX, u64::MAX));
    assert!(!traffic.can_deliver(id, packet(1, 1)));
    assert!(traffic.can_deliver(id, packet(1, 0)));
    // a listener about to stop takes no packet, so any header is fine
    traffic.remove_listener(String::from("port 53"));
    assert!(traffic.can_deliver(id, packet(1, 1)));
    assert_eq!(traffic.deliver(id, packet(1, 1)), Step::Exit);
    assert!(traffic.can_deliver(id, packet(1, 1)));
}

#[test]
fn listener_knows_the_filter_it_was_registered_with() {
    let mut traffic = Traffic::new();
    let mut filter = Filter::new(String::from("en0"), String::from("port 5000 or tcp port 443"));
    filter.immediate_mode = false;
    let id = traffic.add_listener(filter);
    let kept = traffic.listener(id).unwrap().worker().filter();
    assert_eq!(kept.device, "en0");
    assert_eq!(kept.rule, "port 5000 or tcp port 443");
    assert!(!kept.immediate_mode);
}
