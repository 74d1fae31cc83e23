use netraffic::{Direction, Filter, PacketHeader, Snapshot};

#[test]
fn filter_new_defaults_to_both_directions_and_immediate_mode() {
    let filter = Filter::new(String::from("eth0"), String::from("port 443"));
    assert_eq!(filter.device, "eth0");
    assert_eq!(filter.rule, "port 443");
    assert_eq!(filter.direction, Direction::InOut);
    assert!(filter.immediate_mode);
}

#[test]
fn filter_fields_can_be_changed_before_registration() {
    let mut filter = Filter::new(String::from("eth0"), String::from("port 443"));
    filter.direction = Direction::Out;
    filter.immediate_mode = false;
    let copy = filter.clone();
    assert_eq!(copy.direction, Direction::Out);
    assert!(!copy.immediate_mode);
    assert_eq!(copy.rule, "port 443");
}

#[test]
fn snapshot_default_is_all_zero() {
    let snapshot = Snapshot::default();
    assert_eq!(snapshot, Snapshot { total: 0, len: 0, timestamp: 0 });
}

#[test]
fn packet_header_keeps_length_and_seconds() {
    let header = PacketHeader::new(1500, 1_700_000_000);
    assert_eq!(header.len, 1500);
    assert_eq!(header.seconds, 1_700_000_000);
}

#[test]
fn packet_header_wraps_negative_seconds() {
    assert_eq!(PacketHeader::new(1, -1).seconds, u64::MAX);
    assert_eq!(PacketHeader::new(1, -2).seconds, u64::MAX - 1);
    assert_eq!(PacketHeader::new(1, i64::MIN).seconds, 1u64 << 63);
    assert_eq!(PacketHeader::new(1, i64::MIN).seconds, i64::MIN as u64);
    assert_eq!(PacketHeader::new(1, 0).seconds, 0);
    assert_eq!(PacketHeader::new(1, i64::MAX).seconds, i64::MAX as u64);
}

#[test]
fn snapshot_plus_adds_total_and_seconds_and_replaces_len() {
    let start = Snapshot { total: 100, len: 40, timestamp: 7 };
    let next = start.plus(PacketHeader { len: 60, seconds: 5 });
    assert_eq!(next, Snapshot { total: 160, len: 60, timestamp: 12 });
    let last = next.plus(PacketHeader { len: 0, seconds: 0 });
    assert_eq!(last, Snapshot { total: 160, len: 0, timestamp: 12 });
}

#[test]
fn snapshot_fits_up_to_the_last_value() {
    let full = Snapshot { total: u64::MAX - 10, len: 0, timestamp: u64::MAX - 3 };
    assert!(full.fits(PacketHeader { len: 10, seconds: 3 }));
    assert!(!full.fits(PacketHeader { len: 11, seconds: 3 }));
    assert!(!full.fits(PacketHeader { len: 10, seconds: 4 }));
    let next = full.plus(PacketHeader { len: 10, seconds: 3 });
    assert_eq!(next.total, u64::MAX);
    assert_eq!(next.timestamp, u64::MAX);
    assert!(next.fits(PacketHeader { len: 0, seconds: 0 }));
    assert!(!next.fits(PacketHeader { len: 1, seconds: 0 }));
}
