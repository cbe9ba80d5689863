// The announcement codec and the two receive steps.

use lan_dns::addr::Ipv4;
use lan_dns::p2p::{
    apply_bare_announcement, decode_announcement, encode_announcement, fqdn_of,
    handle_announcement, Announcement,
};
use lan_dns::table::HostnameTable;

#[test]
fn encoding_is_the_documented_text() {
    let ann = Announcement { hostname: b"alice.internal".to_vec(), ip: Ipv4::new(10, 0, 0, 2) };
    assert_eq!(encode_announcement(&ann), b"alice.internal 10.0.0.2".to_vec());
    let ann2 = Announcement { hostname: b"r".to_vec(), ip: Ipv4::new(255, 0, 10, 192) };
    assert_eq!(encode_announcement(&ann2), b"r 255.0.10.192".to_vec());
}

#[test]
fn round_trip_returns_the_original() {
    let ann = Announcement { hostname: b"alice.internal".to_vec(), ip: Ipv4::new(10, 0, 0, 2) };
    let bytes = encode_announcement(&ann);
    let back = decode_announcement(&bytes).unwrap();
    assert_eq!(back.hostname, ann.hostname);
    assert_eq!(back.ip, ann.ip);
}

#[test]
fn round_trip_at_the_octet_edges() {
    for ip in [
        Ipv4::new(0, 0, 0, 0),
        Ipv4::new(255, 255, 255, 255),
        Ipv4::new(9, 10, 99, 100),
        Ipv4::new(1, 2, 3, 4),
    ] {
        let ann = Announcement { hostname: b"h.internal".to_vec(), ip };
        let back = decode_announcement(&encode_announcement(&ann)).unwrap();
        assert_eq!(back.hostname, ann.hostname);
        assert_eq!(back.ip, ann.ip);
    }
}

#[test]
fn decode_rejects_malformed_payloads() {
    assert!(decode_announcement(b"").is_none());
    assert!(decode_announcement(b"no-space").is_none());
    assert!(decode_announcement(b" 10.0.0.2").is_none()); // empty hostname
    assert!(decode_announcement(b"h ").is_none());
    assert!(decode_announcement(b"h 10.0.0").is_none()); // three octets
    assert!(decode_announcement(b"h 10.0.0.2.3").is_none()); // five octets
    assert!(decode_announcement(b"h 256.0.0.1").is_none()); // octet too large
    assert!(decode_announcement(b"h 10.0.0.2x").is_none()); // trailing bytes
    assert!(decode_announcement(b"h 10..0.2").is_none());
}

#[test]
fn fqdn_appends_the_domain_suffix() {
    assert_eq!(fqdn_of(b"bob"), b"bob.internal".to_vec());
}

#[test]
fn scenario_bare_announcement_from_source() {
    // The announcer hears the bare string "bob" from source 10.0.0.3.
    let mut table = HostnameTable::new();
    apply_bare_announcement(&mut table, b"bob", Ipv4::new(10, 0, 0, 3));
    assert_eq!(table.lookup(b"bob.internal"), Some(Ipv4::new(10, 0, 0, 3)));
}

#[test]
fn scenario_latest_announcement_wins() {
    // Two announcements for alice arrive in sequence from different
    // addresses; the table reflects the one processed last.
    let mut table = HostnameTable::new();
    assert!(handle_announcement(&mut table, b"alice.internal 10.0.0.2"));
    assert!(handle_announcement(&mut table, b"alice.internal 10.0.0.9"));
    assert_eq!(table.lookup(b"alice.internal"), Some(Ipv4::new(10, 0, 0, 9)));
    assert_eq!(table.len(), 1);
}

#[test]
fn rejected_payload_changes_nothing() {
    let mut table = HostnameTable::new();
    assert!(handle_announcement(&mut table, b"alice.internal 10.0.0.2"));
    assert!(!handle_announcement(&mut table, b"garbage"));
    assert_eq!(table.len(), 1);
    assert_eq!(table.lookup(b"alice.internal"), Some(Ipv4::new(10, 0, 0, 2)));
}
