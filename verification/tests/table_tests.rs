// The hostname table: visibility, idempotence, last write wins.

use lan_dns::addr::Ipv4;
use lan_dns::table::HostnameTable;

#[test]
fn insert_then_lookup_returns_the_address() {
    let mut t = HostnameTable::new();
    t.insert(b"laptop.internal".to_vec(), Ipv4::new(10, 0, 0, 7));
    assert_eq!(t.lookup(b"laptop.internal"), Some(Ipv4::new(10, 0, 0, 7)));
}

#[test]
fn lookup_of_absent_name_is_none() {
    let mut t = HostnameTable::new();
    assert_eq!(t.lookup(b"laptop.internal"), None);
    t.insert(b"laptop.internal".to_vec(), Ipv4::new(10, 0, 0, 7));
    assert_eq!(t.lookup(b"desk.internal"), None);
    assert_eq!(t.lookup(b""), None);
}

#[test]
fn double_insert_is_idempotent() {
    let mut once = HostnameTable::new();
    once.insert(b"a.internal".to_vec(), Ipv4::new(10, 0, 0, 1));

    let mut twice = HostnameTable::new();
    twice.insert(b"a.internal".to_vec(), Ipv4::new(10, 0, 0, 1));
    twice.insert(b"a.internal".to_vec(), Ipv4::new(10, 0, 0, 1));

    assert_eq!(once.len(), twice.len());
    assert_eq!(once.lookup(b"a.internal"), twice.lookup(b"a.internal"));
}

#[test]
fn later_insert_overwrites() {
    let mut t = HostnameTable::new();
    t.insert(b"a.internal".to_vec(), Ipv4::new(10, 0, 0, 1));
    t.insert(b"a.internal".to_vec(), Ipv4::new(10, 0, 0, 9));
    assert_eq!(t.lookup(b"a.internal"), Some(Ipv4::new(10, 0, 0, 9)));
    assert_eq!(t.len(), 1);
}

#[test]
fn distinct_names_coexist() {
    let mut t = HostnameTable::new();
    t.insert(b"a.internal".to_vec(), Ipv4::new(10, 0, 0, 1));
    t.insert(b"b.internal".to_vec(), Ipv4::new(10, 0, 0, 2));
    assert_eq!(t.len(), 2);
    assert_eq!(t.lookup(b"a.internal"), Some(Ipv4::new(10, 0, 0, 1)));
    assert_eq!(t.lookup(b"b.internal"), Some(Ipv4::new(10, 0, 0, 2)));
}
