// The library-backed responder, exercised through real protocol messages.

use hickory_proto::op::{Message, MessageType, OpCode, ResponseCode};
use hickory_proto::rr::rdata::A;
use hickory_proto::rr::{Name, RData, RecordType};
use lan_dns::addr::Ipv4;
use lan_dns::dns::{handle_query, resolve};
use lan_dns::table::HostnameTable;

fn query_bytes(id: u16, name: &str) -> Vec<u8> {
    let mut msg = Message::new(id, MessageType::Query, OpCode::Query);
    msg.add_query(hickory_proto::op::Query::query(
        Name::from_utf8(name).unwrap(),
        RecordType::A,
    ));
    msg.to_vec().unwrap()
}

#[test]
fn hit_answers_with_the_stored_a_record() {
    let mut table = HostnameTable::new();
    table.insert(b"alice.internal".to_vec(), Ipv4::new(10, 0, 0, 2));

    let q = query_bytes(0x1234, "alice.internal.");
    let r = handle_query(&table, &q).unwrap();
    let resp = Message::from_vec(&r).unwrap();

    assert_eq!(resp.metadata.id, 0x1234);
    assert_eq!(resp.metadata.message_type, MessageType::Response);
    assert_eq!(resp.metadata.response_code, ResponseCode::NoError);
    assert!(resp.metadata.recursion_available);
    assert_eq!(resp.answers.len(), 1);
    let answer = &resp.answers[0];
    assert_eq!(answer.ttl, 60);
    assert_eq!(answer.data, RData::A(A::new(10, 0, 0, 2)));
    assert_eq!(answer.name.to_utf8(), "alice.internal.");
}

#[test]
fn miss_answers_name_does_not_exist() {
    let mut table = HostnameTable::new();
    table.insert(b"alice.internal".to_vec(), Ipv4::new(10, 0, 0, 2));

    let q = query_bytes(0x4321, "bob.internal.");
    let r = handle_query(&table, &q).unwrap();
    let resp = Message::from_vec(&r).unwrap();

    assert_eq!(resp.metadata.id, 0x4321);
    assert_eq!(resp.metadata.response_code, ResponseCode::NXDomain);
    assert_eq!(resp.answers.len(), 0);
}

#[test]
fn undecodable_buffer_gets_no_reply() {
    let table = HostnameTable::new();
    assert!(handle_query(&table, &[]).is_none());
    assert!(handle_query(&table, &[0xff; 5]).is_none());
}

#[test]
fn resolve_strips_one_trailing_dot() {
    let mut table = HostnameTable::new();
    table.insert(b"alice.internal".to_vec(), Ipv4::new(10, 0, 0, 2));
    assert_eq!(
        resolve(&table, b"alice.internal.".to_vec()),
        Some(Ipv4::new(10, 0, 0, 2))
    );
    assert_eq!(
        resolve(&table, b"alice.internal".to_vec()),
        Some(Ipv4::new(10, 0, 0, 2))
    );
    // Only one dot is stripped: the table is keyed without it.
    assert_eq!(resolve(&table, b"alice.internal..".to_vec()), None);
    assert_eq!(resolve(&table, b"bob.internal.".to_vec()), None);
}
