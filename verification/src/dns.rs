//! A DNS responder built on a full protocol library.
//!
//! Where `simple_dns` reads the wire format itself, this responder hands
//! parsing and response building to hickory_proto and keeps only the
//! decision in verified code: which hostname the query asks for, after
//! the conventional trailing dot is stripped, and whether the table
//! resolves it.

use vstd::prelude::*;
use hickory_proto::op::{Message, Metadata, ResponseCode};
use hickory_proto::rr::RData;
use hickory_proto::rr::rdata::A;
use hickory_proto::rr::Record;
use crate::addr::Ipv4;
use crate::table::HostnameTable;

verus! {

/// The question name of the first query in a buffer, in UTF-8 with the
/// library's trailing-dot convention, or nothing if the buffer does not
/// decode as a query message.
pub uninterp spec fn proto_query_name(q: Seq<u8>) -> Option<Seq<u8>>;

/// The response bytes the library builds for a request: its id and
/// question echoed, recursion available, one A record `a.b.c.d` of TTL 60.
pub uninterp spec fn proto_hit_response(q: Seq<u8>, a: u8, b: u8, c: u8, d: u8) -> Option<
    Seq<u8>,
>;

/// The response bytes the library builds for a request whose name does
/// not exist: its id and question echoed, no answers, response code
/// name-does-not-exist.
pub uninterp spec fn proto_nx_response(q: Seq<u8>) -> Option<Seq<u8>>;

/// Relies on hickory_proto's Message::from_vec and Name::to_utf8: the
/// first query's name, a function of the buffer bytes alone.
#[verifier::external_body]
fn proto_parse_name(query: &[u8]) -> (r: Option<Vec<u8>>)
    ensures
        match r {
            Some(v) => proto_query_name(query@) == Some(v@),
            None => proto_query_name(query@) is None,
        },
{
    let msg = Message::from_vec(query).ok()?;
    let q = msg.queries.first()?;
    Some(q.name().to_utf8().into_bytes())
}

/// Relies on hickory_proto's Message::from_vec, Record::from_rdata and
/// Message::to_vec: the success response for the request, one A record;
/// deterministic in the request bytes and the four octets.
#[verifier::external_body]
fn proto_build_hit(query: &[u8], a: u8, b: u8, c: u8, d: u8) -> (r: Option<Vec<u8>>)
    ensures
        match r {
            Some(v) => proto_hit_response(query@, a, b, c, d) == Some(v@),
            None => proto_hit_response(query@, a, b, c, d) is None,
        },
{
    let request = Message::from_vec(query).ok()?;
    let q = request.queries.first()?.clone();
    let mut resp = Message::response(request.metadata.id, request.metadata.op_code);
    resp.metadata = Metadata::response_from_request(&request.metadata);
    resp.metadata.recursion_available = true;
    let rec = Record::from_rdata(q.name().clone(), 60, RData::A(A::new(a, b, c, d)));
    resp.queries.push(q);
    resp.answers.push(rec);
    resp.to_vec().ok()
}

/// Relies on the same hickory_proto calls: the name-does-not-exist
/// response for the request, no answers; deterministic in the request.
#[verifier::external_body]
fn proto_build_nx(query: &[u8]) -> (r: Option<Vec<u8>>)
    ensures
        match r {
            Some(v) => proto_nx_response(query@) == Some(v@),
            None => proto_nx_response(query@) is None,
        },
{
    let request = Message::from_vec(query).ok()?;
    let q = request.queries.first()?.clone();
    let mut resp = Message::response(request.metadata.id, request.metadata.op_code);
    resp.metadata = Metadata::response_from_request(&request.metadata);
    resp.metadata.recursion_available = true;
    resp.metadata.response_code = ResponseCode::NXDomain;
    resp.queries.push(q);
    resp.to_vec().ok()
}

/// `s` with one trailing dot stripped, if it ends in one.
pub open spec fn strip_dot(s: Seq<u8>) -> Seq<u8> {
    if s.len() > 0 && s[s.len() - 1] == 46u8 {
        s.drop_last()
    } else {
        s
    }
}

/// Looks a query name up in the table, stripping the one trailing dot a
/// fully qualified query name conventionally ends in: the table is keyed
/// without it.
pub fn resolve(table: &HostnameTable, name: Vec<u8>) -> (r: Option<Ipv4>)
    requires
        table.wf(),
    ensures
        r == if table@.contains_key(strip_dot(name@)) {
            Some(table@[strip_dot(name@)])
        } else {
            None::<Ipv4>
        },
{
    let mut n = name;
    if n.len() > 0 && n[n.len() - 1] == 46 {
        n.pop();
        proof {
            assert(n@ =~= strip_dot(name@));
        }
    }
    table.lookup(n.as_slice())
}

/// Answers one query buffer against the table: no reply for a buffer the
/// library cannot decode, the stored A record on a hit, the
/// name-does-not-exist response on a miss.
pub fn handle_query(table: &HostnameTable, query: &[u8]) -> (r: Option<Vec<u8>>)
    requires
        table.wf(),
    ensures
        match proto_query_name(query@) {
            None => r is None,
            Some(name) => if table@.contains_key(strip_dot(name)) {
                match r {
                    Some(v) => proto_hit_response(
                        query@,
                        table@[strip_dot(name)].a,
                        table@[strip_dot(name)].b,
                        table@[strip_dot(name)].c,
                        table@[strip_dot(name)].d,
                    ) == Some(v@),
                    None => proto_hit_response(
                        query@,
                        table@[strip_dot(name)].a,
                        table@[strip_dot(name)].b,
                        table@[strip_dot(name)].c,
                        table@[strip_dot(name)].d,
                    ) is None,
                }
            } else {
                match r {
                    Some(v) => proto_nx_response(query@) == Some(v@),
                    None => proto_nx_response(query@) is None,
                }
            },
        },
{
    match proto_parse_name(query) {
        None => None,
        Some(name) => match resolve(table, name) {
            Some(ip) => proto_build_hit(query, ip.a, ip.b, ip.c, ip.d),
            None => proto_build_nx(query),
        },
    }
}

} // verus!
