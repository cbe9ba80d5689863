//! A minimal DNS responder, built directly on the wire format.
//!
//! A query is a 12-byte header followed by one question: length-prefixed
//! labels ended by a zero-length label, then a 2-byte type and a 2-byte
//! class. A malformed buffer never gets a reply; a well-formed one always
//! does, a single A record on a hit and a name-does-not-exist answer on a
//! miss.

use vstd::prelude::*;
use crate::addr::Ipv4;
use crate::bytes::append_range;
use crate::table::HostnameTable;

verus! {

/// Where the zero-length label ending the question name sits, walking the
/// length-prefixed labels from `pos`; `None` if a length field would run
/// past the buffer.
pub open spec fn name_end(q: Seq<u8>, pos: int) -> Option<int>
    decreases q.len() - pos,
{
    if pos < 0 || pos >= q.len() {
        None
    } else if q[pos] == 0 {
        Some(pos)
    } else if pos + 1 + q[pos] > q.len() {
        None
    } else {
        name_end(q, pos + 1 + q[pos])
    }
}

/// The question name from `pos`: its labels joined with `.`.
pub open spec fn name_bytes(q: Seq<u8>, pos: int) -> Seq<u8>
    decreases q.len() - pos,
{
    if pos < 0 || pos >= q.len() || q[pos] == 0 || pos + 1 + q[pos] > q.len() {
        Seq::empty()
    } else {
        let label = q.subrange(pos + 1, pos + 1 + q[pos]);
        let rest = pos + 1 + q[pos];
        if rest < q.len() && q[rest] != 0 {
            label + seq![46u8] + name_bytes(q, rest)
        } else {
            label
        }
    }
}

/// A buffer this responder answers: full header, a nonempty question name
/// whose labels stay inside the buffer, and the 4 type/class bytes present.
pub open spec fn valid_query(q: Seq<u8>) -> bool {
    &&& q.len() >= 12
    &&& name_end(q, 12) is Some
    &&& q[12] != 0
    &&& name_end(q, 12).unwrap() + 5 <= q.len()
}

/// The hostname a valid query asks for.
pub open spec fn query_name(q: Seq<u8>) -> Seq<u8> {
    name_bytes(q, 12)
}

/// One past the question section: zero label, type and class included.
pub open spec fn question_end(q: Seq<u8>) -> int {
    name_end(q, 12).unwrap() + 5
}

/// The reply to a valid query whose name resolved to `ip`: the request's
/// id and question echoed, response flags set, one A record of TTL 60.
pub open spec fn hit_response(q: Seq<u8>, ip: Ipv4) -> Seq<u8> {
    seq![q[0], q[1], 0x81u8, 0x80u8, q[4], q[5], 0u8, 1u8, 0u8, 0u8, 0u8, 0u8]
        + q.subrange(12, question_end(q))
        + seq![0xc0u8, 0x0cu8, 0u8, 1u8, 0u8, 1u8, 0u8, 0u8, 0u8, 0x3cu8, 0u8, 4u8]
        + ip.octets()
}

/// The reply to a valid query whose name is absent: response code
/// name-does-not-exist, no answer records.
pub open spec fn nx_response(q: Seq<u8>) -> Seq<u8> {
    seq![q[0], q[1], 0x81u8, 0x83u8, q[4], q[5], 0u8, 0u8, 0u8, 0u8, 0u8, 0u8]
        + q.subrange(12, question_end(q))
}

/// Reads the question name at `pos`: the dotted name and the position of
/// the closing zero label.
fn read_name(query: &[u8], pos: usize) -> (r: Option<(Vec<u8>, usize)>)
    ensures
        match r {
            Some(p) => {
                &&& name_end(query@, pos as int) == Some(p.1 as int)
                &&& p.0@ == name_bytes(query@, pos as int)
                &&& pos <= p.1 < query@.len()
            },
            None => name_end(query@, pos as int) is None,
        },
    decreases query@.len() - pos,
{
    if pos >= query.len() {
        return None;
    }
    let l = query[pos] as usize;
    if l == 0 {
        return Some((Vec::new(), pos));
    }
    if l >= query.len() - pos {
        return None;
    }
    match read_name(query, pos + 1 + l) {
        None => None,
        Some((tail, z)) => {
            let mut name: Vec<u8> = Vec::new();
            append_range(&mut name, query, pos + 1, pos + 1 + l);
            if tail.len() > 0 {
                name.push(46);
                let mut t = tail;
                name.append(&mut t);
            } else {
                proof {
                    assert(query@[pos + 1 + l] == 0) by {
                        if query@[pos + 1 + l] != 0 {
                            assert(name_bytes(query@, pos + 1 + l).len() > 0);
                        }
                    }
                }
            }
            Some((name, z))
        },
    }
}

/// Parses a query buffer: returns its question name, or `None` for any
/// buffer that `valid_query` rejects.
pub fn parse_dns_query(query: &[u8]) -> (r: Option<Vec<u8>>)
    ensures
        match r {
            Some(name) => valid_query(query@) && name@ == query_name(query@),
            None => !valid_query(query@),
        },
{
    if query.len() < 12 {
        return None;
    }
    match read_name(query, 12) {
        None => None,
        Some((name, z)) => {
            if name.len() == 0 {
                proof {
                    assert(query@[12] == 0) by {
                        if query@[12] != 0 {
                            assert(name_bytes(query@, 12).len() > 0);
                        }
                    }
                }
                return None;
            }
            if z <= query.len() - 5 {
                proof {
                    assert(query@[12] != 0) by {
                        if query@[12] == 0 {
                            assert(name_bytes(query@, 12).len() == 0);
                        }
                    }
                }
                Some(name)
            } else {
                None
            }
        },
    }
}

/// One past the question section of a valid query.
pub fn find_question_end(query: &[u8]) -> (r: usize)
    requires
        valid_query(query@),
    ensures
        r == question_end(query@),
        17 <= r <= query@.len(),
{
    let mut pos: usize = 12;
    while pos < query.len() && query[pos] != 0
        invariant
            12 <= pos <= query@.len(),
            name_end(query@, pos as int) == name_end(query@, 12),
            name_end(query@, 12) is Some,
            name_end(query@, 12).unwrap() + 5 <= query@.len(),
        decreases query@.len() - pos,
    {
        let l = query[pos] as usize;
        proof {
            assert(pos + 1 + l <= query@.len()) by {
                assert(name_end(query@, pos as int) is Some);
            }
        }
        pos = pos + 1 + l;
    }
    proof {
        assert(pos < query@.len() && query@[pos as int] == 0) by {
            if pos >= query@.len() {
                assert(name_end(query@, pos as int) is None);
            }
        }
        assert(name_end(query@, pos as int) == Some(pos as int));
    }
    pos + 5
}

/// Builds the success reply: the request's header copied with the answer
/// flags set, the question echoed, one A record with TTL 60 and `ip`.
pub fn build_dns_response(query: &[u8], ip: Ipv4) -> (r: Vec<u8>)
    requires
        valid_query(query@),
    ensures
        r@ == hit_response(query@, ip),
{
    let qe = find_question_end(query);
    let mut r: Vec<u8> = Vec::new();
    r.push(query[0]);
    r.push(query[1]);
    r.push(0x81);
    r.push(0x80);
    r.push(query[4]);
    r.push(query[5]);
    r.push(0);
    r.push(1);
    r.push(0);
    r.push(0);
    r.push(0);
    r.push(0);
    append_range(&mut r, query, 12, qe);
    r.push(0xc0);
    r.push(0x0c);
    r.push(0);
    r.push(1);
    r.push(0);
    r.push(1);
    r.push(0);
    r.push(0);
    r.push(0);
    r.push(0x3c);
    r.push(0);
    r.push(4);
    r.push(ip.a);
    r.push(ip.b);
    r.push(ip.c);
    r.push(ip.d);
    proof {
        assert(r@ =~= hit_response(query@, ip));
    }
    r
}

/// Builds the name-does-not-exist reply: header echoed with the response
/// code set, the question echoed, zero answer records.
pub fn build_nx_response(query: &[u8]) -> (r: Vec<u8>)
    requires
        valid_query(query@),
    ensures
        r@ == nx_response(query@),
{
    let qe = find_question_end(query);
    let mut r: Vec<u8> = Vec::new();
    r.push(query[0]);
    r.push(query[1]);
    r.push(0x81);
    r.push(0x83);
    r.push(query[4]);
    r.push(query[5]);
    r.push(0);
    r.push(0);
    r.push(0);
    r.push(0);
    r.push(0);
    r.push(0);
    append_range(&mut r, query, 12, qe);
    proof {
        assert(r@ =~= nx_response(query@));
    }
    r
}

/// Answers one query buffer against the table: no reply for a malformed
/// buffer, the stored A record on a hit, name-does-not-exist on a miss.
pub fn handle_query(table: &HostnameTable, query: &[u8]) -> (r: Option<Vec<u8>>)
    requires
        table.wf(),
    ensures
        !valid_query(query@) ==> r is None,
        valid_query(query@) && table@.contains_key(query_name(query@)) ==> {
            &&& r is Some
            &&& r.unwrap()@ == hit_response(query@, table@[query_name(query@)])
        },
        valid_query(query@) && !table@.contains_key(query_name(query@)) ==> {
            &&& r is Some
            &&& r.unwrap()@ == nx_response(query@)
        },
{
    match parse_dns_query(query) {
        None => None,
        Some(name) => match table.lookup(name.as_slice()) {
            Some(ip) => Some(build_dns_response(query, ip)),
            None => Some(build_nx_response(query)),
        },
    }
}

} // verus!
