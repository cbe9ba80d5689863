//! Peer announcements: the facts peers gossip to each other.
//!
//! Two payload shapes exist among deployments. The structured shape is a
//! text record `hostname a.b.c.d`, carrying the fully qualified hostname
//! and the address it claims; the bare shape is the short hostname alone,
//! the address taken from the datagram's source and a fixed domain suffix
//! appended before the fact is stored. Either way a payload that fails to
//! decode changes nothing.

use vstd::prelude::*;
use vstd::arithmetic::div_mod::lemma_fundamental_div_mod;
use crate::addr::Ipv4;
use crate::bytes::append_range;
use crate::table::HostnameTable;

verus! {

/// One gossiped fact: a hostname and the IPv4 address that owns it.
pub struct Announcement {
    pub hostname: Vec<u8>,
    pub ip: Ipv4,
}

/// A hostname the structured codec can carry: nonempty, with no space.
pub open spec fn sendable(h: Seq<u8>) -> bool {
    h.len() > 0 && forall|i: int| 0 <= i < h.len() ==> h[i] != 32u8
}

impl Announcement {
    pub open spec fn wf(&self) -> bool {
        sendable(self.hostname@)
    }
}

/// The decimal digits of an octet, most significant first, no leading zero.
pub open spec fn dec_digits(n: u8) -> Seq<u8> {
    let v = n as int;
    if v < 10 {
        seq![(48 + v) as u8]
    } else if v < 100 {
        seq![(48 + v / 10) as u8, (48 + v % 10) as u8]
    } else {
        seq![(48 + (v / 10) / 10) as u8, (48 + (v / 10) % 10) as u8, (48 + v % 10) as u8]
    }
}

/// The wire bytes of an announcement: hostname, one space, the address in
/// dotted decimal.
pub open spec fn encode_spec(h: Seq<u8>, ip: Ipv4) -> Seq<u8> {
    h + seq![32u8] + dec_digits(ip.a) + seq![46u8] + dec_digits(ip.b) + seq![46u8]
        + dec_digits(ip.c) + seq![46u8] + dec_digits(ip.d)
}

/// The first space at or after `i`.
pub open spec fn first_space(s: Seq<u8>, i: int) -> Option<int>
    decreases s.len() - i,
{
    if i < 0 || i >= s.len() {
        None
    } else if s[i] == 32u8 {
        Some(i)
    } else {
        first_space(s, i + 1)
    }
}

pub open spec fn is_digit(b: u8) -> bool {
    48 <= b <= 57
}

/// Reads an octet at `i`: up to three decimal digits, greedily, value at
/// most 255. Returns the value and the position after the digits.
pub open spec fn parse_octet(s: Seq<u8>, i: int) -> Option<(u8, int)> {
    if i < 0 || i >= s.len() || !is_digit(s[i]) {
        None
    } else {
        let d1 = s[i] - 48;
        if i + 1 < s.len() && is_digit(s[i + 1]) {
            let d2 = s[i + 1] - 48;
            if i + 2 < s.len() && is_digit(s[i + 2]) {
                let v = d1 * 100 + d2 * 10 + (s[i + 2] - 48);
                if v <= 255 {
                    Some(((v as u8), i + 3))
                } else {
                    None
                }
            } else {
                Some((((d1 * 10 + d2) as u8), i + 2))
            }
        } else {
            Some(((d1 as u8), i + 1))
        }
    }
}

/// Reads a dotted-decimal address filling the rest of the buffer.
pub open spec fn parse_ip(s: Seq<u8>, i: int) -> Option<Ipv4> {
    match parse_octet(s, i) {
        None => None,
        Some((a, j)) => if j < s.len() && s[j] == 46u8 {
            match parse_octet(s, j + 1) {
                None => None,
                Some((b, k)) => if k < s.len() && s[k] == 46u8 {
                    match parse_octet(s, k + 1) {
                        None => None,
                        Some((c, l)) => if l < s.len() && s[l] == 46u8 {
                            match parse_octet(s, l + 1) {
                                None => None,
                                Some((d, m)) => if m == s.len() {
                                    Some(Ipv4 { a, b, c, d })
                                } else {
                                    None
                                },
                            }
                        } else {
                            None
                        },
                    }
                } else {
                    None
                },
            }
        } else {
            None
        },
    }
}

/// What a payload decodes to: the bytes before the first space as the
/// hostname, the rest as a dotted-decimal address.
pub open spec fn decode_spec(s: Seq<u8>) -> Option<(Seq<u8>, Ipv4)> {
    match first_space(s, 0) {
        None => None,
        Some(sp) => if sp == 0 {
            None
        } else {
            match parse_ip(s, sp + 1) {
                None => None,
                Some(ip) => Some((s.subrange(0, sp), ip)),
            }
        },
    }
}

/// Appends the decimal digits of `n`.
fn push_decimal(v: &mut Vec<u8>, n: u8)
    ensures
        final(v)@ == old(v)@ + dec_digits(n),
{
    if n < 10 {
        v.push(48 + n);
    } else if n < 100 {
        proof {
            lemma_fundamental_div_mod(n as int, 10);
        }
        v.push(48 + n / 10);
        v.push(48 + n % 10);
    } else {
        proof {
            lemma_fundamental_div_mod(n as int, 10);
            lemma_fundamental_div_mod((n as int) / 10, 10);
        }
        v.push(48 + (n / 10) / 10);
        v.push(48 + (n / 10) % 10);
        v.push(48 + n % 10);
    }
    proof {
        assert(v@ =~= old(v)@ + dec_digits(n));
    }
}

/// Encodes an announcement as its wire bytes.
pub fn encode_announcement(ann: &Announcement) -> (r: Vec<u8>)
    ensures
        r@ == encode_spec(ann.hostname@, ann.ip),
{
    let mut r: Vec<u8> = Vec::new();
    append_range(&mut r, ann.hostname.as_slice(), 0, ann.hostname.len());
    r.push(32);
    push_decimal(&mut r, ann.ip.a);
    r.push(46);
    push_decimal(&mut r, ann.ip.b);
    r.push(46);
    push_decimal(&mut r, ann.ip.c);
    r.push(46);
    push_decimal(&mut r, ann.ip.d);
    proof {
        assert(r@ =~= encode_spec(ann.hostname@, ann.ip));
    }
    r
}

/// Reads an octet of the wire form at `i`.
fn parse_octet_at(buf: &[u8], i: usize) -> (r: Option<(u8, usize)>)
    ensures
        match r {
            Some(p) => parse_octet(buf@, i as int) == Some((p.0, p.1 as int)) && p.1
                <= buf@.len(),
            None => parse_octet(buf@, i as int) is None,
        },
{
    if i >= buf.len() {
        return None;
    }
    let b1 = buf[i];
    if !(48 <= b1 && b1 <= 57) {
        return None;
    }
    let d1 = b1 - 48;
    if i + 1 < buf.len() && 48 <= buf[i + 1] && buf[i + 1] <= 57 {
        let d2 = buf[i + 1] - 48;
        if i + 2 < buf.len() && 48 <= buf[i + 2] && buf[i + 2] <= 57 {
            let d3 = buf[i + 2] - 48;
            let v: u16 = d1 as u16 * 100 + d2 as u16 * 10 + d3 as u16;
            if v <= 255 {
                Some((v as u8, i + 3))
            } else {
                None
            }
        } else {
            Some((d1 * 10 + d2, i + 2))
        }
    } else {
        Some((d1, i + 1))
    }
}

/// Reads the dotted-decimal address filling `buf` from `i` on.
fn parse_ip_at(buf: &[u8], i: usize) -> (r: Option<Ipv4>)
    ensures
        r == parse_ip(buf@, i as int),
{
    let (a, j) = match parse_octet_at(buf, i) {
        None => { return None; },
        Some(p) => p,
    };
    if !(j < buf.len() && buf[j] == 46) {
        return None;
    }
    let (b, k) = match parse_octet_at(buf, j + 1) {
        None => { return None; },
        Some(p) => p,
    };
    if !(k < buf.len() && buf[k] == 46) {
        return None;
    }
    let (c, l) = match parse_octet_at(buf, k + 1) {
        None => { return None; },
        Some(p) => p,
    };
    if !(l < buf.len() && buf[l] == 46) {
        return None;
    }
    let (d, m) = match parse_octet_at(buf, l + 1) {
        None => { return None; },
        Some(p) => p,
    };
    if m != buf.len() {
        return None;
    }
    Some(Ipv4 { a, b, c, d })
}

/// Decodes a payload, or returns `None` for any byte buffer that is not
/// the wire form of an announcement.
pub fn decode_announcement(buf: &[u8]) -> (r: Option<Announcement>)
    ensures
        match r {
            Some(ann) => decode_spec(buf@) == Some((ann.hostname@, ann.ip)) && ann.wf(),
            None => decode_spec(buf@) is None,
        },
{
    let n = buf.len();
    let mut i: usize = 0;
    while i < n && buf[i] != 32
        invariant
            i <= n,
            n == buf@.len(),
            first_space(buf@, 0) == first_space(buf@, i as int),
            forall|j: int| 0 <= j < i ==> buf@[j] != 32u8,
        decreases n - i,
    {
        i += 1;
    }
    if i >= n {
        return None;
    }
    let sp = i;
    if sp == 0 {
        return None;
    }
    match parse_ip_at(buf, sp + 1) {
        None => None,
        Some(ip) => {
            let mut hostname: Vec<u8> = Vec::new();
            append_range(&mut hostname, buf, 0, sp);
            proof {
                assert(hostname@ =~= buf@.subrange(0, sp as int));
            }
            Some(Announcement { hostname, ip })
        },
    }
}

proof fn lemma_first_space_from(s: Seq<u8>, i: int, sp: int)
    requires
        0 <= i <= sp < s.len(),
        s[sp] == 32u8,
        forall|j: int| i <= j < sp ==> s[j] != 32u8,
    ensures
        first_space(s, i) == Some(sp),
    decreases sp - i,
{
    if i < sp {
        lemma_first_space_from(s, i + 1, sp);
    }
}

proof fn lemma_parse_octet_exact(s: Seq<u8>, i: int, n: u8)
    requires
        0 <= i,
        i + dec_digits(n).len() <= s.len(),
        s.subrange(i, i + dec_digits(n).len()) == dec_digits(n),
        i + dec_digits(n).len() == s.len() || !is_digit(s[i + dec_digits(n).len()]),
    ensures
        parse_octet(s, i) == Some((n, i + dec_digits(n).len())),
{
    let v = n as int;
    let dd = dec_digits(n);
    let e = i + dd.len();
    assert(s[i] == dd[0]) by {
        assert(s.subrange(i, e)[0] == s[i + 0]);
    }
    if dd.len() >= 2 {
        assert(s[i + 1] == dd[1]) by {
            assert(s.subrange(i, e)[1] == s[i + 1]);
        }
    }
    if dd.len() >= 3 {
        assert(s[i + 2] == dd[2]) by {
            assert(s.subrange(i, e)[2] == s[i + 2]);
        }
    }
    if v < 10 {
        assert(s[i] == (48 + v) as u8);
    } else if v < 100 {
        lemma_fundamental_div_mod(v, 10);
        assert(1 <= v / 10 <= 9);
        assert(s[i] == (48 + v / 10) as u8);
        assert(s[i + 1] == (48 + v % 10) as u8);
        assert((s[i] - 48) * 10 + (s[i + 1] - 48) == v);
    } else {
        let t = v / 10;
        lemma_fundamental_div_mod(v, 10);
        lemma_fundamental_div_mod(t, 10);
        assert(10 <= t <= 25);
        assert(1 <= t / 10 <= 2);
        assert(s[i] == (48 + t / 10) as u8);
        assert(s[i + 1] == (48 + t % 10) as u8);
        assert(s[i + 2] == (48 + v % 10) as u8);
        assert((s[i] - 48) * 100 + (s[i + 1] - 48) * 10 + (s[i + 2] - 48) == v);
    }
}

/// Round trip: decoding what `encode_announcement` produced gives back the
/// hostname and the address unchanged, for every sendable hostname.
pub proof fn lemma_announcement_round_trip(h: Seq<u8>, ip: Ipv4)
    requires
        sendable(h),
    ensures
        decode_spec(encode_spec(h, ip)) == Some((h, ip)),
{
    let s = encode_spec(h, ip);
    let hl = h.len() as int;
    let da = dec_digits(ip.a);
    let db = dec_digits(ip.b);
    let dc = dec_digits(ip.c);
    let dd = dec_digits(ip.d);
    let pa = hl + 1;
    let pb = pa + da.len() + 1;
    let pc = pb + db.len() + 1;
    let pd = pc + dc.len() + 1;
    assert(s[hl] == 32u8);
    assert(forall|j: int| 0 <= j < hl ==> s[j] == h[j]);
    lemma_first_space_from(s, 0, hl);
    assert(s.subrange(pa, pa + da.len()) =~= da);
    assert(s[pa + da.len()] == 46u8);
    lemma_parse_octet_exact(s, pa, ip.a);
    assert(s.subrange(pb, pb + db.len()) =~= db);
    assert(s[pb + db.len()] == 46u8);
    lemma_parse_octet_exact(s, pb, ip.b);
    assert(s.subrange(pc, pc + dc.len()) =~= dc);
    assert(s[pc + dc.len()] == 46u8);
    lemma_parse_octet_exact(s, pc, ip.c);
    assert(s.subrange(pd, pd + dd.len()) =~= dd);
    assert(pd + dd.len() == s.len());
    lemma_parse_octet_exact(s, pd, ip.d);
    assert(parse_ip(s, hl + 1) == Some(ip));
    assert(s.subrange(0, hl) =~= h);
}

/// The domain suffix appended to bare hostnames before they are stored.
pub open spec fn domain_suffix() -> Seq<u8> {
    seq![46u8, 105u8, 110u8, 116u8, 101u8, 114u8, 110u8, 97u8, 108u8]
}

/// The fully qualified form of a short hostname: the fixed domain suffix
/// appended.
pub fn fqdn_of(hostname: &[u8]) -> (r: Vec<u8>)
    ensures
        r@ == hostname@ + domain_suffix(),
{
    let mut r: Vec<u8> = Vec::new();
    append_range(&mut r, hostname, 0, hostname.len());
    r.push(46);
    r.push(105);
    r.push(110);
    r.push(116);
    r.push(101);
    r.push(114);
    r.push(110);
    r.push(97);
    r.push(108);
    proof {
        assert(r@ =~= hostname@ + domain_suffix());
    }
    r
}

/// The receive step for a bare payload: the short hostname from the
/// datagram, the address from its source; stores the fully qualified name.
pub fn apply_bare_announcement(table: &mut HostnameTable, hostname: &[u8], source: Ipv4)
    requires
        old(table).wf(),
    ensures
        final(table).wf(),
        final(table)@ == old(table)@.insert(hostname@ + domain_suffix(), source),
{
    let name = fqdn_of(hostname);
    table.insert(name, source);
}

/// The receive step for a structured payload: a payload that decodes is
/// stored under the hostname it carries, which is already fully
/// qualified; one that does not leaves the table untouched.
pub fn handle_announcement(table: &mut HostnameTable, buf: &[u8]) -> (accepted: bool)
    requires
        old(table).wf(),
    ensures
        final(table).wf(),
        match decode_spec(buf@) {
            None => !accepted && final(table)@ == old(table)@,
            Some(p) => accepted && final(table)@ == old(table)@.insert(p.0, p.1),
        },
{
    match decode_announcement(buf) {
        None => false,
        Some(ann) => {
            table.insert(ann.hostname, ann.ip);
            true
        },
    }
}

} // verus!
