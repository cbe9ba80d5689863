//! IPv4 addresses, held as their four octets.

use vstd::prelude::*;

verus! {

/// An IPv4 address: four octets in network order.
#[derive(Clone, Copy, PartialEq, Eq, Structural, Debug)]
pub struct Ipv4 {
    pub a: u8,
    pub b: u8,
    pub c: u8,
    pub d: u8,
}

impl Ipv4 {
    /// The four octets in network order, as a byte sequence.
    pub open spec fn octets(self) -> Seq<u8> {
        seq![self.a, self.b, self.c, self.d]
    }

    pub fn new(a: u8, b: u8, c: u8, d: u8) -> (r: Ipv4)
        ensures
            r == (Ipv4 { a, b, c, d }),
    {
        Ipv4 { a, b, c, d }
    }
}

} // verus!
