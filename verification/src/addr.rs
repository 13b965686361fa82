//! IPv4 addresses, held as their four octets.
use vstd::prelude::*;
use crate::text::{decimal, decimal_string, push_char};

verus! {

/// An IPv4 address.
#[derive(Clone, Copy, Debug, PartialEq, Eq, Structural)]
pub struct Ipv4Addr {
    a: u8,
    b: u8,
    c: u8,
    d: u8,
}

impl View for Ipv4Addr {
    type V = Seq<u8>;

    /// The four octets, most significant first.
    closed spec fn view(&self) -> Seq<u8> {
        seq![self.a, self.b, self.c, self.d]
    }
}

/// The dotted-decimal text of an address, such as `10.0.0.1`.
pub open spec fn dotted(octets: Seq<u8>) -> Seq<char> {
    decimal(octets[0] as nat) + seq!['.'] + decimal(octets[1] as nat) + seq!['.'] + decimal(
        octets[2] as nat,
    ) + seq!['.'] + decimal(octets[3] as nat)
}

impl Ipv4Addr {
    /// The address `a.b.c.d`.
    pub fn new(a: u8, b: u8, c: u8, d: u8) -> (r: Ipv4Addr)
        ensures
            r@ == seq![a, b, c, d],
    {
        Ipv4Addr { a, b, c, d }
    }

    /// The four octets, most significant first.
    pub fn octets(&self) -> (r: [u8; 4])
        ensures
            r@ == self@,
    {
        let r = [self.a, self.b, self.c, self.d];
        assert(r@ =~= self@);
        r
    }

    /// The dotted-decimal text of the address.
    pub fn to_text(&self) -> (r: String)
        ensures
            r@ == dotted(self@),
    {
        let mut out = decimal_string(self.a as u32);
        push_char(&mut out, '.');
        out.append(decimal_string(self.b as u32).as_str());
        push_char(&mut out, '.');
        out.append(decimal_string(self.c as u32).as_str());
        push_char(&mut out, '.');
        out.append(decimal_string(self.d as u32).as_str());
        assert(out@ =~= dotted(self@));
        out
    }
}

} // verus!
