//! IPv4 addresses as four plain octets, with the dotted-decimal text form
//! used on the wire. Only IPv4 is supported end to end: compact peer records
//! are fixed-width IPv4 entries, so peers whose address cannot be read as an
//! IPv4 literal are rejected at resolution time rather than carried opaquely.

use vstd::prelude::*;
use crate::ascii::{all_digits, dec_digits, dec_val, parse_u64, spec_split, split_bytes, u64_to_dec};

verus! {

/// An IPv4 address, one field per octet of the dotted-decimal form.
#[derive(Clone, Copy, PartialEq, Eq, Structural, Debug)]
pub struct Ipv4Addr {
    pub o0: u8,
    pub o1: u8,
    pub o2: u8,
    pub o3: u8,
}

/// Dotted-decimal text of `a`, e.g. `88.88.88.88`.
pub open spec fn spec_ipv4_text(a: Ipv4Addr) -> Seq<u8> {
    dec_digits(a.o0 as nat) + seq![46u8] + dec_digits(a.o1 as nat) + seq![46u8] + dec_digits(
        a.o2 as nat,
    ) + seq![46u8] + dec_digits(a.o3 as nat)
}

/// A dotted-decimal piece that names one octet: non-empty, all digits, value
/// at most 255. Leading zeros are tolerated.
pub open spec fn valid_octet(s: Seq<u8>) -> bool {
    s.len() > 0 && all_digits(s) && dec_val(s) <= 255
}

/// The address denoted by `s`, when `s` splits on dots into exactly four
/// valid octet pieces; `None` otherwise.
pub open spec fn spec_parse_ipv4(s: Seq<u8>) -> Option<Ipv4Addr> {
    let parts = spec_split(s, 46);
    if parts.len() == 4 && valid_octet(parts[0]) && valid_octet(parts[1]) && valid_octet(parts[2])
        && valid_octet(parts[3]) {
        Some(
            Ipv4Addr {
                o0: dec_val(parts[0]) as u8,
                o1: dec_val(parts[1]) as u8,
                o2: dec_val(parts[2]) as u8,
                o3: dec_val(parts[3]) as u8,
            },
        )
    } else {
        None
    }
}

impl Ipv4Addr {
    /// Renders the address in dotted-decimal form.
    pub fn text(&self) -> (r: Vec<u8>)
        ensures
            r@ == spec_ipv4_text(*self),
    {
        let mut r = u64_to_dec(self.o0 as u64);
        r.push(46);
        let mut p1 = u64_to_dec(self.o1 as u64);
        r.append(&mut p1);
        r.push(46);
        let mut p2 = u64_to_dec(self.o2 as u64);
        r.append(&mut p2);
        r.push(46);
        let mut p3 = u64_to_dec(self.o3 as u64);
        r.append(&mut p3);
        proof {
            assert(r@ =~= spec_ipv4_text(*self));
        }
        r
    }
}

/// Reads a dotted-decimal IPv4 literal.
pub fn parse_ipv4(s: &Vec<u8>) -> (r: Option<Ipv4Addr>)
    ensures
        r == spec_parse_ipv4(s@),
{
    let parts = split_bytes(s, 46);
    let ghost sparts = spec_split(s@, 46);
    if parts.len() != 4 {
        return None;
    }
    let mut octets: [u8; 4] = [0, 0, 0, 0];
    let mut k: usize = 0;
    while k < 4
        invariant
            0 <= k <= 4,
            sparts == spec_split(s@, 46),
            parts@.map_values(|v: Vec<u8>| v@) == sparts,
            parts@.len() == 4,
            forall|j: int| 0 <= j < k ==> valid_octet(sparts[j]),
            forall|j: int| 0 <= j < k ==> octets@[j] == dec_val(sparts[j]),
        decreases 4 - k,
    {
        assert(parts@[k as int]@ == sparts[k as int]);
        match parse_u64(&parts[k]) {
            Some(v) => {
                if v > 255 {
                    proof {
                        assert(!valid_octet(sparts[k as int]));
                    }
                    return None;
                }
                octets[k] = v as u8;
            },
            None => {
                proof {
                    assert(!valid_octet(sparts[k as int]));
                }
                return None;
            },
        }
        k = k + 1;
    }
    Some(Ipv4Addr { o0: octets[0], o1: octets[1], o2: octets[2], o3: octets[3] })
}

} // verus!
