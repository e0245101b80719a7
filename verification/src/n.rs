//! Network-layer types: the network-service-access-point address, the
//! network-service quality-of-service code, and the inbound unit-data
//! indication primitive.
use vstd::prelude::*;

pub mod clnp;

verus! {

/// A network service access point address: authority, area, sub-area and a
/// six-byte subnetwork (hardware) address. Immutable value; its wire encoding
/// is exactly twelve bytes, the three numeric fields big-endian.
#[derive(Debug, Clone, Copy)]
pub struct Nsap {
    pub authority: u16,
    pub area: u16,
    pub sub_area: u16,
    pub local_address: [u8; 6],
}

/// The twelve-byte wire form of an NSAP: authority, area and sub-area as
/// big-endian sixteen-bit fields, then the six raw subnetwork address bytes.
pub open spec fn spec_nsap_bytes(n: Nsap) -> Seq<u8> {
    clnp::spec_u16_be(n.authority) + clnp::spec_u16_be(n.area) + clnp::spec_u16_be(n.sub_area)
        + n.local_address@
}

impl Nsap {
    /// Building an NSAP from a free-form network entity title is not part of
    /// the supported protocol subset.
    pub fn new_from_network_entity_title(network_entity_title: String) -> (r: Result<
        Nsap,
        clnp::ClnpError,
    >)
        ensures
            r is Err && r->Err_0 == clnp::ClnpError::NotImplemented,
    {
        Err(clnp::ClnpError::NotImplemented)
    }

    /// Length of the wire encoding.
    pub fn len(&self) -> (r: usize)
        ensures
            r == spec_nsap_bytes(*self).len(),
    {
        proof {
            assert(spec_nsap_bytes(*self).len() == 12);
        }
        12
    }

    /// Encodes the address into its twelve-byte wire form.
    pub fn to_u8(&self) -> (r: Vec<u8>)
        ensures
            r@ == spec_nsap_bytes(*self),
    {
        let mut buffer: Vec<u8> = Vec::with_capacity(12);
        buffer.push(clnp::u16_hi(self.authority));
        buffer.push(clnp::u16_lo(self.authority));
        buffer.push(clnp::u16_hi(self.area));
        buffer.push(clnp::u16_lo(self.area));
        buffer.push(clnp::u16_hi(self.sub_area));
        buffer.push(clnp::u16_lo(self.sub_area));
        let mut i: usize = 0;
        while i < 6
            invariant
                i <= 6,
                buffer@.len() == 6 + i,
                buffer@ == clnp::spec_u16_be(self.authority) + clnp::spec_u16_be(self.area)
                    + clnp::spec_u16_be(self.sub_area) + self.local_address@.take(i as int),
            decreases 6 - i,
        {
            buffer.push(self.local_address[i]);
            proof {
                assert(self.local_address@.take(i + 1 as int) == self.local_address@.take(
                    i as int,
                ).push(self.local_address@[i as int]));
            }
            i = i + 1;
        }
        proof {
            assert(self.local_address@.take(6) == self.local_address@);
        }
        buffer
    }

    /// The canonical dotted display form: authority, area and sub-area in
    /// decimal, then the physical address in lower-case hexadecimal.
    pub fn to_string(&self) -> (r: String)
        ensures
            r@ == spec_nsap_display(*self),
    {
        let mut s = dec_u16(self.authority);
        proof {
            reveal_strlit(".");
            assert("."@ =~= seq!['.']);
        }
        s.append(".");
        let area = dec_u16(self.area);
        s.append(area.as_str());
        s.append(".");
        let sub_area = dec_u16(self.sub_area);
        s.append(sub_area.as_str());
        s.append(".");
        let ghost prefix = s@;
        let mut i: usize = 0;
        while i < 6
            invariant
                i <= 6,
                s@ == prefix + spec_hex_bytes(self.local_address@.take(i as int)),
            decreases 6 - i,
        {
            let b = self.local_address[i];
            let hi = hex_digit_str(b / 16);
            let lo = hex_digit_str(b % 16);
            s.append(hi.as_str());
            s.append(lo.as_str());
            proof {
                assert(self.local_address@.take(i + 1).drop_last() =~= self.local_address@.take(
                    i as int,
                ));
                assert(s@ =~= prefix + spec_hex_bytes(self.local_address@.take(i + 1)));
            }
            i = i + 1;
        }
        proof {
            assert(self.local_address@.take(6) =~= self.local_address@);
            assert(s@ =~= spec_nsap_display(*self));
        }
        s
    }
}

/// The character of one decimal digit.
pub open spec fn spec_digit_char(d: nat) -> char {
    if d == 0 {
        '0'
    } else if d == 1 {
        '1'
    } else if d == 2 {
        '2'
    } else if d == 3 {
        '3'
    } else if d == 4 {
        '4'
    } else if d == 5 {
        '5'
    } else if d == 6 {
        '6'
    } else if d == 7 {
        '7'
    } else if d == 8 {
        '8'
    } else {
        '9'
    }
}

/// The character of one hexadecimal digit, lower case.
pub open spec fn spec_hex_char(d: nat) -> char {
    if d < 10 {
        spec_digit_char(d)
    } else if d == 10 {
        'a'
    } else if d == 11 {
        'b'
    } else if d == 12 {
        'c'
    } else if d == 13 {
        'd'
    } else if d == 14 {
        'e'
    } else {
        'f'
    }
}

/// A number in decimal, most significant digit first, no leading zeroes.
pub open spec fn spec_dec_digits(n: nat) -> Seq<char>
    decreases n,
{
    if n < 10 {
        seq![spec_digit_char(n)]
    } else {
        spec_dec_digits(n / 10) + seq![spec_digit_char(n % 10)]
    }
}

/// Bytes as hexadecimal, two lower-case digits each, no separators.
pub open spec fn spec_hex_bytes(s: Seq<u8>) -> Seq<char>
    decreases s.len(),
{
    if s.len() == 0 {
        Seq::empty()
    } else {
        spec_hex_bytes(s.drop_last()) + seq![
            spec_hex_char((s.last() / 16) as nat),
            spec_hex_char((s.last() % 16) as nat),
        ]
    }
}

/// The canonical dotted display form of an NSAP:
/// `authority.area.sub_area.` followed by the physical address in
/// hexadecimal.
pub open spec fn spec_nsap_display(n: Nsap) -> Seq<char> {
    spec_dec_digits(n.authority as nat) + seq!['.'] + spec_dec_digits(n.area as nat) + seq!['.']
        + spec_dec_digits(n.sub_area as nat) + seq!['.'] + spec_hex_bytes(n.local_address@)
}

/// One decimal digit as a string.
fn digit_str(d: u8) -> (r: String)
    requires
        d < 10,
    ensures
        r@ == seq![spec_digit_char(d as nat)],
{
    let r = if d == 0 {
        proof {
            reveal_strlit("0");
        }
        "0"
    } else if d == 1 {
        proof {
            reveal_strlit("1");
        }
        "1"
    } else if d == 2 {
        proof {
            reveal_strlit("2");
        }
        "2"
    } else if d == 3 {
        proof {
            reveal_strlit("3");
        }
        "3"
    } else if d == 4 {
        proof {
            reveal_strlit("4");
        }
        "4"
    } else if d == 5 {
        proof {
            reveal_strlit("5");
        }
        "5"
    } else if d == 6 {
        proof {
            reveal_strlit("6");
        }
        "6"
    } else if d == 7 {
        proof {
            reveal_strlit("7");
        }
        "7"
    } else if d == 8 {
        proof {
            reveal_strlit("8");
        }
        "8"
    } else {
        proof {
            reveal_strlit("9");
        }
        "9"
    };
    proof {
        assert(r@ =~= seq![spec_digit_char(d as nat)]);
    }
    r.to_owned()
}

/// One hexadecimal digit as a string, lower case.
fn hex_digit_str(d: u8) -> (r: String)
    requires
        d < 16,
    ensures
        r@ == seq![spec_hex_char(d as nat)],
{
    if d < 10 {
        digit_str(d)
    } else {
        let r = if d == 10 {
            proof {
                reveal_strlit("a");
            }
            "a"
        } else if d == 11 {
            proof {
                reveal_strlit("b");
            }
            "b"
        } else if d == 12 {
            proof {
                reveal_strlit("c");
            }
            "c"
        } else if d == 13 {
            proof {
                reveal_strlit("d");
            }
            "d"
        } else if d == 14 {
            proof {
                reveal_strlit("e");
            }
            "e"
        } else {
            proof {
                reveal_strlit("f");
            }
            "f"
        };
        proof {
            assert(r@ =~= seq![spec_hex_char(d as nat)]);
        }
        r.to_owned()
    }
}

/// A sixteen-bit number in decimal.
fn dec_u16(n: u16) -> (r: String)
    ensures
        r@ == spec_dec_digits(n as nat),
    decreases n,
{
    if n < 10 {
        digit_str(n as u8)
    } else {
        let mut s = dec_u16(n / 10);
        let last = digit_str((n % 10) as u8);
        s.append(last.as_str());
        s
    }
}

/// Network-service quality-of-service code.
#[derive(Debug)]
pub struct Qos {}

/// One received frame crossing from the subnetwork layer up to the network
/// layer: subnetwork point-of-attachment addresses and the raw PDU bytes.
#[derive(Debug)]
pub struct NUnitDataIndication {
    pub ns_source_address: [u8; 6],
    pub ns_destination_address: [u8; 6],
    pub ns_quality_of_service: Qos,
    pub ns_userdata: Vec<u8>,
}

impl NUnitDataIndication {
    /// Mathematical content of the indication: source, destination, payload bytes.
    pub open spec fn model(&self) -> (Seq<u8>, Seq<u8>, Seq<u8>) {
        (self.ns_source_address@, self.ns_destination_address@, self.ns_userdata@)
    }
}

} // verus!
