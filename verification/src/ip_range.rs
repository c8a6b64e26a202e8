use ipnetwork::Ipv4Network;
use std::str::FromStr;
use vstd::prelude::*;

verus! {

/// An IPv4 network as plain values: an address and the number of leading
/// bits that a member must share with it.
pub struct Cidr {
    pub addr: u32,
    pub prefix: u8,
}

/// The netmask of a prefix length: the `prefix` most significant bits set.
pub open spec fn mask_of(prefix: u8) -> u32 {
    if prefix == 0 {
        0u32
    } else if prefix >= 32 {
        0xffff_ffffu32
    } else {
        0xffff_ffffu32 << ((32 - prefix) as u32)
    }
}

/// Whether `addr` lies in the network `net`: both agree on the masked bits.
pub open spec fn cidr_contains(net: Cidr, addr: u32) -> bool {
    (addr & mask_of(net.prefix)) == (net.addr & mask_of(net.prefix))
}

/// The network with its host bits cleared.
pub open spec fn normalized(net: Cidr) -> Cidr {
    Cidr { addr: net.addr & mask_of(net.prefix), prefix: net.prefix }
}

/// A range of prefix length 0 holds every address.
pub proof fn lemma_prefix_zero_holds_all(addr: u32, other: u32)
    ensures
        cidr_contains(Cidr { addr, prefix: 0 }, other),
{
    assert((other & 0u32) == (addr & 0u32)) by (bit_vector);
}

/// A range of prefix length 32 holds its own address and no other.
pub proof fn lemma_prefix_32_holds_one(addr: u32, other: u32)
    ensures
        cidr_contains(Cidr { addr, prefix: 32 }, other) <==> other == addr,
{
    assert(((other & 0xffff_ffffu32) == (addr & 0xffff_ffffu32)) <==> other == addr)
        by (bit_vector);
}

/// A range and the range with its host bits cleared hold the same
/// addresses: ranges that are equal after that hold the same addresses.
pub proof fn lemma_normalized_holds_the_same(net: Cidr, other: u32)
    ensures
        cidr_contains(normalized(net), other) == cidr_contains(net, other),
        normalized(normalized(net)) == normalized(net),
{
    let mask = mask_of(net.prefix);
    let addr = net.addr;
    assert(((addr & mask) & mask) == (addr & mask)) by (bit_vector);
}

/// What `ipnetwork::Ipv4Network::from_str` reads from a text: the address as
/// a 32-bit number (first octet most significant) and the prefix length, or
/// `None` where it rejects the text.
pub uninterp spec fn cidr_parse(s: Seq<char>) -> Option<(u32, u8)>;

/// What `ipnetwork::Ipv4Network`'s `Display` writes for an address and a
/// prefix length.
pub uninterp spec fn cidr_text(addr: u32, prefix: u8) -> Seq<char>;

/// The range that a parsed address and prefix length stand for, if the
/// prefix length is one of 0 to 32.
pub open spec fn parsed_range(parsed: Option<(u32, u8)>) -> Option<Cidr> {
    match parsed {
        Some((addr, prefix)) => if prefix <= 32 {
            Some(Cidr { addr, prefix })
        } else {
            None
        },
        None => None,
    }
}

/// Calls `ipnetwork::Ipv4Network::from_str` and hands back the address and
/// the prefix length of the network it read. The contract only names that
/// result: the same text always reads the same.
#[verifier::external_body]
fn parse_ipv4_network(s: &str) -> (parsed: Option<(u32, u8)>)
    ensures
        parsed == cidr_parse(s@),
{
    match Ipv4Network::from_str(s) {
        Ok(network) => Some((u32::from(network.ip()), network.prefix())),
        Err(_) => None,
    }
}

/// Calls `ipnetwork::Ipv4Network::new` and the network's `Display`. The
/// contract names the text and claims that `Ipv4Network::from_str` reads the
/// same address and prefix length back from it: `Display` writes the address
/// in dotted decimal, a slash and the prefix length in decimal, which is the
/// form that `from_str` takes apart at the slash.
#[verifier::external_body]
fn format_ipv4_network(addr: u32, prefix: u8) -> (text: String)
    requires
        prefix <= 32,
    ensures
        text@ == cidr_text(addr, prefix),
        cidr_parse(text@) == Some((addr, prefix)),
{
    match Ipv4Network::new(addr.into(), prefix) {
        Ok(network) => network.to_string(),
        Err(_) => String::new(),
    }
}

/// An IPv4 network: an address and a prefix length from 0 to 32.
#[derive(Clone, Copy, Debug, PartialEq, Eq)]
pub struct IpRange {
    addr: u32,
    prefix: u8,
}

impl View for IpRange {
    type V = Cidr;

    closed spec fn view(&self) -> Cidr {
        Cidr { addr: self.addr, prefix: self.prefix }
    }
}

impl IpRange {
    #[verifier::type_invariant]
    spec fn valid(self) -> bool {
        self.prefix <= 32
    }

    /// A range from an address and a prefix length; `None` where the prefix
    /// length is more than 32.
    pub fn new(addr: u32, prefix: u8) -> (range: Option<IpRange>)
        ensures
            range is Some <==> prefix <= 32,
            range matches Some(r) ==> r@ == (Cidr { addr, prefix }),
    {
        if prefix <= 32 {
            Some(IpRange { addr, prefix })
        } else {
            None
        }
    }

    /// The range of prefix length 0, which holds every address.
    pub fn all() -> (range: IpRange)
        ensures
            range@ == (Cidr { addr: 0, prefix: 0 }),
    {
        IpRange { addr: 0, prefix: 0 }
    }

    /// Reads a range in CIDR notation: an address alone, an address and a
    /// prefix length, or an address and a netmask.
    pub fn parse(s: &str) -> (range: Option<IpRange>)
        ensures
            range is Some <==> parsed_range(cidr_parse(s@)) is Some,
            range matches Some(r) ==> Some(r@) == parsed_range(cidr_parse(s@)),
    {
        match parse_ipv4_network(s) {
            Some((addr, prefix)) => IpRange::new(addr, prefix),
            None => None,
        }
    }

    /// The address the range was given with.
    pub fn ip(&self) -> (addr: u32)
        ensures
            addr == self@.addr,
    {
        self.addr
    }

    /// The prefix length.
    pub fn prefix(&self) -> (prefix: u8)
        ensures
            prefix == self@.prefix,
            prefix <= 32,
    {
        proof {
            use_type_invariant(self);
        }
        self.prefix
    }

    /// The netmask.
    pub fn mask(&self) -> (mask: u32)
        ensures
            mask == mask_of(self@.prefix),
    {
        proof {
            use_type_invariant(self);
        }
        if self.prefix == 0 {
            0
        } else if self.prefix >= 32 {
            0xffff_ffffu32
        } else {
            let shift: u32 = (32 - self.prefix) as u32;
            0xffff_ffffu32 << shift
        }
    }

    /// The lowest address of the range.
    pub fn network(&self) -> (addr: u32)
        ensures
            addr == normalized(self@).addr,
    {
        self.addr & self.mask()
    }

    /// Whether `addr` lies in the range.
    pub fn contains(&self, addr: u32) -> (inside: bool)
        ensures
            inside == cidr_contains(self@, addr),
    {
        let mask = self.mask();
        (addr & mask) == (self.addr & mask)
    }

    /// Whether two ranges are the same network: they are equal once the
    /// host bits of both are cleared.
    pub fn same_network(&self, other: &IpRange) -> (same: bool)
        ensures
            same == (normalized(self@) == normalized(other@)),
    {
        self.prefix == other.prefix && self.network() == other.network()
    }

    /// The range in CIDR notation. Reading the text back gives this range,
    /// and so the same network.
    pub fn render(&self) -> (text: String)
        ensures
            text@ == cidr_text(self@.addr, self@.prefix),
            parsed_range(cidr_parse(text@)) == Some(self@),
    {
        proof {
            use_type_invariant(self);
        }
        format_ipv4_network(self.addr, self.prefix)
    }
}

} // verus!
