use crate::cidr::CidrBlock;
use vstd::prelude::*;

verus! {

/// What `ipnet`'s IPv4 CIDR parser yields on a given string: the base
/// address and prefix length written as `"a.b.c.d/p"`, or nothing when the
/// string is not in that form. The outcome depends on the characters alone.
pub uninterp spec fn parsed_cidr(s: Seq<char>) -> Option<(u32, u8)>;

/// Relies on ipnet::Ipv4Net: its `FromStr` parses CIDR notation
/// `"a.b.c.d/p"` and accepts only prefix lengths up to 32; `addr` and
/// `prefix_len` hand back the parsed parts unchanged.
#[verifier::external_body]
fn parse_ipv4_net(s: &str) -> (r: Option<(u32, u8)>)
    ensures
        r == parsed_cidr(s@),
        r matches Some(t) ==> t.1 <= 32,
{
    match s.parse::<ipnet::Ipv4Net>() {
        Ok(net) => Some((u32::from(net.addr()), net.prefix_len())),
        Err(_) => None,
    }
}

/// Parses CIDR notation into a block: accepts exactly the strings the
/// notation admits, and then carries the parsed base address and prefix
/// length into a well-formed block.
pub fn parse_cidr(s: &str) -> (r: Option<CidrBlock>)
    ensures
        r is Some <==> parsed_cidr(s@) is Some,
        r matches Some(b) ==> parsed_cidr(s@) == Some((b.addr, b.prefix)) && b.wf(),
{
    match parse_ipv4_net(s) {
        Some((addr, prefix)) => Some(CidrBlock { addr, prefix }),
        None => None,
    }
}

} // verus!
