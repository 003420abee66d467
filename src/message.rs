use vstd::prelude::*;

verus! {

/// Record type code of an IPv4 address record.
pub const TYPE_A: u16 = 1;

/// Record type code of an IPv6 address record.
pub const TYPE_AAAA: u16 = 28;

/// An address carried by an address record.
#[derive(Clone, Copy, PartialEq, Eq, Structural, Debug)]
pub enum Address {
    V4(u32),
    V6(u128),
}

/// What a resource record carries: an address, or data of another type that
/// the engine passes through untouched (the type code and an opaque handle).
#[derive(Clone, Copy, PartialEq, Eq, Structural, Debug)]
pub enum RData {
    Addr(Address),
    Other(u16, u64),
}

/// A resource record of an answer section: its data and its TTL in seconds.
#[derive(Clone, Copy, PartialEq, Eq, Structural, Debug)]
pub struct Record {
    pub data: RData,
    pub ttl: u32,
}

/// Response codes the engine produces or passes on.
#[derive(Clone, Copy, PartialEq, Eq, Structural, Debug)]
pub enum Rcode {
    NoError,
    FormErr,
    ServFail,
    NxDomain,
    Refused,
}

/// A response: its code and its ordered answer records.
#[derive(Debug)]
pub struct Response {
    pub rcode: Rcode,
    pub answers: Vec<Record>,
}

pub open spec fn is_address(r: Record) -> bool {
    r.data is Addr
}

/// Copies a sequence of records.
pub fn copy_records(v: &Vec<Record>) -> (r: Vec<Record>)
    ensures
        r@ == v@,
{
    let mut out: Vec<Record> = Vec::new();
    let mut i: usize = 0;
    while i < v.len()
        invariant
            0 <= i <= v@.len(),
            out@ == v@.subrange(0, i as int),
        decreases v@.len() - i,
    {
        out.push(v[i]);
        assert(v@.subrange(0, i + 1) == v@.subrange(0, i as int).push(v@[i as int]));
        i = i + 1;
    }
    assert(v@ == v@.subrange(0, v@.len() as int));
    out
}

} // verus!
