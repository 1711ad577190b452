//! Big-endian integers on the wire, read through nom's number parsers.

use vstd::prelude::*;

verus! {

/// The value of the first two bytes of `s` read as a big-endian integer.
pub open spec fn be_u16_of(s: Seq<u8>) -> nat {
    s[0] as nat * 256 + s[1] as nat
}

/// The value of the first four bytes of `s` read as a big-endian integer.
pub open spec fn be_u32_of(s: Seq<u8>) -> nat {
    ((s[0] as nat * 256 + s[1] as nat) * 256 + s[2] as nat) * 256 + s[3] as nat
}

/// Relies on `nom::number::complete::be_u16`: on two or more bytes it returns
/// the first two read big-endian, on fewer it returns an error.
#[verifier::external_body]
pub(crate) fn read_be_u16(b: &[u8]) -> (r: Option<u16>)
    ensures
        r is Some <==> b@.len() >= 2,
        r is Some ==> r->0 as nat == be_u16_of(b@),
{
    nom::number::complete::be_u16::<&[u8], nom::error::Error<&[u8]>>(b).ok().map(|(_, v)| v)
}

/// Relies on `nom::number::complete::be_u32`: on four or more bytes it returns
/// the first four read big-endian, on fewer it returns an error.
#[verifier::external_body]
pub(crate) fn read_be_u32(b: &[u8]) -> (r: Option<u32>)
    ensures
        r is Some <==> b@.len() >= 4,
        r is Some ==> r->0 as nat == be_u32_of(b@),
{
    nom::number::complete::be_u32::<&[u8], nom::error::Error<&[u8]>>(b).ok().map(|(_, v)| v)
}

} // verus!
