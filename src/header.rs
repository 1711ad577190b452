//! The fixed protocol header that a client sends once, right after connecting.

use vstd::prelude::*;

verus! {

/// Why a protocol header was rejected.
#[derive(Debug, Clone, Copy, PartialEq, Eq, Structural)]
pub enum HeaderError {
    /// Fewer than eight bytes were supplied.
    TooShort,
    /// The first eight bytes are not the expected protocol identification.
    Mismatch,
}

/// Length of the protocol header on the wire.
pub const HEADER_LEN: usize = 8;

/// The protocol header: `"AMQP"` followed by `0 0 9 1`.
pub open spec fn amqp_header() -> Seq<u8> {
    seq![0x41u8, 0x4Du8, 0x51u8, 0x50u8, 0x00u8, 0x00u8, 0x09u8, 0x01u8]
}

/// What validating `input` as a protocol header yields.
pub open spec fn header_result(input: Seq<u8>) -> Result<(), HeaderError> {
    if input.len() < HEADER_LEN {
        Err(HeaderError::TooShort)
    } else if input.subrange(0, HEADER_LEN as int) == amqp_header() {
        Ok(())
    } else {
        Err(HeaderError::Mismatch)
    }
}

fn expected_header_byte(i: usize) -> (b: u8)
    requires
        i < HEADER_LEN,
    ensures
        b == amqp_header()[i as int],
{
    match i {
        0 => 0x41u8,
        1 => 0x4Du8,
        2 => 0x51u8,
        3 => 0x50u8,
        4 => 0x00u8,
        5 => 0x00u8,
        6 => 0x09u8,
        _ => 0x01u8,
    }
}

/// Checks that `input` begins with the protocol header.
pub fn parse_amqp_header(input: &[u8]) -> (r: Result<(), HeaderError>)
    ensures
        r == header_result(input@),
{
    if input.len() < HEADER_LEN {
        return Err(HeaderError::TooShort);
    }
    let mut i: usize = 0;
    while i < HEADER_LEN
        invariant
            input@.len() >= HEADER_LEN,
            i <= HEADER_LEN,
            forall|j: int| 0 <= j < i ==> input@[j] == amqp_header()[j],
        decreases HEADER_LEN - i,
    {
        if input[i] != expected_header_byte(i) {
            assert(input@.subrange(0, HEADER_LEN as int)[i as int] != amqp_header()[i as int]);
            return Err(HeaderError::Mismatch);
        }
        i += 1;
    }
    assert(input@.subrange(0, HEADER_LEN as int) =~= amqp_header());
    Ok(())
}

} // verus!
