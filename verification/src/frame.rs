//! Ethernet header parsing: the minimal decode that discovery needs, the
//! destination and source hardware addresses of a captured frame.

use vstd::prelude::*;

use crate::hw::HardwareAddress;

verus! {

/// A parsed view of one captured link-layer frame. Only the two addresses
/// are extracted; no higher protocol layer is decoded.
#[derive(Clone, Copy, Debug)]
pub struct Frame {
    pub destination: HardwareAddress,
    pub source: HardwareAddress,
}

/// A frame too short to hold an Ethernet header. Per-frame and never fatal:
/// truncated captures occur naturally and the caller skips them.
#[derive(Clone, Copy, Debug, PartialEq, Eq, Structural)]
pub enum ParseError {
    TooShort { len: usize },
}

/// The least length of a well-formed Ethernet header: 6 destination octets,
/// 6 source octets, 2 type octets.
pub const ETHERNET_HEADER_LEN: usize = 14;

/// Decodes the Ethernet header: the first 6 bytes are the destination, the
/// next 6 the source, whatever follows is payload and is left alone.
/// Anything shorter than 14 bytes is a `ParseError`, never a partial frame.
pub fn parse_frame(bytes: &[u8]) -> (r: Result<Frame, ParseError>)
    ensures
        match r {
            Ok(f) => bytes@.len() >= 14 && f.destination@ == bytes@.subrange(0, 6) && f.source@
                == bytes@.subrange(6, 12),
            Err(e) => bytes@.len() < 14 && e == (ParseError::TooShort { len: bytes@.len() as usize }),
        },
{
    if bytes.len() < ETHERNET_HEADER_LEN {
        return Err(ParseError::TooShort { len: bytes.len() });
    }
    let destination = HardwareAddress {
        octets: [bytes[0], bytes[1], bytes[2], bytes[3], bytes[4], bytes[5]],
    };
    let source = HardwareAddress {
        octets: [bytes[6], bytes[7], bytes[8], bytes[9], bytes[10], bytes[11]],
    };
    proof {
        assert(destination@ =~= bytes@.subrange(0, 6));
        assert(source@ =~= bytes@.subrange(6, 12));
    }
    Ok(Frame { destination, source })
}

} // verus!
