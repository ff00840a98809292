//! The groups that the library provisions: a small one for demonstration,
//! and the 1024-bit group with a 160-bit prime-order subgroup of RFC 5114,
//! section 2.1.

use crate::natural::{be_value, mod_exp};
use crate::zkp::ParameterSet;
use vstd::prelude::*;

verus! {

/// The modulus of the RFC 5114 group, in big-endian bytes.
pub const RFC5114_P: [u8; 128] = [
    0xB1, 0x0B, 0x8F, 0x96, 0xA0, 0x80, 0xE0, 0x1D, 0xDE, 0x92, 0xDE, 0x5E,
    0xAE, 0x5D, 0x54, 0xEC, 0x52, 0xC9, 0x9F, 0xBC, 0xFB, 0x06, 0xA3, 0xC6,
    0x9A, 0x6A, 0x9D, 0xCA, 0x52, 0xD2, 0x3B, 0x61, 0x60, 0x73, 0xE2, 0x86,
    0x75, 0xA2, 0x3D, 0x18, 0x98, 0x38, 0xEF, 0x1E, 0x2E, 0xE6, 0x52, 0xC0,
    0x13, 0xEC, 0xB4, 0xAE, 0xA9, 0x06, 0x11, 0x23, 0x24, 0x97, 0x5C, 0x3C,
    0xD4, 0x9B, 0x83, 0xBF, 0xAC, 0xCB, 0xDD, 0x7D, 0x90, 0xC4, 0xBD, 0x70,
    0x98, 0x48, 0x8E, 0x9C, 0x21, 0x9A, 0x73, 0x72, 0x4E, 0xFF, 0xD6, 0xFA,
    0xE5, 0x64, 0x47, 0x38, 0xFA, 0xA3, 0x1A, 0x4F, 0xF5, 0x5B, 0xCC, 0xC0,
    0xA1, 0x51, 0xAF, 0x5F, 0x0D, 0xC8, 0xB4, 0xBD, 0x45, 0xBF, 0x37, 0xDF,
    0x36, 0x5C, 0x1A, 0x65, 0xE6, 0x8C, 0xFD, 0xA7, 0x6D, 0x4D, 0xA7, 0x08,
    0xDF, 0x1F, 0xB2, 0xBC, 0x2E, 0x4A, 0x43, 0x71,
];

/// The order of the subgroup of the RFC 5114 group, in big-endian bytes.
pub const RFC5114_Q: [u8; 20] = [
    0xF5, 0x18, 0xAA, 0x87, 0x81, 0xA8, 0xDF, 0x27, 0x8A, 0xBA, 0x4E, 0x7D,
    0x64, 0xB7, 0xCB, 0x9D, 0x49, 0x46, 0x23, 0x53,
];

/// The generator of the subgroup of the RFC 5114 group, in big-endian bytes.
pub const RFC5114_G: [u8; 128] = [
    0xA4, 0xD1, 0xCB, 0xD5, 0xC3, 0xFD, 0x34, 0x12, 0x67, 0x65, 0xA4, 0x42,
    0xEF, 0xB9, 0x99, 0x05, 0xF8, 0x10, 0x4D, 0xD2, 0x58, 0xAC, 0x50, 0x7F,
    0xD6, 0x40, 0x6C, 0xFF, 0x14, 0x26, 0x6D, 0x31, 0x26, 0x6F, 0xEA, 0x1E,
    0x5C, 0x41, 0x56, 0x4B, 0x77, 0x7E, 0x69, 0x0F, 0x55, 0x04, 0xF2, 0x13,
    0x16, 0x02, 0x17, 0xB4, 0xB0, 0x1B, 0x88, 0x6A, 0x5E, 0x91, 0x54, 0x7F,
    0x9E, 0x27, 0x49, 0xF4, 0xD7, 0xFB, 0xD7, 0xD3, 0xB9, 0xA9, 0x2E, 0xE1,
    0x90, 0x9D, 0x0D, 0x22, 0x63, 0xF8, 0x0A, 0x76, 0xA6, 0xA2, 0x4C, 0x08,
    0x7A, 0x09, 0x1F, 0x53, 0x1D, 0xBF, 0x0A, 0x01, 0x69, 0xB6, 0xA2, 0x8A,
    0xD6, 0x62, 0xA4, 0xD1, 0x8E, 0x73, 0xAF, 0xA3, 0x2D, 0x77, 0x9D, 0x59,
    0x18, 0xD0, 0x8B, 0xC8, 0x85, 0x8F, 0x4D, 0xCE, 0xF9, 0x7C, 0x2A, 0x24,
    0x85, 0x5E, 0x6E, 0xEB, 0x22, 0xB3, 0xB2, 0xE5,
];

/// A group that the library knows: its modulus, the order of its subgroup
/// and one generator. The second generator is derived for each use.
#[derive(Clone, Copy, Debug, PartialEq, Eq, Structural)]
pub enum Profile {
    /// The subgroup of order 11 modulo 23 that 4 generates. For
    /// demonstration only.
    Toy,
    /// The group of RFC 5114, section 2.1.
    Rfc5114,
}

impl Profile {
    /// The modulus `p`.
    pub open spec fn p(self) -> nat {
        match self {
            Profile::Toy => 23,
            Profile::Rfc5114 => be_value(RFC5114_P@),
        }
    }

    /// The order `q` of the subgroup.
    pub open spec fn q(self) -> nat {
        match self {
            Profile::Toy => 11,
            Profile::Rfc5114 => be_value(RFC5114_Q@),
        }
    }

    /// The generator `alpha`.
    pub open spec fn alpha(self) -> nat {
        match self {
            Profile::Toy => 4,
            Profile::Rfc5114 => be_value(RFC5114_G@),
        }
    }

    /// The group description whose second generator is
    /// `alpha^exponent mod p`.
    pub open spec fn group(self, exponent: nat) -> ParameterSet {
        ParameterSet {
            p: self.p(),
            q: self.q(),
            alpha: self.alpha(),
            beta: mod_exp(self.alpha(), exponent, self.p()),
        }
    }
}

} // verus!
