//! Named elliptic curves as negotiated in a TLS handshake, identified by
//! their IANA group codes. The codec maps codes to curves; key generation
//! itself is left to the cryptographic libraries that own the key material.

use vstd::prelude::*;

verus! {

/// The elliptic-curve groups this library knows, plus a marker for every
/// other code.
#[derive(Clone, Copy, Debug, PartialEq, Eq, Structural)]
pub enum NamedCurve {
    P256,
    P384,
    X25519,
    Unsupported,
}

/// The curve a 16-bit IANA group code denotes; codes outside the supported
/// set map to `Unsupported`.
pub open spec fn spec_named_curve_from_u16(val: u16) -> NamedCurve {
    if val == 0x0017 {
        NamedCurve::P256
    } else if val == 0x0018 {
        NamedCurve::P384
    } else if val == 0x001d {
        NamedCurve::X25519
    } else {
        NamedCurve::Unsupported
    }
}

impl core::convert::From<u16> for NamedCurve {
    /// The curve a 16-bit IANA group code denotes.
    fn from(val: u16) -> (r: NamedCurve) {
        if val == 0x0017 {
            NamedCurve::P256
        } else if val == 0x0018 {
            NamedCurve::P384
        } else if val == 0x001d {
            NamedCurve::X25519
        } else {
            NamedCurve::Unsupported
        }
    }
}

impl vstd::std_specs::convert::FromSpecImpl<u16> for NamedCurve {
    open spec fn obeys_from_spec() -> bool {
        true
    }

    open spec fn from_spec(val: u16) -> NamedCurve {
        spec_named_curve_from_u16(val)
    }
}

} // verus!
