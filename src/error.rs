use vstd::prelude::*;

verus! {

/// Classified decode failures, one per protocol error condition.
#[derive(Clone, Copy, Debug, PartialEq, Eq, Structural)]
pub enum DecodeError {
    /// Marker, length bounds, length mismatch or unknown message type.
    HeaderError,
    /// An OPEN body that is malformed.
    OpenMessageError,
    /// An OPEN optional parameter that is not a capability list.
    UnsupportedOptParam,
    /// Section lengths of an UPDATE that overrun the message, or a repeated attribute.
    MalformedAttributeList,
    /// The flags of a recognized attribute (type code given) are not the required ones.
    AttributeFlagsError(u8),
    /// The body length of a recognized attribute (type code given) is illegal.
    AttributeLengthError(u8),
    /// A mandatory attribute (type code given) is absent.
    MissingWellKnownAttribute(u8),
    /// A non-optional attribute type code that is not understood.
    UnrecognizedWellKnownAttribute(u8),
    /// ORIGIN value outside IGP, EGP, INCOMPLETE.
    InvalidOrigin,
    /// A prefix that is too long, has host bits set, or overruns its section.
    InvalidNetworkField,
    /// A multiprotocol attribute for an address family other than IPv4 or IPv6 unicast.
    UnsupportedAfiSafi,
    /// An AS_PATH segment that is inconsistent with its bytes.
    MalformedAsPath,
}

/// Encode failures.
#[derive(Clone, Copy, Debug, PartialEq, Eq, Structural)]
pub enum EncodeError {
    /// An AS number above 65535 while the peer lacks four-octet AS numbers.
    UnsupportedCapability,
    /// The encoded message exceeds the protocol's maximum size, or a length
    /// field cannot hold what it counts.
    MessageTooLong,
    /// NLRI or a next hop to send, but no path attributes to carry them.
    MissingAttributes,
    /// A prefix whose address holds fewer bytes than its length needs.
    InvalidPrefix,
}

} // verus!
