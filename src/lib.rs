//! A BGP message codec: header framing, path attributes, NLRI prefixes,
//! capabilities and community lists, each with an exact specification.
use vstd::prelude::*;

pub mod bytes;
pub mod error;
pub mod prefix;
pub mod community;
pub mod aspath;
pub mod nlri;
pub mod attribute;
pub mod capability;
pub mod message;
