//! OPEN-message capabilities and the decode context built from them.
use vstd::prelude::*;
use crate::bytes::{be16, be32, copy_range, put_bytes, put_u16, put_u32, read_u16, read_u32, u16_bytes, u32_bytes};
use crate::error::DecodeError;

verus! {

/// A capability advertised in an OPEN message.
#[derive(Clone, Debug, PartialEq, Eq)]
pub enum Capability {
    MultiProtocol { afi: u16, safi: u8 },
    RouteRefresh,
    FourOctetAsNumber { asn: u32 },
    Unknown { code: u8, value: Vec<u8> },
}

/// A capability as a mathematical value.
pub enum CapV {
    MultiProtocol(u16, u8),
    RouteRefresh,
    FourOctetAsNumber(u32),
    Unknown(u8, Seq<u8>),
}

impl View for Capability {
    type V = CapV;

    open spec fn view(&self) -> CapV {
        match self {
            Capability::MultiProtocol { afi, safi } => CapV::MultiProtocol(*afi, *safi),
            Capability::RouteRefresh => CapV::RouteRefresh,
            Capability::FourOctetAsNumber { asn } => CapV::FourOctetAsNumber(*asn),
            Capability::Unknown { code, value } => CapV::Unknown(*code, value@),
        }
    }
}

/// The views of a list of capabilities.
pub open spec fn caps_view(v: Seq<Capability>) -> Seq<CapV> {
    v.map_values(|c: Capability| c@)
}

/// The list holds the four-octet AS number capability.
pub open spec fn has_four_octet(caps: Seq<CapV>) -> bool {
    exists|i: int| 0 <= i < caps.len() && (#[trigger] caps[i]) is FourOctetAsNumber
}

/// Whether the peer is in the local AS.
#[derive(Clone, Copy, Debug, PartialEq, Eq, Structural)]
pub enum PeerType {
    Internal,
    External,
}

/// What a decode needs to know of the session: the peer and the negotiated capabilities.
#[derive(Clone, Debug, PartialEq, Eq)]
pub struct DecodeCxt {
    pub peer_type: PeerType,
    pub peer_as: u32,
    pub capabilities: Vec<Capability>,
}

/// What an encode needs to know of the session: the negotiated capabilities.
#[derive(Clone, Debug, PartialEq, Eq)]
pub struct EncodeCxt {
    pub capabilities: Vec<Capability>,
}

/// Whether the list holds the four-octet AS number capability.
pub fn four_octet(caps: &Vec<Capability>) -> (r: bool)
    ensures
        r == has_four_octet(caps_view(caps@)),
{
    let mut i: usize = 0;
    while i < caps.len()
        invariant
            i <= caps@.len(),
            forall|j: int| 0 <= j < i ==> !(#[trigger] caps_view(caps@)[j] is FourOctetAsNumber),
        decreases caps@.len() - i,
    {
        if let Capability::FourOctetAsNumber { .. } = &caps[i] {
            assert(caps_view(caps@)[i as int] is FourOctetAsNumber);
            return true;
        }
        i = i + 1;
    }
    false
}

impl DecodeCxt {
    /// AS numbers take four bytes with this peer.
    pub open spec fn four(&self) -> bool {
        has_four_octet(caps_view(self.capabilities@))
    }
}

impl EncodeCxt {
    /// AS numbers take four bytes with this peer.
    pub open spec fn four(&self) -> bool {
        has_four_octet(caps_view(self.capabilities@))
    }
}

/// Decodes one capability from its code and value.
pub open spec fn decode_cap(code: u8, v: Seq<u8>) -> Result<CapV, DecodeError> {
    if code == 1 {
        if v.len() != 4 {
            Err(DecodeError::OpenMessageError)
        } else {
            Ok(CapV::MultiProtocol(be16(v[0], v[1]), v[3]))
        }
    } else if code == 2 {
        if v.len() != 0 {
            Err(DecodeError::OpenMessageError)
        } else {
            Ok(CapV::RouteRefresh)
        }
    } else if code == 65 {
        if v.len() != 4 {
            Err(DecodeError::OpenMessageError)
        } else {
            Ok(CapV::FourOctetAsNumber(be32(v[0], v[1], v[2], v[3])))
        }
    } else {
        Ok(CapV::Unknown(code, v))
    }
}

/// Decodes capabilities until `s` is used up, after those in `acc`.
pub open spec fn decode_caps(s: Seq<u8>, acc: Seq<CapV>) -> Result<Seq<CapV>, DecodeError>
    decreases s.len(),
{
    if s.len() == 0 {
        Ok(acc)
    } else if s.len() < 2 || s.len() < 2 + s[1] {
        Err(DecodeError::OpenMessageError)
    } else {
        let n = 2 + s[1];
        match decode_cap(s[0], s.subrange(2, n as int)) {
            Err(e) => Err(e),
            Ok(c) => decode_caps(s.subrange(n as int, s.len() as int), acc.push(c)),
        }
    }
}

/// Decodes the optional parameters of an OPEN, each a capability list,
/// after the capabilities in `acc`.
pub open spec fn decode_params(s: Seq<u8>, acc: Seq<CapV>) -> Result<Seq<CapV>, DecodeError>
    decreases s.len(),
{
    if s.len() == 0 {
        Ok(acc)
    } else if s.len() < 2 || s.len() < 2 + s[1] {
        Err(DecodeError::OpenMessageError)
    } else if s[0] != 2 {
        Err(DecodeError::UnsupportedOptParam)
    } else {
        let n = 2 + s[1];
        match decode_caps(s.subrange(2, n as int), acc) {
            Err(e) => Err(e),
            Ok(a) => decode_params(s.subrange(n as int, s.len() as int), a),
        }
    }
}

/// The code and value of a capability.
pub open spec fn cap_parts(c: CapV) -> (u8, Seq<u8>) {
    match c {
        CapV::MultiProtocol(afi, safi) => (1, u16_bytes(afi) + seq![0u8, safi]),
        CapV::RouteRefresh => (2, Seq::empty()),
        CapV::FourOctetAsNumber(asn) => (65, u32_bytes(asn)),
        CapV::Unknown(code, v) => (code, v),
    }
}

/// A capability's record: code, length, value.
pub open spec fn cap_bytes(c: CapV) -> Seq<u8> {
    let (code, v) = cap_parts(c);
    seq![code, (v.len() % 256) as u8] + v
}

/// The optional parameter that carries the capability records `cur`.
pub open spec fn param_of(cur: Seq<u8>) -> Seq<u8> {
    seq![2u8, (cur.len() % 256) as u8] + cur
}

/// Packs capability records into parameters, in order: a record joins the
/// open parameter `cur` while that stays within 255 bytes, else it opens the
/// next one.
pub open spec fn pack(caps: Seq<CapV>, cur: Seq<u8>) -> Seq<u8>
    decreases caps.len(),
{
    if caps.len() == 0 {
        if cur.len() == 0 {
            Seq::empty()
        } else {
            param_of(cur)
        }
    } else {
        let c = cap_bytes(caps[0]);
        if cur.len() > 0 && cur.len() + c.len() > 255 {
            param_of(cur) + pack(caps.drop_first(), c)
        } else {
            pack(caps.drop_first(), cur + c)
        }
    }
}

/// The optional parameters of an OPEN: the capabilities packed into as few
/// parameters as fit, in order.
pub open spec fn params_bytes(caps: Seq<CapV>) -> Seq<u8> {
    pack(caps, Seq::empty())
}

/// Decodes the capability list `buf[start..end]` and appends it to `acc`.
fn read_caps(buf: &[u8], start: usize, end: usize, acc: &mut Vec<Capability>) -> (r: Result<(), DecodeError>)
    requires
        start <= end <= buf@.len(),
    ensures
        match decode_caps(buf@.subrange(start as int, end as int), caps_view(old(acc)@)) {
            Ok(v) => r is Ok && caps_view(final(acc)@) == v,
            Err(e) => r == Err::<(), DecodeError>(e),
        },
{
    let mut pos = start;
    while pos < end
        invariant
            start <= pos <= end <= buf@.len(),
            decode_caps(buf@.subrange(start as int, end as int), caps_view(old(acc)@)) == decode_caps(
                buf@.subrange(pos as int, end as int),
                caps_view(acc@),
            ),
        decreases end - pos,
    {
        let ghost s = buf@.subrange(pos as int, end as int);
        if end - pos < 2 || end - pos < 2 + buf[pos + 1] as usize {
            return Err(DecodeError::OpenMessageError);
        }
        let code = buf[pos];
        let len = buf[pos + 1] as usize;
        let v = pos + 2;
        let ghost val = buf@.subrange(v as int, (v + len) as int);
        assert(s.subrange(2, 2 + len as int) =~= val);
        assert(s.subrange(2 + len as int, s.len() as int) =~= buf@.subrange(v + len, end as int));
        let c = if code == 1 {
            if len != 4 {
                return Err(DecodeError::OpenMessageError);
            }
            Capability::MultiProtocol { afi: read_u16(buf, v), safi: buf[v + 3] }
        } else if code == 2 {
            if len != 0 {
                return Err(DecodeError::OpenMessageError);
            }
            Capability::RouteRefresh
        } else if code == 65 {
            if len != 4 {
                return Err(DecodeError::OpenMessageError);
            }
            Capability::FourOctetAsNumber { asn: read_u32(buf, v) }
        } else {
            Capability::Unknown { code, value: copy_range(buf, v, len) }
        };
        assert(decode_cap(code, val) == Ok::<CapV, DecodeError>(c@));
        let ghost before = acc@;
        acc.push(c);
        assert(caps_view(acc@) =~= caps_view(before).push(c@));
        pos = v + len;
    }
    assert(buf@.subrange(pos as int, end as int).len() == 0);
    Ok(())
}

/// Decodes the optional parameters `buf[start..end]` of an OPEN.
pub fn read_params(buf: &[u8], start: usize, end: usize) -> (r: Result<Vec<Capability>, DecodeError>)
    requires
        start <= end <= buf@.len(),
    ensures
        match (r, decode_params(buf@.subrange(start as int, end as int), Seq::empty())) {
            (Ok(c), Ok(v)) => caps_view(c@) == v,
            (Err(e), Err(f)) => e == f,
            _ => false,
        },
{
    let mut caps: Vec<Capability> = Vec::new();
    assert(caps_view(caps@) =~= Seq::<CapV>::empty());
    let mut pos = start;
    while pos < end
        invariant
            start <= pos <= end <= buf@.len(),
            decode_params(buf@.subrange(start as int, end as int), Seq::empty()) == decode_params(
                buf@.subrange(pos as int, end as int),
                caps_view(caps@),
            ),
        decreases end - pos,
    {
        let ghost s = buf@.subrange(pos as int, end as int);
        if end - pos < 2 || end - pos < 2 + buf[pos + 1] as usize {
            return Err(DecodeError::OpenMessageError);
        }
        if buf[pos] != 2 {
            return Err(DecodeError::UnsupportedOptParam);
        }
        let len = buf[pos + 1] as usize;
        assert(s.subrange(2, 2 + len as int) =~= buf@.subrange(pos + 2, pos + 2 + len));
        assert(s.subrange(2 + len as int, s.len() as int) =~= buf@.subrange(pos + 2 + len, end as int));
        read_caps(buf, pos + 2, pos + 2 + len, &mut caps)?;
        pos = pos + 2 + len;
    }
    assert(buf@.subrange(pos as int, end as int).len() == 0);
    Ok(caps)
}

/// Appends the capabilities, packed into as few parameters as fit.
pub fn write_params(out: &mut Vec<u8>, caps: &Vec<Capability>)
    ensures
        final(out)@ == old(out)@ + params_bytes(caps_view(caps@)),
{
    let ghost start = out@;
    let ghost cv = caps_view(caps@);
    let mut cur: Vec<u8> = Vec::new();
    let mut i: usize = 0;
    assert(cv.subrange(0, cv.len() as int) =~= cv);
    assert(start + Seq::<u8>::empty() =~= start);
    while i < caps.len()
        invariant
            i <= caps@.len(),
            cv == caps_view(caps@),
            start + params_bytes(cv) == out@ + pack(cv.subrange(i as int, cv.len() as int), cur@),
        decreases caps@.len() - i,
    {
        let mut b: Vec<u8> = Vec::new();
        match &caps[i] {
            Capability::MultiProtocol { afi, safi } => {
                b.push(1u8);
                b.push(4u8);
                put_u16(&mut b, *afi);
                b.push(0u8);
                b.push(*safi);
            },
            Capability::RouteRefresh => {
                b.push(2u8);
                b.push(0u8);
            },
            Capability::FourOctetAsNumber { asn } => {
                b.push(65u8);
                b.push(4u8);
                put_u32(&mut b, *asn);
            },
            Capability::Unknown { code, value } => {
                b.push(*code);
                b.push((value.len() % 256) as u8);
                put_bytes(&mut b, value.as_slice());
            },
        }
        let ghost rest = cv.subrange(i as int, cv.len() as int);
        assert(b@ =~= cap_bytes(rest[0]));
        assert(rest.drop_first() =~= cv.subrange(i + 1, cv.len() as int));
        let ghost before = out@;
        let ghost cur0 = cur@;
        if cur.len() > 0 && (cur.len() > 255 || b.len() > 255 - cur.len()) {
            out.push(2u8);
            out.push((cur.len() % 256) as u8);
            put_bytes(out, cur.as_slice());
            assert(out@ =~= before + param_of(cur0));
            cur = b;
            assert(before + (param_of(cur0) + pack(rest.drop_first(), cur@)) =~= out@ + pack(
                rest.drop_first(),
                cur@,
            ));
        } else {
            put_bytes(&mut cur, b.as_slice());
        }
        i = i + 1;
    }
    let ghost cur0 = cur@;
    let ghost before = out@;
    assert(cv.subrange(i as int, cv.len() as int) =~= Seq::<CapV>::empty());
    if cur.len() > 0 {
        out.push(2u8);
        out.push((cur.len() % 256) as u8);
        put_bytes(out, cur.as_slice());
        assert(out@ =~= before + param_of(cur0));
    } else {
        assert(before + Seq::<u8>::empty() =~= before);
    }
}

} // verus!
