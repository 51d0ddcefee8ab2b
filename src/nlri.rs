//! Multiprotocol reachable and unreachable NLRI (MP_REACH_NLRI, MP_UNREACH_NLRI).
use vstd::prelude::*;
use crate::bytes::{be16, put_bytes, put_u16, read_array, read_u16, u16_bytes};
use crate::error::DecodeError;
use crate::prefix::{decode_prefixes, lemma_decode_prefixes_round_trip, net_wf, nbytes, nets_view, prefixes_bytes, read_prefixes, write_prefixes, IpNetwork, NetV};

verus! {

/// Attribute type code of MP_REACH_NLRI.
pub const MP_REACH_NLRI: u8 = 14;

/// Attribute type code of MP_UNREACH_NLRI.
pub const MP_UNREACH_NLRI: u8 = 15;

/// Reachable prefixes of one address family, with their next hops.
#[derive(Clone, Debug, PartialEq, Eq)]
#[allow(inconsistent_fields)]
pub enum MpReachNlri {
    Ipv4Unicast { prefixes: Vec<IpNetwork>, nexthop: [u8; 4] },
    Ipv6Unicast { prefixes: Vec<IpNetwork>, nexthop: [u8; 16], ll_nexthop: Option<[u8; 16]> },
}

/// Withdrawn prefixes of one address family.
#[derive(Clone, Debug, PartialEq, Eq)]
pub enum MpUnreachNlri {
    Ipv4Unicast { prefixes: Vec<IpNetwork> },
    Ipv6Unicast { prefixes: Vec<IpNetwork> },
}

/// MP_REACH_NLRI as a mathematical value; `v6` selects IPv6 unicast over IPv4 unicast.
pub struct MpReachV {
    pub v6: bool,
    pub prefixes: Seq<NetV>,
    pub nexthop: Seq<u8>,
    pub ll_nexthop: Option<Seq<u8>>,
}

/// MP_UNREACH_NLRI as a mathematical value.
pub struct MpUnreachV {
    pub v6: bool,
    pub prefixes: Seq<NetV>,
}

impl View for MpReachNlri {
    type V = MpReachV;

    open spec fn view(&self) -> MpReachV {
        match self {
            MpReachNlri::Ipv4Unicast { prefixes, nexthop } => MpReachV {
                v6: false,
                prefixes: nets_view(prefixes@),
                nexthop: nexthop@,
                ll_nexthop: None,
            },
            MpReachNlri::Ipv6Unicast { prefixes, nexthop, ll_nexthop } => MpReachV {
                v6: true,
                prefixes: nets_view(prefixes@),
                nexthop: nexthop@,
                ll_nexthop: match ll_nexthop {
                    Some(a) => Some(a@),
                    None => None,
                },
            },
        }
    }
}

impl View for MpUnreachNlri {
    type V = MpUnreachV;

    open spec fn view(&self) -> MpUnreachV {
        match self {
            MpUnreachNlri::Ipv4Unicast { prefixes } => MpUnreachV { v6: false, prefixes: nets_view(prefixes@) },
            MpUnreachNlri::Ipv6Unicast { prefixes } => MpUnreachV { v6: true, prefixes: nets_view(prefixes@) },
        }
    }
}

/// Address bytes of the family.
pub open spec fn family_width(v6: bool) -> nat {
    if v6 {
        16
    } else {
        4
    }
}

/// The AFI/SAFI pair at the start of `s` is IPv4 or IPv6 unicast.
pub open spec fn supported_family(s: Seq<u8>) -> bool {
    s[2] == 1 && (be16(s[0], s[1]) == 1 || be16(s[0], s[1]) == 2)
}

/// Decodes an MP_REACH_NLRI body.
pub open spec fn decode_mp_reach(s: Seq<u8>) -> Result<MpReachV, DecodeError> {
    if s.len() < 5 {
        Err(DecodeError::AttributeLengthError(MP_REACH_NLRI))
    } else if !supported_family(s) {
        Err(DecodeError::UnsupportedAfiSafi)
    } else {
        let v6 = be16(s[0], s[1]) == 2;
        let nhl = s[3] as nat;
        if !(nhl == family_width(v6) || (v6 && nhl == 32)) || s.len() < 5 + nhl {
            Err(DecodeError::AttributeLengthError(MP_REACH_NLRI))
        } else {
            match decode_prefixes(s.subrange(5 + nhl as int, s.len() as int), family_width(v6)) {
                Err(e) => Err(e),
                Ok(ps) => Ok(
                    MpReachV {
                        v6,
                        prefixes: ps,
                        nexthop: s.subrange(4, 4 + family_width(v6) as int),
                        ll_nexthop: if nhl == 32 {
                            Some(s.subrange(20, 36))
                        } else {
                            None
                        },
                    },
                ),
            }
        }
    }
}

/// Decodes an MP_UNREACH_NLRI body.
pub open spec fn decode_mp_unreach(s: Seq<u8>) -> Result<MpUnreachV, DecodeError> {
    if s.len() < 3 {
        Err(DecodeError::AttributeLengthError(MP_UNREACH_NLRI))
    } else if !supported_family(s) {
        Err(DecodeError::UnsupportedAfiSafi)
    } else {
        let v6 = be16(s[0], s[1]) == 2;
        match decode_prefixes(s.subrange(3, s.len() as int), family_width(v6)) {
            Err(e) => Err(e),
            Ok(ps) => Ok(MpUnreachV { v6, prefixes: ps }),
        }
    }
}

/// The AFI and SAFI bytes of a family.
pub open spec fn family_bytes(v6: bool) -> Seq<u8> {
    u16_bytes(if v6 { 2u16 } else { 1u16 }) + seq![1u8]
}

/// The wire body of MP_REACH_NLRI.
pub open spec fn mp_reach_bytes(v: MpReachV) -> Seq<u8> {
    let nh = match v.ll_nexthop {
        Some(ll) => v.nexthop + ll,
        None => v.nexthop,
    };
    family_bytes(v.v6) + seq![nh.len() as u8] + nh + seq![0u8] + prefixes_bytes(v.prefixes)
}

/// The wire body of MP_UNREACH_NLRI.
pub open spec fn mp_unreach_bytes(v: MpUnreachV) -> Seq<u8> {
    family_bytes(v.v6) + prefixes_bytes(v.prefixes)
}

/// Every prefix holds an address of `w` bytes and a length that fits it.
pub open spec fn prefixes_sized(v: Seq<IpNetwork>, w: nat) -> bool {
    forall|i: int|
        0 <= i < v.len() ==> {
            &&& (#[trigger] v[i]).addr@.len() == w
            &&& v[i].len <= 8 * w
            &&& nbytes(v[i].len) <= v[i].addr@.len()
        }
}

impl MpReachNlri {
    /// Address bytes of the family.
    pub fn width(&self) -> (r: usize)
        ensures
            r == family_width(self@.v6),
    {
        match self {
            MpReachNlri::Ipv4Unicast { .. } => 4,
            MpReachNlri::Ipv6Unicast { .. } => 16,
        }
    }

    /// The prefixes, whatever the family.
    pub open spec fn prefix_vec(&self) -> Seq<IpNetwork> {
        match self {
            MpReachNlri::Ipv4Unicast { prefixes, .. } => prefixes@,
            MpReachNlri::Ipv6Unicast { prefixes, .. } => prefixes@,
        }
    }

    /// Decodes the body `buf[start..end]`.
    pub fn decode(buf: &[u8], start: usize, end: usize) -> (r: Result<MpReachNlri, DecodeError>)
        requires
            start <= end <= buf@.len(),
        ensures
            match (r, decode_mp_reach(buf@.subrange(start as int, end as int))) {
                (Ok(m), Ok(v)) => m@ == v,
                (Err(e), Err(f)) => e == f,
                _ => false,
            },
    {
        let ghost s = buf@.subrange(start as int, end as int);
        if end - start < 5 {
            return Err(DecodeError::AttributeLengthError(MP_REACH_NLRI));
        }
        let afi = read_u16(buf, start);
        if !(buf[start + 2] == 1 && (afi == 1 || afi == 2)) {
            return Err(DecodeError::UnsupportedAfiSafi);
        }
        let v6 = afi == 2;
        let nhl = buf[start + 3] as usize;
        let w: usize = if v6 { 16 } else { 4 };
        if !(nhl == w || (v6 && nhl == 32)) || end - start < 5 + nhl {
            return Err(DecodeError::AttributeLengthError(MP_REACH_NLRI));
        }
        let p = start + 5 + nhl;
        assert(s.subrange(5 + nhl as int, s.len() as int) =~= buf@.subrange(p as int, end as int));
        let prefixes = read_prefixes(buf, p, end, w)?;
        if v6 {
            let nexthop = read_array(buf, start + 4, [0u8; 16]);
            assert(nexthop@ =~= s.subrange(4, 20));
            let ll_nexthop = if nhl == 32 {
                let a = read_array(buf, start + 20, [0u8; 16]);
                assert(a@ =~= s.subrange(20, 36));
                Some(a)
            } else {
                None
            };
            Ok(MpReachNlri::Ipv6Unicast { prefixes, nexthop, ll_nexthop })
        } else {
            let nexthop = read_array(buf, start + 4, [0u8; 4]);
            assert(nexthop@ =~= s.subrange(4, 8));
            Ok(MpReachNlri::Ipv4Unicast { prefixes, nexthop })
        }
    }

    /// Appends the wire body.
    pub fn encode(&self, out: &mut Vec<u8>)
        requires
            prefixes_sized(self.prefix_vec(), family_width(self@.v6)),
        ensures
            final(out)@ == old(out)@ + mp_reach_bytes(self@),
    {
        let ghost start = out@;
        match self {
            MpReachNlri::Ipv4Unicast { prefixes, nexthop } => {
                put_u16(out, 1);
                out.push(1u8);
                out.push(4u8);
                put_bytes(out, nexthop);
                out.push(0u8);
                write_prefixes(out, prefixes);
            },
            MpReachNlri::Ipv6Unicast { prefixes, nexthop, ll_nexthop } => {
                put_u16(out, 2);
                out.push(1u8);
                match ll_nexthop {
                    Some(ll) => {
                        out.push(32u8);
                        put_bytes(out, nexthop);
                        put_bytes(out, ll);
                    },
                    None => {
                        out.push(16u8);
                        put_bytes(out, nexthop);
                    },
                }
                out.push(0u8);
                write_prefixes(out, prefixes);
            },
        }
        assert(out@ =~= start + mp_reach_bytes(self@));
    }
}

impl MpUnreachNlri {
    /// Address bytes of the family.
    pub fn width(&self) -> (r: usize)
        ensures
            r == family_width(self@.v6),
    {
        match self {
            MpUnreachNlri::Ipv4Unicast { .. } => 4,
            MpUnreachNlri::Ipv6Unicast { .. } => 16,
        }
    }

    /// The prefixes, whatever the family.
    pub open spec fn prefix_vec(&self) -> Seq<IpNetwork> {
        match self {
            MpUnreachNlri::Ipv4Unicast { prefixes } => prefixes@,
            MpUnreachNlri::Ipv6Unicast { prefixes } => prefixes@,
        }
    }

    /// Decodes the body `buf[start..end]`.
    pub fn decode(buf: &[u8], start: usize, end: usize) -> (r: Result<MpUnreachNlri, DecodeError>)
        requires
            start <= end <= buf@.len(),
        ensures
            match (r, decode_mp_unreach(buf@.subrange(start as int, end as int))) {
                (Ok(m), Ok(v)) => m@ == v,
                (Err(e), Err(f)) => e == f,
                _ => false,
            },
    {
        let ghost s = buf@.subrange(start as int, end as int);
        if end - start < 3 {
            return Err(DecodeError::AttributeLengthError(MP_UNREACH_NLRI));
        }
        let afi = read_u16(buf, start);
        if !(buf[start + 2] == 1 && (afi == 1 || afi == 2)) {
            return Err(DecodeError::UnsupportedAfiSafi);
        }
        let v6 = afi == 2;
        let w: usize = if v6 { 16 } else { 4 };
        assert(s.subrange(3, s.len() as int) =~= buf@.subrange(start + 3, end as int));
        let prefixes = read_prefixes(buf, start + 3, end, w)?;
        if v6 {
            Ok(MpUnreachNlri::Ipv6Unicast { prefixes })
        } else {
            Ok(MpUnreachNlri::Ipv4Unicast { prefixes })
        }
    }

    /// Appends the wire body.
    pub fn encode(&self, out: &mut Vec<u8>)
        requires
            prefixes_sized(self.prefix_vec(), family_width(self@.v6)),
        ensures
            final(out)@ == old(out)@ + mp_unreach_bytes(self@),
    {
        let ghost start = out@;
        match self {
            MpUnreachNlri::Ipv4Unicast { prefixes } => {
                put_u16(out, 1);
                out.push(1u8);
                write_prefixes(out, prefixes);
            },
            MpUnreachNlri::Ipv6Unicast { prefixes } => {
                put_u16(out, 2);
                out.push(1u8);
                write_prefixes(out, prefixes);
            },
        }
        assert(out@ =~= start + mp_unreach_bytes(self@));
    }
}

/// An MP_REACH_NLRI value that its wire form can carry: next hops of the
/// family's width (a link-local one only for IPv6) and well-formed prefixes.
pub open spec fn mp_reach_wf(v: MpReachV) -> bool {
    &&& v.nexthop.len() == family_width(v.v6)
    &&& (v.ll_nexthop matches Some(ll) ==> v.v6 && ll.len() == 16)
    &&& forall|i: int| 0 <= i < v.prefixes.len() ==> net_wf(#[trigger] v.prefixes[i], family_width(v.v6))
}

/// An MP_UNREACH_NLRI value with well-formed prefixes.
pub open spec fn mp_unreach_wf(v: MpUnreachV) -> bool {
    forall|i: int| 0 <= i < v.prefixes.len() ==> net_wf(#[trigger] v.prefixes[i], family_width(v.v6))
}

/// A well-formed MP_REACH_NLRI value decodes back from its wire body.
pub proof fn lemma_mp_reach_round_trip(v: MpReachV)
    requires
        mp_reach_wf(v),
    ensures
        decode_mp_reach(mp_reach_bytes(v)) == Ok::<MpReachV, DecodeError>(v),
{
    let s = mp_reach_bytes(v);
    let nh = match v.ll_nexthop {
        Some(ll) => v.nexthop + ll,
        None => v.nexthop,
    };
    let afi: u16 = if v.v6 { 2 } else { 1 };
    crate::bytes::lemma_be16_bytes(afi);
    assert(be16(s[0], s[1]) == afi);
    let nhl = nh.len();
    assert(s[3] == nhl as u8);
    assert(s.subrange(5 + nhl as int, s.len() as int) =~= prefixes_bytes(v.prefixes));
    lemma_decode_prefixes_round_trip(v.prefixes, family_width(v.v6));
    assert(s.subrange(4, 4 + family_width(v.v6) as int) =~= v.nexthop);
    if let Some(ll) = v.ll_nexthop {
        assert(s.subrange(20, 36) =~= ll);
    }
}

/// A well-formed MP_UNREACH_NLRI value decodes back from its wire body.
pub proof fn lemma_mp_unreach_round_trip(v: MpUnreachV)
    requires
        mp_unreach_wf(v),
    ensures
        decode_mp_unreach(mp_unreach_bytes(v)) == Ok::<MpUnreachV, DecodeError>(v),
{
    let s = mp_unreach_bytes(v);
    let afi: u16 = if v.v6 { 2 } else { 1 };
    crate::bytes::lemma_be16_bytes(afi);
    assert(s.subrange(3, s.len() as int) =~= prefixes_bytes(v.prefixes));
    lemma_decode_prefixes_round_trip(v.prefixes, family_width(v.v6));
}

} // verus!
