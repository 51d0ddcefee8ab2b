//! Whole messages: header framing and the five message kinds.
use vstd::prelude::*;
use crate::attribute::{
    attr_record, opt_view, set_bytes, set_of, write_record, AttrSet, AttrSetV, Attrs, BaseAttrs, decode_attrs,
};
use crate::aspath::as_path_check;
use crate::bytes::{be16, put_bytes, put_u16, read_array, read_u16, u16_bytes, copy_range};
use crate::capability::{caps_view, decode_params, four_octet, params_bytes, read_params, write_params, Capability, CapV, DecodeCxt, EncodeCxt};
use crate::error::{DecodeError, EncodeError};
use crate::nlri::{family_width, mp_unreach_bytes, prefixes_sized, MpReachNlri, MpReachV, MpUnreachNlri, MpUnreachV};
use crate::prefix::{decode_prefixes, lemma_decode_prefixes_round_trip, lemma_decoded_prefixes_len, lemma_decode_prefixes_wf, net_wf, nets_view, prefixes_bytes, read_prefixes, write_prefixes, IpNetwork, NetV};

verus! {

/// Size of the fixed header: marker, length and type.
pub const HEADER_LEN: usize = 19;

/// The largest message the protocol allows.
pub const MAX_LEN: usize = 4096;

/// An OPEN message.
#[derive(Clone, Debug, PartialEq, Eq)]
pub struct OpenMsg {
    pub version: u8,
    pub my_as: u16,
    pub holdtime: u16,
    pub identifier: [u8; 4],
    pub capabilities: Vec<Capability>,
}

/// IPv4 unicast prefixes advertised in the NLRI field, with the NEXT_HOP.
#[derive(Clone, Debug, PartialEq, Eq)]
pub struct ReachNlri {
    pub prefixes: Vec<IpNetwork>,
    pub nexthop: [u8; 4],
}

/// IPv4 unicast prefixes withdrawn in the withdrawn-routes field.
#[derive(Clone, Debug, PartialEq, Eq)]
pub struct UnreachNlri {
    pub prefixes: Vec<IpNetwork>,
}

/// An UPDATE message.
#[derive(Clone, Debug, PartialEq, Eq)]
pub struct UpdateMsg {
    pub reach: Option<ReachNlri>,
    pub unreach: Option<UnreachNlri>,
    pub mp_reach: Option<MpReachNlri>,
    pub mp_unreach: Option<MpUnreachNlri>,
    pub attrs: Option<Attrs>,
}

/// A NOTIFICATION message.
#[derive(Clone, Debug, PartialEq, Eq)]
pub struct NotificationMsg {
    pub error_code: u8,
    pub error_subcode: u8,
    pub data: Vec<u8>,
}

/// A KEEPALIVE message.
#[derive(Clone, Copy, Debug, PartialEq, Eq, Structural)]
pub struct KeepaliveMsg {}

/// A ROUTE-REFRESH message.
#[derive(Clone, Copy, Debug, PartialEq, Eq, Structural)]
pub struct RouteRefreshMsg {
    pub afi: u16,
    pub safi: u8,
}

/// A protocol message.
#[derive(Clone, Debug, PartialEq, Eq)]
pub enum Message {
    Open(OpenMsg),
    Update(UpdateMsg),
    Notification(NotificationMsg),
    Keepalive(KeepaliveMsg),
    RouteRefresh(RouteRefreshMsg),
}

/// An OPEN as a mathematical value.
pub struct OpenV {
    pub version: u8,
    pub my_as: u16,
    pub holdtime: u16,
    pub identifier: Seq<u8>,
    pub capabilities: Seq<CapV>,
}

/// Path attributes as a mathematical value: the attribute set (without
/// multiprotocol NLRI) and the link-local next hop.
pub type AttrsV = (AttrSetV, Option<Seq<u8>>);

/// An UPDATE as a mathematical value.
pub struct UpdateV {
    pub reach: Option<(Seq<NetV>, Seq<u8>)>,
    pub unreach: Option<Seq<NetV>>,
    pub mp_reach: Option<MpReachV>,
    pub mp_unreach: Option<MpUnreachV>,
    pub attrs: Option<AttrsV>,
}

/// A message as a mathematical value.
pub enum MessageV {
    Open(OpenV),
    Update(UpdateV),
    Notification(u8, u8, Seq<u8>),
    Keepalive,
    RouteRefresh(u16, u8),
}

/// The view of path attributes.
pub open spec fn attrs_view(a: Attrs) -> AttrsV {
    (set_of(a, a.base.nexthop, None, None), opt_view(a.base.ll_nexthop))
}

impl View for UpdateMsg {
    type V = UpdateV;

    open spec fn view(&self) -> UpdateV {
        UpdateV {
            reach: match self.reach {
                Some(r) => Some((nets_view(r.prefixes@), r.nexthop@)),
                None => None,
            },
            unreach: match self.unreach {
                Some(u) => Some(nets_view(u.prefixes@)),
                None => None,
            },
            mp_reach: opt_view(self.mp_reach),
            mp_unreach: opt_view(self.mp_unreach),
            attrs: match self.attrs {
                Some(a) => Some(attrs_view(a)),
                None => None,
            },
        }
    }
}

impl View for Message {
    type V = MessageV;

    open spec fn view(&self) -> MessageV {
        match self {
            Message::Open(o) => MessageV::Open(
                OpenV {
                    version: o.version,
                    my_as: o.my_as,
                    holdtime: o.holdtime,
                    identifier: o.identifier@,
                    capabilities: caps_view(o.capabilities@),
                },
            ),
            Message::Update(u) => MessageV::Update(u@),
            Message::Notification(n) => MessageV::Notification(n.error_code, n.error_subcode, n.data@),
            Message::Keepalive(_) => MessageV::Keepalive,
            Message::RouteRefresh(r) => MessageV::RouteRefresh(r.afi, r.safi),
        }
    }
}

/// Decodes an OPEN body.
pub open spec fn decode_open(s: Seq<u8>) -> Result<OpenV, DecodeError> {
    if s.len() < 10 || s.len() != 10 + s[9] {
        Err(DecodeError::OpenMessageError)
    } else {
        match decode_params(s.subrange(10, s.len() as int), Seq::empty()) {
            Err(e) => Err(e),
            Ok(caps) => Ok(
                OpenV {
                    version: s[0],
                    my_as: be16(s[1], s[2]),
                    holdtime: be16(s[3], s[4]),
                    identifier: s.subrange(5, 9),
                    capabilities: caps,
                },
            ),
        }
    }
}

/// The set holds MP_UNREACH_NLRI and nothing else (it may lack even that).
pub open spec fn only_mp_unreach(st: AttrSetV) -> bool {
    &&& st.origin is None
    &&& st.as_path is None
    &&& st.nexthop is None
    &&& st.med is None
    &&& st.local_pref is None
    &&& !st.atomic_aggregate
    &&& st.aggregator is None
    &&& st.comm is None
    &&& st.originator_id is None
    &&& st.cluster_list is None
    &&& st.mp_reach is None
    &&& st.ext_comm is None
    &&& st.as4_path is None
    &&& st.as4_aggregator is None
    &&& st.extv6_comm is None
    &&& st.large_comm is None
    &&& st.unknown.len() == 0
}

/// Builds an UPDATE from its decoded parts: the withdrawn prefixes, the size
/// of the attribute section, the attributes and the advertised prefixes.
pub open spec fn assemble_update(wd: Seq<NetV>, al: nat, st: AttrSetV, nlri: Seq<NetV>) -> Result<
    UpdateV,
    DecodeError,
> {
    let unreach = if wd.len() > 0 {
        Some(wd)
    } else {
        None
    };
    if al == 0 {
        if nlri.len() > 0 {
            Err(DecodeError::MissingWellKnownAttribute(1))
        } else {
            Ok(UpdateV { reach: None, unreach, mp_reach: None, mp_unreach: None, attrs: None })
        }
    } else if nlri.len() == 0 && only_mp_unreach(st) {
        Ok(UpdateV { reach: None, unreach, mp_reach: None, mp_unreach: st.mp_unreach, attrs: None })
    } else if st.origin is None {
        Err(DecodeError::MissingWellKnownAttribute(1))
    } else if st.as_path is None {
        Err(DecodeError::MissingWellKnownAttribute(2))
    } else if nlri.len() > 0 && st.nexthop is None {
        Err(DecodeError::MissingWellKnownAttribute(3))
    } else {
        Ok(
            UpdateV {
                reach: match st.nexthop {
                    Some(nh) => if nlri.len() > 0 {
                        Some((nlri, nh))
                    } else {
                        None
                    },
                    None => None,
                },
                unreach,
                mp_reach: st.mp_reach,
                mp_unreach: st.mp_unreach,
                attrs: Some(
                    (
                        AttrSetV {
                            nexthop: if nlri.len() > 0 {
                                None
                            } else {
                                st.nexthop
                            },
                            mp_reach: None,
                            mp_unreach: None,
                            ..st
                        },
                        None,
                    ),
                ),
            },
        )
    }
}

/// Decodes an UPDATE body.
pub open spec fn decode_update(s: Seq<u8>, four: bool) -> Result<UpdateV, DecodeError> {
    if s.len() < 2 {
        Err(DecodeError::MalformedAttributeList)
    } else {
        let wl = be16(s[0], s[1]) as int;
        if s.len() < 4 + wl {
            Err(DecodeError::MalformedAttributeList)
        } else {
            let al = be16(s[2 + wl], s[3 + wl]) as int;
            if s.len() < 4 + wl + al {
                Err(DecodeError::MalformedAttributeList)
            } else {
                match decode_prefixes(s.subrange(2, 2 + wl), 4) {
                    Err(e) => Err(e),
                    Ok(wd) => match decode_attrs(s.subrange(4 + wl, 4 + wl + al), four) {
                        Err(e) => Err(e),
                        Ok(st) => match decode_prefixes(s.subrange(4 + wl + al, s.len() as int), 4) {
                            Err(e) => Err(e),
                            Ok(nlri) => assemble_update(wd, al as nat, st, nlri),
                        },
                    },
                }
            }
        }
    }
}

/// Decodes a whole message, header included; `four` says whether AS numbers
/// take four bytes.
pub open spec fn decode_message(b: Seq<u8>, four: bool) -> Result<MessageV, DecodeError> {
    if b.len() < 19 {
        Err(DecodeError::HeaderError)
    } else {
        let len = be16(b[16], b[17]) as nat;
        if len < 19 || len > 4096 || len != b.len() {
            Err(DecodeError::HeaderError)
        } else {
            let t = b[18];
            let s = b.subrange(19, b.len() as int);
            if t == 1 {
                match decode_open(s) {
                    Err(e) => Err(e),
                    Ok(o) => Ok(MessageV::Open(o)),
                }
            } else if t == 2 {
                match decode_update(s, four) {
                    Err(e) => Err(e),
                    Ok(u) => Ok(MessageV::Update(u)),
                }
            } else if t == 3 {
                if s.len() < 2 {
                    Err(DecodeError::HeaderError)
                } else {
                    Ok(MessageV::Notification(s[0], s[1], s.subrange(2, s.len() as int)))
                }
            } else if t == 4 {
                if s.len() != 0 {
                    Err(DecodeError::HeaderError)
                } else {
                    Ok(MessageV::Keepalive)
                }
            } else if t == 5 {
                if s.len() != 4 {
                    Err(DecodeError::HeaderError)
                } else {
                    Ok(MessageV::RouteRefresh(be16(s[0], s[1]), s[3]))
                }
            } else {
                Err(DecodeError::HeaderError)
            }
        }
    }
}

/// Builds an UPDATE from its decoded parts.
fn assemble(
    wd: Vec<IpNetwork>,
    al: usize,
    set: AttrSet,
    nlri: Vec<IpNetwork>,
) -> (r: Result<UpdateMsg, DecodeError>)
    ensures
        match (r, assemble_update(nets_view(wd@), al as nat, set@, nets_view(nlri@))) {
            (Ok(u), Ok(v)) => u@ == v,
            (Err(e), Err(f)) => e == f,
            _ => false,
        },
{
    let unreach = if wd.len() > 0 {
        Some(UnreachNlri { prefixes: wd })
    } else {
        None
    };
    if al == 0 {
        if nlri.len() > 0 {
            return Err(DecodeError::MissingWellKnownAttribute(1));
        }
        return Ok(UpdateMsg { reach: None, unreach, mp_reach: None, mp_unreach: None, attrs: None });
    }
    let ghost st = set@;
    let AttrSet {
        origin,
        as_path,
        nexthop,
        med,
        local_pref,
        atomic_aggregate,
        aggregator,
        comm,
        originator_id,
        cluster_list,
        mp_reach,
        mp_unreach,
        ext_comm,
        as4_path,
        as4_aggregator,
        extv6_comm,
        large_comm,
        unknown,
    } = set;
    if nlri.len() == 0 && origin.is_none() && as_path.is_none() && nexthop.is_none() && med.is_none()
        && local_pref.is_none() && !atomic_aggregate && aggregator.is_none() && comm.is_none()
        && originator_id.is_none() && cluster_list.is_none() && mp_reach.is_none()
        && ext_comm.is_none() && as4_path.is_none() && as4_aggregator.is_none()
        && extv6_comm.is_none() && large_comm.is_none() && unknown.len() == 0 {
        return Ok(UpdateMsg { reach: None, unreach, mp_reach: None, mp_unreach, attrs: None });
    }
    let origin = match origin {
        Some(o) => o,
        None => {
            return Err(DecodeError::MissingWellKnownAttribute(1));
        },
    };
    let as_path = match as_path {
        Some(p) => p,
        None => {
            return Err(DecodeError::MissingWellKnownAttribute(2));
        },
    };
    let has_nlri = nlri.len() > 0;
    let (reach, base_nexthop) = if has_nlri {
        match nexthop {
            Some(nh) => (Some(ReachNlri { prefixes: nlri, nexthop: nh }), None),
            None => {
                return Err(DecodeError::MissingWellKnownAttribute(3));
            },
        }
    } else {
        (None, nexthop)
    };
    let attrs = Attrs {
        base: BaseAttrs {
            origin,
            as_path,
            as4_path,
            nexthop: base_nexthop,
            ll_nexthop: None,
            med,
            local_pref,
            aggregator,
            as4_aggregator,
            atomic_aggregate,
            originator_id,
            cluster_list,
        },
        comm,
        ext_comm,
        extv6_comm,
        large_comm,
        unknown,
    };
    let u = UpdateMsg { reach, unreach, mp_reach, mp_unreach, attrs: Some(attrs) };
    proof {
        let v = assemble_update(nets_view(wd@), al as nat, st, nets_view(nlri@));
        assert(v matches Ok(x) && u@.attrs == x.attrs);
    }
    Ok(u)
}

impl UpdateMsg {
    /// Decodes the UPDATE body `buf[start..end]`.
    pub fn decode(buf: &[u8], start: usize, end: usize, four: bool) -> (r: Result<UpdateMsg, DecodeError>)
        requires
            start <= end <= buf@.len(),
        ensures
            match (r, decode_update(buf@.subrange(start as int, end as int), four)) {
                (Ok(u), Ok(v)) => u@ == v,
                (Err(e), Err(f)) => e == f,
                _ => false,
            },
    {
        let ghost s = buf@.subrange(start as int, end as int);
        if end - start < 2 {
            return Err(DecodeError::MalformedAttributeList);
        }
        let wl = read_u16(buf, start) as usize;
        if end - start < 4 + wl {
            return Err(DecodeError::MalformedAttributeList);
        }
        let al = read_u16(buf, start + 2 + wl) as usize;
        if end - start < 4 + wl + al {
            return Err(DecodeError::MalformedAttributeList);
        }
        let a = start + 4 + wl;
        let n = a + al;
        assert(s.subrange(2, 2 + wl as int) =~= buf@.subrange(start + 2, start + 2 + wl));
        assert(s.subrange(4 + wl as int, 4 + wl + al as int) =~= buf@.subrange(a as int, n as int));
        assert(s.subrange(4 + wl + al as int, s.len() as int) =~= buf@.subrange(n as int, end as int));
        let wd = read_prefixes(buf, start + 2, start + 2 + wl, 4)?;
        let set = AttrSet::decode(buf, a, n, four)?;
        let nlri = read_prefixes(buf, n, end, 4)?;
        assemble(wd, al, set, nlri)
    }
}

impl OpenMsg {
    /// Decodes the OPEN body `buf[start..end]`.
    pub fn decode(buf: &[u8], start: usize, end: usize) -> (r: Result<OpenMsg, DecodeError>)
        requires
            start <= end <= buf@.len(),
        ensures
            match (r, decode_open(buf@.subrange(start as int, end as int))) {
                (Ok(o), Ok(v)) => Message::Open(o)@ == MessageV::Open(v),
                (Err(e), Err(f)) => e == f,
                _ => false,
            },
    {
        let ghost s = buf@.subrange(start as int, end as int);
        if end - start < 10 || end - start != 10 + buf[start + 9] as usize {
            return Err(DecodeError::OpenMessageError);
        }
        assert(s.subrange(10, s.len() as int) =~= buf@.subrange(start + 10, end as int));
        let capabilities = read_params(buf, start + 10, end)?;
        let identifier = read_array(buf, start + 5, [0u8; 4]);
        assert(identifier@ =~= s.subrange(5, 9));
        Ok(
            OpenMsg {
                version: buf[start],
                my_as: read_u16(buf, start + 1),
                holdtime: read_u16(buf, start + 3),
                identifier,
                capabilities,
            },
        )
    }
}

impl Message {
    /// Decodes one whole message, header included, as the peer described by
    /// `cxt` sent it.
    pub fn decode(buf: &[u8], cxt: &DecodeCxt) -> (r: Result<Message, DecodeError>)
        ensures
            match (r, decode_message(buf@, cxt.four())) {
                (Ok(m), Ok(v)) => m@ == v,
                (Err(e), Err(f)) => e == f,
                _ => false,
            },
    {
        let four = four_octet(&cxt.capabilities);
        if buf.len() < HEADER_LEN {
            return Err(DecodeError::HeaderError);
        }
        let len = read_u16(buf, 16) as usize;
        if len < HEADER_LEN || len > MAX_LEN || len != buf.len() {
            return Err(DecodeError::HeaderError);
        }
        let t = buf[18];
        let end = buf.len();
        let ghost s = buf@.subrange(19, buf@.len() as int);
        if t == 1 {
            let o = OpenMsg::decode(buf, 19, end)?;
            Ok(Message::Open(o))
        } else if t == 2 {
            let u = UpdateMsg::decode(buf, 19, end, four)?;
            Ok(Message::Update(u))
        } else if t == 3 {
            if end - 19 < 2 {
                return Err(DecodeError::HeaderError);
            }
            let data = copy_range(buf, 21, end - 21);
            assert(data@ =~= s.subrange(2, s.len() as int));
            Ok(Message::Notification(NotificationMsg { error_code: buf[19], error_subcode: buf[20], data }))
        } else if t == 4 {
            if end != 19 {
                return Err(DecodeError::HeaderError);
            }
            Ok(Message::Keepalive(KeepaliveMsg {}))
        } else if t == 5 {
            if end != 23 {
                return Err(DecodeError::HeaderError);
            }
            Ok(Message::RouteRefresh(RouteRefreshMsg { afi: read_u16(buf, 19), safi: buf[22] }))
        } else {
            Err(DecodeError::HeaderError)
        }
    }
}

/// Every prefix of the UPDATE holds an address of its family's width and a
/// length that fits it.
pub open spec fn update_prefixes_sized(u: UpdateMsg) -> bool {
    &&& (u.reach matches Some(r) ==> prefixes_sized(r.prefixes@, 4))
    &&& (u.unreach matches Some(x) ==> prefixes_sized(x.prefixes@, 4))
    &&& (u.mp_reach matches Some(m) ==> prefixes_sized(m.prefix_vec(), family_width(m@.v6)))
    &&& (u.mp_unreach matches Some(m) ==> prefixes_sized(m.prefix_vec(), family_width(m@.v6)))
}

/// Why the attributes cannot be sent with the given AS number width, if they cannot.
pub open spec fn attrs_check(a: Attrs, four: bool) -> Result<(), EncodeError> {
    if as_path_check(a.base.as_path@, four) is Err {
        as_path_check(a.base.as_path@, four)
    } else if (a.base.as4_path matches Some(p) && as_path_check(p@, true) is Err) {
        Err(EncodeError::MessageTooLong)
    } else if !four && (a.base.aggregator matches Some(g) && g.asn > 0xffff) {
        Err(EncodeError::UnsupportedCapability)
    } else {
        Ok(())
    }
}

/// Why an UPDATE cannot be sent, if it cannot.
pub open spec fn update_check(u: UpdateMsg, four: bool) -> Result<(), EncodeError> {
    if u.attrs is None && (u.reach is Some || u.mp_reach is Some) {
        Err(EncodeError::MissingAttributes)
    } else if !update_prefixes_sized(u) {
        Err(EncodeError::InvalidPrefix)
    } else {
        match u.attrs {
            Some(a) => attrs_check(a, four),
            None => Ok(()),
        }
    }
}

/// The NEXT_HOP sent with an UPDATE: that of the advertised prefixes, else
/// the one among the attributes.
pub open spec fn sent_nexthop(u: UpdateMsg, a: Attrs) -> Option<[u8; 4]> {
    match u.reach {
        Some(r) => Some(r.nexthop),
        None => a.base.nexthop,
    }
}

/// The attribute section of an UPDATE; without path attributes it carries
/// MP_UNREACH_NLRI alone, if any.
pub open spec fn update_attr_bytes(u: UpdateMsg, four: bool) -> Seq<u8> {
    match u.attrs {
        Some(a) => set_bytes(set_of(a, sent_nexthop(u, a), u.mp_reach, u.mp_unreach), four),
        None => match u.mp_unreach {
            Some(m) => attr_record(0x90, 15, mp_unreach_bytes(m@)),
            None => Seq::empty(),
        },
    }
}

/// The UPDATE body: withdrawn routes, path attributes, advertised prefixes,
/// each of the first two after its length.
pub open spec fn update_body(u: UpdateMsg, four: bool) -> Seq<u8> {
    let wd = match u.unreach {
        Some(x) => prefixes_bytes(nets_view(x.prefixes@)),
        None => Seq::empty(),
    };
    let nl = match u.reach {
        Some(r) => prefixes_bytes(nets_view(r.prefixes@)),
        None => Seq::empty(),
    };
    let at = update_attr_bytes(u, four);
    u16_bytes((wd.len() % 65536) as u16) + wd + u16_bytes((at.len() % 65536) as u16) + at + nl
}

/// The OPEN body.
pub open spec fn open_body(o: OpenMsg) -> Seq<u8> {
    let p = params_bytes(caps_view(o.capabilities@));
    seq![o.version] + u16_bytes(o.my_as) + u16_bytes(o.holdtime) + o.identifier@ + seq![
        (p.len() % 256) as u8,
    ] + p
}

/// Why a message cannot be sent, if it cannot.
pub open spec fn message_check(m: Message, four: bool) -> Result<(), EncodeError> {
    match m {
        Message::Open(o) => if params_bytes(caps_view(o.capabilities@)).len() > 255 {
            Err(EncodeError::MessageTooLong)
        } else {
            Ok(())
        },
        Message::Update(u) => update_check(u, four),
        _ => Ok(()),
    }
}

/// The body of a message.
pub open spec fn message_body(m: Message, four: bool) -> Seq<u8> {
    match m {
        Message::Open(o) => open_body(o),
        Message::Update(u) => update_body(u, four),
        Message::Notification(n) => seq![n.error_code, n.error_subcode] + n.data@,
        Message::Keepalive(_) => Seq::empty(),
        Message::RouteRefresh(r) => u16_bytes(r.afi) + seq![0u8, r.safi],
    }
}

/// The type code of a message.
pub open spec fn message_type(m: Message) -> u8 {
    match m {
        Message::Open(_) => 1,
        Message::Update(_) => 2,
        Message::Notification(_) => 3,
        Message::Keepalive(_) => 4,
        Message::RouteRefresh(_) => 5,
    }
}

/// The header marker: sixteen bytes of all ones.
pub open spec fn marker() -> Seq<u8> {
    Seq::new(16, |i: int| 0xffu8)
}

/// The wire form of a whole message, or why it cannot be sent.
pub open spec fn encode_message(m: Message, four: bool) -> Result<Seq<u8>, EncodeError> {
    match message_check(m, four) {
        Err(e) => Err(e),
        Ok(_) => {
            let b = message_body(m, four);
            if 19 + b.len() > 4096 {
                Err(EncodeError::MessageTooLong)
            } else {
                Ok(marker() + u16_bytes((19 + b.len()) as u16) + seq![message_type(m)] + b)
            }
        },
    }
}

/// Whether every prefix holds an address of `w` bytes and a length that fits it.
fn sized(v: &Vec<IpNetwork>, w: usize) -> (r: bool)
    requires
        w == 4 || w == 16,
    ensures
        r == prefixes_sized(v@, w as nat),
{
    let mut i: usize = 0;
    while i < v.len()
        invariant
            i <= v@.len(),
            w == 4 || w == 16,
            forall|j: int|
                0 <= j < i ==> {
                    &&& (#[trigger] v@[j]).addr@.len() == w
                    &&& v@[j].len <= 8 * w
                    &&& crate::prefix::nbytes(v@[j].len) <= v@[j].addr@.len()
                },
        decreases v@.len() - i,
    {
        if v[i].addr.len() != w || v[i].len as usize > 8 * w || (v[i].len as usize + 7) / 8
            > v[i].addr.len() {
            return false;
        }
        i = i + 1;
    }
    true
}

impl MpReachNlri {
    fn prefixes(&self) -> (r: &Vec<IpNetwork>)
        ensures
            r@ == self.prefix_vec(),
    {
        match self {
            MpReachNlri::Ipv4Unicast { prefixes, .. } => prefixes,
            MpReachNlri::Ipv6Unicast { prefixes, .. } => prefixes,
        }
    }
}

impl MpUnreachNlri {
    fn prefixes(&self) -> (r: &Vec<IpNetwork>)
        ensures
            r@ == self.prefix_vec(),
    {
        match self {
            MpUnreachNlri::Ipv4Unicast { prefixes } => prefixes,
            MpUnreachNlri::Ipv6Unicast { prefixes } => prefixes,
        }
    }
}

impl UpdateMsg {
    /// Whether the UPDATE can be sent with the given AS number width, and why not.
    pub fn check(&self, four: bool) -> (r: Result<(), EncodeError>)
        ensures
            r == update_check(*self, four),
    {
        if self.attrs.is_none() && (self.reach.is_some() || self.mp_reach.is_some()) {
            return Err(EncodeError::MissingAttributes);
        }
        let ok_reach = match &self.reach {
            Some(r) => sized(&r.prefixes, 4),
            None => true,
        };
        let ok_unreach = match &self.unreach {
            Some(x) => sized(&x.prefixes, 4),
            None => true,
        };
        let ok_mp_reach = match &self.mp_reach {
            Some(m) => sized(m.prefixes(), m.width()),
            None => true,
        };
        let ok_mp_unreach = match &self.mp_unreach {
            Some(m) => sized(m.prefixes(), m.width()),
            None => true,
        };
        if !(ok_reach && ok_unreach && ok_mp_reach && ok_mp_unreach) {
            return Err(EncodeError::InvalidPrefix);
        }
        match &self.attrs {
            None => Ok(()),
            Some(a) => {
                a.base.as_path.check(four)?;
                if let Some(p) = &a.base.as4_path {
                    if p.check(true).is_err() {
                        return Err(EncodeError::MessageTooLong);
                    }
                }
                if !four {
                    if let Some(g) = &a.base.aggregator {
                        if g.asn > 0xffff {
                            return Err(EncodeError::UnsupportedCapability);
                        }
                    }
                }
                Ok(())
            },
        }
    }

    /// The attribute section.
    fn attr_section(&self, four: bool) -> (r: Vec<u8>)
        requires
            update_check(*self, four) is Ok,
        ensures
            r@ == update_attr_bytes(*self, four),
    {
        let mut at: Vec<u8> = Vec::new();
        if let Some(a) = &self.attrs {
            let nh = match &self.reach {
                Some(r) => Some(r.nexthop),
                None => a.base.nexthop,
            };
            a.encode(&mut at, nh, &self.mp_reach, &self.mp_unreach, four);
        } else if let Some(m) = &self.mp_unreach {
            let mut b: Vec<u8> = Vec::new();
            m.encode(&mut b);
            write_record(&mut at, 0x90, 15, &b);
        }
        assert(at@ =~= update_attr_bytes(*self, four));
        at
    }

    /// Appends the UPDATE body.
    #[verifier::rlimit(40)]
    pub fn encode_body(&self, out: &mut Vec<u8>, four: bool)
        requires
            update_check(*self, four) is Ok,
        ensures
            final(out)@ == old(out)@ + update_body(*self, four),
    {
        let ghost start = out@;
        let mut wd: Vec<u8> = Vec::new();
        if let Some(x) = &self.unreach {
            write_prefixes(&mut wd, &x.prefixes);
        }
        put_u16(out, (wd.len() % 65536) as u16);
        put_bytes(out, wd.as_slice());
        let at = self.attr_section(four);
        put_u16(out, (at.len() % 65536) as u16);
        put_bytes(out, at.as_slice());
        if let Some(r) = &self.reach {
            write_prefixes(out, &r.prefixes);
        }
        assert(out@ =~= start + update_body(*self, four));
    }
}

impl Message {
    /// The type code of the message.
    pub fn msg_type(&self) -> (r: u8)
        ensures
            r == message_type(*self),
    {
        match self {
            Message::Open(_) => 1,
            Message::Update(_) => 2,
            Message::Notification(_) => 3,
            Message::Keepalive(_) => 4,
            Message::RouteRefresh(_) => 5,
        }
    }

    /// Encodes the message, header included, for the peer described by `cxt`.
    #[verifier::rlimit(40)]
    pub fn encode(&self, cxt: &EncodeCxt) -> (r: Result<Vec<u8>, EncodeError>)
        ensures
            match (r, encode_message(*self, cxt.four())) {
                (Ok(b), Ok(v)) => b@ == v,
                (Err(e), Err(f)) => e == f,
                _ => false,
            },
    {
        let four = four_octet(&cxt.capabilities);
        let mut body: Vec<u8> = Vec::new();
        match self {
            Message::Open(o) => {
                let mut p: Vec<u8> = Vec::new();
                write_params(&mut p, &o.capabilities);
                if p.len() > 255 {
                    return Err(EncodeError::MessageTooLong);
                }
                body.push(o.version);
                put_u16(&mut body, o.my_as);
                put_u16(&mut body, o.holdtime);
                put_bytes(&mut body, &o.identifier);
                body.push((p.len() % 256) as u8);
                put_bytes(&mut body, p.as_slice());
                assert(body@ =~= open_body(*o));
            },
            Message::Update(u) => {
                u.check(four)?;
                u.encode_body(&mut body, four);
                assert(body@ =~= update_body(*u, four));
            },
            Message::Notification(n) => {
                body.push(n.error_code);
                body.push(n.error_subcode);
                put_bytes(&mut body, n.data.as_slice());
                assert(body@ =~= seq![n.error_code, n.error_subcode] + n.data@);
            },
            Message::Keepalive(_) => {
                assert(body@ =~= Seq::<u8>::empty());
            },
            Message::RouteRefresh(r) => {
                put_u16(&mut body, r.afi);
                body.push(0u8);
                body.push(r.safi);
                assert(body@ =~= u16_bytes(r.afi) + seq![0u8, r.safi]);
            },
        }
        assert(body@ == message_body(*self, four));
        if body.len() > MAX_LEN - HEADER_LEN {
            return Err(EncodeError::MessageTooLong);
        }
        let mut out: Vec<u8> = Vec::new();
        let mut i: usize = 0;
        while i < 16
            invariant
                i <= 16,
                out@ == marker().take(i as int),
            decreases 16 - i,
        {
            out.push(0xffu8);
            i = i + 1;
            assert(out@ =~= marker().take(i as int));
        }
        assert(marker().take(16) =~= marker());
        put_u16(&mut out, (HEADER_LEN + body.len()) as u16);
        out.push(self.msg_type());
        put_bytes(&mut out, body.as_slice());
        Ok(out)
    }
}

/// A message that carries no path attributes, and whose withdrawn prefixes,
/// if any, are well-formed IPv4 prefixes and at least one.
pub open spec fn attr_free(m: Message) -> bool {
    match m {
        Message::Update(u) => {
            &&& u.attrs is None
            &&& u.reach is None
            &&& u.mp_reach is None
            &&& u.mp_unreach is None
            &&& (u.unreach matches Some(x) ==> x.prefixes@.len() > 0 && forall|i: int|
                0 <= i < x.prefixes@.len() ==> net_wf(#[trigger] x.prefixes@[i]@, 4))
        },
        Message::Open(_) => false,
        _ => true,
    }
}

proof fn lemma_header(m: Message, four: bool)
    requires
        encode_message(m, four) is Ok,
    ensures
        ({
            let b = encode_message(m, four)->Ok_0;
            let body = message_body(m, four);
            &&& b.len() == 19 + body.len()
            &&& b.len() <= 4096
            &&& be16(b[16], b[17]) == b.len()
            &&& b[18] == message_type(m)
            &&& b.subrange(19, b.len() as int) == body
        }),
{
    let b = encode_message(m, four)->Ok_0;
    let body = message_body(m, four);
    crate::bytes::lemma_be16_bytes((19 + body.len()) as u16);
    assert(b.subrange(19, b.len() as int) =~= body);
}

/// Encoding a message without path attributes and decoding the bytes, with
/// the same AS number width, gives the message back.
#[verifier::rlimit(80)]
pub proof fn lemma_round_trip_attr_free(m: Message, four: bool)
    requires
        attr_free(m),
        encode_message(m, four) is Ok,
    ensures
        decode_message(encode_message(m, four)->Ok_0, four) == Ok::<MessageV, DecodeError>(m@),
{
    lemma_header(m, four);
    let b = encode_message(m, four)->Ok_0;
    let s = message_body(m, four);
    match m {
        Message::Update(u) => {
            let wd = match u.unreach {
                Some(x) => prefixes_bytes(nets_view(x.prefixes@)),
                None => Seq::<u8>::empty(),
            };
            let ps = match u.unreach {
                Some(x) => nets_view(x.prefixes@),
                None => Seq::<NetV>::empty(),
            };
            assert(update_attr_bytes(u, four) =~= Seq::<u8>::empty());
            assert(s =~= u16_bytes((wd.len() % 65536) as u16) + wd + u16_bytes(0u16));
            crate::bytes::lemma_be16_bytes((wd.len() % 65536) as u16);
            crate::bytes::lemma_be16_bytes(0u16);
            assert(be16(s[0], s[1]) == wd.len());
            let wl = wd.len() as int;
            assert(s[2 + wl] == u16_bytes(0u16)[0] && s[3 + wl] == u16_bytes(0u16)[1]);
            assert(s.subrange(2, 2 + wl) =~= wd);
            assert(forall|i: int| 0 <= i < ps.len() ==> net_wf(#[trigger] ps[i], 4)) by {
                if let Some(x) = u.unreach {
                    assert forall|i: int| 0 <= i < ps.len() implies net_wf(#[trigger] ps[i], 4) by {
                        assert(ps[i] == x.prefixes@[i]@);
                    }
                }
            }
            lemma_decode_prefixes_round_trip(ps, 4);
            if u.unreach is None {
                assert(ps =~= Seq::<NetV>::empty());
                assert(wd =~= prefixes_bytes(ps));
            }
            assert(s.subrange(4 + wl, 4 + wl) =~= Seq::<u8>::empty());
            assert(s.subrange(4 + wl, s.len() as int) =~= Seq::<u8>::empty());
            assert(decode_prefixes(Seq::<u8>::empty(), 4) == Ok::<Seq<NetV>, DecodeError>(Seq::empty()));
            assert(decode_attrs(Seq::<u8>::empty(), four) == Ok::<AttrSetV, DecodeError>(crate::attribute::empty_set()));
        },
        Message::Notification(n) => {
            assert(s.subrange(2, s.len() as int) =~= n.data@);
        },
        Message::RouteRefresh(r) => {
            crate::bytes::lemma_be16_bytes(r.afi);
        },
        _ => {},
    }
}

/// Decoding a message that carries no path attributes, encoding the result
/// with the same AS number width and decoding again gives the same message.
#[verifier::rlimit(80)]
pub proof fn lemma_idempotent_attr_free(b: Seq<u8>, four: bool, m: Message)
    requires
        decode_message(b, four) == Ok::<MessageV, DecodeError>(m@),
        !(m is Open),
        m matches Message::Update(u) ==> u.attrs is None && u.reach is None && u.mp_reach is None
            && u.mp_unreach is None,
    ensures
        encode_message(m, four) is Ok,
        decode_message(encode_message(m, four)->Ok_0, four) == Ok::<MessageV, DecodeError>(m@),
{
    let s = b.subrange(19, b.len() as int);
    if let Message::Update(u) = m {
        let wl = be16(s[0], s[1]) as int;
        let sec = s.subrange(2, 2 + wl);
        lemma_decode_prefixes_wf(sec, 4, Seq::empty());
        lemma_decoded_prefixes_len(sec, 4, Seq::empty());
        if let Some(x) = u.unreach {
            let ps = nets_view(x.prefixes@);
            assert(decode_prefixes(sec, 4) == Ok::<Seq<NetV>, DecodeError>(ps));
            assert(ps.subrange(0, ps.len() as int) =~= ps);
            assert forall|i: int| 0 <= i < x.prefixes@.len() implies net_wf(#[trigger] x.prefixes@[i]@, 4) by {
                assert(ps[i] == x.prefixes@[i]@);
            }
            assert(prefixes_sized(x.prefixes@, 4)) by {
                assert forall|i: int| 0 <= i < x.prefixes@.len() implies {
                    &&& (#[trigger] x.prefixes@[i]).addr@.len() == 4
                    &&& x.prefixes@[i].len <= 8 * 4
                    &&& crate::prefix::nbytes(x.prefixes@[i].len) <= x.prefixes@[i].addr@.len()
                } by {
                    assert(ps[i] == x.prefixes@[i]@);
                    assert(net_wf(ps[i], 4));
                }
            }
            assert(prefixes_bytes(ps).len() == wl);
        }
        assert(update_attr_bytes(u, four) =~= Seq::<u8>::empty());
        assert(message_check(m, four) is Ok);
        assert(message_body(m, four).len() <= s.len());
    } else if let Message::Notification(n) = m {
        assert(n.data@ =~= s.subrange(2, s.len() as int));
    }
    assert(attr_free(m));
    lemma_round_trip_attr_free(m, four);
}

} // verus!
