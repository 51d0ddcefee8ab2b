use holo_bgp::aspath::{AsPath, AsPathSegment, AsPathSegmentType};
use holo_bgp::attribute::{AttrSet, Attrs, BaseAttrs, Origin, UnknownAttr};
use holo_bgp::capability::{Capability, DecodeCxt, EncodeCxt, PeerType};
use holo_bgp::error::{DecodeError, EncodeError};
use holo_bgp::message::{
    KeepaliveMsg, Message, NotificationMsg, OpenMsg, ReachNlri, RouteRefreshMsg, UnreachNlri,
    UpdateMsg,
};
use holo_bgp::nlri::MpUnreachNlri;
use holo_bgp::prefix::{read_prefixes, write_prefix, IpNetwork};

fn dcxt(four: bool) -> DecodeCxt {
    let capabilities = if four {
        vec![Capability::FourOctetAsNumber { asn: 65550 }]
    } else {
        vec![Capability::RouteRefresh]
    };
    DecodeCxt { peer_type: PeerType::External, peer_as: 65550, capabilities }
}

fn ecxt(four: bool) -> EncodeCxt {
    EncodeCxt { capabilities: dcxt(four).capabilities }
}

fn framed(msg_type: u8, body: &[u8]) -> Vec<u8> {
    let mut b = vec![0xff; 16];
    let len = 19 + body.len();
    b.push((len >> 8) as u8);
    b.push(len as u8);
    b.push(msg_type);
    b.extend_from_slice(body);
    b
}

fn update_with_attrs(attrs: &[u8], nlri: &[u8]) -> Vec<u8> {
    let mut body = vec![0, 0, (attrs.len() >> 8) as u8, attrs.len() as u8];
    body.extend_from_slice(attrs);
    body.extend_from_slice(nlri);
    framed(2, &body)
}

fn base_attrs() -> Attrs {
    Attrs {
        base: BaseAttrs {
            origin: Origin::Igp,
            as_path: AsPath { segments: vec![] },
            as4_path: None,
            nexthop: None,
            ll_nexthop: None,
            med: None,
            local_pref: None,
            aggregator: None,
            as4_aggregator: None,
            atomic_aggregate: false,
            originator_id: None,
            cluster_list: None,
        },
        comm: None,
        ext_comm: None,
        extv6_comm: None,
        large_comm: None,
        unknown: vec![],
    }
}

#[test]
fn as_path_width_follows_capability() {
    let body = [2u8, 2, 0, 1, 0, 2, 2, 0, 2, 0];
    let two = AsPath::decode(&body, 0, body.len(), false).unwrap();
    assert_eq!(two.segments.len(), 3);
    assert_eq!(two.segments[0].members, vec![1, 2]);
    assert_eq!(two.segments[0].seg_type, AsPathSegmentType::AsSequence);
    assert!(two.segments[1].members.is_empty() && two.segments[2].members.is_empty());
    let four = AsPath::decode(&body, 0, body.len(), true).unwrap();
    assert_eq!(four.segments.len(), 1);
    assert_eq!(four.segments[0].members, vec![65538, 33554944]);
}

#[test]
fn update_as_path_width_follows_context() {
    let attrs = [0x40u8, 1, 1, 0, 0x40, 2, 6, 2, 1, 0, 1, 0, 2];
    let bytes = update_with_attrs(&attrs, &[]);
    let two = Message::decode(&bytes, &dcxt(false));
    assert_eq!(two, Err(DecodeError::MalformedAsPath));
    let four = Message::decode(&bytes, &dcxt(true)).unwrap();
    match four {
        Message::Update(u) => {
            let a = u.attrs.unwrap();
            assert_eq!(a.base.as_path.segments[0].members, vec![65538]);
        }
        _ => panic!("not an update"),
    }
}

#[test]
fn wrong_flags_are_rejected() {
    let buf = [0x80u8, 1, 1, 0];
    assert_eq!(AttrSet::decode(&buf, 0, buf.len(), true).unwrap_err(), DecodeError::AttributeFlagsError(1));
    let buf = [0x40u8, 4, 4, 0, 0, 1, 0xf4];
    assert_eq!(AttrSet::decode(&buf, 0, buf.len(), true).unwrap_err(), DecodeError::AttributeFlagsError(4));
}

#[test]
fn unknown_attribute_round_trips() {
    let attrs = [0x40u8, 1, 1, 0, 0x50, 2, 0, 0, 0xe0, 0x63, 3, 1, 2, 3];
    let bytes = update_with_attrs(&attrs, &[]);
    let msg = Message::decode(&bytes, &dcxt(true)).unwrap();
    match &msg {
        Message::Update(u) => {
            let a = u.attrs.as_ref().unwrap();
            assert_eq!(a.unknown, vec![UnknownAttr { flags: 0xe0, attr_type: 0x63, value: vec![1, 2, 3] }]);
        }
        _ => panic!("not an update"),
    }
    assert_eq!(msg.encode(&ecxt(true)).unwrap(), bytes);
}

#[test]
fn unrecognized_well_known_is_rejected() {
    let buf = [0x40u8, 0x63, 0];
    assert_eq!(
        AttrSet::decode(&buf, 0, buf.len(), true).unwrap_err(),
        DecodeError::UnrecognizedWellKnownAttribute(0x63)
    );
}

#[test]
fn prefix_boundaries() {
    let mut out = vec![];
    write_prefix(&mut out, &IpNetwork::v4([0, 0, 0, 0], 0).unwrap());
    assert_eq!(out, vec![0]);
    let mut out = vec![];
    write_prefix(&mut out, &IpNetwork::v4([10, 0, 255, 1], 32).unwrap());
    assert_eq!(out, vec![32, 10, 0, 255, 1]);
    let full = [0x20u8, 1, 0x0d, 0xb8, 0, 0, 0, 0, 0, 0, 0, 0, 0, 0, 0, 1];
    let mut out = vec![];
    write_prefix(&mut out, &IpNetwork::v6(full, 128).unwrap());
    let mut expected = vec![128u8];
    expected.extend_from_slice(&full);
    assert_eq!(out, expected);
    assert!(IpNetwork::v4([10, 0, 1, 1], 24).is_none());
    assert!(IpNetwork::v4([10, 0, 1, 0], 33).is_none());
    let ok = [24u8, 10, 0, 1];
    let v = read_prefixes(&ok, 0, ok.len(), 4).unwrap();
    assert_eq!(v, vec![IpNetwork::v4([10, 0, 1, 0], 24).unwrap()]);
    let bad = [23u8, 10, 0, 1];
    assert_eq!(read_prefixes(&bad, 0, bad.len(), 4), Err(DecodeError::InvalidNetworkField));
    let overrun = [24u8, 10, 0];
    assert_eq!(read_prefixes(&overrun, 0, overrun.len(), 4), Err(DecodeError::InvalidNetworkField));
    let too_long = [33u8, 10, 0, 1, 0, 0];
    assert_eq!(read_prefixes(&too_long, 0, too_long.len(), 4), Err(DecodeError::InvalidNetworkField));
}

#[test]
fn decode_encode_decode_is_stable() {
    let attrs = [
        0x40u8, 1, 1, 2, 0x50, 2, 0, 10, 1, 2, 0, 0, 0, 7, 0, 0, 0, 8, 0x40, 3, 4, 9, 9, 9, 9,
        0x80, 4, 4, 0, 0, 0, 5, 0xc0, 8, 4, 0, 1, 0, 2,
    ];
    let nlri = [16u8, 172, 16];
    let bytes = update_with_attrs(&attrs, &nlri);
    let m1 = Message::decode(&bytes, &dcxt(true)).unwrap();
    let again = m1.encode(&ecxt(true)).unwrap();
    let m2 = Message::decode(&again, &dcxt(true)).unwrap();
    assert_eq!(m1, m2);
    match m1 {
        Message::Update(u) => {
            let r = u.reach.unwrap();
            assert_eq!(r.nexthop, [9, 9, 9, 9]);
            assert_eq!(r.prefixes, vec![IpNetwork::v4([172, 16, 0, 0], 16).unwrap()]);
            let a = u.attrs.unwrap();
            assert_eq!(a.base.origin, Origin::Incomplete);
            assert_eq!(a.base.med, Some(5));
            assert_eq!(a.base.nexthop, None);
            assert_eq!(a.base.as_path.segments[0].seg_type, AsPathSegmentType::AsSet);
            assert_eq!(a.base.as_path.segments[0].members, vec![7, 8]);
        }
        _ => panic!("not an update"),
    }
}

#[test]
fn open_round_trip() {
    let bytes = vec![
        0xff, 0xff, 0xff, 0xff, 0xff, 0xff, 0xff, 0xff, 0xff, 0xff, 0xff, 0xff, 0xff, 0xff, 0xff,
        0xff, 0x00, 0x3d, 0x01, 0x04, 0x00, 0x01, 0x00, 0xb4, 0x01, 0x01, 0x01, 0x01, 0x20, 0x02,
        0x06, 0x01, 0x04, 0x00, 0x01, 0x00, 0x01, 0x02, 0x06, 0x01, 0x04, 0x00, 0x02, 0x00, 0x01,
        0x02, 0x02, 0x02, 0x00, 0x02, 0x06, 0x41, 0x04, 0x00, 0x01, 0x00, 0x0e, 0x02, 0x02, 0x46,
        0x00,
    ];
    let msg = Message::Open(OpenMsg {
        version: 4,
        my_as: 1,
        holdtime: 180,
        identifier: [1, 1, 1, 1],
        capabilities: vec![
            Capability::MultiProtocol { afi: 1, safi: 1 },
            Capability::MultiProtocol { afi: 2, safi: 1 },
            Capability::RouteRefresh,
            Capability::FourOctetAsNumber { asn: 65550 },
            Capability::Unknown { code: 70, value: vec![] },
        ],
    });
    assert_eq!(Message::decode(&bytes, &dcxt(true)).unwrap(), msg);
    let packed = vec![
        0xff, 0xff, 0xff, 0xff, 0xff, 0xff, 0xff, 0xff, 0xff, 0xff, 0xff, 0xff, 0xff, 0xff, 0xff,
        0xff, 0x00, 0x35, 0x01, 0x04, 0x00, 0x01, 0x00, 0xb4, 0x01, 0x01, 0x01, 0x01, 0x18, 0x02,
        0x16, 0x01, 0x04, 0x00, 0x01, 0x00, 0x01, 0x01, 0x04, 0x00, 0x02, 0x00, 0x01, 0x02, 0x00,
        0x41, 0x04, 0x00, 0x01, 0x00, 0x0e, 0x46, 0x00,
    ];
    assert_eq!(msg.encode(&ecxt(true)).unwrap(), packed);
    assert_eq!(Message::decode(&packed, &dcxt(true)).unwrap(), msg);
}

#[test]
fn open_with_large_capabilities_is_stable() {
    let mut param = vec![2u8, 253, 0x80, 125];
    param.extend(vec![7u8; 125]);
    param.extend([0x81u8, 124]);
    param.extend(vec![8u8; 124]);
    let mut body = vec![4u8, 0, 1, 0, 180, 1, 1, 1, 1, 255];
    body.extend(param);
    let bytes = framed(1, &body);
    assert_eq!(bytes.len(), 284);
    let msg = Message::decode(&bytes, &dcxt(true)).unwrap();
    let again = msg.encode(&ecxt(true)).unwrap();
    assert_eq!(again, bytes);
    assert_eq!(Message::decode(&again, &dcxt(true)).unwrap(), msg);
}

#[test]
fn mp_unreach_only_update() {
    let attrs = [0x90u8, 15, 0, 7, 0, 1, 1, 24, 10, 0, 1];
    let bytes = update_with_attrs(&attrs, &[]);
    let msg = Message::Update(UpdateMsg {
        reach: None,
        unreach: None,
        mp_reach: None,
        mp_unreach: Some(MpUnreachNlri::Ipv4Unicast { prefixes: vec![IpNetwork::v4([10, 0, 1, 0], 24).unwrap()] }),
        attrs: None,
    });
    assert_eq!(Message::decode(&bytes, &dcxt(true)).unwrap(), msg);
    assert_eq!(msg.encode(&ecxt(true)).unwrap(), bytes);
    let with_med = update_with_attrs(&[0x90u8, 15, 0, 7, 0, 1, 1, 24, 10, 0, 1, 0x80, 4, 4, 0, 0, 0, 1], &[]);
    assert_eq!(Message::decode(&with_med, &dcxt(true)), Err(DecodeError::MissingWellKnownAttribute(1)));
}

#[test]
fn partial_flag_is_checked() {
    let buf = [0x60u8, 1, 1, 0];
    assert_eq!(AttrSet::decode(&buf, 0, buf.len(), true).unwrap_err(), DecodeError::AttributeFlagsError(1));
    let buf = [0xa0u8, 4, 4, 0, 0, 1, 0xf4];
    assert_eq!(AttrSet::decode(&buf, 0, buf.len(), true).unwrap_err(), DecodeError::AttributeFlagsError(4));
    let buf = [0xe0u8, 8, 4, 0, 1, 0, 2];
    assert!(AttrSet::decode(&buf, 0, buf.len(), true).is_ok());
}

#[test]
fn encoded_prefix_bits_are_cleared() {
    let mut out = vec![];
    write_prefix(&mut out, &IpNetwork { addr: vec![10, 0, 1, 1], len: 23 });
    assert_eq!(out, vec![23, 10, 0, 0]);
    let mut out = vec![];
    write_prefix(&mut out, &IpNetwork { addr: vec![10, 0, 0xff, 1], len: 20 });
    assert_eq!(out, vec![20, 10, 0, 0xf0]);
}

#[test]
fn prefix_width_is_checked_on_encode() {
    let wide = UnreachNlri { prefixes: vec![IpNetwork::v6([0x20, 1, 0x0d, 0xb8, 0, 0, 0, 0, 0, 0, 0, 0, 0, 0, 0, 0], 64).unwrap()] };
    let m = Message::Update(UpdateMsg { reach: None, unreach: Some(wide), mp_reach: None, mp_unreach: None, attrs: None });
    assert_eq!(m.encode(&ecxt(true)), Err(EncodeError::InvalidPrefix));
    let long = UnreachNlri { prefixes: vec![IpNetwork { addr: vec![10, 0, 0, 0], len: 40 }] };
    let m = Message::Update(UpdateMsg { reach: None, unreach: Some(long), mp_reach: None, mp_unreach: None, attrs: None });
    assert_eq!(m.encode(&ecxt(true)), Err(EncodeError::InvalidPrefix));
}

#[test]
fn open_errors() {
    let bad_param = framed(1, &[4, 0, 1, 0, 180, 1, 1, 1, 1, 2, 3, 0]);
    assert_eq!(Message::decode(&bad_param, &dcxt(true)), Err(DecodeError::UnsupportedOptParam));
    let short = framed(1, &[4, 0, 1, 0, 180]);
    assert_eq!(Message::decode(&short, &dcxt(true)), Err(DecodeError::OpenMessageError));
}

#[test]
fn small_messages_round_trip() {
    let keepalive = framed(4, &[]);
    let m = Message::Keepalive(KeepaliveMsg {});
    assert_eq!(keepalive.len(), 19);
    assert_eq!(Message::decode(&keepalive, &dcxt(false)).unwrap(), m);
    assert_eq!(m.encode(&ecxt(false)).unwrap(), keepalive);
    let notif = framed(3, &[6, 2, 0xaa]);
    let m = Message::Notification(NotificationMsg { error_code: 6, error_subcode: 2, data: vec![0xaa] });
    assert_eq!(Message::decode(&notif, &dcxt(false)).unwrap(), m);
    assert_eq!(m.encode(&ecxt(false)).unwrap(), notif);
    let rr = framed(5, &[0, 2, 0, 1]);
    let m = Message::RouteRefresh(RouteRefreshMsg { afi: 2, safi: 1 });
    assert_eq!(Message::decode(&rr, &dcxt(false)).unwrap(), m);
    assert_eq!(m.encode(&ecxt(false)).unwrap(), rr);
}

#[test]
fn header_errors() {
    assert_eq!(Message::decode(&[0xff; 18], &dcxt(true)), Err(DecodeError::HeaderError));
    let mut wrong_len = framed(4, &[]);
    wrong_len[17] = 20;
    assert_eq!(Message::decode(&wrong_len, &dcxt(true)), Err(DecodeError::HeaderError));
    assert_eq!(Message::decode(&framed(9, &[]), &dcxt(true)), Err(DecodeError::HeaderError));
    assert_eq!(Message::decode(&framed(4, &[0]), &dcxt(true)), Err(DecodeError::HeaderError));
}

#[test]
fn attribute_errors() {
    let cases: Vec<(Vec<u8>, DecodeError)> = vec![
        (vec![0xc0, 8, 3, 1, 2, 3], DecodeError::AttributeLengthError(8)),
        (vec![0x40, 1, 1, 3], DecodeError::InvalidOrigin),
        (vec![0x40, 1, 2, 0, 0], DecodeError::AttributeLengthError(1)),
        (vec![0x40, 2, 2, 3, 0], DecodeError::MalformedAsPath),
        (vec![0x40, 1, 1, 0, 0x40, 1, 1, 0], DecodeError::MalformedAttributeList),
        (vec![0x40, 1, 5, 0], DecodeError::MalformedAttributeList),
        (vec![0x80, 14, 5, 0, 3, 1, 4, 0], DecodeError::UnsupportedAfiSafi),
        (vec![0x80, 14, 5, 0, 2, 1, 4, 0], DecodeError::AttributeLengthError(14)),
    ];
    for (buf, err) in cases {
        assert_eq!(AttrSet::decode(&buf, 0, buf.len(), true).unwrap_err(), err);
    }
}

#[test]
fn missing_well_known_attributes() {
    let no_nexthop = update_with_attrs(&[0x40, 1, 1, 0, 0x50, 2, 0, 0], &[8, 10]);
    assert_eq!(Message::decode(&no_nexthop, &dcxt(true)), Err(DecodeError::MissingWellKnownAttribute(3)));
    let no_as_path = update_with_attrs(&[0x40, 1, 1, 0], &[]);
    assert_eq!(Message::decode(&no_as_path, &dcxt(true)), Err(DecodeError::MissingWellKnownAttribute(2)));
    let no_attrs = update_with_attrs(&[], &[8, 10]);
    assert_eq!(Message::decode(&no_attrs, &dcxt(true)), Err(DecodeError::MissingWellKnownAttribute(1)));
}

#[test]
fn encode_errors() {
    let mut attrs = base_attrs();
    attrs.base.as_path = AsPath {
        segments: vec![AsPathSegment { seg_type: AsPathSegmentType::AsSequence, members: vec![70000] }],
    };
    let m = Message::Update(UpdateMsg { reach: None, unreach: None, mp_reach: None, mp_unreach: None, attrs: Some(attrs) });
    assert_eq!(m.encode(&ecxt(false)), Err(EncodeError::UnsupportedCapability));
    assert!(m.encode(&ecxt(true)).is_ok());
    let reach = ReachNlri { prefixes: vec![IpNetwork::v4([10, 0, 0, 0], 8).unwrap()], nexthop: [1, 1, 1, 1] };
    let m = Message::Update(UpdateMsg { reach: Some(reach), unreach: None, mp_reach: None, mp_unreach: None, attrs: None });
    assert_eq!(m.encode(&ecxt(true)), Err(EncodeError::MissingAttributes));
    let bad = UnreachNlri { prefixes: vec![IpNetwork { addr: vec![10], len: 24 }] };
    let m = Message::Update(UpdateMsg { reach: None, unreach: Some(bad), mp_reach: None, mp_unreach: None, attrs: None });
    assert_eq!(m.encode(&ecxt(true)), Err(EncodeError::InvalidPrefix));
    let m = Message::Notification(NotificationMsg { error_code: 1, error_subcode: 1, data: vec![0; 5000] });
    assert_eq!(m.encode(&ecxt(true)), Err(EncodeError::MessageTooLong));
}

#[test]
fn withdrawal_only_update_round_trips() {
    let unreach = UnreachNlri { prefixes: vec![IpNetwork::v4([10, 0, 1, 0], 24).unwrap()] };
    let m = Message::Update(UpdateMsg { reach: None, unreach: Some(unreach), mp_reach: None, mp_unreach: None, attrs: None });
    let bytes = m.encode(&ecxt(true)).unwrap();
    assert_eq!(bytes, framed(2, &[0, 4, 24, 10, 0, 1, 0, 0]));
    assert_eq!(Message::decode(&bytes, &dcxt(true)).unwrap(), m);
}
