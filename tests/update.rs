use holo_bgp::aspath::{AsPath, AsPathSegment, AsPathSegmentType};
use holo_bgp::attribute::{Aggregator, Attrs, BaseAttrs, ClusterList, Origin};
use holo_bgp::capability::{Capability, DecodeCxt, EncodeCxt, PeerType};
use holo_bgp::community::{Comm, CommList, ExtComm, Extv6Comm, LargeComm};
use holo_bgp::message::{Message, ReachNlri, UnreachNlri, UpdateMsg};
use holo_bgp::nlri::{MpReachNlri, MpUnreachNlri};
use holo_bgp::prefix::IpNetwork;

fn v6(groups: [u16; 8]) -> [u8; 16] {
    let mut a = [0u8; 16];
    for (i, g) in groups.iter().enumerate() {
        a[2 * i] = (g >> 8) as u8;
        a[2 * i + 1] = *g as u8;
    }
    a
}

fn net4(o: [u8; 4], len: u8) -> IpNetwork {
    IpNetwork::v4(o, len).unwrap()
}

fn net6(groups: [u16; 8], len: u8) -> IpNetwork {
    IpNetwork::v6(v6(groups), len).unwrap()
}

fn test_encode_msg(bytes: &[u8], msg: &Message) {
    let cxt = EncodeCxt {
        capabilities: vec![Capability::FourOctetAsNumber { asn: 1 }],
    };
    let encoded = msg.encode(&cxt).unwrap();
    assert_eq!(encoded, bytes);
}

fn test_decode_msg(bytes: &[u8], msg: &Message) {
    let cxt = DecodeCxt {
        peer_type: PeerType::Internal,
        peer_as: 1,
        capabilities: vec![Capability::FourOctetAsNumber { asn: 1 }],
    };
    let decoded = Message::decode(bytes, &cxt).unwrap();
    assert_eq!(&decoded, msg);
}

fn update1() -> (Vec<u8>, Message) {
    (
        vec![
            0xff, 0xff, 0xff, 0xff, 0xff, 0xff, 0xff, 0xff, 0xff, 0xff, 0xff,
            0xff, 0xff, 0xff, 0xff, 0xff, 0x00, 0x17, 0x02, 0x00, 0x00, 0x00,
            0x00,
        ],
        Message::Update(UpdateMsg {
            reach: None,
            unreach: None,
            mp_reach: None,
            mp_unreach: None,
            attrs: None,
        }),
    )
}

fn update2() -> (Vec<u8>, Message) {
    (
        vec![
            0xff, 0xff, 0xff, 0xff, 0xff, 0xff, 0xff, 0xff, 0xff, 0xff, 0xff,
            0xff, 0xff, 0xff, 0xff, 0xff, 0x01, 0x29, 0x02, 0x00, 0x08, 0x18,
            0x0a, 0x00, 0x01, 0x18, 0x0a, 0x00, 0x02, 0x01, 0x00, 0x90, 0x0e,
            0x00, 0x47, 0x00, 0x02, 0x01, 0x20, 0x30, 0x00, 0x00, 0x00, 0x00,
            0x00, 0x00, 0x00, 0x00, 0x00, 0x00, 0x00, 0x00, 0x00, 0x00, 0x01,
            0xfe, 0x80, 0x00, 0x00, 0x00, 0x00, 0x00, 0x00, 0x42, 0x07, 0xbd,
            0x19, 0x11, 0x1c, 0x84, 0x11, 0x00, 0x80, 0x20, 0x01, 0x0d, 0xb8,
            0x00, 0x01, 0x00, 0x00, 0x00, 0x00, 0x00, 0x00, 0x00, 0x00, 0x00,
            0x01, 0x80, 0x20, 0x01, 0x0d, 0xb8, 0x00, 0x01, 0x00, 0x00, 0x00,
            0x00, 0x00, 0x00, 0x00, 0x00, 0x00, 0x02, 0x90, 0x0f, 0x00, 0x25,
            0x00, 0x02, 0x01, 0x80, 0x20, 0x01, 0x0d, 0xb8, 0x00, 0x02, 0x00,
            0x00, 0x00, 0x00, 0x00, 0x00, 0x00, 0x00, 0x00, 0x01, 0x80, 0x20,
            0x01, 0x0d, 0xb8, 0x00, 0x02, 0x00, 0x00, 0x00, 0x00, 0x00, 0x00,
            0x00, 0x00, 0x00, 0x02, 0x40, 0x01, 0x01, 0x00, 0x50, 0x02, 0x00,
            0x0e, 0x02, 0x03, 0x00, 0x00, 0x00, 0x01, 0x00, 0x00, 0x00, 0x02,
            0x00, 0x00, 0x00, 0x03, 0x40, 0x03, 0x04, 0x01, 0x01, 0x01, 0x01,
            0x80, 0x04, 0x04, 0x00, 0x00, 0x01, 0xf4, 0x40, 0x05, 0x04, 0x00,
            0x00, 0x01, 0xf4, 0x40, 0x06, 0x00, 0xc0, 0x07, 0x08, 0x00, 0x00,
            0x03, 0xe8, 0x02, 0x02, 0x02, 0x02, 0xd0, 0x08, 0x00, 0x0c, 0x00,
            0x00, 0x00, 0x01, 0x00, 0x00, 0x00, 0x02, 0x00, 0x00, 0x00, 0x03,
            0x80, 0x09, 0x04, 0x01, 0x01, 0x01, 0x01, 0x90, 0x0a, 0x00, 0x04,
            0x03, 0x03, 0x03, 0x03, 0xd0, 0x10, 0x00, 0x08, 0x00, 0x00, 0x00,
            0x01, 0x00, 0x00, 0x00, 0x01, 0xd0, 0x19, 0x00, 0x14, 0x20, 0x01,
            0x0d, 0xb8, 0x00, 0x00, 0x00, 0x00, 0x00, 0x00, 0x00, 0x00, 0x00,
            0x00, 0x00, 0x01, 0x00, 0x00, 0x00, 0x01, 0xd0, 0x20, 0x00, 0x0c,
            0x00, 0x00, 0x00, 0x01, 0x00, 0x00, 0x00, 0x00, 0x00, 0x00, 0x00,
            0x01, 0x20, 0x0a, 0x00, 0xff, 0x01, 0x20, 0x0a, 0x00, 0xff, 0x02,
        ],
        Message::Update(UpdateMsg {
            reach: Some(ReachNlri {
                prefixes: vec![net4([10, 0, 255, 1], 32), net4([10, 0, 255, 2], 32)],
                nexthop: [1, 1, 1, 1],
            }),
            unreach: Some(UnreachNlri {
                prefixes: vec![net4([10, 0, 1, 0], 24), net4([10, 0, 2, 0], 24)],
            }),
            mp_reach: Some(MpReachNlri::Ipv6Unicast {
                prefixes: vec![
                    net6([0x2001, 0xdb8, 1, 0, 0, 0, 0, 1], 128),
                    net6([0x2001, 0xdb8, 1, 0, 0, 0, 0, 2], 128),
                ],
                nexthop: v6([0x3000, 0, 0, 0, 0, 0, 0, 1]),
                ll_nexthop: Some(v6([0xfe80, 0, 0, 0, 0x4207, 0xbd19, 0x111c, 0x8411])),
            }),
            mp_unreach: Some(MpUnreachNlri::Ipv6Unicast {
                prefixes: vec![
                    net6([0x2001, 0xdb8, 2, 0, 0, 0, 0, 1], 128),
                    net6([0x2001, 0xdb8, 2, 0, 0, 0, 0, 2], 128),
                ],
            }),
            attrs: Some(Attrs {
                base: BaseAttrs {
                    origin: Origin::Igp,
                    as_path: AsPath {
                        segments: vec![AsPathSegment {
                            seg_type: AsPathSegmentType::AsSequence,
                            members: vec![1, 2, 3],
                        }],
                    },
                    as4_path: None,
                    nexthop: None,
                    ll_nexthop: None,
                    med: Some(500),
                    local_pref: Some(500),
                    aggregator: Some(Aggregator { asn: 1000, identifier: [2, 2, 2, 2] }),
                    as4_aggregator: None,
                    atomic_aggregate: true,
                    originator_id: Some([1, 1, 1, 1]),
                    cluster_list: Some(ClusterList(vec![[3, 3, 3, 3]])),
                },
                comm: Some(CommList(vec![Comm(1), Comm(2), Comm(3)])),
                ext_comm: Some(CommList(vec![ExtComm([0, 0, 0, 1, 0, 0, 0, 1])])),
                extv6_comm: Some(CommList(vec![Extv6Comm(v6([0x2001, 0xdb8, 0, 0, 0, 0, 0, 1]), 1)])),
                large_comm: Some(CommList(vec![LargeComm([0, 0, 0, 1, 0, 0, 0, 0, 0, 0, 0, 1])])),
                unknown: vec![],
            }),
        }),
    )
}

#[test]
fn test_encode_update1() {
    let (bytes, msg) = update1();
    test_encode_msg(&bytes, &msg);
}

#[test]
fn test_decode_update1() {
    let (bytes, msg) = update1();
    test_decode_msg(&bytes, &msg);
}

#[test]
fn test_encode_update2() {
    let (bytes, msg) = update2();
    test_encode_msg(&bytes, &msg);
}

#[test]
fn test_decode_update2() {
    let (bytes, msg) = update2();
    test_decode_msg(&bytes, &msg);
}
