use ospfd::packet::auth::{apply_auth, verify_auth, AuthKey, HmacAlgo};
use ospfd::packet::checksum::fletcher16;
use ospfd::packet::dd::DbDescPacket;
use ospfd::packet::hello::{HelloPacket, OspfOptions};
use ospfd::packet::lsa::{
    AsExternalLsa, Lsa, LsaBody, LsaHeader, LsaKey, LsaType, NetworkLsa, Recency, RouterLink,
    RouterLinkType, RouterLsa, SummaryLsa,
};
use ospfd::packet::lsr::LsRequestPacket;
use ospfd::packet::lsu::LsUpdatePacket;
use ospfd::packet::{
    verify_ospf_checksum, LsAckPacket, OspfHeader, OspfPacket, OspfPacketType, PacketError,
};

fn ip(a: u8, b: u8, c: u8, d: u8) -> u32 {
    u32::from_be_bytes([a, b, c, d])
}

/// A Hello that FRR sent from 172.30.0.1.
const CAPTURED: [u8; 48] = [
    0x02, 0x01, 0x00, 0x30, 0xac, 0x1e, 0x00, 0x01, 0x00, 0x00, 0x00, 0x00, 0x4c, 0x1a, 0x00, 0x00,
    0x00, 0x00, 0x00, 0x00, 0x00, 0x00, 0x00, 0x00, 0xff, 0xff, 0xff, 0x00, 0x00, 0x0a, 0x02, 0x01,
    0x00, 0x00, 0x00, 0x28, 0xac, 0x1e, 0x00, 0x01, 0xac, 0x1e, 0x00, 0x02, 0xac, 0x1e, 0x00, 0x02,
];

#[test]
fn captured_hello_is_read() {
    assert!(verify_ospf_checksum(&CAPTURED));
    match OspfPacket::parse(&CAPTURED).unwrap() {
        OspfPacket::Hello(header, hello) => {
            assert_eq!(header.packet_length, 48);
            assert_eq!(header.router_id, ip(172, 30, 0, 1));
            assert_eq!(header.area_id, 0);
            assert_eq!(header.checksum, 0x4c1a);
            assert_eq!(hello.network_mask, ip(255, 255, 255, 0));
            assert_eq!(hello.hello_interval, 10);
            assert!(hello.options.has_e_bit());
            assert_eq!(hello.router_priority, 1);
            assert_eq!(hello.router_dead_interval, 40);
            assert_eq!(hello.designated_router, ip(172, 30, 0, 1));
            assert_eq!(hello.backup_designated_router, ip(172, 30, 0, 2));
            assert_eq!(hello.neighbors, vec![ip(172, 30, 0, 2)]);
        }
        _ => panic!("expected a Hello"),
    }
}

#[test]
fn captured_hello_is_written_back_octet_by_octet() {
    let packet = OspfPacket::parse(&CAPTURED).unwrap();
    assert_eq!(packet.encode(), CAPTURED.to_vec());
}

fn header(packet_type: OspfPacketType) -> OspfHeader {
    OspfHeader::new(packet_type, ip(10, 0, 0, 1), ip(0, 0, 0, 1))
}

fn lsa_header(ls_type: LsaType, id: u32) -> LsaHeader {
    LsaHeader {
        ls_age: 7,
        options: 2,
        ls_type,
        link_state_id: id,
        advertising_router: ip(10, 0, 0, 1),
        ls_sequence_number: -0x7fffffff,
        ls_checksum: 0x1234,
        length: 36,
    }
}

fn lsas() -> Vec<Lsa> {
    let bodies = vec![
        (
            LsaType::Router,
            LsaBody::Router(RouterLsa {
                flags: 3,
                links: vec![RouterLink {
                    link_id: ip(10, 0, 0, 2),
                    link_data: ip(10, 0, 0, 1),
                    link_type: RouterLinkType::PointToPoint,
                    num_tos: 0,
                    metric: 10,
                }],
            }),
            4 + 12,
        ),
        (
            LsaType::Network,
            LsaBody::Network(NetworkLsa {
                network_mask: ip(255, 255, 255, 0),
                attached_routers: vec![ip(10, 0, 0, 1), ip(10, 0, 0, 2)],
            }),
            12,
        ),
        (
            LsaType::SummaryNetwork,
            LsaBody::Summary(SummaryLsa { network_mask: ip(255, 255, 0, 0), metric: 0x123456 }),
            8,
        ),
        (
            LsaType::AsExternal,
            LsaBody::AsExternal(AsExternalLsa {
                network_mask: ip(255, 0, 0, 0),
                metric_type_2: true,
                metric: 20,
                forwarding_address: 0,
                external_route_tag: 99,
            }),
            16,
        ),
    ];
    bodies
        .into_iter()
        .map(|(t, body, len)| Lsa {
            header: LsaHeader { length: 20 + len, ..lsa_header(t, ip(10, 1, 0, 0)) },
            body,
        })
        .collect()
}

#[test]
fn packets_are_read_back_as_they_were_written() {
    let key = LsaKey {
        ls_type: LsaType::AsExternal,
        link_state_id: ip(10, 1, 0, 0),
        advertising_router: ip(10, 0, 0, 9),
    };
    let packets = vec![
        OspfPacket::Hello(
            header(OspfPacketType::Hello),
            HelloPacket {
                network_mask: ip(255, 255, 255, 0),
                hello_interval: 10,
                options: OspfOptions::standard(),
                router_priority: 1,
                router_dead_interval: 40,
                designated_router: 1,
                backup_designated_router: 2,
                neighbors: vec![3, 4],
            },
        ),
        OspfPacket::DatabaseDescription(
            header(OspfPacketType::DatabaseDescription),
            DbDescPacket {
                interface_mtu: 1500,
                options: OspfOptions::standard(),
                flags: 3,
                dd_sequence_number: 77,
                lsa_headers: vec![lsa_header(LsaType::Router, 1), lsa_header(LsaType::Network, 2)],
            },
        ),
        OspfPacket::LinkStateRequest(
            header(OspfPacketType::LinkStateRequest),
            LsRequestPacket { requests: vec![key, key] },
        ),
        OspfPacket::LinkStateUpdate(
            header(OspfPacketType::LinkStateUpdate),
            LsUpdatePacket { lsas: lsas() },
        ),
        OspfPacket::LinkStateAck(
            header(OspfPacketType::LinkStateAck),
            LsAckPacket { headers: vec![lsa_header(LsaType::SummaryAsbr, 5)] },
        ),
    ];
    for packet in packets {
        let bytes = packet.encode();
        assert!(verify_ospf_checksum(&bytes));
        let back = OspfPacket::parse(&bytes).unwrap();
        assert_eq!(back.encode(), bytes);
        assert_eq!(back.header().router_id, ip(10, 0, 0, 1));
        assert_eq!(back.header().packet_length as usize, bytes.len());
    }
}

#[test]
fn lsa_bodies_are_read_back() {
    for l in lsas() {
        let bytes = l.encode();
        let back = Lsa::parse(&bytes).unwrap();
        assert_eq!(format!("{:?}", back.body), format!("{:?}", l.body));
        assert_eq!(back.header.link_state_id, l.header.link_state_id);
        assert_eq!(back.header.length as usize, bytes.len());
    }
}

#[test]
fn lsa_checksum_verifies() {
    for l in lsas() {
        let bytes = l.encode();
        let (mut c0, mut c1) = (0u32, 0u32);
        for b in &bytes[2..] {
            c0 = (c0 + *b as u32) % 255;
            c1 = (c1 + c0) % 255;
        }
        assert_eq!((c0, c1), (0, 0));
        assert_eq!(fletcher16(&bytes[2..], 14), (bytes[16], bytes[17]));
    }
}

#[test]
fn the_more_recent_instance_is_found() {
    let old = lsa_header(LsaType::Router, 1);
    let new = LsaHeader { ls_sequence_number: old.ls_sequence_number + 1, ..old };
    assert_eq!(new.is_more_recent_than(&old), Recency::Newer);
    assert_eq!(old.is_more_recent_than(&new), Recency::Older);
    assert_eq!(old.is_more_recent_than(&old), Recency::Same);
}

#[test]
fn a_password_is_checked() {
    let raw = CAPTURED.to_vec();
    let key = AuthKey::Simple(b"geheim".to_vec());
    let sent = apply_auth(raw.clone(), &key).unwrap();
    assert_eq!(sent.len(), raw.len());
    assert_eq!(&sent[14..24], b"\x00\x01geheim\x00\x00");
    assert!(verify_ospf_checksum(&sent));
    assert_eq!(verify_auth(&sent, &key), Some(true));
    assert_eq!(verify_auth(&sent, &AuthKey::Simple(b"falsch".to_vec())), Some(false));
    assert_eq!(verify_auth(&sent, &AuthKey::Null), Some(false));
    assert_eq!(verify_auth(&raw, &key), Some(false));
    assert_eq!(verify_auth(&raw, &AuthKey::Null), Some(true));
    assert_eq!(apply_auth(raw.clone(), &AuthKey::Null), Some(raw));
}

#[test]
fn keyed_digests_are_left_to_the_caller() {
    let md5 = AuthKey::Md5 { key_id: 1, key: vec![1] };
    let sha = AuthKey::HmacSha { algo: HmacAlgo::Sha256, key_id: 1, key: vec![1] };
    assert_eq!(apply_auth(CAPTURED.to_vec(), &md5), None);
    assert_eq!(verify_auth(&CAPTURED, &sha), None);
}

fn error_of(data: &[u8]) -> PacketError {
    OspfPacket::parse(data).unwrap_err()
}

#[test]
fn each_malformed_packet_has_its_error() {
    assert_eq!(error_of(&CAPTURED[..10]), PacketError::TooShort { expected: 24, got: 10 });
    assert_eq!(error_of(&CAPTURED[..40]), PacketError::TooShort { expected: 48, got: 40 });
    let mut version = CAPTURED;
    version[0] = 3;
    assert_eq!(error_of(&version), PacketError::BadVersion(3));
    let mut kind = CAPTURED;
    kind[1] = 9;
    assert_eq!(error_of(&kind), PacketError::UnknownPacketType(9));

    let one = |l: Lsa| {
        OspfPacket::LinkStateUpdate(
            header(OspfPacketType::LinkStateUpdate),
            LsUpdatePacket { lsas: vec![l] },
        )
        .encode()
    };
    let router = || lsas().remove(0);
    let mut lsa_type = one(router());
    lsa_type[24 + 4 + 3] = 77;
    assert_eq!(error_of(&lsa_type), PacketError::UnknownLsaType(77));
    let mut link_type = one(router());
    link_type[24 + 4 + 20 + 4 + 8] = 66;
    assert_eq!(error_of(&link_type), PacketError::UnknownLinkType(66));
    let mut length = one(router());
    length[24 + 4 + 18] = 0;
    length[24 + 4 + 19] = 19;
    assert_eq!(error_of(&length), PacketError::BadLsaLength(19));
}
