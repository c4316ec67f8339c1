use ospfd::io_punt_v3::{
    build_ipv6_packet, is_multicast_v6, multicast_mac_v6, ospfv3_checksum,
    ospfv3_compute_checksum_in_place,
};
use ospfd::packet_v3::dd::DbDescV3Packet;
use ospfd::packet_v3::hello::HelloV3Packet;
use ospfd::packet_v3::lsa::{
    InterAreaPrefixLsaV3, IntraAreaPrefixLsaV3, NetworkLsaV3, RouterLinkV3, RouterLsaV3,
};
use ospfd::packet_v3::lsack::LsAckV3Packet;
use ospfd::packet_v3::lsr::{LsRequestV3, LsRequestV3Packet};
use ospfd::packet_v3::lsu::{LsUpdateV3Packet, LsaV3Raw};
use ospfd::packet_v3::prefix::Ospfv3Prefix;
use ospfd::packet_v3::{
    frame, LsaV3Header, LsaV3Type, Options, Ospfv3Header, Ospfv3PacketType, PacketV3Error,
    ALL_SPF_ROUTERS_V6,
};

fn lsa_header(ls_type: LsaV3Type, id: u32, length: u16) -> LsaV3Header {
    LsaV3Header {
        ls_age: 3,
        ls_type,
        link_state_id: id,
        advertising_router: 9,
        ls_sequence_number: -5,
        ls_checksum: 0xabcd,
        length,
    }
}

#[test]
fn framed_packet_says_what_it_is() {
    let data = frame(Ospfv3PacketType::Hello, 1, 2, 3, &vec![7, 8, 9, 10]);
    let h = Ospfv3Header::parse(&data).unwrap();
    assert_eq!(h.packet_type, Ospfv3PacketType::Hello);
    assert_eq!((h.router_id, h.area_id, h.instance_id), (1, 2, 3));
    assert_eq!(h.packet_length, 20);
    assert_eq!(&data[16..], &[7, 8, 9, 10]);
}

#[test]
fn v3_bodies_are_read_back_as_they_were_written() {
    let hello = HelloV3Packet {
        interface_id: 5,
        router_priority: 1,
        options: Options::standard(),
        hello_interval: 10,
        router_dead_interval: 40,
        designated_router_id: 1,
        backup_designated_router_id: 2,
        neighbors: vec![3, 4],
    };
    let mut buf = Vec::new();
    hello.encode(&mut buf);
    assert_eq!(format!("{:?}", HelloV3Packet::parse(&buf).unwrap()), format!("{:?}", hello));

    let dd = DbDescV3Packet {
        options: Options::standard().0,
        interface_mtu: 1500,
        flags: 7,
        dd_sequence_number: 8,
        lsa_headers: vec![lsa_header(LsaV3Type::Link, 1, 20), lsa_header(LsaV3Type::Nssa, 2, 24)],
    };
    let mut buf = Vec::new();
    dd.encode(&mut buf);
    let back = DbDescV3Packet::parse(&buf).unwrap();
    assert_eq!(format!("{:?}", back), format!("{:?}", dd));
    assert!(back.is_init() && back.has_more() && back.is_master());

    let lsr = LsRequestV3Packet {
        requests: vec![LsRequestV3 {
            ls_type: LsaV3Type::IntraAreaPrefix,
            link_state_id: 6,
            advertising_router: 7,
        }],
    };
    let mut buf = Vec::new();
    lsr.encode(&mut buf);
    assert_eq!(format!("{:?}", LsRequestV3Packet::parse(&buf).unwrap()), format!("{:?}", lsr));

    let ack = LsAckV3Packet { headers: vec![lsa_header(LsaV3Type::Router, 0, 20)] };
    let mut buf = Vec::new();
    ack.encode(&mut buf);
    assert_eq!(format!("{:?}", LsAckV3Packet::parse(&buf).unwrap()), format!("{:?}", ack));
}

fn raw(header: LsaV3Header, body: &[u8]) -> LsaV3Raw {
    let mut raw = Vec::new();
    header.encode(&mut raw);
    raw.extend_from_slice(body);
    LsaV3Raw { header, raw }
}

#[test]
fn v3_update_is_split_into_its_lsas() {
    let lsu = LsUpdateV3Packet {
        lsas: vec![
            raw(lsa_header(LsaV3Type::Router, 0, 24), &[1, 2, 3, 4]),
            raw(lsa_header(LsaV3Type::AsExternal, 1, 20), &[]),
        ],
    };
    let mut buf = Vec::new();
    lsu.encode(&mut buf);
    let back = LsUpdateV3Packet::parse(&buf).unwrap();
    assert_eq!(format!("{:?}", back), format!("{:?}", lsu));
}

#[test]
fn v3_lsa_bodies_are_read_back() {
    let router = RouterLsaV3 {
        flags: 1,
        options: Options::standard().0,
        links: vec![RouterLinkV3 {
            link_type: 1,
            metric: 10,
            interface_id: 2,
            neighbor_interface_id: 3,
            neighbor_router_id: 4,
        }],
    };
    let mut buf = Vec::new();
    router.encode(&mut buf);
    assert_eq!(format!("{:?}", RouterLsaV3::parse(&buf).unwrap()), format!("{:?}", router));

    let network = NetworkLsaV3 { options: Options::standard().0, attached_routers: vec![1, 2] };
    let mut buf = Vec::new();
    network.encode(&mut buf);
    assert_eq!(format!("{:?}", NetworkLsaV3::parse(&buf).unwrap()), format!("{:?}", network));

    let p = Ospfv3Prefix::plain(0x2001_0db8_0001_0000_0000_0000_0000_0000, 48);
    let intra = IntraAreaPrefixLsaV3 {
        referenced_ls_type: 0x2001,
        referenced_link_state_id: 0,
        referenced_advertising_router: 9,
        prefixes: vec![p, p],
    };
    let mut buf = Vec::new();
    intra.encode(&mut buf);
    assert_eq!(format!("{:?}", IntraAreaPrefixLsaV3::parse(&buf).unwrap()), format!("{:?}", intra));

    let inter = InterAreaPrefixLsaV3 { metric: 12, prefix: p };
    let mut buf = Vec::new();
    inter.encode(&mut buf);
    assert_eq!(format!("{:?}", InterAreaPrefixLsaV3::parse(&buf).unwrap()), format!("{:?}", inter));
}

#[test]
fn each_malformed_v3_packet_has_its_error() {
    let data = frame(Ospfv3PacketType::Hello, 1, 2, 0, &vec![0; 20]);
    assert_eq!(
        Ospfv3Header::parse(&data[..3]).unwrap_err(),
        PacketV3Error::TooShort { expected: 16, got: 3 }
    );
    let mut version = data.clone();
    version[0] = 2;
    assert_eq!(Ospfv3Header::parse(&version).unwrap_err(), PacketV3Error::BadVersion(2));
    let mut kind = data.clone();
    kind[1] = 6;
    assert_eq!(Ospfv3Header::parse(&kind).unwrap_err(), PacketV3Error::UnknownPacketType(6));

    let mut header = Vec::new();
    lsa_header(LsaV3Type::Router, 0, 20).encode(&mut header);
    header[2] = 0x7f;
    header[3] = 0x01;
    assert_eq!(LsaV3Header::parse_at(&header, 0).unwrap_err(), PacketV3Error::UnknownLsaType(0x7f01));

    let lsu = LsUpdateV3Packet { lsas: vec![raw(lsa_header(LsaV3Type::Router, 0, 19), &[])] };
    let mut buf = Vec::new();
    lsu.encode(&mut buf);
    assert_eq!(LsUpdateV3Packet::parse(&buf).unwrap_err(), PacketV3Error::BadLsaLength(19));

    let prefix = [129u8, 0, 0, 0];
    assert_eq!(Ospfv3Prefix::parse_at(&prefix, 0).unwrap_err(), PacketV3Error::BadPrefixLength(129));
}

/// The sum of the 16-bit words, folded, as the other side takes it.
fn folded(src: u128, dst: u128, data: &[u8]) -> u16 {
    let mut all = src.to_be_bytes().to_vec();
    all.extend_from_slice(&dst.to_be_bytes());
    all.extend_from_slice(&(data.len() as u32).to_be_bytes());
    all.extend_from_slice(&[0, 0, 0, 89]);
    all.extend_from_slice(data);
    if all.len() % 2 == 1 {
        all.push(0);
    }
    let mut sum: u32 = 0;
    for w in all.chunks(2) {
        sum += u16::from_be_bytes([w[0], w[1]]) as u32;
    }
    while sum > 0xffff {
        sum = (sum & 0xffff) + (sum >> 16);
    }
    sum as u16
}

#[test]
fn v3_checksum_covers_the_pseudo_header() {
    let src: u128 = 0xfe80_0000_0000_0000_0000_0000_0000_0001;
    let data = frame(Ospfv3PacketType::Hello, 1, 0, 0, &vec![1, 2, 3, 4, 5]);
    let sealed = ospfv3_compute_checksum_in_place(src, ALL_SPF_ROUTERS_V6, &data);
    assert_eq!(sealed.len(), data.len());
    assert_eq!(folded(src, ALL_SPF_ROUTERS_V6, &sealed), 0xffff);
    let carried = u16::from_be_bytes([sealed[12], sealed[13]]);
    assert_eq!(ospfv3_checksum(src, ALL_SPF_ROUTERS_V6, &data), carried);
    assert_ne!(ospfv3_checksum(src + 1, ALL_SPF_ROUTERS_V6, &data), carried);
}

#[test]
fn v6_multicast_addresses_have_group_macs() {
    assert!(is_multicast_v6(ALL_SPF_ROUTERS_V6));
    assert!(!is_multicast_v6(1));
    assert_eq!(multicast_mac_v6(ALL_SPF_ROUTERS_V6), [0x33, 0x33, 0, 0, 0, 5]);
}

#[test]
fn ipv6_header_says_length_protocol_and_hop_limit() {
    let p = build_ipv6_packet(1, ALL_SPF_ROUTERS_V6, &[9; 30]);
    assert_eq!(p.len(), 70);
    assert_eq!(p[0] >> 4, 6);
    assert_eq!(u16::from_be_bytes([p[4], p[5]]), 30);
    assert_eq!(p[6], 89);
    assert_eq!(p[7], 1);
    assert_eq!(&p[40..], &[9; 30]);
}
