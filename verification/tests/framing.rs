use ospfd::io::{strip_ip_header, IoInterface, TxPacket};
use ospfd::io_punt::{
    build_ip_packet, build_punt_l2_frame, eth_l3_offset, ip_header_checksum, punt_datagram,
    punt_packet,
};
use ospfd::io_punt_v3::{
    ospfv3_checksum, ospfv3_compute_checksum_in_place, punt_datagram_v3, punt_packet_v3,
};
use ospfd::io_v3::{raw_packet_v3, IoInterfaceV3, TxPacketV3};
use ospfd::packet::ALL_SPF_ROUTERS;
use ospfd::packet_v3::ALL_SPF_ROUTERS_V6;

fn ip(a: u8, b: u8, c: u8, d: u8) -> u32 {
    u32::from_be_bytes([a, b, c, d])
}

fn interfaces(outer: Option<u16>, inner: Option<u16>) -> Vec<IoInterface> {
    vec![IoInterface {
        name: "eth0".to_string(),
        sw_if_index: 7,
        kernel_ifindex: 3,
        address: ip(10, 0, 0, 1),
        mac_address: [2, 0, 0, 0, 0, 1],
        outer_vlan_id: outer,
        inner_vlan_id: inner,
    }]
}

fn interfaces_v3(outer: Option<u16>) -> Vec<IoInterfaceV3> {
    vec![IoInterfaceV3 {
        name: "eth0".to_string(),
        sw_if_index: 7,
        kernel_ifindex: 3,
        link_local: (0xfe80 << 112) | 1,
        mac_address: [2, 0, 0, 0, 0, 1],
        outer_vlan_id: outer,
        inner_vlan_id: None,
    }]
}

fn packet(dst_addr: u32, data: Vec<u8>) -> TxPacket {
    TxPacket { sw_if_index: 7, src_addr: ip(10, 0, 0, 1), dst_addr, data }
}

#[test]
fn ipv4_header_is_exact() {
    let p = build_ip_packet(ip(10, 0, 0, 1), ALL_SPF_ROUTERS, &[1, 2, 3]);
    assert_eq!(
        p[..],
        [
            0x45, 0xc0, 0, 23, 0, 0, 0, 0, 1, 89, 0xce, 0xc8, 10, 0, 0, 1, 224, 0, 0, 5, 1, 2, 3
        ]
    );
    assert_eq!(ip_header_checksum(&p[..20]), 0);
}

#[test]
fn multicast_leaves_as_a_tagged_frame() {
    let d = punt_datagram(&interfaces(Some(100), None), &packet(ALL_SPF_ROUTERS, vec![9; 24]))
        .unwrap();
    assert_eq!(d[..8], [7, 0, 0, 0, 0, 0, 0, 0]);
    assert_eq!(d[8..14], [0x01, 0x00, 0x5e, 0, 0, 5]);
    assert_eq!(d[14..20], [2, 0, 0, 0, 0, 1]);
    assert_eq!(d[20..26], [0x81, 0x00, 0, 100, 0x08, 0x00]);
    assert_eq!(d.len(), 26 + 20 + 24);
}

#[test]
fn unicast_leaves_as_an_ip_packet() {
    let d = punt_datagram(&interfaces(Some(100), None), &packet(ip(10, 0, 0, 2), vec![9; 24]))
        .unwrap();
    assert_eq!(d[..8], [7, 0, 0, 0, 1, 0, 0, 0]);
    assert_eq!(d[8], 0x45);
    assert_eq!(d.len(), 8 + 20 + 24);
}

#[test]
fn a_multicast_datagram_is_received_as_it_was_sent() {
    for (outer, inner) in [(None, None), (Some(100), None), (Some(100), Some(200))] {
        let ifs = interfaces(outer, inner);
        let data: Vec<u8> = (0..44).collect();
        let d = punt_datagram(&ifs, &packet(ALL_SPF_ROUTERS, data.clone())).unwrap();
        let rx = punt_packet(&ifs, &d).unwrap();
        assert_eq!(rx.sw_if_index, 7);
        assert_eq!(rx.src_addr, ip(10, 0, 0, 1));
        assert_eq!(rx.dst_addr, ALL_SPF_ROUTERS);
        assert_eq!(rx.data, data);
    }
}

#[test]
fn datagrams_that_carry_no_ospf_packet_are_dropped() {
    let ifs = interfaces(None, None);
    let good = punt_datagram(&ifs, &packet(ALL_SPF_ROUTERS, vec![9; 24])).unwrap();
    assert!(punt_packet(&ifs, &good).is_some());
    assert!(punt_packet(&Vec::new(), &good).is_none());
    assert!(punt_packet(&ifs, &good[..65]).is_none());
    let mut other = good.clone();
    other[8 + 14 + 9] = 6;
    assert!(punt_packet(&ifs, &other).is_none());
    let mut long = good.clone();
    long[8 + 14 + 3] += 1;
    assert!(punt_packet(&ifs, &long).is_none());
    assert!(punt_datagram(&Vec::new(), &packet(ALL_SPF_ROUTERS, vec![9; 24])).is_none());
}

#[test]
fn raw_sockets_deliver_ip_packets() {
    let p = build_ip_packet(ip(10, 0, 0, 2), ip(10, 0, 0, 1), &[4, 5, 6]);
    let rx = strip_ip_header(7, &p).unwrap();
    assert_eq!((rx.sw_if_index, rx.src_addr, rx.dst_addr), (7, ip(10, 0, 0, 2), ip(10, 0, 0, 1)));
    assert_eq!(rx.data, vec![4, 5, 6]);
    assert!(strip_ip_header(7, &p[..19]).is_none());
    let mut options = p.clone();
    options[0] = 0x46;
    assert!(strip_ip_header(7, &options[..23]).is_none());
}

#[test]
fn raw_ipv6_sockets_deliver_ospf_packets() {
    let rx = raw_packet_v3(7, 5, &[3; 16]).unwrap();
    assert_eq!((rx.sw_if_index, rx.src_addr, rx.dst_addr), (7, 5, 0));
    assert_eq!(rx.data, vec![3; 16]);
    assert!(raw_packet_v3(7, 5, &[3; 15]).is_none());
}

#[test]
fn an_ipv6_multicast_datagram_is_received_as_it_was_sent() {
    for outer in [None, Some(5)] {
        let ifs = interfaces_v3(outer);
        let data: Vec<u8> = (0..36).collect();
        let p = TxPacketV3 {
            sw_if_index: 7,
            src_addr: ifs[0].link_local,
            dst_addr: ALL_SPF_ROUTERS_V6,
            data: data.clone(),
        };
        let d = punt_datagram_v3(&ifs, &p).unwrap();
        let rx = punt_packet_v3(&ifs, &d).unwrap();
        assert_eq!(rx.sw_if_index, 7);
        assert_eq!(rx.src_addr, ifs[0].link_local);
        assert_eq!(rx.dst_addr, ALL_SPF_ROUTERS_V6);
        assert_eq!(rx.data[..12], data[..12]);
        assert_eq!(rx.data[14..], data[14..]);
        assert_ne!(rx.data[12..14], data[12..14]);
        assert!(punt_packet_v3(&Vec::new(), &d).is_none());
        let routed = TxPacketV3 { dst_addr: ifs[0].link_local + 1, ..p };
        let u = punt_datagram_v3(&ifs, &routed).unwrap();
        assert_eq!(u.len(), 8 + 40 + 36);
        assert_eq!(u[8] / 16, 6);
    }
}

#[test]
fn at_most_three_tags_are_looked_behind() {
    for n in 0..5 {
        let mut frame = vec![0u8; 12];
        for _ in 0..n {
            frame.extend([0x81, 0x00, 0, 7]);
        }
        frame.extend([0x08, 0x00]);
        frame.extend([0x45; 20]);
        let expected = if n < 4 { Some(14 + 4 * n) } else { None };
        assert_eq!(eth_l3_offset(&frame), expected, "{n} tags");
    }
}

#[test]
fn the_payload_of_a_frame_is_found_behind_its_tags() {
    let payload: Vec<u8> = (1..30).collect();
    for (outer, inner, offset) in [
        (None, None, 14),
        (None, Some(5), 14),
        (Some(100), None, 18),
        (Some(100), Some(200), 22),
    ] {
        let f = build_punt_l2_frame([1; 6], [2; 6], outer, inner, 0x0800, &payload);
        assert_eq!(eth_l3_offset(&f), Some(offset));
        assert_eq!(f[offset..], payload[..]);
    }
}

#[test]
fn a_written_header_checksum_verifies() {
    for fill in [0u8, 1, 0x7f, 0xff] {
        for len in [12usize, 13, 20, 60] {
            let mut h = vec![fill; len];
            h[10] = 0;
            h[11] = 0;
            let c = ip_header_checksum(&h);
            h[10..12].copy_from_slice(&c.to_be_bytes());
            assert_eq!(ip_header_checksum(&h), 0, "{fill} {len}");
        }
    }
    assert_eq!(ip_header_checksum(&[0; 12]), 0xffff);
}

#[test]
fn sealing_touches_the_checksum_alone() {
    let (src, dst) = ((0xfe80 << 112) | 1, ALL_SPF_ROUTERS_V6);
    let plain: Vec<u8> = (0..40).collect();
    let mut other = plain.clone();
    other[12] = 0xaa;
    other[13] = 0x55;
    let sealed = ospfv3_compute_checksum_in_place(src, dst, &plain);
    assert_eq!(ospfv3_compute_checksum_in_place(src, dst, &other), sealed);
    assert_eq!(ospfv3_compute_checksum_in_place(src, dst, &sealed), sealed);
    assert_eq!(ospfv3_checksum(src, dst, &sealed), 0);
    assert_eq!(sealed[..12], plain[..12]);
    assert_eq!(sealed[14..], plain[14..]);
    assert_eq!(ospfv3_compute_checksum_in_place(src, dst, &plain[..13]), plain[..13]);
}
