use ospfd::io_punt::eth_l3_offset;

fn mac() -> [u8; 12] {
    [0xb8, 0x3f, 0xd2, 0x14, 0x2d, 0x9f, 0x3a, 0xe0, 0xa3, 0x25, 0x8e, 0x27]
}

#[test]
fn untagged_ipv4_returns_14() {
    let mut buf = mac().to_vec();
    buf.extend_from_slice(&[0x08, 0x00]);
    buf.extend_from_slice(&[0x45; 20]);
    assert_eq!(eth_l3_offset(&buf), Some(14));
}

#[test]
fn tagged_ipv4_returns_18() {
    let mut buf = mac().to_vec();
    buf.extend_from_slice(&[0x81, 0x00]);
    buf.extend_from_slice(&[0x00, 0x6e]);
    buf.extend_from_slice(&[0x08, 0x00]);
    buf.extend_from_slice(&[0x45; 20]);
    assert_eq!(eth_l3_offset(&buf), Some(18));
}

#[test]
fn qinq_returns_22() {
    let mut buf = mac().to_vec();
    buf.extend_from_slice(&[0x88, 0xa8]);
    buf.extend_from_slice(&[0x00, 0x10]);
    buf.extend_from_slice(&[0x81, 0x00]);
    buf.extend_from_slice(&[0x00, 0x6e]);
    buf.extend_from_slice(&[0x08, 0x00]);
    buf.extend_from_slice(&[0x45; 20]);
    assert_eq!(eth_l3_offset(&buf), Some(22));
}

#[test]
fn truncated_returns_none() {
    let buf = vec![0u8; 8];
    assert_eq!(eth_l3_offset(&buf), None);
}
