use ospfd::prefix::{prefix_covered_by, prefix_len_to_mask};
use ospfd::text::{ipv4_string, ipv6_string, parse_ipv4, parse_ipv6, split_cidr};

#[test]
fn ipv4_addresses_are_written_and_read_back() {
    for a in [0u32, 1, 0x0a000001, 0xe0000005, 0xc0a80a64, u32::MAX] {
        assert_eq!(parse_ipv4(&ipv4_string(a)), Some(a));
    }
    assert_eq!(ipv4_string(0x0a000105), "10.0.1.5");
    assert_eq!(parse_ipv4("192.168.10.100"), Some(0xc0a80a64));
}

#[test]
fn malformed_ipv4_addresses_are_refused() {
    for t in ["", "1", "1.2.3", "1.2.3.4.5", "1.2.3.256", "01.2.3.4", "1..2.3", "1.2.3.4 ", "a.b.c.d"]
    {
        assert_eq!(parse_ipv4(t), None, "{t}");
    }
}

#[test]
fn ipv6_addresses_are_written_shortest() {
    assert_eq!(ipv6_string(0), "::");
    assert_eq!(ipv6_string(1), "::1");
    assert_eq!(ipv6_string(0xfe80 << 112), "fe80::");
    assert_eq!(ipv6_string(0x2001_0db8_0000_0000_0001_0000_0000_0001), "2001:db8::1:0:0:1");
    assert_eq!(ipv6_string(0xff02_0000_0000_0000_0000_0000_0000_0005), "ff02::5");
    assert_eq!(ipv6_string(0x2001_0db8_0001_0002_0003_0004_0005_0006), "2001:db8:1:2:3:4:5:6");
}

#[test]
fn ipv6_addresses_are_read() {
    assert_eq!(parse_ipv6("::"), Some(0));
    assert_eq!(parse_ipv6("fe80::1"), Some((0xfe80 << 112) | 1));
    assert_eq!(parse_ipv6("2001:DB8:1:2:3:4:5:6"), Some(0x2001_0db8_0001_0002_0003_0004_0005_0006));
    assert_eq!(parse_ipv6("::ffff:10.0.0.1"), Some(0xffff_0a00_0001));
    for t in ["", ":", ":::", "1::2::3", "12345::", "1:2:3:4:5:6:7", "1:2:3:4:5:6:7:8:9", "g::"] {
        assert_eq!(parse_ipv6(t), None, "{t}");
    }
}

#[test]
fn prefixes_are_split() {
    assert_eq!(split_cidr("10.0.0.0/8"), Some(("10.0.0.0", 8)));
    assert_eq!(split_cidr("10.0.0.0"), None);
    assert_eq!(split_cidr("10.0.0.0/x"), None);
}

#[test]
fn a_network_covers_its_own_addresses() {
    for len in 0..=32u8 {
        let mask = prefix_len_to_mask(len);
        let addr = 0xc0a80a64;
        assert!(prefix_covered_by(addr, addr & mask, len));
        if len > 0 {
            assert!(!prefix_covered_by(addr ^ 0x8000_0000, addr & mask, len));
        }
    }
}
