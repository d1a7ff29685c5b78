use zeta9::addr::{addr_to_string, NetAddr};
use zeta9::addr_parse::parse_addr;
use zeta9::text::chars_of;

/// The 128-bit value of eight IPv6 segments.
fn v6(segs: [u16; 8]) -> u128 {
    segs.iter().fold(0u128, |acc, s| (acc << 16) | *s as u128)
}

fn v6_addr(segs: [u16; 8], port: u16, scope_id: u32) -> NetAddr {
    NetAddr::V6 { ip: v6(segs), port, flowinfo: 0, scope_id }
}

fn read(s: &str) -> Option<NetAddr> {
    parse_addr(&chars_of(s))
}

#[test]
fn v4_text() {
    let a = NetAddr::V4 { ip: 0x0102_0304, port: 80 };
    assert_eq!(addr_to_string(&a), "1.2.3.4:80");
    assert_eq!(addr_to_string(&NetAddr::unspecified()), "0.0.0.0:0");
    let hub = NetAddr::V4 { ip: (65 << 24) | (75 << 16) | (200 << 8) | 180, port: 55555 };
    assert_eq!(addr_to_string(&hub), "65.75.200.180:55555");
    let top = NetAddr::V4 { ip: u32::MAX, port: u16::MAX };
    assert_eq!(addr_to_string(&top), "255.255.255.255:65535");
}

#[test]
fn v6_text_compresses_the_longest_zero_run() {
    assert_eq!(addr_to_string(&v6_addr([0, 0, 0, 0, 0, 0, 0, 1], 80, 0)), "[::1]:80");
    assert_eq!(addr_to_string(&v6_addr([0; 8], 1, 0)), "[::]:1");
    assert_eq!(addr_to_string(&v6_addr([0x2001, 0xdb8, 0, 0, 0x8a2e, 0, 0, 0x7334], 443, 0)), "[2001:db8::8a2e:0:0:7334]:443");
    assert_eq!(addr_to_string(&v6_addr([1, 0, 0, 1, 0, 0, 0, 1], 3, 0)), "[1:0:0:1::1]:3");
    assert_eq!(addr_to_string(&v6_addr([1, 0, 1, 0, 1, 0, 1, 0], 4, 0)), "[1:0:1:0:1:0:1:0]:4");
    assert_eq!(addr_to_string(&v6_addr([1, 2, 3, 4, 5, 6, 7, 8], 5, 0)), "[1:2:3:4:5:6:7:8]:5");
    assert_eq!(addr_to_string(&v6_addr([0, 0, 1, 0, 0, 0, 0, 0], 9, 0)), "[0:0:1::]:9");
    assert_eq!(addr_to_string(&v6_addr([0, 0, 1, 1, 0, 0, 1, 1], 9, 0)), "[::1:1:0:0:1:1]:9");
    assert_eq!(addr_to_string(&v6_addr([0xabcd, 0xffff, 0, 0, 0, 0, 0, 0], 9, 0)), "[abcd:ffff::]:9");
}

#[test]
fn v6_text_with_scope_and_mapped_v4() {
    let a = NetAddr::V6 { ip: v6([0xfe80, 0, 0, 0, 0, 0, 0, 1]), port: 9, flowinfo: 7, scope_id: 2 };
    assert_eq!(addr_to_string(&a), "[fe80::1%2]:9");
    assert_eq!(addr_to_string(&v6_addr([0, 0, 0, 0, 0, 0xffff, 0x0102, 0x0304], 5, 0)), "[::ffff:1.2.3.4]:5");
    assert_eq!(addr_to_string(&v6_addr([0, 0, 0, 0, 0, 0, 0x0102, 0x0304], 7, 0)), "[::102:304]:7");
}

#[test]
fn parse_reads_socket_addresses() {
    assert_eq!(read("1.2.3.4:80"), Some(NetAddr::V4 { ip: 0x0102_0304, port: 80 }));
    assert_eq!(read("0.0.0.0:0"), Some(NetAddr::unspecified()));
    assert_eq!(read("1.2.3.4:0080"), Some(NetAddr::V4 { ip: 0x0102_0304, port: 80 }));
    assert_eq!(read("[::1]:80"), Some(v6_addr([0, 0, 0, 0, 0, 0, 0, 1], 80, 0)));
    assert_eq!(read("[fe80::1%3]:22"), Some(v6_addr([0xfe80, 0, 0, 0, 0, 0, 0, 1], 22, 3)));
    assert_eq!(read("[2001:db8::1]:443"), Some(v6_addr([0x2001, 0xdb8, 0, 0, 0, 0, 0, 1], 443, 0)));
    assert_eq!(read("[::ffff:192.168.1.1]:9"), Some(v6_addr([0, 0, 0, 0, 0, 0xffff, 0xc0a8, 0x0101], 9, 0)));
    assert_eq!(read("[1:2:3:4:5:6:7:8]:65535"), Some(v6_addr([1, 2, 3, 4, 5, 6, 7, 8], 65535, 0)));
    assert_eq!(read("[1::]:2"), Some(v6_addr([1, 0, 0, 0, 0, 0, 0, 0], 2, 0)));
    assert_eq!(read("[A:b:C:d::]:3"), Some(v6_addr([0xa, 0xb, 0xc, 0xd, 0, 0, 0, 0], 3, 0)));
    assert_eq!(read("[::1.2.3.4]:4"), Some(v6_addr([0, 0, 0, 0, 0, 0, 0x0102, 0x0304], 4, 0)));
    assert_eq!(read("[1:2:3:4:5:6:1.2.3.4]:5"), Some(v6_addr([1, 2, 3, 4, 5, 6, 0x0102, 0x0304], 5, 0)));
}

#[test]
fn parse_refuses_malformed_addresses() {
    for s in [
        "",
        "1.2.3.4",
        "1.2.3:80",
        "256.0.0.1:80",
        "1.2.3.4:65536",
        "01.2.3.4:80",
        "::1:80",
        "[::1]",
        "[1::2::3]:4",
        "1.2.3.4:80 ",
        " 1.2.3.4:80",
        "[::1]:+80",
        "[12345::]:1",
        "[1:2:3:4:5:6:7:8:9]:1",
        "[1:2:3:4:5:6:7]:1",
        "1.2.3.4:-1",
    ] {
        assert_eq!(read(s), None, "{}", s);
    }
}

#[test]
fn v4_round_trip() {
    for (ip, port) in [(0u32, 0u16), (0x7f00_0001, 8080), (u32::MAX, u16::MAX), (0x0a00_0001, 1), (0x0100_00ff, 10)] {
        let a = NetAddr::V4 { ip, port };
        assert_eq!(read(&addr_to_string(&a)), Some(a));
    }
}

#[test]
fn v6_round_trip_without_flow_label() {
    let samples = [
        v6_addr([0; 8], 0, 0),
        v6_addr([0, 0, 0, 0, 0, 0, 0, 1], 80, 0),
        v6_addr([0xfe80, 0, 0, 0, 0, 0, 0, 1], 9, 42),
        v6_addr([0, 0, 0, 0, 0, 0xffff, 0x0a00, 0x0001], 9, 0),
        v6_addr([1, 2, 3, 4, 5, 6, 7, 8], 65535, u32::MAX),
        v6_addr([1, 0, 0, 2, 0, 0, 0, 3], 7, 0),
        v6_addr([0xffff; 8], 1, 0),
    ];
    for a in samples {
        assert_eq!(read(&addr_to_string(&a)), Some(a), "{}", addr_to_string(&a));
    }
}
