use telio::ip::{Endpoint, IpAddress, IpNet};
use telio::text::{
    chars_of, read_i32, read_unsigned, string_of, write_decimal, write_signed, IntError,
};

fn endpoint(text: &str) -> Option<Endpoint> {
    let chars = chars_of(text);
    Endpoint::parse(&chars, 0, chars.len())
}

fn net(text: &str) -> Option<IpNet> {
    let chars = chars_of(text);
    IpNet::parse(&chars, 0, chars.len())
}

fn written(e: Endpoint) -> String {
    let mut out = Vec::new();
    e.write(&mut out);
    string_of(&out)
}

fn v4(a: u8, b: u8, c: u8, d: u8, port: u16) -> Option<Endpoint> {
    Some(Endpoint::new(IpAddress::v4(a, b, c, d), port))
}

fn v6(addr: u128, port: u16, scope_id: u32) -> Option<Endpoint> {
    Some(Endpoint {
        ip: IpAddress::V6(addr),
        port,
        scope_id,
    })
}

#[test]
fn endpoints_are_read_as_socket_addresses_are() {
    let cases = [
        ("1.2.3.4:80", v4(1, 2, 3, 4, 80), "1.2.3.4:80"),
        (
            "255.255.255.255:65535",
            v4(255, 255, 255, 255, 65535),
            "255.255.255.255:65535",
        ),
        ("0.0.0.0:0", v4(0, 0, 0, 0, 0), "0.0.0.0:0"),
        ("1.2.3.4:080", v4(1, 2, 3, 4, 80), "1.2.3.4:80"),
        ("[::1]:8080", v6(1, 8080, 0), "[::1]:8080"),
        (
            "[abcd:23::33%2]:51820",
            v6(0xabcd_0023_0000_0000_0000_0000_0000_0033, 51820, 2),
            "[abcd:23::33%2]:51820",
        ),
        ("[fe80::1%0]:1", v6(0xfe80 << 112 | 1, 1, 0), "[fe80::1]:1"),
        (
            "[::ffff:1.2.3.4]:9",
            v6(0xffff_0102_0304, 9, 0),
            "[::ffff:1.2.3.4]:9",
        ),
        ("1.2.3.4:65536", None, ""),
        ("1.2.3.4", None, ""),
        ("1.2.3.4:", None, ""),
        ("1.2.3.4:+80", None, ""),
        ("1.2.3.4/32:80", None, ""),
        ("[1.2.3.4]:80", None, ""),
        ("::1:80", None, ""),
        ("[::1]", None, ""),
        ("[::1]:", None, ""),
        ("[::1%]:1", None, ""),
        ("[::1%x]:1", None, ""),
        ("[::1%4294967296]:1", None, ""),
        ("[::1/128]:1", None, ""),
        ("[::1]80", None, ""),
        ("", None, ""),
        ("localhost:80", None, ""),
        (" 1.2.3.4:80", None, ""),
    ];
    for (text, expected, canonical) in cases {
        let got = endpoint(text);
        assert_eq!(got, expected, "{text}");
        if let Some(e) = got {
            assert_eq!(written(e), canonical, "{text}");
            assert_eq!(endpoint(canonical), Some(e), "{text}");
        }
    }
}

#[test]
fn networks_are_read_by_the_ipnetwork_crate() {
    assert_eq!(
        net("192.168.4.4/24"),
        Some(IpNet {
            ip: IpAddress::v4(192, 168, 4, 4),
            prefix: 24
        })
    );
    assert_eq!(net("10.0.0.1"), Some(IpAddress::v4(10, 0, 0, 1).host_net()));
    assert_eq!(
        net("10.0.0.0/255.0.0.0"),
        Some(IpNet {
            ip: IpAddress::v4(10, 0, 0, 0),
            prefix: 8
        })
    );
    assert_eq!(
        net("fd74:656c:696f::ceed:3/128"),
        Some(IpNet {
            ip: IpAddress::V6(0xfd74_656c_696f_0000_0000_0000_ceed_0003),
            prefix: 128
        })
    );
    assert_eq!(net("::/0"), Some(IpNet::default_v6()));
    assert_eq!(net("0.0.0.0/0"), Some(IpNet::default_v4()));
    assert_eq!(net("1.2.3.4/33"), None);
    assert_eq!(net("::1/129"), None);
    assert_eq!(net("1.2.3.4/"), None);
    assert_eq!(net("1.2.3.4/1/2"), None);
    assert_eq!(net(""), None);
    let mut out = vec!['>'];
    net("fd74:656c:696::beef:4/128").unwrap().write(&mut out);
    assert_eq!(string_of(&out), ">fd74:656c:696::beef:4/128");
    let mut out = Vec::new();
    IpAddress::v4(100, 64, 0, 1).write(&mut out);
    assert_eq!(string_of(&out), "100.64.0.1");
}

#[test]
fn a_network_has_a_prefix_that_fits_its_address() {
    assert_eq!(IpNet::new(IpAddress::V4(1), 33), None);
    assert_eq!(IpNet::new(IpAddress::V6(1), 129), None);
    assert_eq!(
        IpNet::new(IpAddress::V6(1), 128),
        Some(IpAddress::V6(1).host_net())
    );
    assert_eq!(IpAddress::V4(7).host_net().prefix, 32);
    assert_eq!(IpAddress::v4(10, 5, 0, 1), IpAddress::V4(0x0a05_0001));
    for prefix in 0..=32u8 {
        let n = IpNet {
            ip: IpAddress::V4(0xdead_beef),
            prefix,
        };
        let outside = ipnetwork::Ipv4Network::new(0xdead_beefu32.into(), prefix).unwrap();
        assert_eq!(n.network().ip, IpAddress::V4(u32::from(outside.network())));
    }
    for prefix in 0..=128u8 {
        let a = 0xdead_beef_0123_4567_89ab_cdef_f00d_cafeu128;
        let n = IpNet {
            ip: IpAddress::V6(a),
            prefix,
        };
        let outside = ipnetwork::Ipv6Network::new(a.into(), prefix).unwrap();
        assert_eq!(n.network().ip, IpAddress::V6(u128::from(outside.network())));
    }
}

fn unsigned(text: &str, max: u64) -> Result<u64, IntError> {
    let chars = chars_of(text);
    read_unsigned(&chars, 0, chars.len(), max)
}

fn signed(text: &str) -> Result<i32, IntError> {
    let chars = chars_of(text);
    read_i32(&chars, 0, chars.len())
}

#[test]
fn numbers_are_read_as_the_standard_library_reads_them() {
    let cases = [
        "0", "7", "+7", "007", "65535", "65536", "", "+", "-", "-1", "1x", "x1", "99999999999x",
        "x99999999999", "4294967295", "4294967296", " 1", "1 ", "٣",
    ];
    for case in cases {
        assert_eq!(
            unsigned(case, 0xffff).ok(),
            case.parse::<u16>().ok().map(u64::from),
            "{case}"
        );
        assert_eq!(
            unsigned(case, 0xffff_ffff).ok(),
            case.parse::<u32>().ok().map(u64::from),
            "{case}"
        );
        assert_eq!(unsigned(case, u64::MAX).ok(), case.parse::<u64>().ok(), "{case}");
        assert_eq!(signed(case).ok(), case.parse::<i32>().ok(), "{case}");
    }
    for case in ["18446744073709551615", "18446744073709551616", "-2147483648", "-2147483649", "2147483647", "2147483648", "-0", "+0"] {
        assert_eq!(unsigned(case, u64::MAX).ok(), case.parse::<u64>().ok(), "{case}");
        assert_eq!(signed(case).ok(), case.parse::<i32>().ok(), "{case}");
    }
    assert_eq!(unsigned("", 9), Err(IntError::Empty));
    assert_eq!(unsigned("+", 9), Err(IntError::InvalidDigit));
    assert_eq!(unsigned("10", 9), Err(IntError::PosOverflow));
    assert_eq!(unsigned("1a", 9), Err(IntError::InvalidDigit));
    assert_eq!(unsigned("99a", 9), Err(IntError::PosOverflow));
    assert_eq!(signed("-2147483649"), Err(IntError::NegOverflow));
    assert_eq!(signed("2147483648"), Err(IntError::PosOverflow));
    assert_eq!(signed("-"), Err(IntError::InvalidDigit));
}

#[test]
fn numbers_are_written_without_leading_zeros() {
    for v in [0u64, 9, 10, 65535, 1000000000000, u64::MAX] {
        let mut out = Vec::new();
        write_decimal(&mut out, v);
        assert_eq!(string_of(&out), v.to_string());
        assert_eq!(unsigned(&string_of(&out), u64::MAX), Ok(v));
    }
    for v in [0i32, -1, 1, i32::MIN, i32::MAX] {
        let mut out = Vec::new();
        write_signed(&mut out, v);
        assert_eq!(string_of(&out), v.to_string());
        assert_eq!(signed(&string_of(&out)), Ok(v));
    }
}

/// What the standard library reads a socket address as, written back as text.
fn standard_text(text: &str) -> Option<String> {
    let addr = text.parse().ok()?;
    wireguard_uapi::xplatform::set::Peer::from_public_key([0u8; 32])
        .endpoint(addr)
        .endpoint
        .map(|e| e.to_string())
}

#[test]
fn endpoints_are_read_and_written_as_the_standard_library_does() {
    let cases = [
        "1.2.3.4:80",
        "255.255.255.255:65535",
        "0.0.0.0:0",
        "1.2.3.4:080",
        "1.2.3.4:0000000080",
        "01.2.3.4:80",
        "1.2.3:80",
        "1.2.3.4.5:80",
        "256.2.3.4:80",
        "[::1]:8080",
        "[::]:0",
        "[abcd:23::33%2]:51820",
        "[fe80::1%0]:1",
        "[fe80::1%007]:1",
        "[fe80::1%4294967295]:1",
        "[fe80::1%4294967296]:1",
        "[::ffff:1.2.3.4]:9",
        "[1:2:3:4:5:6:7:8]:9",
        "[1:2:3:4:5:6:7:8:9]:9",
        "[ABCD::EF]:9",
        "[::1]:65536",
        "[::1]:-1",
        "1.2.3.4:65536",
        "1.2.3.4",
        "1.2.3.4:",
        "1.2.3.4:+80",
        "1.2.3.4/32:80",
        "[1.2.3.4]:80",
        "::1:80",
        "[::1]",
        "[::1]:",
        "[::1%]:1",
        "[::1%x]:1",
        "[::1%+1]:1",
        "[::1/128]:1",
        "[::1]80",
        "[::1]]:80",
        "[[::1]:80",
        "",
        ":",
        "[]:1",
        "localhost:80",
        " 1.2.3.4:80",
        "1.2.3.4:80 ",
        "1.2.3.4:8 0",
    ];
    for text in cases {
        assert_eq!(endpoint(text).map(written), standard_text(text), "{text}");
    }
}
