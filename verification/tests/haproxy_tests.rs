use crust::haproxy::{
    HAPRoxyAddressFamily, HAProxyAdresses, HAProxyCommand, HAProxyFrame, HAProxyMessageV2, HAProxyTransportProtocol,
    HAProxyV1Line, SocketAddrV4, SocketAddrV6,
};
use crust::inet::{chars_of, parse_ipv4, parse_ipv6, parse_port};
use crust::util::{ByteReader, IoError};

#[test]
fn v2_reads_back() {
    let m = HAProxyMessageV2 {
        command: HAProxyCommand::Proxy,
        address_family: HAPRoxyAddressFamily::Inet,
        transport_protocol: HAProxyTransportProtocol::Stream,
        addresses: HAProxyAdresses::Inet {
            src: SocketAddrV4 { ip: [192, 168, 0, 1], port: 56324 },
            dst: SocketAddrV4 { ip: [10, 0, 0, 2], port: 25565 },
        },
    };
    let mut out = Vec::new();
    m.encode(&mut out);
    assert_eq!(out.len(), 16 + 12);
    assert_eq!(out[12], 0x21);
    assert_eq!(out[13], 0x11);
    assert_eq!(&out[14..16], &[0, 12]);
    out.push(0x42);
    let mut r = ByteReader::new(&out);
    match HAProxyFrame::decode(&mut r).unwrap() {
        HAProxyFrame::V2(back) => assert_eq!(back, m),
        _ => panic!("expected version 2"),
    }
    assert_eq!(r.remaining(), 1);
}

#[test]
fn v1_lines() {
    let line = b"PROXY TCP4 192.168.0.1 10.0.0.2 56324 25565\r\nrest";
    let mut r = ByteReader::new(line);
    match HAProxyFrame::decode(&mut r).unwrap() {
        HAProxyFrame::V1(HAProxyV1Line::Tcp4 { src, dst }) => {
            assert_eq!(src, SocketAddrV4 { ip: [192, 168, 0, 1], port: 56324 });
            assert_eq!(dst, SocketAddrV4 { ip: [192, 168, 0, 1], port: 56324 });
        },
        other => panic!("unexpected {:?}", other),
    }
    assert_eq!(r.remaining(), 4);
    let mut r = ByteReader::new(b"PROXY UNKNOWN\r\n");
    assert_eq!(HAProxyFrame::decode(&mut r).unwrap(), HAProxyFrame::V1(HAProxyV1Line::Unknown));
    let mut r = ByteReader::new(b"PROXY TCP4 1.2.3.4");
    assert_eq!(HAProxyFrame::decode(&mut r), Err(IoError::UnexpectedEof));
    let mut r = ByteReader::new(b"HELLO WORLD!!");
    assert_eq!(HAProxyFrame::decode(&mut r), Err(IoError::InvalidData));
    let mut r = ByteReader::new(b"PRO");
    assert_eq!(HAProxyFrame::decode(&mut r), Err(IoError::UnexpectedEof));
}

#[test]
fn v2_ipv6_and_local_read_back() {
    let messages = vec![
        HAProxyMessageV2 {
            command: HAProxyCommand::Proxy,
            address_family: HAPRoxyAddressFamily::Inet6,
            transport_protocol: HAProxyTransportProtocol::Dgram,
            addresses: HAProxyAdresses::Inet6 {
                src: SocketAddrV6 { ip: [0x20, 1, 0xd, 0xb8, 0, 0, 0, 0, 0, 0, 0, 0, 0, 0, 0, 1], port: 1 },
                dst: SocketAddrV6 { ip: [0; 16], port: 65535 },
            },
        },
        HAProxyMessageV2 {
            command: HAProxyCommand::Local,
            address_family: HAPRoxyAddressFamily::Unspec,
            transport_protocol: HAProxyTransportProtocol::Unspec,
            addresses: HAProxyAdresses::Unspec,
        },
    ];
    for m in messages {
        let mut out = Vec::new();
        m.encode(&mut out);
        let mut r = ByteReader::new(&out);
        match HAProxyFrame::decode(&mut r).unwrap() {
            HAProxyFrame::V2(back) => assert_eq!(back, m),
            _ => panic!("expected version 2"),
        }
        assert_eq!(r.remaining(), 0);
    }
}

#[test]
fn v2_unix_paths_read_back() {
    let m = HAProxyMessageV2 {
        command: HAProxyCommand::Proxy,
        address_family: HAPRoxyAddressFamily::Unix,
        transport_protocol: HAProxyTransportProtocol::Stream,
        addresses: HAProxyAdresses::Unix { src: "/tmp/client.sock".to_string(), dst: "/run/proxy.sock".to_string() },
    };
    let mut out = Vec::new();
    m.encode(&mut out);
    assert_eq!(out.len(), 16 + 216);
    assert_eq!(out[13], 0x31);
    let mut r = ByteReader::new(&out);
    match HAProxyFrame::decode(&mut r).unwrap() {
        HAProxyFrame::V2(back) => assert_eq!(back, m),
        _ => panic!("expected version 2"),
    }
    assert_eq!(r.remaining(), 0);
}

fn v1(line: &[u8]) -> Result<HAProxyFrame, IoError> {
    let mut r = ByteReader::new(line);
    HAProxyFrame::decode(&mut r)
}

#[test]
fn v1_refuses_bad_addresses_and_ports() {
    assert_eq!(v1(b"PROXY TCP4 x 5.6.7.8 1 2\r\n"), Err(IoError::InvalidData));
    assert_eq!(v1(b"PROXY TCP4 1.2.3.256 5.6.7.8 1 2\r\n"), Err(IoError::InvalidData));
    assert_eq!(v1(b"PROXY TCP4 1.2.3.04 5.6.7.8 1 2\r\n"), Err(IoError::InvalidData));
    assert_eq!(v1(b"PROXY TCP4 1.2.3 5.6.7.8 1 2\r\n"), Err(IoError::InvalidData));
    assert_eq!(v1(b"PROXY TCP4 1.2.3.4 5.6.7.8 65536 2\r\n"), Err(IoError::InvalidData));
    assert_eq!(v1(b"PROXY TCP4 1.2.3.4 5.6.7.8 -1 2\r\n"), Err(IoError::InvalidData));
    assert_eq!(v1(b"PROXY TCP4 1.2.3.4 5.6.7.8 + 2\r\n"), Err(IoError::InvalidData));
    assert_eq!(v1(b"PROXY TCP6 ::1 1:2::3::4 1 2\r\n"), Err(IoError::InvalidData));
    assert_eq!(v1(b"PROXY TCP6 ::1 12345::1 1 2\r\n"), Err(IoError::InvalidData));
    assert_eq!(v1(b"PROXY TCP6 ::1 1:2:3:4:5:6:7:8:9 1 2\r\n"), Err(IoError::InvalidData));
    assert_eq!(v1(b"PROXY TCP5 1.2.3.4 5.6.7.8 1 2\r\n"), Err(IoError::InvalidData));
}

#[test]
fn v1_reads_the_fields_it_uses() {
    // The destination of a TCP4 line is read from its source fields.
    let tcp4 = SocketAddrV4 { ip: [1, 2, 3, 4], port: 80 };
    assert_eq!(
        v1(b"PROXY TCP4 1.2.3.4 bogus +80 bogus\r\n"),
        Ok(HAProxyFrame::V1(HAProxyV1Line::Tcp4 { src: tcp4, dst: tcp4 }))
    );
    // Both addresses of a TCP6 line are read from its destination fields.
    let cases: Vec<(&[u8], [u8; 16])> = vec![
        (b"PROXY TCP6 x ::1 y 443\r\n", [0, 0, 0, 0, 0, 0, 0, 0, 0, 0, 0, 0, 0, 0, 0, 1]),
        (b"PROXY TCP6 x :: y 443\r\n", [0; 16]),
        (
            b"PROXY TCP6 x 2001:DB8::ff00:42:8329 y 443\r\n",
            [0x20, 0x01, 0x0d, 0xb8, 0, 0, 0, 0, 0, 0, 0xff, 0x00, 0, 0x42, 0x83, 0x29],
        ),
        (
            b"PROXY TCP6 x 1:2:3:4:5:6:7:8 y 443\r\n",
            [0, 1, 0, 2, 0, 3, 0, 4, 0, 5, 0, 6, 0, 7, 0, 8],
        ),
        (
            b"PROXY TCP6 x ::ffff:192.0.2.128 y 443\r\n",
            [0, 0, 0, 0, 0, 0, 0, 0, 0, 0, 0xff, 0xff, 192, 0, 2, 128],
        ),
        (b"PROXY TCP6 x 1:2:3:4:5:6:7:: y 443\r\n", [0, 1, 0, 2, 0, 3, 0, 4, 0, 5, 0, 6, 0, 7, 0, 0]),
    ];
    for (line, ip) in cases {
        let a = SocketAddrV6 { ip, port: 443 };
        assert_eq!(v1(line), Ok(HAProxyFrame::V1(HAProxyV1Line::Tcp6 { src: a, dst: a })));
    }
}

#[test]
fn text_addresses_follow_the_std_grammar() {
    let v4_ok: [(&str, [u8; 4]); 3] = [("0.0.0.0", [0; 4]), ("255.255.255.255", [255; 4]), ("1.2.3.4", [1, 2, 3, 4])];
    for (t, ip) in v4_ok {
        assert_eq!(parse_ipv4(&chars_of(t)), Some(ip), "{}", t);
    }
    for t in ["01.2.3.4", "1.2.3", "1.2.3.4.5", "256.1.1.1", "", "1..2.3", "a.b.c.d", "1.2.3.4 "] {
        assert_eq!(parse_ipv4(&chars_of(t)), None, "{}", t);
    }
    let mut v6_ok: Vec<(&str, [u8; 16])> = Vec::new();
    v6_ok.push(("::", [0; 16]));
    v6_ok.push(("1::8", [0, 1, 0, 0, 0, 0, 0, 0, 0, 0, 0, 0, 0, 0, 0, 8]));
    v6_ok.push(("::2:3:4:5:6:7:8", [0, 0, 0, 2, 0, 3, 0, 4, 0, 5, 0, 6, 0, 7, 0, 8]));
    v6_ok.push(("1:2:3:4:5:6:1.2.3.4", [0, 1, 0, 2, 0, 3, 0, 4, 0, 5, 0, 6, 1, 2, 3, 4]));
    v6_ok.push(("1::1.2.3.4", [0, 1, 0, 0, 0, 0, 0, 0, 0, 0, 0, 0, 1, 2, 3, 4]));
    v6_ok.push(("0001:2::", [0, 1, 0, 2, 0, 0, 0, 0, 0, 0, 0, 0, 0, 0, 0, 0]));
    v6_ok.push(("abcd:ABCD::", [0xab, 0xcd, 0xab, 0xcd, 0, 0, 0, 0, 0, 0, 0, 0, 0, 0, 0, 0]));
    for (t, ip) in v6_ok {
        assert_eq!(parse_ipv6(&chars_of(t)), Some(ip), "{}", t);
    }
    for t in [
        "1:2:3:4:5:6:7:1.2.3.4", "1.2.3.4::", ":::", "1:::2", "1::2::3", "12345::", "g::", ":1::", "1:2:3:4:5:6:7:8::",
        "::1.2.3.4.5", "::1.2.3.4:5", "", ":", "1:2:3:4:5:6:7", "1:2:3:4:5:6:7:8:9", "1::2:3:4:5:6:7:8",
    ] {
        assert_eq!(parse_ipv6(&chars_of(t)), None, "{}", t);
    }
    let ports: [(&str, Option<u16>); 11] = [
        ("0", Some(0)),
        ("80", Some(80)),
        ("+80", Some(80)),
        ("65535", Some(65535)),
        ("0080", Some(80)),
        ("65536", None),
        ("", None),
        ("+", None),
        ("-1", None),
        ("8a", None),
        ("99999999999999999999", None),
    ];
    for (t, want) in ports {
        assert_eq!(parse_port(&chars_of(t)), want, "{}", t);
    }
}
