use socks5::handshake::{check_method, request_packet};
use socks5::reply::read_response;
use socks5::wire::{read_addr, write_addr};
use socks5::{
    Error, ErrorKind, Fault, SocketAddr, SocketAddrV4, SocketAddrV6, TargetAddr, MAX_ADDR_LEN,
};

fn v4(ip: u32, port: u16) -> TargetAddr {
    TargetAddr::Ip(SocketAddr::V4(SocketAddrV4 { ip, port }))
}

fn v6(ip: [u8; 16], port: u16, flowinfo: u32, scope_id: u32) -> TargetAddr {
    TargetAddr::Ip(SocketAddr::V6(SocketAddrV6 { ip, port, flowinfo, scope_id }))
}

fn domain(name: &str, port: u16) -> TargetAddr {
    TargetAddr::Domain(name.to_string(), port)
}

const OCTETS: [u8; 16] = [1, 2, 3, 4, 5, 6, 7, 8, 9, 10, 11, 12, 13, 14, 15, 16];

#[test]
fn addresses_on_the_wire() {
    let cases = [
        (v4(0x7f000001, 0x1234), vec![1, 127, 0, 0, 1, 0x12, 0x34]),
        (v6(OCTETS, 0x1234, 0, 0), [&[4], &OCTETS[..], &[0x12, 0x34]].concat()),
        (domain("google.com", 80), [&[3, 10], &b"google.com"[..], &[0, 80]].concat()),
        (domain("", 0xffff), vec![3, 0, 0xff, 0xff]),
        (domain("\u{e9}", 1), vec![3, 2, 0xc3, 0xa9, 0, 1]),
    ];
    for (addr, bytes) in cases {
        let mut packet = [0xaa; MAX_ADDR_LEN];
        assert_eq!(write_addr(&mut packet, &addr), Ok(bytes.len()));
        assert_eq!(packet[..bytes.len()], bytes[..]);
        assert!(packet[bytes.len()..].iter().all(|byte| *byte == 0xaa));

        let mut reader: &[u8] = &packet;
        assert_eq!(read_addr(&mut reader), Ok(addr));
        assert_eq!(reader, &packet[bytes.len()..]);

        for n in 0..bytes.len() {
            let mut reader: &[u8] = &bytes[..n];
            assert_eq!(read_addr(&mut reader), Err(Error::UnexpectedEof));
        }
    }
}

#[test]
fn flow_and_scope_stay_home() {
    let mut packet = [0; MAX_ADDR_LEN];
    let n = write_addr(&mut packet, &v6(OCTETS, 80, 5, 6)).unwrap();
    let mut reader: &[u8] = &packet[..n];
    assert_eq!(read_addr(&mut reader), Ok(v6(OCTETS, 80, 0, 0)));
}

#[test]
fn names_of_255_and_256_bytes() {
    let mut packet = [0xaa; MAX_ADDR_LEN];
    assert_eq!(write_addr(&mut packet, &domain(&"x".repeat(255), 1)), Ok(259));
    let mut reader: &[u8] = &packet;
    assert_eq!(read_addr(&mut reader), Ok(domain(&"x".repeat(255), 1)));
    assert_eq!(reader, [0xaa]);

    let mut packet = [0xaa; MAX_ADDR_LEN];
    let too_long = domain(&"\u{e9}".repeat(128), 1);
    assert_eq!(write_addr(&mut packet, &too_long), Err(Error::Fault(Fault::DomainTooLong)));
    assert_eq!(packet[..2], [3, 0xaa]);
}

#[test]
fn addresses_that_are_not() {
    let mut reader: &[u8] = &[2, 9, 9];
    assert_eq!(read_addr(&mut reader), Err(Error::Fault(Fault::UnsupportedAddressType)));
    assert_eq!(reader, [9, 9]);

    // a bad name is noticed before the port is missed
    let mut reader: &[u8] = &[3, 2, b'a', 0xff];
    assert_eq!(read_addr(&mut reader), Err(Error::InvalidUtf8(vec![b'a', 0xff])));
    let mut reader: &[u8] = &[3, 1, 0xff, 0, 80, 7];
    assert_eq!(read_addr(&mut reader), Err(Error::InvalidUtf8(vec![0xff])));
    assert_eq!(reader, [0, 80, 7]);
}

#[test]
fn granted_requests() {
    let mut reader: &[u8] = &[5, 0, 0, 1, 10, 0, 0, 1, 0x1f, 0x90, 77];
    assert_eq!(read_response(&mut reader), Ok(v4(0x0a000001, 8080)));
    assert_eq!(reader, [77]);
}

#[test]
fn refused_requests() {
    let cases = [
        (1, Fault::GeneralFailure, "general SOCKS server failure"),
        (2, Fault::NotAllowed, "connection not allowed by ruleset"),
        (3, Fault::NetworkUnreachable, "network unreachable"),
        (4, Fault::HostUnreachable, "host unreachable"),
        (5, Fault::ConnectionRefused, "connection refused"),
        (6, Fault::TtlExpired, "TTL expired"),
        (7, Fault::CommandNotSupported, "command not supported"),
        (8, Fault::AddressKindNotSupported, "address kind not supported"),
        (9, Fault::UnknownReply, "unknown error"),
        (255, Fault::UnknownReply, "unknown error"),
    ];
    for (code, fault, message) in cases {
        let bytes = [5, code, 9];
        let mut reader: &[u8] = &bytes;
        assert_eq!(read_response(&mut reader), Err(Error::Fault(fault)));
        assert_eq!(reader, [9]);
        assert_eq!(fault.message(), message);
        assert_eq!(fault.kind(), ErrorKind::Other);
    }
}

#[test]
fn broken_replies() {
    let cases: [(&[u8], Error); 7] = [
        (&[4, 1, 1], Error::Fault(Fault::InvalidResponseVersion)),
        (&[5, 0, 1], Error::Fault(Fault::InvalidReservedByte)),
        (&[5, 0, 0, 9], Error::Fault(Fault::UnsupportedAddressType)),
        (&[5, 0, 0, 3, 1, 0x80], Error::InvalidUtf8(vec![0x80])),
        (&[], Error::UnexpectedEof),
        (&[5, 0], Error::UnexpectedEof),
        (&[5, 0, 0, 1, 1, 2, 3, 4, 5], Error::UnexpectedEof),
    ];
    for (bytes, error) in cases {
        let mut reader: &[u8] = bytes;
        assert_eq!(read_response(&mut reader), Err(error));
    }
}

#[test]
fn kinds_and_messages() {
    let cases = [
        (Fault::InvalidResponseVersion, ErrorKind::InvalidData, "invalid response version"),
        (Fault::NoAcceptableAuthMethods, ErrorKind::Other, "no acceptable auth methods"),
        (Fault::UnknownAuthMethod, ErrorKind::InvalidData, "unknown auth method"),
        (Fault::InvalidReservedByte, ErrorKind::InvalidData, "invalid reserved byte"),
        (Fault::UnsupportedAddressType, ErrorKind::Other, "unsupported address type"),
        (Fault::DomainTooLong, ErrorKind::InvalidInput, "domain name too long"),
        (Fault::InvalidReservedBytes, ErrorKind::InvalidData, "invalid reserved bytes"),
        (Fault::InvalidFragmentId, ErrorKind::InvalidData, "invalid fragment id"),
    ];
    for (fault, kind, message) in cases {
        assert_eq!(fault.kind(), kind);
        assert_eq!(Error::Fault(fault).kind(), kind);
        assert_eq!(fault.message(), message);
    }
    assert_eq!(Error::UnexpectedEof.kind(), ErrorKind::UnexpectedEof);
    assert_eq!(Error::InvalidUtf8(vec![0xff]).kind(), ErrorKind::InvalidData);
}

#[test]
fn choices_of_a_method() {
    assert_eq!(check_method([5, 0]), Ok(()));
    assert_eq!(check_method([0, 0]), Err(Error::Fault(Fault::InvalidResponseVersion)));
    assert_eq!(check_method([5, 0xff]), Err(Error::Fault(Fault::NoAcceptableAuthMethods)));
    assert_eq!(check_method([5, 1]), Err(Error::Fault(Fault::UnknownAuthMethod)));
}

#[test]
fn requests() {
    let packet = request_packet(2, &v4(0x01020304, 0x0506)).unwrap();
    assert_eq!(packet, [5, 2, 0, 1, 1, 2, 3, 4, 5, 6]);
    let mut reader: &[u8] = &packet[3..];
    assert_eq!(read_addr(&mut reader), Ok(v4(0x01020304, 0x0506)));
    assert_eq!(
        request_packet(1, &domain(&"x".repeat(300), 1)),
        Err(Error::Fault(Fault::DomainTooLong))
    );
}

#[test]
fn enough_bytes_settle_the_outcome() {
    for kind in 0..=255 {
        let mut bytes = [0xff; MAX_ADDR_LEN + 3];
        bytes[..4].copy_from_slice(&[5, 0, 0, kind]);
        let mut reader: &[u8] = &bytes[3..];
        let addr = read_addr(&mut reader);
        assert_ne!(addr, Err(Error::UnexpectedEof));
        assert!(!reader.is_empty());
        let mut reader: &[u8] = &bytes;
        assert_eq!(read_response(&mut reader), addr);
    }
}

#[test]
fn what_was_read_is_written_the_same() {
    let cases: [&[u8]; 3] = [
        &[1, 9, 8, 7, 6, 5, 4],
        &[3, 3, 0xe2, 0x82, 0xac, 1, 2],
        &[4, 1, 2, 3, 4, 5, 6, 7, 8, 9, 10, 11, 12, 13, 14, 15, 16, 0xfe, 0xdc],
    ];
    for bytes in cases {
        let mut reader: &[u8] = bytes;
        let addr = read_addr(&mut reader).unwrap();
        let mut packet = vec![0; bytes.len()];
        assert_eq!(write_addr(&mut packet, &addr), Ok(bytes.len()));
        assert_eq!(packet, bytes);
    }
}
