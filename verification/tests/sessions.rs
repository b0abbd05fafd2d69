use socks5::{
    Error, Fault, Handshake, SocketAddr, SocketAddrV4, SocketAddrV6, Socks5Datagram,
    Socks5Listener, Socks5Stream, Step, TargetAddr, MAX_ADDR_LEN, MAX_HEADER_LEN,
};

/// A proxy that says what it was told to say, and notes what it hears.
struct Script {
    says: Vec<u8>,
    said: usize,
    heard: Vec<u8>,
    reads: Vec<usize>,
}

impl Script {
    fn new(says: &[u8]) -> Script {
        Script { says: says.to_vec(), said: 0, heard: Vec::new(), reads: Vec::new() }
    }

    fn send(&mut self, bytes: &[u8]) {
        self.heard.extend_from_slice(bytes);
    }

    fn receive(&mut self, n: usize) -> Option<Vec<u8>> {
        if self.says.len() - self.said < n {
            return None;
        }
        let bytes = self.says[self.said..self.said + n].to_vec();
        self.said += n;
        self.reads.push(n);
        Some(bytes)
    }

    fn receive_to_end(&mut self) -> Vec<u8> {
        let n = self.says.len() - self.said;
        self.receive(n).unwrap()
    }
}

fn drive(mut handshake: Handshake, proxy: &mut Script) -> Result<TargetAddr, Error> {
    let mut input = Vec::new();
    loop {
        match handshake.advance(&input) {
            Step::Transfer { next, send, receive } => {
                proxy.send(&send);
                input = match proxy.receive(receive) {
                    Some(input) => input,
                    None => return Err(Error::UnexpectedEof),
                };
                handshake = next;
            }
            Step::Done(addr) => return Ok(addr),
            Step::Failed(error) => return Err(error),
        }
    }
}

fn v4(a: u8, b: u8, c: u8, d: u8, port: u16) -> TargetAddr {
    TargetAddr::Ip(SocketAddr::V4(SocketAddrV4 { ip: u32::from_be_bytes([a, b, c, d]), port }))
}

fn v6(ip: [u8; 16], port: u16, flowinfo: u32, scope_id: u32) -> TargetAddr {
    TargetAddr::Ip(SocketAddr::V6(SocketAddrV6 { ip, port, flowinfo, scope_id }))
}

fn domain(name: &str, port: u16) -> TargetAddr {
    TargetAddr::Domain(name.to_string(), port)
}

fn datagram_client() -> Socks5Datagram<Script, ()> {
    let mut proxy = Script::new(&[5, 0, 5, 0, 0, 1, 127, 0, 0, 1, 4, 56]);
    let addr = drive(Socks5Datagram::<Script, ()>::bind(), &mut proxy).unwrap();
    assert_eq!(proxy.heard, [5, 1, 0, 5, 3, 0, 1, 0, 0, 0, 0, 0, 0]);
    let client = Socks5Datagram::new((), Socks5Stream::new(proxy, addr));
    assert_eq!(*client.proxy_addr(), v4(127, 0, 0, 1, 1080));
    client
}

/// Spreads a datagram over a header and a buffer, as a scattered read does.
fn scatter(packet: &[u8], buf: &mut [u8]) -> ([u8; MAX_HEADER_LEN], usize) {
    let mut head = [0; MAX_HEADER_LEN];
    let in_head = packet.len().min(head.len());
    head[..in_head].copy_from_slice(&packet[..in_head]);
    let overflow = (packet.len() - in_head).min(buf.len());
    buf[..overflow].copy_from_slice(&packet[in_head..in_head + overflow]);
    (head, in_head + overflow)
}

const PAGE: &[u8] = b"HTTP/1.0 200 OK\r\n\r\n<html></html>";

#[test]
fn google() {
    let addr = v4(142, 250, 74, 46, 80);
    let mut proxy = Script::new(&[&[5, 0, 5, 0, 0, 1, 10, 0, 0, 1, 0, 99], PAGE].concat());
    let proxy_addr = drive(Socks5Stream::<Script>::connect(addr), &mut proxy).unwrap();
    let mut socket = Socks5Stream::new(proxy, proxy_addr);
    assert_eq!(socket.get_ref().heard, [5, 1, 0, 5, 1, 0, 1, 142, 250, 74, 46, 0, 80]);

    socket.get_mut().send(b"GET / HTTP/1.0\r\n\r\n");
    let result = socket.get_mut().receive_to_end();
    assert!(result.starts_with(b"HTTP/1.0"));
    assert!(result.ends_with(b"</HTML>\r\n") || result.ends_with(b"</html>"));
}

#[test]
fn google_dns() {
    let mut proxy = Script::new(&[&[5, 0, 5, 0, 0, 1, 10, 0, 0, 1, 0, 99], PAGE].concat());
    let target = domain("google.com", 80);
    let proxy_addr = drive(Socks5Stream::<Script>::connect(target), &mut proxy).unwrap();
    let mut socket = Socks5Stream::new(proxy, proxy_addr);
    assert_eq!(
        socket.get_ref().heard,
        [&[5, 1, 0, 5, 1, 0, 3, 10][..], b"google.com", &[0, 80]].concat()
    );

    socket.get_mut().send(b"GET / HTTP/1.0\r\n\r\n");
    let result = socket.into_inner().receive_to_end();
    assert!(result.starts_with(b"HTTP/1.0"));
    assert!(result.ends_with(b"</HTML>\r\n") || result.ends_with(b"</html>"));
}

#[test]
fn bind() {
    // the proxy says where it listens, and later who has connected
    let mut proxy = Script::new(&[
        5, 0, 5, 0, 0, 1, 10, 0, 0, 1, 0x1f, 0x90, 5, 0, 0, 1, 10, 0, 0, 2, 0, 99,
    ]);
    let addr = v4(10, 0, 0, 2, 99);
    let proxy_addr = drive(Socks5Listener::<Script>::bind(addr), &mut proxy).unwrap();
    assert_eq!(proxy.heard, [5, 1, 0, 5, 2, 0, 1, 10, 0, 0, 2, 0, 99]);
    assert_eq!(proxy.said, 12);
    let listener = Socks5Listener::new(Socks5Stream::new(proxy, proxy_addr));
    assert_eq!(*listener.proxy_addr(), v4(10, 0, 0, 1, 8080));
    assert_eq!(listener.get_ref().said, 12);

    let mut proxy = Script::new(&listener.get_ref().says[12..]);
    let peer = drive(listener.await_peer(), &mut proxy).unwrap();
    assert!(proxy.heard.is_empty());
    let mut conn = listener.accept(peer);
    assert_eq!(*conn.proxy_addr(), v4(10, 0, 0, 2, 99));
    conn.get_mut().heard.clear();
    conn.get_mut().send(b"hello world");
    let result = conn.into_inner().heard;
    assert_eq!(result, b"hello world");
}

#[test]
fn associate() {
    let socks = datagram_client();
    let socket_addr = v4(127, 0, 0, 1, 15411);

    let packet = socks.send_to(b"hello world!", &socket_addr).unwrap();
    assert_eq!(packet[..10], [0, 0, 0, 1, 127, 0, 0, 1, 0x3c, 0x33]);
    let mut buf = [0; 13];
    buf[..packet.len() - 10].copy_from_slice(&packet[10..]);
    assert_eq!(packet.len() - 10, 12);
    assert_eq!(&buf[..12], b"hello world!");

    let mut buf = [0; 13];
    let (head, len) = scatter(&packet, &mut buf);
    let (len, addr) = socks.recv_from(&head, len, &mut buf).unwrap();
    assert_eq!(len, 12);
    assert_eq!(&buf[..12], b"hello world!");
    assert_eq!(buf[12], 0);
    assert_eq!(addr, socket_addr);
}

#[test]
fn associate_long() {
    let socks = datagram_client();
    let socket_addr = v4(127, 0, 0, 1, 15413);

    let mut msg = vec![];
    for i in 0..(MAX_ADDR_LEN + 100) {
        msg.push(i as u8);
    }

    let packet = socks.send_to(&msg, &socket_addr).unwrap();
    assert_eq!(packet.len() - 10, msg.len());
    assert_eq!(msg, &packet[10..]);

    let mut buf = vec![0; msg.len() + 1];
    let (head, len) = scatter(&packet, &mut buf);
    let len = socks.recv_from(&head, len, &mut buf).unwrap().0;
    assert_eq!(len, msg.len());
    assert_eq!(msg, &buf[..msg.len()]);
}

#[test]
fn datagrams_round_trip_at_every_length() {
    let socks = datagram_client();
    let mut ip = [0; 16];
    ip[15] = 1;
    let long = "x".repeat(255);
    for addr in [v4(1, 2, 3, 4, 5), v6(ip, 6, 0, 0), domain("", 7), domain(&long, 8)] {
        for n in 0..600 {
            let msg: Vec<u8> = (0..n).map(|i| (i % 251) as u8).collect();
            let packet = socks.send_to(&msg, &addr).unwrap();
            let mut buf = vec![0xaa; n + 3];
            let (head, len) = scatter(&packet, &mut buf);
            assert_eq!(len, packet.len());
            let (len, from) = socks.recv_from(&head, len, &mut buf).unwrap();
            assert_eq!((len, from), (n, addr.clone()));
            assert_eq!(buf[..n], msg[..]);
        }
    }
}

#[test]
fn header_lengths() {
    let socks = datagram_client();
    assert_eq!(socks.send_to(b"", &v4(1, 2, 3, 4, 5)).unwrap().len(), 10);
    assert_eq!(socks.send_to(b"", &v6([7; 16], 5, 0, 0)).unwrap().len(), 22);
    assert_eq!(socks.send_to(b"", &domain("example.org", 5)).unwrap().len(), 7 + 11);
    assert_eq!(socks.send_to(b"", &domain("b\u{fc}cher", 5)).unwrap().len(), 7 + 7);
}

#[test]
fn long_domains_are_not_sent() {
    let socks = datagram_client();
    let error = Error::Fault(Fault::DomainTooLong);
    assert!(socks.send_to(b"hi", &domain(&"x".repeat(255), 1)).is_ok());
    assert_eq!(socks.send_to(b"hi", &domain(&"x".repeat(256), 1)), Err(error.clone()));

    // by then the greeting has been sent and answered, and nothing more goes out
    let mut proxy = Script::new(&[5, 0]);
    let target = domain(&"x".repeat(256), 1);
    assert_eq!(drive(Socks5Stream::<Script>::connect(target), &mut proxy), Err(error));
    assert_eq!(proxy.heard, [5, 1, 0]);
}

#[test]
fn bad_datagrams() {
    let socks = datagram_client();
    let cases: [(&[u8], Error); 9] = [
        (&[], Error::UnexpectedEof),
        (&[0], Error::UnexpectedEof),
        (&[0, 1], Error::Fault(Fault::InvalidReservedBytes)),
        (&[1, 0, 9], Error::Fault(Fault::InvalidReservedBytes)),
        (&[0, 0], Error::UnexpectedEof),
        (&[0, 0, 1], Error::Fault(Fault::InvalidFragmentId)),
        (&[0, 0, 0, 2], Error::Fault(Fault::UnsupportedAddressType)),
        (&[0, 0, 0, 1, 127, 0, 0, 1, 0], Error::UnexpectedEof),
        (&[0, 0, 0, 3, 2, 0xc3, 0x28], Error::InvalidUtf8(vec![0xc3, 0x28])),
    ];
    for (packet, error) in cases {
        let mut buf = [0xaa; 8];
        let (head, len) = scatter(packet, &mut buf);
        assert_eq!(socks.recv_from(&head, len, &mut buf), Err(error));
        assert_eq!(buf, [0xaa; 8]);
    }
}

#[test]
fn payload_that_does_not_fit() {
    let socks = datagram_client();
    let addr = v4(1, 2, 3, 4, 5);

    // all of it came in with the header
    let packet = socks.send_to(b"hello", &addr).unwrap();
    for n in 0..8 {
        let mut buf = vec![0xaa; n];
        let (head, len) = scatter(&packet, &mut buf);
        let (len, from) = socks.recv_from(&head, len, &mut buf).unwrap();
        assert_eq!((len, from), (n.min(5), addr.clone()));
        assert_eq!(buf[..len], b"hello"[..len]);
        assert!(buf[len..].iter().all(|byte| *byte == 0xaa));
    }

    // some or none of what overflowed has room behind the part that came in with the header
    let msg: Vec<u8> = (0..400).map(|i| (i % 251) as u8).collect();
    let packet = socks.send_to(&msg, &addr).unwrap();
    for n in [0, 1, 100, 252, 253, 254, 300, 399, 400, 401] {
        let mut buf = vec![0xaa; n];
        let (head, len) = scatter(&packet, &mut buf);
        let (len, from) = socks.recv_from(&head, len, &mut buf).unwrap();
        assert_eq!((len, from), (n.min(400), addr.clone()));
        assert_eq!(buf[..len], msg[..len]);
    }
}

#[test]
fn methods() {
    let cases: [(&[u8], Fault); 4] = [
        (&[4, 0], Fault::InvalidResponseVersion),
        (&[4, 0xff], Fault::InvalidResponseVersion),
        (&[5, 0xff], Fault::NoAcceptableAuthMethods),
        (&[5, 2], Fault::UnknownAuthMethod),
    ];
    for (says, fault) in cases {
        let mut proxy = Script::new(says);
        let handshake = Socks5Stream::<Script>::connect(v4(1, 2, 3, 4, 5));
        assert_eq!(drive(handshake, &mut proxy), Err(Error::Fault(fault)));
        assert_eq!(proxy.heard, [5, 1, 0]);
    }
    assert_eq!(
        drive(Socks5Stream::<Script>::connect(v4(1, 2, 3, 4, 5)), &mut Script::new(&[5])),
        Err(Error::UnexpectedEof)
    );
}

#[test]
fn replies_are_read_step_by_step() {
    let cases: [(&[u8], Vec<usize>); 7] = [
        (&[5, 0, 0, 1, 1, 2, 3, 4, 0, 80], vec![1, 1, 1, 1, 4, 2]),
        (&[5, 0, 0, 3, 2, b'h', b'i', 0, 80], vec![1, 1, 1, 1, 1, 2, 2]),
        (&[5, 0, 0, 3, 0, 0, 80], vec![1, 1, 1, 1, 1, 2]),
        (&[5, 0, 0, 4, 0, 0, 0, 0, 0, 0, 0, 0, 0, 0, 0, 0, 0, 0, 0, 1, 0, 80], vec![
            1, 1, 1, 1, 16, 2,
        ]),
        (&[4], vec![1]),
        (&[5, 7], vec![1, 1]),
        (&[5, 0, 0, 3, 1, 0xff], vec![1, 1, 1, 1, 1, 1]),
    ];
    for (reply, reads) in cases {
        // what comes after the reply is left alone
        let mut proxy = Script::new(&[&[5, 0], reply, &[0xee; 5]].concat());
        let handshake = Handshake::connect_raw(9, v4(1, 2, 3, 4, 5));
        let mut whole: &[u8] = reply;
        assert_eq!(drive(handshake, &mut proxy), socks5::reply::read_response(&mut whole));
        assert!(whole.is_empty());
        assert_eq!(proxy.reads[0], 2);
        assert_eq!(proxy.reads[1..], reads[..]);
        assert_eq!(proxy.said, 2 + reply.len());

        let mut proxy = Script::new(reply);
        let mut whole: &[u8] = reply;
        let handshake = Handshake::second_reply();
        assert_eq!(drive(handshake, &mut proxy), socks5::reply::read_response(&mut whole));
        assert_eq!(proxy.reads, reads);

        // a reply that ends early is not taken for a whole one
        for n in 0..reply.len() {
            let mut proxy = Script::new(&reply[..n]);
            assert_eq!(
                drive(Handshake::second_reply(), &mut proxy),
                Err(Error::UnexpectedEof)
            );
        }
    }
}

#[test]
fn a_handshake_greets_and_then_asks() {
    let handshake = Handshake::connect_raw(1, v4(1, 2, 3, 4, 5));
    let next = match handshake.advance(&[]) {
        Step::Transfer { next, send, receive } => {
            assert_eq!((send, receive), (vec![5, 1, 0], 2));
            next
        }
        step => panic!("{:?}", step),
    };
    let next = match next.advance(&[5, 0]) {
        Step::Transfer { next, send, receive } => {
            assert_eq!((send, receive), (vec![5, 1, 0, 1, 1, 2, 3, 4, 0, 5], 1));
            next
        }
        step => panic!("{:?}", step),
    };
    match next.advance(&[4]) {
        Step::Failed(error) => {
            assert_eq!(error, Error::Fault(Fault::InvalidResponseVersion));
        }
        step => panic!("{:?}", step),
    }
}

#[test]
fn the_socket_of_a_datagram_client() {
    let client = datagram_client();
    assert_eq!(*client.get_ref(), ());
    let stream = Socks5Stream::new("control", v4(1, 2, 3, 4, 5));
    let mut client = Socks5Datagram::new(1, stream);
    *client.get_mut() += 6;
    assert_eq!(*client.get_ref(), 7);
    assert_eq!(*client.proxy_addr(), v4(1, 2, 3, 4, 5));
}
