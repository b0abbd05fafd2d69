//! Datagrams that a proxy relays.
use crate::addr::{AddrView, SocketAddr, SocketAddrV4, TargetAddr};
use crate::bytes::{read_u16, read_u8, write_all};
use crate::error::{Error, ErrorView, Fault};
use crate::handshake::{header, Handshake, HandshakeView, MAX_HEADER_LEN};
use crate::stream::Socks5Stream;
use crate::wire::{
    encode_addr, law_addr_canonical, law_addr_len, law_addr_room, law_addr_round_trip,
    law_addr_settled, law_encoded_bytes, law_read_addr, parse_addr, read_addr,
};
use vstd::prelude::*;
use vstd::slice::slice_subrange;
use vstd::utf8::{encode_utf8, valid_utf8};

verus! {

/// The header that a datagram to or from `addr` carries: two reserved bytes, a fragment number,
/// and the address.
pub open spec fn datagram_header(addr: AddrView) -> Seq<u8> {
    seq![0u8, 0, 0] + encode_addr(addr)
}

/// The datagram that carries `payload` to or from `addr`.
pub open spec fn datagram(addr: AddrView, payload: Seq<u8>) -> Seq<u8> {
    datagram_header(addr) + payload
}

/// What the datagram `d` carries, and to or from where. The first thing that is wrong decides.
pub open spec fn parse_datagram(d: Seq<u8>) -> Result<(AddrView, Seq<u8>), ErrorView> {
    if d.len() < 2 {
        Err(ErrorView::UnexpectedEof)
    } else if d[0] != 0 || d[1] != 0 {
        Err(ErrorView::Fault(Fault::InvalidReservedBytes))
    } else if d.len() < 3 {
        Err(ErrorView::UnexpectedEof)
    } else if d[2] != 0 {
        Err(ErrorView::Fault(Fault::InvalidFragmentId))
    } else {
        match parse_addr(d.skip(3)).outcome {
            Ok(addr) => Ok((addr, d.skip(3 + parse_addr(d.skip(3)).used as int))),
            Err(error) => Err(error),
        }
    }
}

/// The datagram of `len` bytes that was received into `header` and, past its end, into `buf`.
pub open spec fn scattered(header: Seq<u8>, buf: Seq<u8>, len: int) -> Seq<u8> {
    if len <= header.len() {
        header.take(len)
    } else {
        header + buf.take(len - header.len())
    }
}

/// What receiving the datagram `d` comes to, with a buffer that holds `before` and then `after`:
/// the payload, or as much of it as there is room for, goes to the front of the buffer, and nothing
/// else changes.
pub open spec fn delivered(
    message: Result<(usize, TargetAddr), Error>,
    d: Seq<u8>,
    before: Seq<u8>,
    after: Seq<u8>,
) -> bool {
    match (message, parse_datagram(d)) {
        (Ok((n, from)), Ok((addr, payload))) => {
            &&& from@ == addr
            &&& n == if payload.len() <= before.len() {
                payload.len()
            } else {
                before.len()
            }
            &&& after == payload.take(n as int) + before.skip(n as int)
        },
        (Err(error), Err(expected)) => error@ == expected && after == before,
        _ => false,
    }
}

/// Receiving a datagram that was sent gives back the payload, and the address without the flow and
/// the scope that the protocol does not carry.
pub proof fn law_datagram_round_trip(addr: AddrView, payload: Seq<u8>)
    requires
        addr.well_formed(),
        addr.encodable(),
    ensures
        parse_datagram(datagram(addr, payload)) == Ok::<_, ErrorView>(
            (addr.on_the_wire(), payload),
        ),
{
    let d = datagram(addr, payload);
    law_addr_round_trip(addr, payload);
    assert(d.skip(3) == encode_addr(addr) + payload);
    assert(d.skip(3 + encode_addr(addr).len() as int) == payload);
}

/// However a datagram was spread over a header and a buffer, it is put together again.
pub proof fn law_scattered(d: Seq<u8>, header: Seq<u8>, buf: Seq<u8>)
    requires
        d.len() <= header.len() + buf.len(),
        forall|i: int| 0 <= i < d.len() && i < header.len() ==> header[i] == d[i],
        forall|i: int| 0 <= i < d.len() - header.len() ==> buf[i] == d[header.len() + i],
    ensures
        scattered(header, buf, d.len() as int) == d,
{
}

/// What was sent comes out on the other side: receiving a datagram succeeds, reports the address,
/// puts the payload at the front of the buffer, and leaves the rest of the buffer alone. Of a
/// payload larger than the buffer, the excess is discarded.
pub proof fn law_send_then_receive(
    addr: AddrView,
    payload: Seq<u8>,
    message: Result<(usize, TargetAddr), Error>,
    before: Seq<u8>,
    after: Seq<u8>,
)
    requires
        addr.well_formed(),
        addr.encodable(),
        delivered(message, datagram(addr, payload), before, after),
    ensures
        message matches Ok((n, from)) && {
            &&& from@ == addr.on_the_wire()
            &&& after.len() == before.len()
            &&& after.skip(n as int) == before.skip(n as int)
            &&& payload.len() <= before.len() ==> n == payload.len() && after.take(n as int)
                == payload
            &&& payload.len() > before.len() ==> n == before.len() && after == payload.take(
                n as int,
            )
        },
{
    law_datagram_round_trip(addr, payload);
}

/// A datagram that was understood is the one that would be sent for what it carries.
pub proof fn law_datagram_canonical(d: Seq<u8>)
    requires
        parse_datagram(d) is Ok,
    ensures
        parse_datagram(d) matches Ok((addr, payload)) && {
            &&& addr.well_formed()
            &&& addr.encodable()
            &&& addr.on_the_wire() == addr
            &&& datagram(addr, payload) == d
        },
{
    law_addr_canonical(d.skip(3));
    let used = parse_addr(d.skip(3)).used as int;
    assert(seq![0u8, 0, 0] + d.skip(3).take(used) + d.skip(3 + used) == d);
}

/// The header takes ten bytes for an IPv4 address, twenty-two for an IPv6 address, and seven more
/// than the domain for a domain address.
pub proof fn law_header_len(addr: AddrView)
    requires
        addr.well_formed(),
        addr.encodable(),
    ensures
        datagram_header(addr).len() == match addr {
            AddrView::V4 { .. } => 10int,
            AddrView::V6 { .. } => 22int,
            AddrView::Domain { name, .. } => 7 + encode_utf8(name).len() as int,
        },
        datagram_header(addr).len() < MAX_HEADER_LEN,
{
    law_addr_len(addr);
}

/// A datagram is as long as its header and its payload together.
pub proof fn law_payload_len(d: Seq<u8>)
    requires
        parse_datagram(d) is Ok,
    ensures
        parse_datagram(d) matches Ok((addr, payload)) && datagram_header(addr).len()
            + payload.len() == d.len(),
{
    law_datagram_canonical(d);
}

/// What [`Socks5Datagram::send_to`] returns, said of the bytes of the packet: three zeros, the kind
/// of the address, the address, its port, and the message. Only a domain name of more than 255
/// bytes is turned away.
pub proof fn law_send_to(buf: Seq<u8>, addr: TargetAddr, packet: Result<Vec<u8>, Error>)
    requires
        match packet {
            Ok(packet) => addr@.encodable() && packet@ == datagram(addr@, buf),
            Err(error) => !addr@.encodable() && error@ == ErrorView::Fault(Fault::DomainTooLong),
        },
    ensures
        packet matches Ok(packet) ==> packet@[0] == 0 && packet@[1] == 0 && packet@[2] == 0,
        addr matches TargetAddr::Ip(SocketAddr::V4(a)) ==> {
            &&& packet matches Ok(packet)
            &&& packet@.len() == 10 + buf.len()
            &&& packet@[3] == 1
            &&& packet@[4] * 0x100_0000 + packet@[5] * 0x1_0000 + packet@[6] * 0x100 + packet@[7]
                == a.ip
            &&& packet@[8] * 0x100 + packet@[9] == a.port
            &&& packet@.skip(10) == buf
        },
        addr matches TargetAddr::Ip(SocketAddr::V6(a)) ==> {
            &&& packet matches Ok(packet)
            &&& packet@.len() == 22 + buf.len()
            &&& packet@[3] == 4
            &&& forall|i: int| 0 <= i < 16 ==> packet@[4 + i] == #[trigger] a.ip@[i]
            &&& packet@[20] * 0x100 + packet@[21] == a.port
            &&& packet@.skip(22) == buf
        },
        addr matches TargetAddr::Domain(name, port) ==> {
            let n = encode_utf8(name@).len() as int;
            if n <= 255 {
                &&& packet matches Ok(packet)
                &&& packet@.len() == 7 + n + buf.len()
                &&& packet@[3] == 3
                &&& packet@[4] == n
                &&& packet@.subrange(5, 5 + n) == encode_utf8(name@)
                &&& packet@[5 + n] * 0x100 + packet@[6 + n] == port
                &&& packet@.skip(7 + n) == buf
            } else {
                packet matches Err(Error::Fault(Fault::DomainTooLong))
            }
        },
{
    law_encoded_bytes(addr);
    let (d, e) = (datagram(addr@, buf), encode_addr(addr@));
    assert(forall|i: int| 0 <= i < e.len() ==> d[3 + i] == #[trigger] e[i]);
    assert(d.skip(3 + e.len() as int) == buf);
    if let TargetAddr::Domain(name, port) = addr {
        let n = encode_utf8(name@).len() as int;
        if n <= 255 {
            assert(d.subrange(5, 5 + n) == e.subrange(2, 2 + n));
        }
    }
}

/// What [`Socks5Datagram::recv_from`] makes of the datagram `d` that was received into `head` and,
/// past its end, into the buffer, said of the bytes of `d` and of the buffer before and after.
pub proof fn law_recv_from(
    d: Seq<u8>,
    head: Seq<u8>,
    before: Seq<u8>,
    message: Result<(usize, TargetAddr), Error>,
    after: Seq<u8>,
)
    requires
        d.len() <= head.len() + before.len(),
        forall|i: int| 0 <= i < d.len() && i < head.len() ==> head[i] == d[i],
        forall|i: int| 0 <= i < d.len() - head.len() ==> before[i] == d[head.len() + i],
        delivered(message, scattered(head, before, d.len() as int), before, after),
    ensures
        after.len() == before.len(),
        message is Err ==> after == before,
        d.len() < 2 ==> message matches Err(Error::UnexpectedEof),
        d.len() >= 2 && (d[0] != 0 || d[1] != 0) ==> message matches Err(
            Error::Fault(Fault::InvalidReservedBytes),
        ),
        d.len() == 2 && d[0] == 0 && d[1] == 0 ==> message matches Err(Error::UnexpectedEof),
        message matches Err(Error::Fault(Fault::InvalidFragmentId)) <==> d.len() >= 3 && d[0] == 0
            && d[1] == 0 && d[2] != 0,
        d.len() == 3 && d[0] == 0 && d[1] == 0 && d[2] == 0 ==> message matches Err(
            Error::UnexpectedEof,
        ),
        d.len() >= 4 && d[0] == 0 && d[1] == 0 && d[2] == 0 ==> {
            if d[3] == 1 {
                if d.len() < 10 {
                    message matches Err(Error::UnexpectedEof)
                } else {
                    &&& message matches Ok((n, TargetAddr::Ip(SocketAddr::V4(a))))
                    &&& a.ip == d[4] * 0x100_0000 + d[5] * 0x1_0000 + d[6] * 0x100 + d[7]
                    &&& a.port == d[8] * 0x100 + d[9]
                    &&& n <= d.len() - 10 && n <= before.len()
                    &&& n == d.len() - 10 || n == before.len()
                    &&& after == d.subrange(10, 10 + n) + before.skip(n as int)
                }
            } else if d[3] == 3 {
                let end = 5 + d[4];
                if d.len() < 5 || d.len() < end {
                    message matches Err(Error::UnexpectedEof)
                } else if !valid_utf8(d.subrange(5, end)) {
                    &&& message matches Err(Error::InvalidUtf8(name))
                    &&& name@ == d.subrange(5, end)
                } else if d.len() < end + 2 {
                    message matches Err(Error::UnexpectedEof)
                } else {
                    &&& message matches Ok((n, TargetAddr::Domain(name, port)))
                    &&& encode_utf8(name@) == d.subrange(5, end)
                    &&& port == d[end] * 0x100 + d[end + 1]
                    &&& n <= d.len() - end - 2 && n <= before.len()
                    &&& n == d.len() - end - 2 || n == before.len()
                    &&& after == d.subrange(end + 2, end + 2 + n) + before.skip(n as int)
                }
            } else if d[3] == 4 {
                if d.len() < 22 {
                    message matches Err(Error::UnexpectedEof)
                } else {
                    &&& message matches Ok((n, TargetAddr::Ip(SocketAddr::V6(a))))
                    &&& forall|i: int| 0 <= i < 16 ==> #[trigger] a.ip@[i] == d[4 + i]
                    &&& a.port == d[20] * 0x100 + d[21]
                    &&& a.flowinfo == 0
                    &&& a.scope_id == 0
                    &&& n <= d.len() - 22 && n <= before.len()
                    &&& n == d.len() - 22 || n == before.len()
                    &&& after == d.subrange(22, 22 + n) + before.skip(n as int)
                }
            } else {
                message matches Err(Error::Fault(Fault::UnsupportedAddressType))
            }
        },
{
    law_scattered(d, head, before);
    if d.len() >= 3 && d[0] == 0 && d[1] == 0 && d[2] == 0 {
        let t = d.skip(3);
        let used = parse_addr(t).used as int;
        let addr = match message {
            Ok((_, addr)) => Ok(addr),
            Err(error) => Err(error),
        };
        law_read_addr(t, addr, t.skip(used));
        if !parse_addr(t).is_cut_short() {
            law_addr_settled(t, Seq::empty());
        }
        if let Ok((n, _)) = message {
            assert(d.skip(3 + used).take(n as int) == d.subrange(3 + used, 3 + used + n));
        }
        if d.len() >= 5 && d[3] == 3 && d.len() >= 5 + d[4] {
            assert(t.subrange(2, 2 + t[1]) == d.subrange(5, 5 + d[4]));
        }
    }
}

/// The front of a datagram that is long enough for any header decides how it is understood.
proof fn lemma_header_suffices(h: Seq<u8>, rest: Seq<u8>)
    requires
        h.len() >= MAX_HEADER_LEN,
    ensures
        !parse_addr(h.skip(3)).is_cut_short(),
        parse_addr((h + rest).skip(3)) == parse_addr(h.skip(3)),
{
    assert((h + rest).skip(3) == h.skip(3) + rest);
    law_addr_room(h.skip(3));
    law_addr_settled(h.skip(3), rest);
}

/// Reads the header of a datagram of `len` bytes, received into `head` and, past its end, into
/// `buf`. Returns the part of the payload that stands in `head`, and the address.
fn open_datagram<'a>(head: &'a [u8; MAX_HEADER_LEN], len: usize, buf: &[u8]) -> (opened: Result<
    (&'a [u8], TargetAddr),
    Error,
>)
    requires
        len <= MAX_HEADER_LEN + buf@.len(),
    ensures
        match (opened, parse_datagram(scattered(head@, buf@, len as int))) {
            (Ok((rest, from)), Ok((addr, payload))) => {
                &&& from@ == addr
                &&& payload == rest@ + buf@.take(
                    if len <= MAX_HEADER_LEN {
                        0
                    } else {
                        len - MAX_HEADER_LEN
                    },
                )
            },
            (Err(error), Err(expected)) => error@ == expected,
            _ => false,
        },
{
    let head_len = if len < MAX_HEADER_LEN {
        len
    } else {
        MAX_HEADER_LEN
    };
    let mut rest: &'a [u8] = slice_subrange(head, 0, head_len);
    let ghost h = rest@;
    let ghost overflow = buf@.take(len - head_len);
    let ghost d = scattered(head@, buf@, len as int);
    proof {
        assert(d == h + overflow);
        if overflow.len() > 0 {
            lemma_header_suffices(h, overflow);
        } else {
            assert(d == h);
        }
    }
    match read_u16(&mut rest) {
        Ok(reserved) => {
            if reserved != 0 {
                return Err(Error::Fault(Fault::InvalidReservedBytes));
            }
        },
        Err(_) => return Err(Error::UnexpectedEof),
    }
    match read_u8(&mut rest) {
        Ok(fragment) => {
            if fragment != 0 {
                return Err(Error::Fault(Fault::InvalidFragmentId));
            }
        },
        Err(_) => return Err(Error::UnexpectedEof),
    }
    assert(rest@ == h.skip(3));
    let addr = match read_addr(&mut rest) {
        Ok(addr) => addr,
        Err(error) => return Err(error),
    };
    proof {
        law_addr_settled(h.skip(3), Seq::empty());
        assert(parse_datagram(d)->Ok_0.1 == rest@ + overflow);
    }
    Ok((rest, addr))
}

/// Puts `first` in front of the first `n` bytes of `buf`, and returns how long the two are
/// together.
fn gather(first: &[u8], n: usize, buf: &mut [u8]) -> (len: usize)
    requires
        first@.len() + n <= old(buf)@.len(),
    ensures
        len == first@.len() + n,
        final(buf)@ == first@ + old(buf)@.take(n as int) + old(buf)@.skip(first@.len() + n),
{
    let shift = first.len();
    let mut i = n;
    while i > 0
        invariant
            i <= n,
            shift == first@.len(),
            shift + n <= buf@.len(),
            buf@.len() == old(buf)@.len(),
            forall|k: int| 0 <= k < shift + i ==> buf@[k] == old(buf)@[k],
            forall|k: int|
                shift + i <= k < shift + n ==> #[trigger] buf@[k] == old(buf)@[k - shift],
            forall|k: int| shift + n <= k < buf@.len() ==> buf@[k] == old(buf)@[k],
        decreases i,
    {
        i = i - 1;
        assert(shift + i < buf.len());
        buf[shift + i] = buf[i];
    }
    write_all(buf, 0, first);
    assert(shift + n <= buf.len());
    shift + n
}

/// A client that sends and receives datagrams through a SOCKS5 proxy, over a socket of type `U`.
#[derive(Debug)]
pub struct Socks5Datagram<S, U> {
    socket: U,
    // keeps the session alive
    stream: Socks5Stream<S>,
}

impl<S, U> Socks5Datagram<S, U> {
    /// The socket that carries the datagrams.
    pub closed spec fn spec_socket(&self) -> U {
        self.socket
    }

    /// The connection to the proxy that keeps the session alive.
    pub closed spec fn spec_stream(&self) -> Socks5Stream<S> {
        self.stream
    }

    /// Starts the exchange that asks a proxy to relay datagrams. From where they will come is not
    /// known from the perspective of the proxy, so the address in the request is all zero.
    pub fn bind() -> (handshake: Handshake)
        ensures
            handshake@ == (HandshakeView::Start {
                command: 3,
                target: AddrView::V4 { ip: 0, port: 0 },
            }),
    {
        let dst = TargetAddr::Ip(SocketAddr::V4(SocketAddrV4 { ip: 0, port: 0 }));
        Handshake::connect_raw(3, dst)
    }

    /// The client that exchanges datagrams with the proxy over `socket`, once the proxy has agreed
    /// over `stream`.
    pub fn new(socket: U, stream: Socks5Stream<S>) -> (client: Self)
        ensures
            client.spec_socket() == socket,
            client.spec_stream() == stream,
    {
        Socks5Datagram { socket, stream }
    }

    /// Returns the datagram to hand to the proxy so that `buf` gets to `addr`.
    ///
    /// The protocol puts a header in front of the message: ten bytes for an IPv4 address,
    /// twenty-two for an IPv6 address, and seven more than the domain for a domain address.
    pub fn send_to(&self, buf: &[u8], addr: &TargetAddr) -> (packet: Result<Vec<u8>, Error>)
        ensures
            match packet {
                Ok(packet) => addr@.encodable() && packet@ == datagram(addr@, buf@),
                Err(error) => !addr@.encodable() && error@ == ErrorView::Fault(
                    Fault::DomainTooLong,
                ),
            },
    {
        let mut packet = match header([0, 0, 0], addr) {
            Ok(packet) => packet,
            Err(error) => return Err(error),
        };
        packet.extend_from_slice(buf);
        assert(packet@ == datagram(addr@, buf@));
        Ok(packet)
    }

    /// Takes apart a datagram of `len` bytes, received from the proxy into `head` and, past its
    /// end, into `buf`. Moves the payload to the front of `buf`, and returns its length and the
    /// address that it comes from. What of the payload does not fit in `buf` is discarded.
    pub fn recv_from(
        &self,
        head: &[u8; MAX_HEADER_LEN],
        len: usize,
        buf: &mut [u8],
    ) -> (message: Result<(usize, TargetAddr), Error>)
        requires
            len <= MAX_HEADER_LEN + old(buf)@.len(),
        ensures
            delivered(
                message,
                scattered(head@, old(buf)@, len as int),
                old(buf)@,
                final(buf)@,
            ),
    {
        let (rest, addr) = match open_datagram(head, len, buf) {
            Ok(opened) => opened,
            Err(error) => return Err(error),
        };
        let overflow = len.saturating_sub(MAX_HEADER_LEN);
        let first_len = if rest.len() < buf.len() {
            rest.len()
        } else {
            buf.len()
        };
        let room = buf.len() - first_len;
        let kept = if overflow < room {
            overflow
        } else {
            room
        };
        let ghost payload = rest@ + buf@.take(overflow as int);
        let n = gather(slice_subrange(rest, 0, first_len), kept, buf);
        assert(buf@ == payload.take(n as int) + old(buf)@.skip(n as int));
        Ok((n, addr))
    }

    /// Returns the address of the proxy-side socket through which all messages are routed.
    pub fn proxy_addr(&self) -> (addr: &TargetAddr)
        ensures
            *addr == self.spec_stream().spec_proxy_addr(),
    {
        self.stream.proxy_addr()
    }

    /// Returns a shared reference to the socket.
    pub fn get_ref(&self) -> (socket: &U)
        ensures
            *socket == self.spec_socket(),
    {
        &self.socket
    }

    /// Returns a mutable reference to the socket.
    pub fn get_mut(&mut self) -> (socket: &mut U)
        ensures
            *socket == old(self).spec_socket(),
            final(self).spec_socket() == *final(socket),
            final(self).spec_stream() == old(self).spec_stream(),
    {
        &mut self.socket
    }
}

} // verus!
