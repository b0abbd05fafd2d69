//! The form that an address takes on the wire: a type byte, the address itself, and a port.
use crate::addr::{AddrView, SocketAddr, SocketAddrV4, SocketAddrV6, TargetAddr};
use crate::bytes::{
    be16, be16_bytes, be32, be32_bytes, lemma_be16_bytes_round_trip, lemma_be16_round_trip,
    lemma_be32_bytes_round_trip, lemma_be32_round_trip, read_exact, read_u16, read_u32, read_u8,
    spliced, write_all, write_u16, write_u32, write_u8,
};
use crate::error::{Error, ErrorView, Fault};
use vstd::prelude::*;
use vstd::slice::slice_to_vec;
use vstd::utf8::{
    decode_utf8, decode_utf8_encode_utf8, encode_utf8, encode_utf8_decode_utf8,
    encode_utf8_valid_utf8, valid_utf8,
};

verus! {

/// Room enough for any encoded address.
pub const MAX_ADDR_LEN: usize = 260;

/// What reading an address from the front of some bytes comes to.
pub struct Reading {
    /// The address, or why there is none.
    pub outcome: Result<AddrView, ErrorView>,
    /// How many bytes that takes. It has no meaning where the bytes end too early.
    pub used: nat,
}

impl Reading {
    /// The bytes end before the outcome is clear.
    pub open spec fn cut_short() -> Reading {
        Reading { outcome: Err(ErrorView::UnexpectedEof), used: 0 }
    }

    /// Whether the bytes end before the outcome is clear.
    pub open spec fn is_cut_short(self) -> bool {
        self.outcome == Err::<AddrView, _>(ErrorView::UnexpectedEof)
    }
}

/// The address at the front of `s`.
pub open spec fn parse_addr(s: Seq<u8>) -> Reading {
    if s.len() < 1 {
        Reading::cut_short()
    } else if s[0] == 1 {
        if s.len() < 7 {
            Reading::cut_short()
        } else {
            Reading {
                outcome: Ok(
                    AddrView::V4 { ip: be32(s.subrange(1, 5)), port: be16(s.subrange(5, 7)) },
                ),
                used: 7,
            }
        }
    } else if s[0] == 3 {
        if s.len() < 2 || s.len() < 2 + s[1] {
            Reading::cut_short()
        } else {
            let end = 2 + s[1];
            let name = s.subrange(2, end);
            if !valid_utf8(name) {
                Reading { outcome: Err(ErrorView::InvalidUtf8(name)), used: end as nat }
            } else if s.len() < end + 2 {
                Reading::cut_short()
            } else {
                Reading {
                    outcome: Ok(
                        AddrView::Domain {
                            name: decode_utf8(name),
                            port: be16(s.subrange(end, end + 2)),
                        },
                    ),
                    used: (end + 2) as nat,
                }
            }
        }
    } else if s[0] == 4 {
        if s.len() < 19 {
            Reading::cut_short()
        } else {
            Reading {
                outcome: Ok(
                    AddrView::V6 {
                        octets: s.subrange(1, 17),
                        port: be16(s.subrange(17, 19)),
                        flowinfo: 0,
                        scope_id: 0,
                    },
                ),
                used: 19,
            }
        }
    } else {
        Reading { outcome: Err(ErrorView::Fault(Fault::UnsupportedAddressType)), used: 1 }
    }
}

/// The bytes that stand for an address that the protocol can express.
pub open spec fn encode_addr(addr: AddrView) -> Seq<u8> {
    match addr {
        AddrView::V4 { ip, port } => seq![1u8] + be32_bytes(ip) + be16_bytes(port),
        AddrView::V6 { octets, port, .. } => seq![4u8] + octets + be16_bytes(port),
        AddrView::Domain { name, port } => seq![3u8, encode_utf8(name).len() as u8] + encode_utf8(
            name,
        ) + be16_bytes(port),
    }
}

/// How many bytes the next read asks for, once the bytes `s` of an address have come in and more
/// are needed.
pub open spec fn addr_wants(s: Seq<u8>) -> int {
    if s.len() < 1 {
        1
    } else if s[0] == 1 {
        if s.len() < 5 {
            5 - s.len()
        } else {
            7 - s.len()
        }
    } else if s[0] == 3 {
        if s.len() < 2 {
            1
        } else if s.len() < 2 + s[1] {
            2 + s[1] - s.len()
        } else {
            4 + s[1] - s.len()
        }
    } else {
        if s.len() < 17 {
            17 - s.len()
        } else {
            19 - s.len()
        }
    }
}

/// Encoding an address and reading it back gives the address, without the flow and the scope that
/// the protocol does not carry, and takes up exactly the encoded bytes, whatever follows them.
pub proof fn law_addr_round_trip(addr: AddrView, rest: Seq<u8>)
    requires
        addr.well_formed(),
        addr.encodable(),
    ensures
        parse_addr(encode_addr(addr) + rest) == (Reading {
            outcome: Ok(addr.on_the_wire()),
            used: encode_addr(addr).len(),
        }),
{
    let s = encode_addr(addr) + rest;
    match addr {
        AddrView::V4 { ip, port } => {
            assert(s.subrange(1, 5) == be32_bytes(ip));
            assert(s.subrange(5, 7) == be16_bytes(port));
            lemma_be16_round_trip(port);
            lemma_be32_round_trip(ip);
        },
        AddrView::V6 { octets, port, .. } => {
            assert(s.subrange(1, 17) == octets);
            assert(s.subrange(17, 19) == be16_bytes(port));
            lemma_be16_round_trip(port);
        },
        AddrView::Domain { name, port } => {
            let n = encode_utf8(name).len() as int;
            assert(s.subrange(2, 2 + n) == encode_utf8(name));
            assert(s.subrange(2 + n, 4 + n) == be16_bytes(port));
            lemma_be16_round_trip(port);
            encode_utf8_valid_utf8(name);
            encode_utf8_decode_utf8(name);
        },
    }
}

/// An address that was read is one that the protocol can express, and its encoding is the bytes
/// that it was read from: no address has two encodings.
pub proof fn law_addr_canonical(s: Seq<u8>)
    requires
        parse_addr(s).outcome is Ok,
    ensures
        parse_addr(s).used <= s.len(),
        parse_addr(s).outcome matches Ok(addr) && {
            &&& addr.well_formed()
            &&& addr.encodable()
            &&& addr.on_the_wire() == addr
            &&& encode_addr(addr) == s.take(parse_addr(s).used as int)
        },
{
    if s[0] == 1 {
        lemma_be32_bytes_round_trip(s.subrange(1, 5));
        lemma_be16_bytes_round_trip(s.subrange(5, 7));
    } else if s[0] == 3 {
        let end = 2 + s[1];
        decode_utf8_encode_utf8(s.subrange(2, end));
        lemma_be16_bytes_round_trip(s.subrange(end, end + 2));
        assert(seq![3u8, s[1]] + s.subrange(2, end) + s.subrange(end, end + 2) == s.take(end + 2));
    } else {
        lemma_be16_bytes_round_trip(s.subrange(17, 19));
        assert(seq![4u8] + s.subrange(1, 17) + s.subrange(17, 19) == s.take(19));
    }
    assert(encode_addr(parse_addr(s).outcome->Ok_0) == s.take(parse_addr(s).used as int));
}

/// Once the outcome of reading an address is clear, bytes that follow do not change it.
pub proof fn law_addr_settled(s: Seq<u8>, rest: Seq<u8>)
    requires
        !parse_addr(s).is_cut_short(),
    ensures
        parse_addr(s + rest) == parse_addr(s),
        parse_addr(s).used <= s.len(),
{
    let t = s + rest;
    if s[0] == 1 {
        assert(t.subrange(1, 5) == s.subrange(1, 5));
        assert(t.subrange(5, 7) == s.subrange(5, 7));
    } else if s[0] == 3 {
        let end = 2 + s[1];
        assert(t.subrange(2, end) == s.subrange(2, end));
        if s.len() >= end + 2 {
            assert(t.subrange(end, end + 2) == s.subrange(end, end + 2));
        }
    } else if s[0] == 4 {
        assert(t.subrange(1, 17) == s.subrange(1, 17));
        assert(t.subrange(17, 19) == s.subrange(17, 19));
    }
}

/// A read asks for at least one byte, and for none that comes after the byte which settles the
/// outcome.
pub proof fn law_addr_wants(s: Seq<u8>, rest: Seq<u8>)
    requires
        parse_addr(s).is_cut_short(),
    ensures
        addr_wants(s) >= 1,
        !parse_addr(s + rest).is_cut_short() ==> s.len() + addr_wants(s) <= parse_addr(
            s + rest,
        ).used,
{
    let t = s + rest;
    if s.len() >= 2 && s[0] == 3 && s.len() >= 2 + s[1] {
        assert(t.subrange(2, 2 + s[1]) == s.subrange(2, 2 + s[1]));
    }
}

/// No address takes up more bytes than there is room for, so that many bytes settle the outcome
/// of reading one.
pub proof fn law_addr_room(s: Seq<u8>)
    ensures
        s.len() >= MAX_ADDR_LEN ==> !parse_addr(s).is_cut_short(),
        !parse_addr(s).is_cut_short() ==> parse_addr(s).used < MAX_ADDR_LEN,
{
}

/// An encoded address takes seven bytes for IPv4, nineteen for IPv6, and four more than the name
/// for a domain: never more than there is room for.
pub proof fn law_addr_len(addr: AddrView)
    requires
        addr.well_formed(),
        addr.encodable(),
    ensures
        encode_addr(addr).len() == match addr {
            AddrView::V4 { .. } => 7int,
            AddrView::V6 { .. } => 19int,
            AddrView::Domain { name, .. } => 4 + encode_utf8(name).len() as int,
        },
        encode_addr(addr).len() < MAX_ADDR_LEN,
{
}

/// The bytes of an encoded address, one by one. The first tells the kind. The octets of an IPv4
/// address follow, most significant first, or those of an IPv6 address, in their own order, or the
/// length of a domain name and its bytes. The last two are the port, most significant first.
pub proof fn law_encoded_bytes(target: TargetAddr)
    ensures
        target matches TargetAddr::Ip(SocketAddr::V4(addr)) ==> {
            let b = encode_addr(target@);
            &&& b.len() == 7
            &&& b[0] == 1
            &&& b[1] * 0x100_0000 + b[2] * 0x1_0000 + b[3] * 0x100 + b[4] == addr.ip
            &&& b[5] * 0x100 + b[6] == addr.port
        },
        target matches TargetAddr::Ip(SocketAddr::V6(addr)) ==> {
            let b = encode_addr(target@);
            &&& b.len() == 19
            &&& b[0] == 4
            &&& forall|i: int| 0 <= i < 16 ==> b[1 + i] == #[trigger] addr.ip@[i]
            &&& b[17] * 0x100 + b[18] == addr.port
        },
        target matches TargetAddr::Domain(name, port) ==> encode_utf8(name@).len() <= 255 ==> {
            let b = encode_addr(target@);
            let n = encode_utf8(name@).len() as int;
            &&& b.len() == 4 + n
            &&& b[0] == 3
            &&& b[1] == n
            &&& b.subrange(2, 2 + n) == encode_utf8(name@)
            &&& b[2 + n] * 0x100 + b[3 + n] == port
        },
{
    let b = encode_addr(target@);
    match target {
        TargetAddr::Ip(SocketAddr::V4(addr)) => {
            lemma_be32_round_trip(addr.ip);
            lemma_be16_round_trip(addr.port);
            assert(b.subrange(1, 5) == be32_bytes(addr.ip));
            assert(b.subrange(5, 7) == be16_bytes(addr.port));
        },
        TargetAddr::Ip(SocketAddr::V6(addr)) => {
            lemma_be16_round_trip(addr.port);
            assert(b.subrange(17, 19) == be16_bytes(addr.port));
        },
        TargetAddr::Domain(name, port) => {
            if encode_utf8(name@).len() <= 255 {
                let n = encode_utf8(name@).len() as int;
                lemma_be16_round_trip(port);
                assert(b.subrange(2, 2 + n) == encode_utf8(name@));
                assert(b.subrange(2 + n, 4 + n) == be16_bytes(port));
            }
        },
    }
}

/// What [`write_addr`] does, said of the bytes of the packet before and after. All but a domain
/// name of more than 255 bytes is written, and the packet is changed only where it is written to.
pub proof fn law_write_addr(
    before: Seq<u8>,
    target: TargetAddr,
    written: Result<usize, Error>,
    after: Seq<u8>,
)
    requires
        before.len() >= 1,
        target@.encodable() ==> before.len() >= encode_addr(target@).len(),
        match written {
            Ok(n) => {
                &&& target@.encodable()
                &&& n == encode_addr(target@).len()
                &&& after == spliced(before, 0, encode_addr(target@))
            },
            Err(error) => {
                &&& !target@.encodable()
                &&& error@ == ErrorView::Fault(Fault::DomainTooLong)
                &&& after == spliced(before, 0, seq![3u8])
            },
        },
    ensures
        after.len() == before.len(),
        target matches TargetAddr::Ip(SocketAddr::V4(addr)) ==> {
            &&& written == Ok::<usize, Error>(7)
            &&& after[0] == 1
            &&& after[1] * 0x100_0000 + after[2] * 0x1_0000 + after[3] * 0x100 + after[4]
                == addr.ip
            &&& after[5] * 0x100 + after[6] == addr.port
            &&& after.skip(7) == before.skip(7)
        },
        target matches TargetAddr::Ip(SocketAddr::V6(addr)) ==> {
            &&& written == Ok::<usize, Error>(19)
            &&& after[0] == 4
            &&& forall|i: int| 0 <= i < 16 ==> after[1 + i] == #[trigger] addr.ip@[i]
            &&& after[17] * 0x100 + after[18] == addr.port
            &&& after.skip(19) == before.skip(19)
        },
        target matches TargetAddr::Domain(name, port) ==> {
            let n = encode_utf8(name@).len() as int;
            if n <= 255 {
                &&& written matches Ok(len)
                &&& len == 4 + n
                &&& after[0] == 3
                &&& after[1] == n
                &&& after.subrange(2, 2 + n) == encode_utf8(name@)
                &&& after[2 + n] * 0x100 + after[3 + n] == port
                &&& after.skip(4 + n) == before.skip(4 + n)
            } else {
                &&& written matches Err(Error::Fault(Fault::DomainTooLong))
                &&& after[0] == 3
                &&& after.skip(1) == before.skip(1)
            }
        },
{
    law_encoded_bytes(target);
    let b = encode_addr(target@);
    if let TargetAddr::Domain(name, port) = target {
        let n = encode_utf8(name@).len() as int;
        if n <= 255 {
            assert(after.subrange(2, 2 + n) == b.subrange(2, 2 + n));
        }
    }
}

/// What [`read_addr`] makes of the bytes `s`, and how many of them it takes, said of the bytes
/// themselves.
pub proof fn law_read_addr(s: Seq<u8>, addr: Result<TargetAddr, Error>, rest: Seq<u8>)
    requires
        match addr {
            Ok(addr) => parse_addr(s).outcome == Ok::<_, ErrorView>(addr@),
            Err(error) => parse_addr(s).outcome == Err::<AddrView, _>(error@),
        },
        !parse_addr(s).is_cut_short() ==> rest == s.skip(parse_addr(s).used as int),
    ensures
        s.len() == 0 ==> addr matches Err(Error::UnexpectedEof),
        s.len() >= 1 && s[0] != 1 && s[0] != 3 && s[0] != 4 ==> {
            &&& addr matches Err(Error::Fault(Fault::UnsupportedAddressType))
            &&& rest == s.skip(1)
        },
        1 <= s.len() < 7 && s[0] == 1 ==> addr matches Err(Error::UnexpectedEof),
        s.len() >= 7 && s[0] == 1 ==> {
            &&& addr matches Ok(TargetAddr::Ip(SocketAddr::V4(a)))
            &&& a.ip == s[1] * 0x100_0000 + s[2] * 0x1_0000 + s[3] * 0x100 + s[4]
            &&& a.port == s[5] * 0x100 + s[6]
            &&& rest == s.skip(7)
        },
        1 <= s.len() < 19 && s[0] == 4 ==> addr matches Err(Error::UnexpectedEof),
        s.len() >= 19 && s[0] == 4 ==> {
            &&& addr matches Ok(TargetAddr::Ip(SocketAddr::V6(a)))
            &&& forall|i: int| 0 <= i < 16 ==> #[trigger] a.ip@[i] == s[1 + i]
            &&& a.port == s[17] * 0x100 + s[18]
            &&& a.flowinfo == 0
            &&& a.scope_id == 0
            &&& rest == s.skip(19)
        },
        s.len() == 1 && s[0] == 3 ==> addr matches Err(Error::UnexpectedEof),
        s.len() >= 2 && s[0] == 3 ==> {
            let end = 2 + s[1];
            if s.len() < end {
                addr matches Err(Error::UnexpectedEof)
            } else if !valid_utf8(s.subrange(2, end)) {
                &&& addr matches Err(Error::InvalidUtf8(name))
                &&& name@ == s.subrange(2, end)
                &&& rest == s.skip(end)
            } else if s.len() < end + 2 {
                addr matches Err(Error::UnexpectedEof)
            } else {
                &&& addr matches Ok(TargetAddr::Domain(name, port))
                &&& encode_utf8(name@) == s.subrange(2, end)
                &&& port == s[end] * 0x100 + s[end + 1]
                &&& rest == s.skip(end + 2)
            }
        },
{
    if s.len() >= 19 && s[0] == 4 {
        let a = addr->Ok_0->Ip_0->V6_0;
        assert(a.ip@ == s.subrange(1, 17));
    }
    if s.len() >= 2 && s[0] == 3 && s.len() >= 2 + s[1] {
        let name = s.subrange(2, 2 + s[1]);
        if valid_utf8(name) {
            decode_utf8_encode_utf8(name);
        }
    }
}

/// Reads the address at the front of `socket`, and takes its bytes off. How much is left when the
/// bytes end too early is not stated.
pub fn read_addr(socket: &mut &[u8]) -> (addr: Result<TargetAddr, Error>)
    ensures
        match addr {
            Ok(addr) => parse_addr(old(socket)@).outcome == Ok::<_, ErrorView>(addr@),
            Err(error) => parse_addr(old(socket)@).outcome == Err::<AddrView, _>(error@),
        },
        !parse_addr(old(socket)@).is_cut_short() ==> final(socket)@ == old(socket)@.skip(
            parse_addr(old(socket)@).used as int,
        ),
{
    let ghost s = socket@;
    let kind = match read_u8(socket) {
        Ok(kind) => kind,
        Err(_) => return Err(Error::UnexpectedEof),
    };
    match kind {
        1 => {
            let ip = match read_u32(socket) {
                Ok(ip) => ip,
                Err(_) => return Err(Error::UnexpectedEof),
            };
            let port = match read_u16(socket) {
                Ok(port) => port,
                Err(_) => return Err(Error::UnexpectedEof),
            };
            proof {
                assert(s.skip(1).take(4) == s.subrange(1, 5));
                assert(s.skip(1).skip(4).take(2) == s.subrange(5, 7));
                assert(s.skip(1).skip(4).skip(2) == s.skip(7));
            }
            Ok(TargetAddr::Ip(SocketAddr::V4(SocketAddrV4 { ip, port })))
        },
        3 => {
            let len = match read_u8(socket) {
                Ok(len) => len,
                Err(_) => return Err(Error::UnexpectedEof),
            };
            let name = match read_exact(socket, len as usize) {
                Ok(name) => name,
                Err(error) => return Err(error),
            };
            proof {
                assert(s.skip(1).skip(1).take(len as int) == s.subrange(2, 2 + len));
                assert(s.skip(1).skip(1).skip(len as int) == s.skip(2 + len));
            }
            let domain = match String::from_utf8(slice_to_vec(name)) {
                Ok(domain) => domain,
                Err(_) => return Err(Error::InvalidUtf8(slice_to_vec(name))),
            };
            let port = match read_u16(socket) {
                Ok(port) => port,
                Err(_) => return Err(Error::UnexpectedEof),
            };
            proof {
                assert(s.skip(2 + len).take(2) == s.subrange(2 + len, 4 + len));
                assert(s.skip(2 + len).skip(2) == s.skip(4 + len));
            }
            Ok(TargetAddr::Domain(domain, port))
        },
        4 => {
            let octets = match read_exact(socket, 16) {
                Ok(octets) => octets,
                Err(error) => return Err(error),
            };
            let ip = [
                octets[0], octets[1], octets[2], octets[3], octets[4], octets[5], octets[6],
                octets[7], octets[8], octets[9], octets[10], octets[11], octets[12], octets[13],
                octets[14], octets[15],
            ];
            let port = match read_u16(socket) {
                Ok(port) => port,
                Err(_) => return Err(Error::UnexpectedEof),
            };
            proof {
                assert(ip@ == s.subrange(1, 17));
                assert(s.skip(1).skip(16).take(2) == s.subrange(17, 19));
                assert(s.skip(1).skip(16).skip(2) == s.skip(19));
            }
            Ok(TargetAddr::Ip(SocketAddr::V6(SocketAddrV6 { ip, port, flowinfo: 0, scope_id: 0 })))
        },
        _ => Err(Error::Fault(Fault::UnsupportedAddressType)),
    }
}

/// Writes an address to the front of `packet`, and returns how many bytes it takes.
pub fn write_addr(packet: &mut [u8], target: &TargetAddr) -> (written: Result<usize, Error>)
    requires
        old(packet)@.len() >= 1,
        target@.encodable() ==> old(packet)@.len() >= encode_addr(target@).len(),
    ensures
        match written {
            Ok(n) => {
                &&& target@.encodable()
                &&& n == encode_addr(target@).len()
                &&& final(packet)@ == spliced(old(packet)@, 0, encode_addr(target@))
            },
            Err(error) => {
                &&& !target@.encodable()
                &&& error@ == ErrorView::Fault(Fault::DomainTooLong)
                &&& final(packet)@ == spliced(old(packet)@, 0, seq![3u8])
            },
        },
{
    match target {
        TargetAddr::Ip(SocketAddr::V4(addr)) => {
            write_u8(packet, 0, 1).unwrap();
            write_u32(packet, 1, addr.ip).unwrap();
            write_u16(packet, 5, addr.port).unwrap();
            assert(packet@ == spliced(old(packet)@, 0, encode_addr(target@)));
            Ok(7)
        },
        TargetAddr::Ip(SocketAddr::V6(addr)) => {
            write_u8(packet, 0, 4).unwrap();
            write_all(packet, 1, &addr.ip);
            write_u16(packet, 17, addr.port).unwrap();
            assert(packet@ == spliced(old(packet)@, 0, encode_addr(target@)));
            Ok(19)
        },
        TargetAddr::Domain(domain, port) => {
            write_u8(packet, 0, 3).unwrap();
            let name = domain.as_str().as_bytes();
            if name.len() > 255 {
                return Err(Error::Fault(Fault::DomainTooLong));
            }
            write_u8(packet, 1, name.len() as u8).unwrap();
            write_all(packet, 2, name);
            write_u16(packet, 2 + name.len(), *port).unwrap();
            assert(packet@ == spliced(old(packet)@, 0, encode_addr(target@)));
            Ok(4 + name.len())
        },
    }
}

} // verus!
