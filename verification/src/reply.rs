//! The proxy's reply to a request: a version, a reply code, a reserved byte, and an address.
use crate::addr::{AddrView, SocketAddr, TargetAddr};
use crate::bytes::read_u8;
use crate::error::{Error, ErrorView, Fault};
use crate::wire::{
    addr_wants, encode_addr, law_addr_canonical, law_addr_room, law_addr_round_trip,
    law_addr_settled, law_addr_wants, law_read_addr, parse_addr, read_addr, Reading, MAX_ADDR_LEN,
};
use vstd::prelude::*;
use vstd::utf8::{encode_utf8, valid_utf8};

verus! {

/// The refusal that a reply code other than zero stands for.
pub open spec fn refusal(code: u8) -> Fault {
    if code == 1 {
        Fault::GeneralFailure
    } else if code == 2 {
        Fault::NotAllowed
    } else if code == 3 {
        Fault::NetworkUnreachable
    } else if code == 4 {
        Fault::HostUnreachable
    } else if code == 5 {
        Fault::ConnectionRefused
    } else if code == 6 {
        Fault::TtlExpired
    } else if code == 7 {
        Fault::CommandNotSupported
    } else if code == 8 {
        Fault::AddressKindNotSupported
    } else {
        Fault::UnknownReply
    }
}

/// The reply at the front of `s`. The first byte that is wrong decides, and nothing after it
/// matters.
pub open spec fn parse_reply(s: Seq<u8>) -> Reading {
    if s.len() >= 1 && s[0] != 5 {
        Reading { outcome: Err(ErrorView::Fault(Fault::InvalidResponseVersion)), used: 1 }
    } else if s.len() >= 2 && s[1] != 0 {
        Reading { outcome: Err(ErrorView::Fault(refusal(s[1]))), used: 2 }
    } else if s.len() >= 3 && s[2] != 0 {
        Reading { outcome: Err(ErrorView::Fault(Fault::InvalidReservedByte)), used: 3 }
    } else if s.len() < 3 || parse_addr(s.skip(3)).is_cut_short() {
        Reading::cut_short()
    } else {
        Reading {
            outcome: parse_addr(s.skip(3)).outcome,
            used: 3 + parse_addr(s.skip(3)).used,
        }
    }
}

/// How many bytes the next read asks for, once the bytes `s` of a reply have come in and more are
/// needed.
pub open spec fn reply_wants(s: Seq<u8>) -> int {
    if s.len() < 3 {
        1
    } else {
        addr_wants(s.skip(3))
    }
}

/// The reply that grants a request and reports `addr`.
pub open spec fn granted(addr: AddrView) -> Seq<u8> {
    seq![5u8, 0, 0] + encode_addr(addr)
}

/// A reply that grants a request is read as the address that it reports, whatever follows it.
pub proof fn law_reply_granted(addr: AddrView, rest: Seq<u8>)
    requires
        addr.well_formed(),
        addr.encodable(),
    ensures
        parse_reply(granted(addr) + rest) == (Reading {
            outcome: Ok(addr.on_the_wire()),
            used: granted(addr).len(),
        }),
{
    law_addr_round_trip(addr, rest);
    assert((granted(addr) + rest).skip(3) == encode_addr(addr) + rest);
}

/// A reply that was read as an address is the one that grants a request and reports that address.
pub proof fn law_reply_canonical(s: Seq<u8>)
    requires
        parse_reply(s).outcome is Ok,
    ensures
        parse_reply(s).used <= s.len(),
        parse_reply(s).outcome matches Ok(addr) && {
            &&& addr.well_formed()
            &&& addr.encodable()
            &&& addr.on_the_wire() == addr
            &&& granted(addr) == s.take(parse_reply(s).used as int)
        },
{
    law_addr_canonical(s.skip(3));
    assert(seq![5u8, 0, 0] + s.skip(3).take(parse_addr(s.skip(3)).used as int) == s.take(
        parse_reply(s).used as int,
    ));
}

/// Once the outcome of reading a reply is clear, bytes that follow do not change it.
pub proof fn law_reply_settled(s: Seq<u8>, rest: Seq<u8>)
    requires
        !parse_reply(s).is_cut_short(),
    ensures
        parse_reply(s + rest) == parse_reply(s),
        parse_reply(s).used <= s.len(),
{
    if s.len() >= 3 {
        assert((s + rest).skip(3) == s.skip(3) + rest);
        if !parse_addr(s.skip(3)).is_cut_short() {
            law_addr_settled(s.skip(3), rest);
        }
    }
}

/// A read asks for at least one byte, and for none that comes after the byte which settles the
/// outcome.
pub proof fn law_reply_wants(s: Seq<u8>, rest: Seq<u8>)
    requires
        parse_reply(s).is_cut_short(),
    ensures
        reply_wants(s) >= 1,
        !parse_reply(s + rest).is_cut_short() ==> s.len() + reply_wants(s) <= parse_reply(
            s + rest,
        ).used,
{
    if s.len() >= 3 {
        assert((s + rest).skip(3) == s.skip(3) + rest);
        law_addr_wants(s.skip(3), rest);
    }
}

/// No reply takes up more than three bytes and the room for an address, so that many bytes settle
/// the outcome of reading one.
pub proof fn law_reply_room(s: Seq<u8>)
    ensures
        s.len() >= MAX_ADDR_LEN + 3 ==> !parse_reply(s).is_cut_short(),
        !parse_reply(s).is_cut_short() ==> parse_reply(s).used < MAX_ADDR_LEN + 3,
{
    if s.len() >= 3 {
        law_addr_room(s.skip(3));
    }
}

/// What [`read_response`] makes of the bytes `s`, and how many of them it takes, said of the bytes
/// themselves. A version other than five, a code other than zero and a reserved byte other than
/// zero are refused in this order, each as soon as it has come in; what follows is an address.
pub proof fn law_read_response(s: Seq<u8>, addr: Result<TargetAddr, Error>, rest: Seq<u8>)
    requires
        match addr {
            Ok(addr) => parse_reply(s).outcome == Ok::<_, ErrorView>(addr@),
            Err(error) => parse_reply(s).outcome == Err::<AddrView, _>(error@),
        },
        !parse_reply(s).is_cut_short() ==> rest == s.skip(parse_reply(s).used as int),
    ensures
        s.len() == 0 ==> addr matches Err(Error::UnexpectedEof),
        s.len() >= 1 && s[0] != 5 ==> {
            &&& addr matches Err(Error::Fault(Fault::InvalidResponseVersion))
            &&& rest == s.skip(1)
        },
        s.len() == 1 && s[0] == 5 ==> addr matches Err(Error::UnexpectedEof),
        s.len() >= 2 && s[0] == 5 && s[1] != 0 ==> {
            &&& addr matches Err(Error::Fault(fault))
            &&& s[1] == 1 <==> fault == Fault::GeneralFailure
            &&& s[1] == 2 <==> fault == Fault::NotAllowed
            &&& s[1] == 3 <==> fault == Fault::NetworkUnreachable
            &&& s[1] == 4 <==> fault == Fault::HostUnreachable
            &&& s[1] == 5 <==> fault == Fault::ConnectionRefused
            &&& s[1] == 6 <==> fault == Fault::TtlExpired
            &&& s[1] == 7 <==> fault == Fault::CommandNotSupported
            &&& s[1] == 8 <==> fault == Fault::AddressKindNotSupported
            &&& s[1] > 8 <==> fault == Fault::UnknownReply
            &&& rest == s.skip(2)
        },
        s.len() == 2 && s[0] == 5 && s[1] == 0 ==> addr matches Err(Error::UnexpectedEof),
        s.len() >= 3 && s[0] == 5 && s[1] == 0 && s[2] != 0 ==> {
            &&& addr matches Err(Error::Fault(Fault::InvalidReservedByte))
            &&& rest == s.skip(3)
        },
        s.len() == 3 && s[0] == 5 && s[1] == 0 && s[2] == 0 ==> addr matches Err(
            Error::UnexpectedEof,
        ),
        s.len() >= 4 && s[0] == 5 && s[1] == 0 && s[2] == 0 ==> {
            if s[3] == 1 {
                if s.len() < 10 {
                    addr matches Err(Error::UnexpectedEof)
                } else {
                    &&& addr matches Ok(TargetAddr::Ip(SocketAddr::V4(a)))
                    &&& a.ip == s[4] * 0x100_0000 + s[5] * 0x1_0000 + s[6] * 0x100 + s[7]
                    &&& a.port == s[8] * 0x100 + s[9]
                    &&& rest == s.skip(10)
                }
            } else if s[3] == 3 {
                let end = 5 + s[4];
                if s.len() < 5 || s.len() < end {
                    addr matches Err(Error::UnexpectedEof)
                } else if !valid_utf8(s.subrange(5, end)) {
                    &&& addr matches Err(Error::InvalidUtf8(name))
                    &&& name@ == s.subrange(5, end)
                    &&& rest == s.skip(end)
                } else if s.len() < end + 2 {
                    addr matches Err(Error::UnexpectedEof)
                } else {
                    &&& addr matches Ok(TargetAddr::Domain(name, port))
                    &&& encode_utf8(name@) == s.subrange(5, end)
                    &&& port == s[end] * 0x100 + s[end + 1]
                    &&& rest == s.skip(end + 2)
                }
            } else if s[3] == 4 {
                if s.len() < 22 {
                    addr matches Err(Error::UnexpectedEof)
                } else {
                    &&& addr matches Ok(TargetAddr::Ip(SocketAddr::V6(a)))
                    &&& forall|i: int| 0 <= i < 16 ==> #[trigger] a.ip@[i] == s[4 + i]
                    &&& a.port == s[20] * 0x100 + s[21]
                    &&& a.flowinfo == 0
                    &&& a.scope_id == 0
                    &&& rest == s.skip(22)
                }
            } else {
                &&& addr matches Err(Error::Fault(Fault::UnsupportedAddressType))
                &&& rest == s.skip(4)
            }
        },
{
    if s.len() >= 3 && s[0] == 5 && s[1] == 0 && s[2] == 0 {
        let t = s.skip(3);
        law_read_addr(t, addr, t.skip(parse_addr(t).used as int));
        if !parse_addr(t).is_cut_short() {
            law_addr_settled(t, Seq::empty());
            assert(t.skip(parse_addr(t).used as int) == rest);
        }
        if s.len() >= 5 && s[3] == 3 && s.len() >= 5 + s[4] {
            assert(t.subrange(2, 2 + t[1]) == s.subrange(5, 5 + s[4]));
        }
    }
}

/// Reads the reply at the front of `socket`, and takes its bytes off. How much is left when the
/// bytes end too early is not stated.
pub fn read_response(socket: &mut &[u8]) -> (addr: Result<TargetAddr, Error>)
    ensures
        match addr {
            Ok(addr) => parse_reply(old(socket)@).outcome == Ok::<_, ErrorView>(addr@),
            Err(error) => parse_reply(old(socket)@).outcome == Err::<AddrView, _>(error@),
        },
        !parse_reply(old(socket)@).is_cut_short() ==> final(socket)@ == old(socket)@.skip(
            parse_reply(old(socket)@).used as int,
        ),
{
    let ghost s = socket@;
    proof {
        assert(s.len() >= 2 ==> s.skip(1).skip(1) == s.skip(2));
        assert(s.len() >= 3 ==> s.skip(2).skip(1) == s.skip(3));
    }
    match read_u8(socket) {
        Ok(version) => {
            if version != 5 {
                return Err(Error::Fault(Fault::InvalidResponseVersion));
            }
        },
        Err(_) => return Err(Error::UnexpectedEof),
    }
    match read_u8(socket) {
        Ok(0) => {},
        Ok(1) => return Err(Error::Fault(Fault::GeneralFailure)),
        Ok(2) => return Err(Error::Fault(Fault::NotAllowed)),
        Ok(3) => return Err(Error::Fault(Fault::NetworkUnreachable)),
        Ok(4) => return Err(Error::Fault(Fault::HostUnreachable)),
        Ok(5) => return Err(Error::Fault(Fault::ConnectionRefused)),
        Ok(6) => return Err(Error::Fault(Fault::TtlExpired)),
        Ok(7) => return Err(Error::Fault(Fault::CommandNotSupported)),
        Ok(8) => return Err(Error::Fault(Fault::AddressKindNotSupported)),
        Ok(_) => return Err(Error::Fault(Fault::UnknownReply)),
        Err(_) => return Err(Error::UnexpectedEof),
    }
    match read_u8(socket) {
        Ok(reserved) => {
            if reserved != 0 {
                return Err(Error::Fault(Fault::InvalidReservedByte));
            }
        },
        Err(_) => return Err(Error::UnexpectedEof),
    }
    proof {
        if !parse_addr(s.skip(3)).is_cut_short() {
            law_addr_settled(s.skip(3), Seq::empty());
            assert(s.skip(3).skip(parse_addr(s.skip(3)).used as int) == s.skip(
                3 + parse_addr(s.skip(3)).used as int,
            ));
        }
    }
    read_addr(socket)
}

} // verus!
