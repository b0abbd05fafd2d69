//! The exchange that opens a connection through a proxy.
//!
//! The client offers to go without authentication, sends its request once the proxy has agreed,
//! and waits for the reply. A [`Handshake`] decides what to send, how much to receive and when to
//! stop; whoever drives it moves the bytes.
use crate::addr::{AddrView, SocketAddr, TargetAddr};
use crate::error::{Error, ErrorView, Fault};
use crate::reply::{
    law_reply_settled, law_reply_wants, parse_reply, read_response, reply_wants,
};
use crate::wire::{
    encode_addr, law_addr_len, law_addr_round_trip, law_encoded_bytes, parse_addr, write_addr,
    Reading, MAX_ADDR_LEN,
};
use vstd::prelude::*;
use vstd::slice::{slice_subrange, slice_to_vec};
use vstd::utf8::encode_utf8;

verus! {

/// Room enough for three bytes and any encoded address.
pub const MAX_HEADER_LEN: usize = MAX_ADDR_LEN + 3;

/// Puts three bytes in front of an encoded address.
pub(crate) fn header(prefix: [u8; 3], addr: &TargetAddr) -> (header: Result<Vec<u8>, Error>)
    ensures
        match header {
            Ok(header) => addr@.encodable() && header@ == prefix@ + encode_addr(addr@),
            Err(error) => !addr@.encodable() && error@ == ErrorView::Fault(Fault::DomainTooLong),
        },
{
    let mut packet = [0u8; MAX_HEADER_LEN];
    packet[0] = prefix[0];
    packet[1] = prefix[1];
    packet[2] = prefix[2];
    proof {
        if addr@.encodable() {
            law_addr_len(addr@);
        }
    }
    let (_, tail) = packet.split_at_mut(3);
    let len = match write_addr(tail, addr) {
        Ok(len) => len,
        Err(error) => return Err(error),
    };
    assert(packet@.take(3 + len) == prefix@ + encode_addr(addr@));
    Ok(slice_to_vec(slice_subrange(&packet, 0, len + 3)))
}

/// There is room for 260 bytes of an address, and for three bytes in front of them.
pub proof fn law_room()
    ensures
        MAX_ADDR_LEN == 260,
        MAX_HEADER_LEN == 263,
{
}

/// What the client sends first: version five, and one method, which is no authentication.
pub open spec fn greeting() -> Seq<u8> {
    seq![5u8, 1, 0]
}

/// What is wrong with the proxy's choice of a method, if anything is.
pub open spec fn objection(reply: Seq<u8>) -> Option<Fault> {
    if reply[0] != 5 {
        Some(Fault::InvalidResponseVersion)
    } else if reply[1] == 0 {
        None
    } else if reply[1] == 0xff {
        Some(Fault::NoAcceptableAuthMethods)
    } else {
        Some(Fault::UnknownAuthMethod)
    }
}

/// The request that asks the proxy to carry out `command` for `target`.
pub open spec fn request(command: u8, target: AddrView) -> Seq<u8> {
    seq![5u8, command, 0] + encode_addr(target)
}

/// How far an exchange has got.
#[derive(Debug)]
enum Phase {
    /// Nothing has been sent.
    Start { command: u8, target: TargetAddr },
    /// The greeting has been sent.
    Greeted { command: u8, target: TargetAddr },
    /// The request was granted before, and another reply to it is due.
    Granted,
    /// The request has been sent, and these bytes of the reply have come in.
    Asked { received: Vec<u8> },
}

/// One exchange with a proxy, up to the point that it has reached.
#[derive(Debug)]
pub struct Handshake {
    phase: Phase,
}

/// A [`Handshake`] as a mathematical value.
pub enum HandshakeView {
    Start { command: u8, target: AddrView },
    Greeted { command: u8, target: AddrView },
    Granted,
    Asked { received: Seq<u8> },
}

impl View for Handshake {
    type V = HandshakeView;

    closed spec fn view(&self) -> HandshakeView {
        match self.phase {
            Phase::Start { command, target } => HandshakeView::Start { command, target: target@ },
            Phase::Greeted { command, target } => HandshakeView::Greeted {
                command,
                target: target@,
            },
            Phase::Granted => HandshakeView::Granted,
            Phase::Asked { received } => HandshakeView::Asked { received: received@ },
        }
    }
}

impl HandshakeView {
    /// While the exchange goes on, the part of the reply that has come in does not settle it.
    pub open spec fn well_formed(self) -> bool {
        self matches HandshakeView::Asked { received } ==> parse_reply(received).is_cut_short()
    }

    /// How many bytes from the proxy the next decision rests on.
    pub open spec fn wants(self) -> int {
        match self {
            HandshakeView::Start { .. } => 0,
            HandshakeView::Greeted { .. } => 2,
            HandshakeView::Granted => 0,
            HandshakeView::Asked { received } => reply_wants(received),
        }
    }
}

/// What to do next in an exchange.
#[derive(Debug)]
pub enum Step {
    /// Send all of `send`, receive exactly `receive` bytes, and go on with those from `next`.
    Transfer { next: Handshake, send: Vec<u8>, receive: usize },
    /// The proxy has granted the request, and this is the address that it reports.
    Done(TargetAddr),
    /// The exchange has failed.
    Failed(Error),
}

/// A [`Step`] as a mathematical value.
pub enum StepView {
    Transfer { next: HandshakeView, send: Seq<u8>, receive: int },
    Done(AddrView),
    Failed(ErrorView),
}

impl View for Step {
    type V = StepView;

    open spec fn view(&self) -> StepView {
        match self {
            Step::Transfer { next, send, receive } => StepView::Transfer {
                next: next@,
                send: send@,
                receive: *receive as int,
            },
            Step::Done(addr) => StepView::Done(addr@),
            Step::Failed(error) => StepView::Failed(error@),
        }
    }
}

/// The step that follows from `state` once the proxy has sent `input`.
pub open spec fn next_step(state: HandshakeView, input: Seq<u8>) -> StepView {
    match state {
        HandshakeView::Start { command, target } => StepView::Transfer {
            next: HandshakeView::Greeted { command, target },
            send: greeting(),
            receive: 2,
        },
        HandshakeView::Greeted { command, target } => {
            if objection(input) is Some {
                StepView::Failed(ErrorView::Fault(objection(input)->0))
            } else if !target.encodable() {
                StepView::Failed(ErrorView::Fault(Fault::DomainTooLong))
            } else {
                StepView::Transfer {
                    next: HandshakeView::Asked { received: Seq::empty() },
                    send: request(command, target),
                    receive: 1,
                }
            }
        },
        HandshakeView::Granted => StepView::Transfer {
            next: HandshakeView::Asked { received: Seq::empty() },
            send: Seq::empty(),
            receive: 1,
        },
        HandshakeView::Asked { received } => {
            let reply = received + input;
            if parse_reply(reply).is_cut_short() {
                StepView::Transfer {
                    next: HandshakeView::Asked { received: reply },
                    send: Seq::empty(),
                    receive: reply_wants(reply),
                }
            } else {
                match parse_reply(reply).outcome {
                    Ok(addr) => StepView::Done(addr),
                    Err(error) => StepView::Failed(error),
                }
            }
        },
    }
}

/// What a whole exchange comes to.
pub struct Run {
    /// All that the client sends.
    pub sent: Seq<u8>,
    /// The address that the proxy reports, or why there is none.
    pub outcome: Result<AddrView, ErrorView>,
    /// How many bytes the client receives. It has no meaning where they end too early.
    pub taken: nat,
}

/// The exchange that starts from `state` once `input` has been received, with a proxy that sends
/// `inbound` from there on and then nothing more.
pub open spec fn run(state: HandshakeView, input: Seq<u8>, inbound: Seq<u8>) -> Run
    decreases inbound.len(),
{
    match next_step(state, input) {
        StepView::Done(addr) => Run { sent: Seq::empty(), outcome: Ok(addr), taken: 0 },
        StepView::Failed(error) => Run { sent: Seq::empty(), outcome: Err(error), taken: 0 },
        StepView::Transfer { next, send, receive } => {
            proof {
                lemma_receives_something(state, input);
            }
            if inbound.len() < receive {
                Run {
                    sent: send,
                    outcome: Err(ErrorView::UnexpectedEof),
                    taken: inbound.len(),
                }
            } else {
                let rest = run(next, inbound.take(receive), inbound.skip(receive));
                Run {
                    sent: send + rest.sent,
                    outcome: rest.outcome,
                    taken: receive as nat + rest.taken,
                }
            }
        },
    }
}

/// Every transfer moves the exchange on: it receives at least one byte.
pub proof fn lemma_receives_something(state: HandshakeView, input: Seq<u8>)
    ensures
        next_step(state, input) matches StepView::Transfer { receive, .. } ==> receive >= 1,
{
    if let HandshakeView::Asked { received } = state {
        if parse_reply(received + input).is_cut_short() {
            law_reply_wants(received + input, Seq::empty());
        }
    }
}

/// The reply at the front of `s`, as a value of its own.
#[verifier::opaque]
spec fn reading(s: Seq<u8>) -> Reading {
    parse_reply(s)
}

/// How many bytes the next read asks for after `s`, as a value of its own.
#[verifier::opaque]
spec fn wanted(s: Seq<u8>) -> int {
    reply_wants(s)
}

/// A reply whose outcome is clear.
proof fn lemma_reading_settled(s: Seq<u8>, rest: Seq<u8>)
    requires
        !reading(s).is_cut_short(),
    ensures
        reading(s + rest) == reading(s),
        reading(s).used <= s.len(),
{
    reveal(reading);
    law_reply_settled(s, rest);
    lemma_used_at_most_len(s);
}

/// A reply of which more is needed.
proof fn lemma_reading_wanted(s: Seq<u8>, rest: Seq<u8>)
    requires
        reading(s).is_cut_short(),
    ensures
        wanted(s) >= 1,
        !reading(s + rest).is_cut_short() ==> s.len() + wanted(s) <= reading(s + rest).used,
{
    reveal(reading);
    reveal(wanted);
    law_reply_wants(s, rest);
}

/// An exchange whose reply is coming in, as a value of its own.
#[verifier::opaque]
spec fn run_asked(received: Seq<u8>, input: Seq<u8>, inbound: Seq<u8>) -> Run {
    run(HandshakeView::Asked { received }, input, inbound)
}

/// One step of an exchange whose reply is coming in.
proof fn lemma_run_step(received: Seq<u8>, input: Seq<u8>, inbound: Seq<u8>)
    ensures
        ({
            let whole = run_asked(received, input, inbound);
            let s = received + input;
            let n = wanted(s);
            let rest = run_asked(s, inbound.take(n), inbound.skip(n));
            if !reading(s).is_cut_short() {
                whole == (Run { sent: Seq::empty(), outcome: reading(s).outcome, taken: 0 })
            } else if inbound.len() < n {
                whole == (Run {
                    sent: Seq::empty(),
                    outcome: Err(ErrorView::UnexpectedEof),
                    taken: inbound.len(),
                })
            } else {
                whole == (Run {
                    sent: Seq::empty() + rest.sent,
                    outcome: rest.outcome,
                    taken: n as nat + rest.taken,
                })
            }
        }),
{
    reveal(reading);
    reveal(wanted);
    reveal(run_asked);
}

/// The whole of an exchange whose reply is coming in.
proof fn lemma_run_reading(received: Seq<u8>, input: Seq<u8>, inbound: Seq<u8>)
    requires
        reading(received).is_cut_short(),
        input.len() == wanted(received),
    ensures
        ({
            let run = run_asked(received, input, inbound);
            let reply = reading(received + input + inbound);
            &&& run.sent == Seq::<u8>::empty()
            &&& run.outcome == reply.outcome
            &&& !reply.is_cut_short() ==> received.len() + input.len() + run.taken == reply.used
        }),
    decreases inbound.len(),
{
    let s = received + input;
    lemma_run_step(received, input, inbound);
    if reading(s).is_cut_short() {
        let n = wanted(s);
        lemma_reading_wanted(s, inbound);
        if inbound.len() < n {
            if !reading(s + inbound).is_cut_short() {
                lemma_reading_settled(s + inbound, Seq::empty());
            }
        } else {
            let (now, later) = (inbound.take(n), inbound.skip(n));
            lemma_run_reading(s, now, later);
            assert(s + now + later == s + inbound);
        }
    } else {
        lemma_reading_settled(s, inbound);
        lemma_reading_wanted(received, input);
    }
}

/// From the request on, an exchange sends nothing, comes to what the reply as a whole says, and
/// receives the bytes of the reply and no others.
proof fn lemma_run_asked(received: Seq<u8>, input: Seq<u8>, inbound: Seq<u8>)
    requires
        parse_reply(received).is_cut_short(),
        input.len() == reply_wants(received),
    ensures
        ({
            let run = run(HandshakeView::Asked { received }, input, inbound);
            let reply = parse_reply(received + input + inbound);
            &&& run.sent == Seq::<u8>::empty()
            &&& run.outcome == reply.outcome
            &&& !reply.is_cut_short() ==> received.len() + input.len() + run.taken == reply.used
        }),
{
    reveal(reading);
    reveal(wanted);
    reveal(run_asked);
    lemma_run_reading(received, input, inbound);
}

/// A reply takes up no more bytes than there are.
proof fn lemma_used_at_most_len(s: Seq<u8>)
    requires
        !parse_reply(s).is_cut_short(),
    ensures
        parse_reply(s).used <= s.len(),
{
    law_reply_settled(s, Seq::empty());
}

/// An exchange from the beginning. The client greets. Unless the proxy agrees to go without
/// authentication, nothing more is sent; nor is it when the target cannot be expressed. Otherwise
/// the request follows, the outcome is what the reply says, and not a byte after the reply is
/// received.
pub proof fn law_connect(command: u8, target: AddrView, inbound: Seq<u8>)
    ensures
        ({
            let run = run(HandshakeView::Start { command, target }, Seq::empty(), inbound);
            let reply = parse_reply(inbound.skip(2));
            if inbound.len() < 2 {
                &&& run.sent == greeting()
                &&& run.outcome == Err::<AddrView, _>(ErrorView::UnexpectedEof)
            } else if objection(inbound) is Some {
                &&& run.sent == greeting()
                &&& run.outcome == Err::<AddrView, _>(ErrorView::Fault(objection(inbound)->0))
                &&& run.taken == 2
            } else if !target.encodable() {
                &&& run.sent == greeting()
                &&& run.outcome == Err::<AddrView, _>(ErrorView::Fault(Fault::DomainTooLong))
                &&& run.taken == 2
            } else {
                &&& run.sent == greeting() + request(command, target)
                &&& run.outcome == reply.outcome
                &&& !reply.is_cut_short() ==> run.taken == 2 + reply.used
            }
        }),
{
    reveal_with_fuel(run, 3);
    if inbound.len() >= 2 && objection(inbound) is None && target.encodable() {
        lemma_run_awaiting(inbound.skip(2));
    }
}

/// An exchange that waits for another reply sends nothing, comes to what that reply says, and
/// receives the bytes of the reply and no others.
pub proof fn law_accept(inbound: Seq<u8>)
    ensures
        ({
            let run = run(HandshakeView::Granted, Seq::empty(), inbound);
            let reply = parse_reply(inbound);
            &&& run.sent == Seq::<u8>::empty()
            &&& run.outcome == reply.outcome
            &&& !reply.is_cut_short() ==> run.taken == reply.used
        }),
{
    reveal_with_fuel(run, 2);
    lemma_run_awaiting(inbound);
}

/// Receiving the first byte of a reply, and going on from there.
proof fn lemma_run_awaiting(inbound: Seq<u8>)
    ensures
        inbound.len() < 1 ==> parse_reply(inbound).is_cut_short(),
        inbound.len() >= 1 ==> {
            let run = run(
                HandshakeView::Asked { received: Seq::empty() },
                inbound.take(1),
                inbound.skip(1),
            );
            let reply = parse_reply(inbound);
            &&& run.sent == Seq::<u8>::empty()
            &&& run.outcome == reply.outcome
            &&& !reply.is_cut_short() ==> 1 + run.taken == reply.used
        },
{
    if inbound.len() >= 1 {
        lemma_run_asked(Seq::empty(), inbound.take(1), inbound.skip(1));
        assert(Seq::<u8>::empty() + inbound.take(1) + inbound.skip(1) == inbound);
    }
}

/// A proxy that reads a request finds the version, the command, and the target without the flow
/// and the scope that the protocol does not carry.
pub proof fn law_request_round_trip(command: u8, target: AddrView, rest: Seq<u8>)
    requires
        target.well_formed(),
        target.encodable(),
    ensures
        (request(command, target) + rest).take(3) == seq![5u8, command, 0],
        parse_addr((request(command, target) + rest).skip(3)) == (Reading {
            outcome: Ok(target.on_the_wire()),
            used: (request(command, target).len() - 3) as nat,
        }),
        request(command, target).len() < MAX_HEADER_LEN,
{
    law_addr_len(target);
    law_addr_round_trip(target, rest);
    assert((request(command, target) + rest).skip(3) == encode_addr(target) + rest);
}

/// What [`check_method`] answers, said of the two bytes.
pub proof fn law_check_method(reply: [u8; 2], verdict: Result<(), Error>)
    requires
        match verdict {
            Ok(_) => objection(reply@) is None,
            Err(error) => objection(reply@) is Some && error@ == ErrorView::Fault(
                objection(reply@)->0,
            ),
        },
    ensures
        verdict is Ok <==> reply@[0] == 5 && reply@[1] == 0,
        reply@[0] != 5 ==> verdict matches Err(Error::Fault(Fault::InvalidResponseVersion)),
        reply@[0] == 5 && reply@[1] == 0xff ==> verdict matches Err(
            Error::Fault(Fault::NoAcceptableAuthMethods),
        ),
        reply@[0] == 5 && 0 < reply@[1] < 0xff ==> verdict matches Err(
            Error::Fault(Fault::UnknownAuthMethod),
        ),
{
}

/// The bytes of a request, one by one: the version, the command, a zero, and the target.
pub proof fn law_request_bytes(command: u8, target: TargetAddr)
    ensures
        target matches TargetAddr::Ip(SocketAddr::V4(addr)) ==> {
            let b = request(command, target@);
            &&& b.len() == 10
            &&& b[0] == 5 && b[1] == command && b[2] == 0 && b[3] == 1
            &&& b[4] * 0x100_0000 + b[5] * 0x1_0000 + b[6] * 0x100 + b[7] == addr.ip
            &&& b[8] * 0x100 + b[9] == addr.port
        },
        target matches TargetAddr::Ip(SocketAddr::V6(addr)) ==> {
            let b = request(command, target@);
            &&& b.len() == 22
            &&& b[0] == 5 && b[1] == command && b[2] == 0 && b[3] == 4
            &&& forall|i: int| 0 <= i < 16 ==> b[4 + i] == #[trigger] addr.ip@[i]
            &&& b[20] * 0x100 + b[21] == addr.port
        },
        target matches TargetAddr::Domain(name, port) ==> encode_utf8(name@).len() <= 255 ==> {
            let b = request(command, target@);
            let n = encode_utf8(name@).len() as int;
            &&& b.len() == 7 + n
            &&& b[0] == 5 && b[1] == command && b[2] == 0 && b[3] == 3
            &&& b[4] == n
            &&& b.subrange(5, 5 + n) == encode_utf8(name@)
            &&& b[5 + n] * 0x100 + b[6 + n] == port
        },
{
    law_encoded_bytes(target);
    let (b, e) = (request(command, target@), encode_addr(target@));
    assert(forall|i: int| 0 <= i < e.len() ==> b[3 + i] == #[trigger] e[i]);
    if let TargetAddr::Domain(name, port) = target {
        let n = encode_utf8(name@).len() as int;
        if n <= 255 {
            assert(b.subrange(5, 5 + n) == e.subrange(2, 2 + n));
        }
    }
}

/// Only a domain name of more than 255 bytes keeps a request from being built.
pub proof fn law_request_packet(
    command: u8,
    target: TargetAddr,
    packet: Result<Vec<u8>, Error>,
)
    requires
        match packet {
            Ok(packet) => target@.encodable() && packet@ == request(command, target@),
            Err(error) => !target@.encodable() && error@ == ErrorView::Fault(Fault::DomainTooLong),
        },
    ensures
        target is Ip ==> packet is Ok,
        target matches TargetAddr::Domain(name, _) ==> (packet is Ok <==> encode_utf8(name@).len()
            <= 255),
        packet is Err ==> packet matches Err(Error::Fault(Fault::DomainTooLong)),
        packet matches Ok(packet) ==> packet@ == request(command, target@),
{
}

/// An exchange can be started, or gone on with for another reply, before anything has come in;
/// the choice of a method takes two bytes, and a reply is begun with one.
pub proof fn law_wants(command: u8, target: AddrView)
    ensures
        (HandshakeView::Start { command, target }).well_formed(),
        (HandshakeView::Start { command, target }).wants() == 0,
        (HandshakeView::Greeted { command, target }).well_formed(),
        (HandshakeView::Greeted { command, target }).wants() == 2,
        HandshakeView::Granted.well_formed(),
        HandshakeView::Granted.wants() == 0,
        (HandshakeView::Asked { received: Seq::empty() }).well_formed(),
        (HandshakeView::Asked { received: Seq::empty() }).wants() == 1,
{
}

/// The first step of an exchange: version five and the one method of no authentication are sent,
/// and two bytes are awaited.
pub proof fn law_first_step(command: u8, target: AddrView, step: Step)
    requires
        step@ == next_step(HandshakeView::Start { command, target }, Seq::empty()),
    ensures
        step matches Step::Transfer { next, send, receive } && {
            &&& send@ == seq![5u8, 1, 0]
            &&& receive == 2
            &&& next@ == (HandshakeView::Greeted { command, target })
        },
{
}

/// The step after the proxy's choice of a method, said of the two bytes. Nothing but the version
/// five and no authentication lets the exchange go on, and then nothing but a domain name of more
/// than 255 bytes keeps the request from being sent.
pub proof fn law_second_step(command: u8, target: TargetAddr, input: Seq<u8>, step: Step)
    requires
        input.len() == 2,
        step@ == next_step(HandshakeView::Greeted { command, target: target@ }, input),
    ensures
        input[0] != 5 ==> step matches Step::Failed(Error::Fault(Fault::InvalidResponseVersion)),
        input[0] == 5 && input[1] == 0xff ==> step matches Step::Failed(
            Error::Fault(Fault::NoAcceptableAuthMethods),
        ),
        input[0] == 5 && 0 < input[1] < 0xff ==> step matches Step::Failed(
            Error::Fault(Fault::UnknownAuthMethod),
        ),
        input[0] == 5 && input[1] == 0 ==> {
            if target matches TargetAddr::Domain(name, _) && encode_utf8(name@).len() > 255 {
                step matches Step::Failed(Error::Fault(Fault::DomainTooLong))
            } else {
                &&& step matches Step::Transfer { next, send, receive }
                &&& send@ == request(command, target@)
                &&& receive == 1
                &&& next@ == (HandshakeView::Asked { received: Seq::empty() })
            }
        },
{
}

/// The first step towards another reply: nothing is sent, and one byte is awaited.
pub proof fn law_granted_step(step: Step)
    requires
        step@ == next_step(HandshakeView::Granted, Seq::empty()),
    ensures
        step matches Step::Transfer { next, send, receive } && {
            &&& send@.len() == 0
            &&& receive == 1
            &&& next@ == (HandshakeView::Asked { received: Seq::empty() })
        },
{
}

/// A step while the reply comes in. An exchange ends with what [`read_response`] would make of all
/// the bytes of the reply so far, unless that is to miss some; then it sends nothing, keeps the
/// bytes, and asks for those up to the end of the field that is missing.
pub proof fn law_reply_step(received: Seq<u8>, input: Seq<u8>, step: Step)
    requires
        step@ == next_step(HandshakeView::Asked { received }, input),
    ensures
        step matches Step::Done(addr) ==> parse_reply(received + input).outcome == Ok::<
            _,
            ErrorView,
        >(addr@),
        step matches Step::Failed(error) ==> {
            &&& parse_reply(received + input).outcome == Err::<AddrView, _>(error@)
            &&& !(error matches Error::UnexpectedEof)
        },
        step matches Step::Transfer { next, send, receive } ==> {
            let s = received + input;
            let after = s.len() + receive;
            &&& parse_reply(s).outcome == Err::<AddrView, _>(ErrorView::UnexpectedEof)
            &&& send@.len() == 0
            &&& next@ == (HandshakeView::Asked { received: s })
            &&& s.len() < 4 ==> receive == 1
            &&& s.len() >= 4 && s[3] == 1 ==> after == if s.len() < 8 {
                8int
            } else {
                10
            }
            &&& s.len() >= 4 && s[3] == 4 ==> after == if s.len() < 20 {
                20int
            } else {
                22
            }
            &&& s.len() == 4 && s[3] == 3 ==> after == 5
            &&& s.len() >= 5 && s[3] == 3 ==> after == if s.len() < 5 + s[4] {
                5 + s[4]
            } else {
                7 + s[4]
            }
        },
{
}

/// The request for datagrams to be relayed carries an address that is all zero.
pub proof fn law_relay_request()
    ensures
        request(3, AddrView::V4 { ip: 0, port: 0 }) == seq![5u8, 3, 0, 1, 0, 0, 0, 0, 0, 0],
{
}

/// Judges the proxy's choice of a method.
pub fn check_method(reply: [u8; 2]) -> (verdict: Result<(), Error>)
    ensures
        match verdict {
            Ok(_) => objection(reply@) is None,
            Err(error) => objection(reply@) is Some && error@ == ErrorView::Fault(
                objection(reply@)->0,
            ),
        },
{
    if reply[0] != 5 {
        return Err(Error::Fault(Fault::InvalidResponseVersion));
    }
    match reply[1] {
        0 => Ok(()),
        0xff => Err(Error::Fault(Fault::NoAcceptableAuthMethods)),
        _ => Err(Error::Fault(Fault::UnknownAuthMethod)),
    }
}

/// Builds the request that asks the proxy to carry out `command` for `target`.
pub fn request_packet(command: u8, target: &TargetAddr) -> (packet: Result<Vec<u8>, Error>)
    ensures
        match packet {
            Ok(packet) => target@.encodable() && packet@ == request(command, target@),
            Err(error) => !target@.encodable() && error@ == ErrorView::Fault(Fault::DomainTooLong),
        },
{
    header([5, command, 0], target)
}

/// Returns how many bytes to read next, after these bytes of a reply.
fn next_read(received: &[u8]) -> (n: usize)
    requires
        parse_reply(received@).is_cut_short(),
    ensures
        n == reply_wants(received@),
{
    let len = received.len();
    if len < 4 {
        1
    } else if received[3] == 1 {
        if len < 8 {
            8 - len
        } else {
            10 - len
        }
    } else if received[3] == 3 {
        if len < 5 {
            1
        } else {
            let end: usize = 5 + received[4] as usize;
            if len < end {
                end - len
            } else {
                end + 2 - len
            }
        }
    } else {
        if len < 20 {
            20 - len
        } else {
            22 - len
        }
    }
}

impl Handshake {
    /// Starts an exchange that asks for `command` to be carried out for `target`.
    pub fn connect_raw(command: u8, target: TargetAddr) -> (handshake: Handshake)
        ensures
            handshake@ == (HandshakeView::Start { command, target: target@ }),
    {
        Handshake { phase: Phase::Start { command, target } }
    }

    /// Goes on with an exchange in which the request was granted, and another reply is due.
    pub fn second_reply() -> (handshake: Handshake)
        ensures
            handshake@ == HandshakeView::Granted,
    {
        Handshake { phase: Phase::Granted }
    }

    /// Decides what to do, given what the proxy has sent since the last decision.
    pub fn advance(self, input: &[u8]) -> (step: Step)
        requires
            self@.well_formed(),
            input@.len() == self@.wants(),
        ensures
            step@ == next_step(self@, input@),
            step matches Step::Transfer { next, receive, .. } ==> {
                &&& next@.well_formed()
                &&& receive == next@.wants()
            },
    {
        match self.phase {
            Phase::Start { command, target } => {
                let send: Vec<u8> = vec![5, 1, 0];
                assert(send@ == greeting());
                Step::Transfer {
                    next: Handshake { phase: Phase::Greeted { command, target } },
                    send,
                    receive: 2,
                }
            },
            Phase::Greeted { command, target } => {
                match check_method([input[0], input[1]]) {
                    Ok(()) => {},
                    Err(error) => return Step::Failed(error),
                }
                match request_packet(command, &target) {
                    Ok(send) => Step::Transfer {
                        next: Handshake { phase: Phase::Asked { received: Vec::new() } },
                        send,
                        receive: 1,
                    },
                    Err(error) => Step::Failed(error),
                }
            },
            Phase::Granted => Step::Transfer {
                next: Handshake { phase: Phase::Asked { received: Vec::new() } },
                send: Vec::new(),
                receive: 1,
            },
            Phase::Asked { mut received } => {
                let ghost before = received@;
                received.extend_from_slice(input);
                assert(received@ == before + input@);
                let mut reply: &[u8] = &received;
                match read_response(&mut reply) {
                    Ok(addr) => Step::Done(addr),
                    Err(Error::UnexpectedEof) => {
                        let receive = next_read(&received);
                        Step::Transfer {
                            next: Handshake { phase: Phase::Asked { received } },
                            send: Vec::new(),
                            receive,
                        }
                    },
                    Err(error) => Step::Failed(error),
                }
            },
        }
    }
}

} // verus!
