//! Connections that a proxy relays, made by the client or to it.
use crate::addr::TargetAddr;
use crate::handshake::{Handshake, HandshakeView};
use vstd::prelude::*;

verus! {

/// A connection to a target through a SOCKS5 proxy, over a socket of type `S`.
#[derive(Debug)]
pub struct Socks5Stream<S> {
    socket: S,
    proxy_addr: TargetAddr,
}

impl<S> Socks5Stream<S> {
    /// The socket that the connection uses.
    pub closed spec fn spec_socket(&self) -> S {
        self.socket
    }

    /// The address that the proxy has reported.
    pub closed spec fn spec_proxy_addr(&self) -> TargetAddr {
        self.proxy_addr
    }

    /// Starts the exchange that asks a proxy to connect to `target`.
    pub fn connect(target: TargetAddr) -> (handshake: Handshake)
        ensures
            handshake@ == (HandshakeView::Start { command: 1, target: target@ }),
    {
        Handshake::connect_raw(1, target)
    }

    /// The connection over `socket`, once the proxy has granted it and reported `proxy_addr`.
    pub fn new(socket: S, proxy_addr: TargetAddr) -> (stream: Self)
        ensures
            stream.spec_socket() == socket,
            stream.spec_proxy_addr() == proxy_addr,
    {
        Socks5Stream { socket, proxy_addr }
    }

    /// Returns the proxy-side address of the connection between the proxy and the target.
    pub fn proxy_addr(&self) -> (addr: &TargetAddr)
        ensures
            *addr == self.spec_proxy_addr(),
    {
        &self.proxy_addr
    }

    /// Returns a shared reference to the socket.
    pub fn get_ref(&self) -> (socket: &S)
        ensures
            *socket == self.spec_socket(),
    {
        &self.socket
    }

    /// Returns a mutable reference to the socket.
    pub fn get_mut(&mut self) -> (socket: &mut S)
        ensures
            *socket == old(self).spec_socket(),
            final(self).spec_socket() == *final(socket),
            final(self).spec_proxy_addr() == old(self).spec_proxy_addr(),
    {
        &mut self.socket
    }

    /// Gives up the connection, and returns the socket.
    pub fn into_inner(self) -> (socket: S)
        ensures
            socket == self.spec_socket(),
    {
        self.socket
    }
}

/// A listener at a SOCKS5 proxy, over a socket of type `S`.
#[derive(Debug)]
pub struct Socks5Listener<S>(Socks5Stream<S>);

impl<S> Socks5Listener<S> {
    /// The connection to the proxy, which becomes the one to the remote peer.
    pub closed spec fn spec_stream(&self) -> Socks5Stream<S> {
        self.0
    }

    /// Starts the exchange that asks a proxy to listen. The proxy filters incoming connections by
    /// the value of `target`.
    pub fn bind(target: TargetAddr) -> (handshake: Handshake)
        ensures
            handshake@ == (HandshakeView::Start { command: 2, target: target@ }),
    {
        Handshake::connect_raw(2, target)
    }

    /// The listener whose proxy has been asked over `stream`.
    pub fn new(stream: Socks5Stream<S>) -> (listener: Self)
        ensures
            listener.spec_stream() == stream,
    {
        Socks5Listener(stream)
    }

    /// Returns the address of the proxy-side listener. It should be forwarded to the remote peer,
    /// which should connect to it.
    pub fn proxy_addr(&self) -> (addr: &TargetAddr)
        ensures
            *addr == self.spec_stream().spec_proxy_addr(),
    {
        &self.0.proxy_addr
    }

    /// Returns a shared reference to the socket.
    pub fn get_ref(&self) -> (socket: &S)
        ensures
            *socket == self.spec_stream().spec_socket(),
    {
        &self.0.socket
    }

    /// Starts the exchange in which the proxy reports that the remote peer has connected.
    pub fn await_peer(&self) -> (handshake: Handshake)
        ensures
            handshake@ == HandshakeView::Granted,
    {
        Handshake::second_reply()
    }

    /// The connection to the remote peer, once the proxy has reported `proxy_addr` for it.
    pub fn accept(self, proxy_addr: TargetAddr) -> (stream: Socks5Stream<S>)
        ensures
            stream.spec_socket() == self.spec_stream().spec_socket(),
            stream.spec_proxy_addr() == proxy_addr,
    {
        let mut stream = self.0;
        stream.proxy_addr = proxy_addr;
        stream
    }
}

} // verus!
