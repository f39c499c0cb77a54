//! The listening side of the server: its address and the numbering of the
//! connections it accepts.

use vstd::prelude::*;

verus! {

/// The server's address and the number given to the last connection.
#[derive(Clone)]
pub struct Serve {
    host: String,
    port: u16,
    socket_id: usize,
}

/// A `Serve` with its host taken as a character sequence.
pub struct ServeModel {
    pub host: Seq<char>,
    pub port: u16,
    pub socket_id: usize,
}

impl View for Serve {
    type V = ServeModel;

    closed spec fn view(&self) -> ServeModel {
        ServeModel { host: self.host@, port: self.port, socket_id: self.socket_id }
    }
}

impl Serve {
    /// A server for the address, before any connection.
    pub fn new(host: String, port: u16) -> (s: Self)
        ensures
            s@.host == host@,
            s@.port == port,
            s@.socket_id == 0,
    {
        Serve { host, port, socket_id: 0 }
    }

    /// Numbers a new connection: one more than the last.
    pub fn incr_socket_id(&mut self) -> (id: usize)
        requires
            old(self)@.socket_id < usize::MAX,
        ensures
            final(self)@.socket_id == old(self)@.socket_id + 1,
            final(self)@.host == old(self)@.host,
            final(self)@.port == old(self)@.port,
            id == final(self)@.socket_id,
    {
        self.socket_id = self.socket_id + 1;
        self.socket_id
    }

    /// The host to listen on.
    pub fn host(&self) -> (h: &String)
        ensures
            h@ == self@.host,
    {
        &self.host
    }

    /// The number given to the last connection.
    pub fn socket_id(&self) -> (id: usize)
        ensures
            id == self@.socket_id,
    {
        self.socket_id
    }

    /// The port to listen on.
    pub fn port(&self) -> (p: u16)
        ensures
            p == self@.port,
    {
        self.port
    }
}

} // verus!
