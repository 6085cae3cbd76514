//! A Thrift RPC substrate: the classic binary wire format, typed value
//! codecs, and the call/reply protocol spoken by clients and service
//! processors. All of it works on bytes held in memory; moving those bytes
//! over a socket is left to the caller.

use crate::protocol::format::{
    message_begin_wire, parse_field_begin, parse_message_begin, reports, skip_value, Stream,
};
use crate::protocol::{decoded, untouched, Decode, Encode, MessageType, Protocol, Type};
use vstd::prelude::*;

pub mod collections;
pub mod endian;
pub mod impls;
pub mod ordered;
pub mod processor;
pub mod protocol;
pub mod record;
pub mod sample;
pub mod server;
pub mod service;
pub mod transport;

verus! {

/// What can go wrong in a call.
#[derive(Debug)]
pub enum Error {
    /// Reading from or writing to the underlying transport failed.
    TransportError(std::io::Error),
    /// Encoding or decoding the data failed.
    ProtocolError(protocol::Error),
    /// The server code threw a user-defined exception.
    UserException,
}

impl From<protocol::Error> for Error {
    fn from(err: protocol::Error) -> (r: Error) {
        Error::ProtocolError(err)
    }
}

impl vstd::std_specs::convert::FromSpecImpl<protocol::Error> for Error {
    open spec fn obeys_from_spec() -> bool {
        true
    }

    open spec fn from_spec(err: protocol::Error) -> Error {
        Error::ProtocolError(err)
    }
}

impl From<std::io::Error> for Error {
    fn from(err: std::io::Error) -> (r: Error) {
        Error::TransportError(err)
    }
}

impl vstd::std_specs::convert::FromSpecImpl<std::io::Error> for Error {
    open spec fn obeys_from_spec() -> bool {
        true
    }

    open spec fn from_spec(err: std::io::Error) -> Error {
        Error::TransportError(err)
    }
}

impl Error {
    /// A short name for this family of errors.
    pub fn description(&self) -> (s: &'static str)
        ensures
            s@ == "Thrift Error"@,
    {
        "Thrift Error"
    }
}

/// The caller's end of a connection: a codec, and the sequence id of the
/// last call sent.
#[derive(Debug, Clone)]
pub struct Client<P> {
    protocol: P,
    seq: i32,
}

impl<P: Protocol> Client<P> {
    /// The bytes left to read and the bytes written so far.
    pub closed spec fn stream(&self) -> Stream {
        self.protocol.stream()
    }

    /// The sequence id of the last call sent: 0 before the first.
    pub closed spec fn sequence(&self) -> i32 {
        self.seq
    }

    pub fn new(proto: P) -> (c: Self)
        ensures
            c.stream() == proto.stream(),
            c.sequence() == 0,
    {
        Client { protocol: proto, seq: 0 }
    }

    /// The codec, to feed it what arrived and to take out what was
    /// written.
    pub fn protocol_mut(&mut self) -> (p: &mut P)
        ensures
            p.stream() == old(self).stream(),
            final(self).stream() == final(p).stream(),
            final(self).sequence() == old(self).sequence(),
    {
        &mut self.protocol
    }

    /// Gives the codec back.
    pub fn into_protocol(self) -> (p: P)
        ensures
            p.stream() == self.stream(),
    {
        self.protocol
    }

    /// Sends a call: takes the next sequence id, writes the header of a
    /// `Call` message, or of a `Oneway` message where `oneway` is set,
    /// then the arguments, and flushes. Nothing is read.
    pub fn sendcall<W: Encode>(&mut self, oneway: bool, name: &str, args: &W) -> (r: Result<
        i32,
        Error,
    >)
        requires
            old(self).sequence() < i32::MAX,
        ensures
            r == Ok::<i32, Error>((old(self).sequence() + 1) as i32),
            final(self).sequence() == old(self).sequence() + 1,
            final(self).stream().unread == old(self).stream().unread,
            final(self).stream().written == old(self).stream().written + message_begin_wire(
                name@,
                if oneway {
                    MessageType::Oneway
                } else {
                    MessageType::Call
                },
                (old(self).sequence() + 1) as i32,
            ) + args.wire(),
    {
        let ty = if oneway {
            MessageType::Oneway
        } else {
            MessageType::Call
        };
        self.seq = self.seq + 1;
        self.protocol.write_message_begin(name, ty, self.seq)?;
        args.encode(&mut self.protocol)?;
        self.protocol.write_message_end()?;
        self.protocol.flush()?;
        Ok(self.seq)
    }

    pub fn read_message_begin(&mut self) -> (r: Result<(String, MessageType, i32), Error>)
        ensures
            final(self).sequence() == old(self).sequence(),
            final(self).stream().written == old(self).stream().written,
            match parse_message_begin(old(self).stream().unread) {
                Ok(((name, message_type, sequence_id), rest)) => {
                    &&& r matches Ok(got)
                    &&& got.0@ == name
                    &&& got.1 == message_type
                    &&& got.2 == sequence_id
                    &&& final(self).stream().unread == rest
                },
                Err(f) => r matches Err(e) && reports(e, f),
            },
    {
        self.protocol.read_message_begin()
    }

    pub fn read_message_end(&mut self) -> (r: Result<(), Error>)
        ensures
            r is Ok,
            final(self).sequence() == old(self).sequence(),
            untouched(old(self).stream(), final(self).stream()),
    {
        self.protocol.read_message_end()
    }

    pub fn read_struct_begin(&mut self) -> (r: Result<String, Error>)
        ensures
            r matches Ok(name) && name@ == Seq::<char>::empty(),
            final(self).sequence() == old(self).sequence(),
            untouched(old(self).stream(), final(self).stream()),
    {
        self.protocol.read_struct_begin()
    }

    pub fn read_struct_end(&mut self) -> (r: Result<(), Error>)
        ensures
            r is Ok,
            final(self).sequence() == old(self).sequence(),
            untouched(old(self).stream(), final(self).stream()),
    {
        self.protocol.read_struct_end()
    }

    pub fn read_field_begin(&mut self) -> (r: Result<(String, Type, i16), Error>)
        ensures
            final(self).sequence() == old(self).sequence(),
            final(self).stream().written == old(self).stream().written,
            match parse_field_begin(old(self).stream().unread) {
                Ok(((field_type, field_id), rest)) => {
                    &&& r matches Ok(got)
                    &&& got.0@ == Seq::<char>::empty()
                    &&& got.1 == field_type
                    &&& got.2 == field_id
                    &&& final(self).stream().unread == rest
                },
                Err(f) => r matches Err(e) && reports(e, f),
            },
    {
        self.protocol.read_field_begin()
    }

    pub fn read_field_end(&mut self) -> (r: Result<(), Error>)
        ensures
            r is Ok,
            final(self).sequence() == old(self).sequence(),
            untouched(old(self).stream(), final(self).stream()),
    {
        self.protocol.read_field_end()
    }

    /// Reads and drops a value of the given type.
    pub fn skip(&mut self, ty: Type) -> (r: Result<(), Error>)
        ensures
            final(self).sequence() == old(self).sequence(),
            final(self).stream().written == old(self).stream().written,
            match skip_value(ty, old(self).stream().unread) {
                Ok(rest) => r is Ok && final(self).stream().unread == rest,
                Err(f) => r matches Err(e) && reports(e, f),
            },
    {
        self.protocol.skip(ty)
    }

    /// Reads the exception of the field `(ty, id)` where `E` declares it.
    pub fn read_declared<E: crate::service::Exceptions>(&mut self, ty: Type, id: i16) -> (r: Result<
        Option<E>,
        Error,
    >)
        ensures
            final(self).sequence() == old(self).sequence(),
            final(self).stream().written == old(self).stream().written,
            !E::declares(ty, id) ==> (r matches Ok(None)) && final(self).stream() == old(
                self,
            ).stream(),
            E::declares(ty, id) ==> match E::parse_exception(ty, id, old(self).stream().unread) {
                Ok((m, rest)) => {
                    &&& r matches Ok(Some(v))
                    &&& v.deep_view() == m
                    &&& final(self).stream().unread == rest
                },
                Err(f) => r matches Err(e) && reports(e, f),
            },
    {
        E::read_exception(ty, id, &mut self.protocol)
    }

    /// Reads a value of the type `D`.
    pub fn decode<D: Decode>(&mut self) -> (r: Result<D, Error>)
        ensures
            final(self).sequence() == old(self).sequence(),
            decoded(
                old(self).stream(),
                final(self).stream(),
                r,
                D::parse(old(self).stream().unread),
            ),
    {
        D::decode(&mut self.protocol)
    }
}

} // verus!
