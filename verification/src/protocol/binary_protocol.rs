//! The classic binary protocol on an in-memory transport.

use crate::protocol::format::{
    binary_wire, element_count, field_begin_wire, lemma_skip_message_shortens, list_begin_wire,
    map_begin_wire, message_begin_wire, parse_type, reports, skip_entries, skip_fields,
    skip_items, skip_message, skip_value, type_wire, Fault, Stream, VERSION_1,
};
use crate::protocol::{read, wrote, MessageType, Protocol, Type};
use crate::transport::MemoryTransport;
use crate::Error;
use vstd::prelude::*;
use vstd::utf8::{decode_utf8, valid_utf8};

verus! {

/// `core::str::from_utf8`: the bytes as a string slice where they are
/// valid UTF-8, and an error where they are not.
#[verifier::external_body]
fn str_from_utf8(bytes: &[u8]) -> (r: Result<&str, std::str::Utf8Error>)
    ensures
        r is Ok <==> valid_utf8(bytes@),
        r matches Ok(s) ==> s@ == decode_utf8(bytes@),
{
    core::str::from_utf8(bytes)
}

/// Turns a transport failure into the library's error.
fn lift<T>(r: Result<T, std::io::Error>) -> (out: Result<T, Error>)
    ensures
        match r {
            Ok(v) => out == Ok::<T, Error>(v),
            Err(e) => out == Err::<T, Error>(Error::TransportError(e)),
        },
{
    match r {
        Ok(v) => Ok(v),
        Err(e) => Err(Error::TransportError(e)),
    }
}

/// The binary codec. It reads from and writes to the transport it holds.
#[derive(Debug, Clone)]
pub struct BinaryProtocol {
    transport: MemoryTransport,
}

impl BinaryProtocol {
    pub fn new(t: MemoryTransport) -> (p: BinaryProtocol)
        ensures
            p.stream().unread == t.unread(),
            p.stream().written == t.written(),
    {
        BinaryProtocol { transport: t }
    }

    /// Gives the transport back.
    pub fn into_transport(self) -> (t: MemoryTransport)
        ensures
            self.stream().unread == t.unread(),
            self.stream().written == t.written(),
    {
        self.transport
    }

    /// Adds bytes that arrived after what is already there to read.
    pub fn feed(&mut self, bytes: &[u8])
        ensures
            final(self).stream().unread == old(self).stream().unread + bytes@,
            final(self).stream().written == old(self).stream().written,
    {
        self.transport.feed(bytes)
    }

    /// Hands out the bytes written so far, and starts over with none.
    pub fn take_written(&mut self) -> (out: Vec<u8>)
        ensures
            out@ == old(self).stream().written,
            final(self).stream().written == Seq::<u8>::empty(),
            final(self).stream().unread == old(self).stream().unread,
    {
        self.transport.take_written()
    }

    /// The number of bytes that are left to read.
    pub fn remaining(&self) -> (n: usize)
        ensures
            n == self.stream().unread.len(),
    {
        self.transport.remaining()
    }

    /// Writes the code of a type, as one byte.
    pub fn write_type(&mut self, type_: Type) -> (r: Result<(), Error>)
        ensures
            wrote(old(self).stream(), final(self).stream(), r, type_wire(type_)),
    {
        self.write_byte(type_.code())
    }

    /// Reads one byte as the code of a type.
    pub fn read_type(&mut self) -> (r: Result<Type, Error>)
        ensures
            read(
                old(self).stream(),
                final(self).stream(),
                r,
                parse_type(old(self).stream().unread),
            ),
    {
        let raw = self.read_byte()?;
        match Type::from_num(raw as u64) {
            Some(type_) => Ok(type_),
            None => Err(Error::ProtocolError(crate::protocol::Error::ProtocolViolation)),
        }
    }

    /// Reads and drops a value of the given type.
    fn skip_one(&mut self, type_: Type) -> (r: Result<(), Error>)
        ensures
            final(self).stream().written == old(self).stream().written,
            match skip_value(type_, old(self).stream().unread) {
                Ok(rest) => r is Ok && final(self).stream().unread == rest && rest.len() <= old(
                    self,
                ).stream().unread.len(),
                Err(f) => r matches Err(e) && reports(e, f),
            },
        decreases old(self).stream().unread.len(),
    {
        let ghost start = self.stream().unread;
        match type_ {
            Type::Bool => {
                self.read_bool()?;
            },
            Type::I8 => {
                self.read_byte()?;
            },
            Type::I16 => {
                self.read_i16()?;
            },
            Type::I32 => {
                self.read_i32()?;
            },
            Type::I64 => {
                self.read_i64()?;
            },
            Type::Double => {
                self.read_double()?;
            },
            Type::String => {
                self.read_binary()?;
            },
            Type::Struct => {
                self.read_struct_begin()?;
                loop
                    invariant_except_break
                        skip_fields(self.stream().unread) == skip_fields(start),
                    invariant
                        type_ == Type::Struct,
                        start == old(self).stream().unread,
                        self.stream().written == old(self).stream().written,
                        self.stream().unread.len() <= start.len(),
                    ensures
                        self.stream().written == old(self).stream().written,
                        skip_fields(start) == Ok::<Seq<u8>, Fault>(self.stream().unread),
                        self.stream().unread.len() <= start.len(),
                    decreases self.stream().unread.len(),
                {
                    let ghost before = self.stream().unread;
                    let (_, field_type, _) = self.read_field_begin()?;
                    if field_type == Type::Stop {
                        break ;
                    }
                    self.skip_one(field_type)?;
                    self.read_field_end()?;
                }
                self.read_struct_end()?;
            },
            Type::TMap => {
                let (key_type, value_type, size) = self.read_map_begin()?;
                let mut i: i32 = 0;
                while i < size
                    invariant
                        start == old(self).stream().unread,
                        0 <= i,
                        size > 0 ==> i <= size,
                        self.stream().written == old(self).stream().written,
                        self.stream().unread.len() < start.len(),
                        skip_value(type_, start) == skip_entries(
                            key_type,
                            value_type,
                            element_count(size - i),
                            self.stream().unread,
                        ),
                    decreases size - i,
                {
                    self.skip_one(key_type)?;
                    self.skip_one(value_type)?;
                    i = i + 1;
                }
                self.read_map_end()?;
            },
            Type::TSet => {
                let (elem_type, size) = self.read_set_begin()?;
                let mut i: i32 = 0;
                while i < size
                    invariant
                        start == old(self).stream().unread,
                        0 <= i,
                        size > 0 ==> i <= size,
                        self.stream().written == old(self).stream().written,
                        self.stream().unread.len() < start.len(),
                        skip_value(type_, start) == skip_items(
                            elem_type,
                            element_count(size - i),
                            self.stream().unread,
                        ),
                    decreases size - i,
                {
                    self.skip_one(elem_type)?;
                    i = i + 1;
                }
                self.read_set_end()?;
            },
            Type::List => {
                let (elem_type, size) = self.read_list_begin()?;
                let mut i: i32 = 0;
                while i < size
                    invariant
                        start == old(self).stream().unread,
                        0 <= i,
                        size > 0 ==> i <= size,
                        self.stream().written == old(self).stream().written,
                        self.stream().unread.len() < start.len(),
                        skip_value(type_, start) == skip_items(
                            elem_type,
                            element_count(size - i),
                            self.stream().unread,
                        ),
                    decreases size - i,
                {
                    self.skip_one(elem_type)?;
                    i = i + 1;
                }
                self.read_list_end()?;
            },
            Type::Void => {},
            Type::Stop => {},
        };
        Ok(())
    }
}

/// The number of bytes that the message at the front of `bytes` takes:
/// its header and its body. `None` where the bytes end before the message
/// does, so that more bytes have to arrive first.
pub fn message_length(bytes: &[u8]) -> (r: Result<Option<usize>, Error>)
    ensures
        match skip_message(bytes@) {
            Ok(rest) => rest.len() <= bytes@.len() && r == Ok::<Option<usize>, Error>(
                Some((bytes@.len() - rest.len()) as usize),
            ),
            Err(Fault::Truncated) => r matches Ok(None),
            Err(f) => r matches Err(e) && reports(e, f),
        },
{
    proof {
        lemma_skip_message_shortens(bytes@);
    }
    let mut probe = BinaryProtocol::new(MemoryTransport::new(vstd::slice::slice_to_vec(bytes)));
    let body = match probe.read_message_begin() {
        Ok((_, ty, _)) => match ty {
            MessageType::Exception => Ok(()),
            _ => probe.skip(Type::Struct),
        },
        Err(e) => Err(e),
    };
    match body {
        Ok(()) => Ok(Some(bytes.len() - probe.remaining())),
        Err(Error::TransportError(_)) => Ok(None),
        Err(e) => Err(e),
    }
}

impl Protocol for BinaryProtocol {
    closed spec fn stream(&self) -> Stream {
        Stream { unread: self.transport.unread(), written: self.transport.written() }
    }

    fn write_message_begin(
        &mut self,
        name: &str,
        message_type: MessageType,
        sequence_id: i32,
    ) -> (r: Result<(), Error>) {
        let kind: u32 = message_type.code() as u32;
        let word: i32 = #[verifier::truncate] ((((VERSION_1 as u32) << 16) | kind) as i32);
        self.write_i32(word)?;
        self.write_str(name)?;
        let r = self.write_i32(sequence_id);
        assert(self.stream().written =~= old(self).stream().written + message_begin_wire(
            name@,
            message_type,
            sequence_id,
        ));
        r
    }

    fn write_message_end(&mut self) -> (r: Result<(), Error>) {
        Ok(())
    }

    fn write_struct_begin(&mut self, _name: &str) -> (r: Result<(), Error>) {
        Ok(())
    }

    fn write_struct_end(&mut self) -> (r: Result<(), Error>) {
        Ok(())
    }

    fn write_field_begin(&mut self, _name: &str, field_type: Type, field_id: i16) -> (r: Result<
        (),
        Error,
    >) {
        self.write_type(field_type)?;
        if field_type == Type::Stop {
            Ok(())
        } else {
            let r = self.write_i16(field_id);
            assert(self.stream().written =~= old(self).stream().written + field_begin_wire(
                field_type,
                field_id,
            ));
            r
        }
    }

    fn write_field_end(&mut self) -> (r: Result<(), Error>) {
        Ok(())
    }

    fn write_field_stop(&mut self) -> (r: Result<(), Error>) {
        self.write_type(Type::Stop)
    }

    fn write_map_begin(&mut self, key_type: Type, value_type: Type, size: usize) -> (r: Result<
        (),
        Error,
    >) {
        self.write_type(key_type)?;
        self.write_type(value_type)?;
        let r = self.write_i32(#[verifier::truncate] (size as i32));
        assert(self.stream().written =~= old(self).stream().written + map_begin_wire(
            key_type,
            value_type,
            size,
        ));
        r
    }

    fn write_map_end(&mut self) -> (r: Result<(), Error>) {
        Ok(())
    }

    fn write_list_begin(&mut self, elem_type: Type, size: usize) -> (r: Result<(), Error>) {
        self.write_type(elem_type)?;
        let r = self.write_i32(#[verifier::truncate] (size as i32));
        assert(self.stream().written =~= old(self).stream().written + list_begin_wire(
            elem_type,
            size,
        ));
        r
    }

    fn write_list_end(&mut self) -> (r: Result<(), Error>) {
        Ok(())
    }

    fn write_set_begin(&mut self, elem_type: Type, size: usize) -> (r: Result<(), Error>) {
        self.write_type(elem_type)?;
        let r = self.write_i32(#[verifier::truncate] (size as i32));
        assert(self.stream().written =~= old(self).stream().written + list_begin_wire(
            elem_type,
            size,
        ));
        r
    }

    fn write_set_end(&mut self) -> (r: Result<(), Error>) {
        Ok(())
    }

    fn write_bool(&mut self, value: bool) -> (r: Result<(), Error>) {
        self.write_byte(if value { 1 } else { 0 })
    }

    fn write_byte(&mut self, value: i8) -> (r: Result<(), Error>) {
        lift(self.transport.write_i8(value))
    }

    fn write_i16(&mut self, value: i16) -> (r: Result<(), Error>) {
        lift(self.transport.write_i16(value))
    }

    fn write_i32(&mut self, value: i32) -> (r: Result<(), Error>) {
        lift(self.transport.write_i32(value))
    }

    fn write_i64(&mut self, value: i64) -> (r: Result<(), Error>) {
        lift(self.transport.write_i64(value))
    }

    fn write_double(&mut self, bits: u64) -> (r: Result<(), Error>) {
        lift(self.transport.write_u64(bits))
    }

    fn write_str(&mut self, value: &str) -> (r: Result<(), Error>) {
        self.write_binary(value.as_bytes())
    }

    fn write_string(&mut self, value: &String) -> (r: Result<(), Error>) {
        self.write_binary(value.as_str().as_bytes())
    }

    fn write_binary(&mut self, value: &[u8]) -> (r: Result<(), Error>) {
        self.write_i32(#[verifier::truncate] (value.len() as i32))?;
        let r = lift(self.transport.write_all(value));
        assert(self.stream().written =~= old(self).stream().written + binary_wire(value@));
        r
    }

    fn read_message_begin(&mut self) -> (r: Result<(String, MessageType, i32), Error>) {
        let header = self.read_i32()?;
        let version = #[verifier::truncate] ((header >> 16) as u16);
        if version != VERSION_1 {
            return Err(Error::ProtocolError(crate::protocol::Error::BadVersion));
        }
        let name = self.read_string()?;
        let raw_type = header & 0xff;
        assert(0 <= header & 0xff <= 0xff) by (bit_vector);
        let message_type = match MessageType::from_num(raw_type as u64) {
            Some(t) => t,
            None => {
                return Err(Error::ProtocolError(crate::protocol::Error::ProtocolViolation));
            },
        };
        let sequence_id = self.read_i32()?;
        Ok((name, message_type, sequence_id))
    }

    fn read_message_end(&mut self) -> (r: Result<(), Error>) {
        Ok(())
    }

    fn read_struct_begin(&mut self) -> (r: Result<String, Error>) {
        Ok(String::new())
    }

    fn read_struct_end(&mut self) -> (r: Result<(), Error>) {
        Ok(())
    }

    fn read_field_begin(&mut self) -> (r: Result<(String, Type, i16), Error>) {
        let field_type = self.read_type()?;
        let field_id = match field_type {
            Type::Stop => 0,
            _ => self.read_i16()?,
        };
        Ok((String::new(), field_type, field_id))
    }

    fn read_field_end(&mut self) -> (r: Result<(), Error>) {
        Ok(())
    }

    fn read_map_begin(&mut self) -> (r: Result<(Type, Type, i32), Error>) {
        let key_type = self.read_type()?;
        let value_type = self.read_type()?;
        let size = self.read_i32()?;
        Ok((key_type, value_type, size))
    }

    fn read_map_end(&mut self) -> (r: Result<(), Error>) {
        Ok(())
    }

    fn read_list_begin(&mut self) -> (r: Result<(Type, i32), Error>) {
        let elem_type = self.read_type()?;
        let size = self.read_i32()?;
        Ok((elem_type, size))
    }

    fn read_list_end(&mut self) -> (r: Result<(), Error>) {
        Ok(())
    }

    fn read_set_begin(&mut self) -> (r: Result<(Type, i32), Error>) {
        let elem_type = self.read_type()?;
        let size = self.read_i32()?;
        Ok((elem_type, size))
    }

    fn read_set_end(&mut self) -> (r: Result<(), Error>) {
        Ok(())
    }

    fn read_bool(&mut self) -> (r: Result<bool, Error>) {
        match self.read_byte()? {
            0 => Ok(false),
            _ => Ok(true),
        }
    }

    fn read_byte(&mut self) -> (r: Result<i8, Error>) {
        lift(self.transport.read_i8())
    }

    fn read_i16(&mut self) -> (r: Result<i16, Error>) {
        lift(self.transport.read_i16())
    }

    fn read_i32(&mut self) -> (r: Result<i32, Error>) {
        lift(self.transport.read_i32())
    }

    fn read_i64(&mut self) -> (r: Result<i64, Error>) {
        lift(self.transport.read_i64())
    }

    fn read_double(&mut self) -> (r: Result<u64, Error>) {
        lift(self.transport.read_u64())
    }

    fn read_string(&mut self) -> (r: Result<String, Error>) {
        let bytes = self.read_binary()?;
        match str_from_utf8(bytes.as_slice()) {
            Ok(s) => Ok(s.to_owned()),
            Err(e) => Err(Error::ProtocolError(crate::protocol::Error::InvalidUtf8(e))),
        }
    }

    fn read_binary(&mut self) -> (r: Result<Vec<u8>, Error>) {
        let len = self.read_i32()?;
        if len < 0 {
            return Err(Error::ProtocolError(crate::protocol::Error::ProtocolViolation));
        }
        lift(self.transport.read_exact(len as usize))
    }

    fn skip(&mut self, type_: Type) -> (r: Result<(), Error>) {
        self.skip_one(type_)
    }

    fn flush(&mut self) -> (r: Result<(), Error>) {
        lift(self.transport.flush())
    }
}

} // verus!
