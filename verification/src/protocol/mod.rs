//! The wire type model (the closed sets of value types and message kinds,
//! each bound to its numeric code), the errors of the protocol layer, and
//! the capabilities that a wire codec and a typed value expose.

use crate::endian::{be_i16, be_i32, be_i64, be_i8, be_u64};
use crate::protocol::format::{
    binary_wire, bool_wire, field_begin_wire, field_stop_wire, list_begin_wire, map_begin_wire,
    message_begin_wire, parse_binary, parse_bool, parse_field_begin, parse_i16, parse_i32,
    parse_i64, parse_i8, parse_list_begin, parse_map_begin, parse_message_begin, parse_string,
    parse_u64, reports, skip_value, string_wire, Fault, Parsed, Stream,
};
use vstd::prelude::*;

pub mod binary_protocol;
pub mod format;
pub mod helpers;

verus! {

/// `std::str::Utf8Error`: what is wrong with bytes that are no UTF-8,
/// carried through as it comes.
#[verifier::external_type_specification]
#[verifier::external_body]
pub struct ExUtf8Error(std::str::Utf8Error);

/// What can go wrong while encoding or decoding.
#[derive(Debug, PartialEq)]
pub enum Error {
    /// Protocol version mismatch.
    BadVersion,
    /// The sender violated the protocol, for instance sent an unknown enum value.
    ProtocolViolation,
    /// The sender sent a user exception where the receiver expected none.
    UserException,
    /// A received string is not valid UTF-8.
    InvalidUtf8(std::str::Utf8Error),
}

impl From<std::str::Utf8Error> for Error {
    fn from(e: std::str::Utf8Error) -> (r: Error) {
        Error::InvalidUtf8(e)
    }
}

impl vstd::std_specs::convert::FromSpecImpl<std::str::Utf8Error> for Error {
    open spec fn obeys_from_spec() -> bool {
        true
    }

    open spec fn from_spec(e: std::str::Utf8Error) -> Error {
        Error::InvalidUtf8(e)
    }
}

/// The type tag that precedes a value on the wire.
#[derive(Copy, Clone, Debug, PartialEq, Eq, Structural)]
pub enum Type {
    Stop,
    Void,
    Bool,
    I8,
    Double,
    I16,
    I32,
    I64,
    String,
    Struct,
    TMap,
    TSet,
    List,
}

impl Type {
    /// The numeric code of a type. The codes are not contiguous.
    pub open spec fn spec_code(self) -> int {
        match self {
            Type::Stop => 0x00,
            Type::Void => 0x01,
            Type::Bool => 0x02,
            Type::I8 => 0x03,
            Type::Double => 0x04,
            Type::I16 => 0x06,
            Type::I32 => 0x08,
            Type::I64 => 0x0a,
            Type::String => 0x0b,
            Type::Struct => 0x0c,
            Type::TMap => 0x0d,
            Type::TSet => 0x0e,
            Type::List => 0x0f,
        }
    }

    /// The type with the given code, if there is one.
    pub open spec fn spec_from_num(num: int) -> Option<Type> {
        if num == 0x00 {
            Some(Type::Stop)
        } else if num == 0x01 {
            Some(Type::Void)
        } else if num == 0x02 {
            Some(Type::Bool)
        } else if num == 0x03 {
            Some(Type::I8)
        } else if num == 0x04 {
            Some(Type::Double)
        } else if num == 0x06 {
            Some(Type::I16)
        } else if num == 0x08 {
            Some(Type::I32)
        } else if num == 0x0a {
            Some(Type::I64)
        } else if num == 0x0b {
            Some(Type::String)
        } else if num == 0x0c {
            Some(Type::Struct)
        } else if num == 0x0d {
            Some(Type::TMap)
        } else if num == 0x0e {
            Some(Type::TSet)
        } else if num == 0x0f {
            Some(Type::List)
        } else {
            None
        }
    }

    pub fn code(self) -> (c: i8)
        ensures
            c == self.spec_code(),
    {
        match self {
            Type::Stop => 0x00,
            Type::Void => 0x01,
            Type::Bool => 0x02,
            Type::I8 => 0x03,
            Type::Double => 0x04,
            Type::I16 => 0x06,
            Type::I32 => 0x08,
            Type::I64 => 0x0a,
            Type::String => 0x0b,
            Type::Struct => 0x0c,
            Type::TMap => 0x0d,
            Type::TSet => 0x0e,
            Type::List => 0x0f,
        }
    }

    pub fn from_num(num: u64) -> (t: Option<Type>)
        ensures
            t == Type::spec_from_num(num as int),
    {
        match num {
            0x00 => Some(Type::Stop),
            0x01 => Some(Type::Void),
            0x02 => Some(Type::Bool),
            0x03 => Some(Type::I8),
            0x04 => Some(Type::Double),
            0x06 => Some(Type::I16),
            0x08 => Some(Type::I32),
            0x0a => Some(Type::I64),
            0x0b => Some(Type::String),
            0x0c => Some(Type::Struct),
            0x0d => Some(Type::TMap),
            0x0e => Some(Type::TSet),
            0x0f => Some(Type::List),
            _ => None,
        }
    }
}

/// The kind of a message.
#[derive(Copy, Clone, Debug, PartialEq, Eq, Structural)]
pub enum MessageType {
    Call,
    Reply,
    Exception,
    Oneway,
}

impl MessageType {
    /// The numeric code of a message kind.
    pub open spec fn spec_code(self) -> int {
        match self {
            MessageType::Call => 0x01,
            MessageType::Reply => 0x02,
            MessageType::Exception => 0x03,
            MessageType::Oneway => 0x04,
        }
    }

    /// The message kind with the given code, if there is one.
    pub open spec fn spec_from_num(num: int) -> Option<MessageType> {
        if num == 0x01 {
            Some(MessageType::Call)
        } else if num == 0x02 {
            Some(MessageType::Reply)
        } else if num == 0x03 {
            Some(MessageType::Exception)
        } else if num == 0x04 {
            Some(MessageType::Oneway)
        } else {
            None
        }
    }

    pub fn code(self) -> (c: i32)
        ensures
            c == self.spec_code(),
    {
        match self {
            MessageType::Call => 0x01,
            MessageType::Reply => 0x02,
            MessageType::Exception => 0x03,
            MessageType::Oneway => 0x04,
        }
    }

    pub fn from_num(num: u64) -> (t: Option<MessageType>)
        ensures
            t == MessageType::spec_from_num(num as int),
    {
        match num {
            0x01 => Some(MessageType::Call),
            0x02 => Some(MessageType::Reply),
            0x03 => Some(MessageType::Exception),
            0x04 => Some(MessageType::Oneway),
            _ => None,
        }
    }
}

/// A write went through: `bytes` were appended to what was written, and
/// nothing was read.
pub open spec fn wrote(
    before: Stream,
    after: Stream,
    r: Result<(), crate::Error>,
    bytes: Seq<u8>,
) -> bool {
    &&& r is Ok
    &&& after.written == before.written + bytes
    &&& after.unread == before.unread
}

/// Nothing was read and nothing was written.
pub open spec fn untouched(before: Stream, after: Stream) -> bool {
    after == before
}

/// A read went as `parsed` says: the value found was returned and the
/// bytes behind it are what is left to read, or the fault was reported.
/// Nothing was written.
pub open spec fn read<T>(
    before: Stream,
    after: Stream,
    r: Result<T, crate::Error>,
    parsed: Parsed<T>,
) -> bool {
    &&& after.written == before.written
    &&& match parsed {
        Ok((v, rest)) => r == Ok::<T, crate::Error>(v) && after.unread == rest,
        Err(f) => r matches Err(e) && reports(e, f),
    }
}

/// A read of a value of fixed width went as `parsed` says, and a read
/// that failed took nothing: the stream is as it was.
pub open spec fn read_whole<T>(
    before: Stream,
    after: Stream,
    r: Result<T, crate::Error>,
    parsed: Parsed<T>,
) -> bool {
    &&& read(before, after, r, parsed)
    &&& parsed is Err ==> after == before
}

/// The operations of a wire codec on its byte stream: brackets for
/// messages, structs, fields, maps, lists and sets, the primitives, and
/// skipping a value of a given type.
///
/// A codec reads from the front of its stream's `unread` bytes and appends
/// to its `written` bytes. The contracts fix the classic binary layout.
/// Writing never fails; reading fails where the bytes end early or are not
/// what the layout allows.
pub trait Protocol: Sized {
    /// The bytes that are left to read and the bytes written so far.
    spec fn stream(&self) -> Stream;

    fn write_message_begin(
        &mut self,
        name: &str,
        message_type: MessageType,
        sequence_id: i32,
    ) -> (r: Result<(), crate::Error>)
        ensures
            wrote(
                old(self).stream(),
                final(self).stream(),
                r,
                message_begin_wire(name@, message_type, sequence_id),
            ),
    ;

    fn write_message_end(&mut self) -> (r: Result<(), crate::Error>)
        ensures
            wrote(old(self).stream(), final(self).stream(), r, Seq::empty()),
    ;

    fn write_struct_begin(&mut self, name: &str) -> (r: Result<(), crate::Error>)
        ensures
            wrote(old(self).stream(), final(self).stream(), r, Seq::empty()),
    ;

    fn write_struct_end(&mut self) -> (r: Result<(), crate::Error>)
        ensures
            wrote(old(self).stream(), final(self).stream(), r, Seq::empty()),
    ;

    fn write_field_begin(&mut self, name: &str, field_type: Type, field_id: i16) -> (r: Result<
        (),
        crate::Error,
    >)
        ensures
            wrote(
                old(self).stream(),
                final(self).stream(),
                r,
                field_begin_wire(field_type, field_id),
            ),
    ;

    fn write_field_end(&mut self) -> (r: Result<(), crate::Error>)
        ensures
            wrote(old(self).stream(), final(self).stream(), r, Seq::empty()),
    ;

    fn write_field_stop(&mut self) -> (r: Result<(), crate::Error>)
        ensures
            wrote(old(self).stream(), final(self).stream(), r, field_stop_wire()),
    ;

    fn write_map_begin(&mut self, key_type: Type, value_type: Type, size: usize) -> (r: Result<
        (),
        crate::Error,
    >)
        ensures
            wrote(
                old(self).stream(),
                final(self).stream(),
                r,
                map_begin_wire(key_type, value_type, size),
            ),
    ;

    fn write_map_end(&mut self) -> (r: Result<(), crate::Error>)
        ensures
            wrote(old(self).stream(), final(self).stream(), r, Seq::empty()),
    ;

    fn write_list_begin(&mut self, elem_type: Type, size: usize) -> (r: Result<(), crate::Error>)
        ensures
            wrote(old(self).stream(), final(self).stream(), r, list_begin_wire(elem_type, size)),
    ;

    fn write_list_end(&mut self) -> (r: Result<(), crate::Error>)
        ensures
            wrote(old(self).stream(), final(self).stream(), r, Seq::empty()),
    ;

    fn write_set_begin(&mut self, elem_type: Type, size: usize) -> (r: Result<(), crate::Error>)
        ensures
            wrote(old(self).stream(), final(self).stream(), r, list_begin_wire(elem_type, size)),
    ;

    fn write_set_end(&mut self) -> (r: Result<(), crate::Error>)
        ensures
            wrote(old(self).stream(), final(self).stream(), r, Seq::empty()),
    ;

    fn write_bool(&mut self, value: bool) -> (r: Result<(), crate::Error>)
        ensures
            wrote(old(self).stream(), final(self).stream(), r, bool_wire(value)),
    ;

    fn write_byte(&mut self, value: i8) -> (r: Result<(), crate::Error>)
        ensures
            wrote(old(self).stream(), final(self).stream(), r, be_i8(value)),
    ;

    fn write_i16(&mut self, value: i16) -> (r: Result<(), crate::Error>)
        ensures
            wrote(old(self).stream(), final(self).stream(), r, be_i16(value)),
    ;

    fn write_i32(&mut self, value: i32) -> (r: Result<(), crate::Error>)
        ensures
            wrote(old(self).stream(), final(self).stream(), r, be_i32(value)),
    ;

    fn write_i64(&mut self, value: i64) -> (r: Result<(), crate::Error>)
        ensures
            wrote(old(self).stream(), final(self).stream(), r, be_i64(value)),
    ;

    /// Writes a double, given by the 64 bits of its IEEE 754 form.
    fn write_double(&mut self, bits: u64) -> (r: Result<(), crate::Error>)
        ensures
            wrote(old(self).stream(), final(self).stream(), r, be_u64(bits)),
    ;

    fn write_str(&mut self, value: &str) -> (r: Result<(), crate::Error>)
        ensures
            wrote(old(self).stream(), final(self).stream(), r, string_wire(value@)),
    ;

    fn write_string(&mut self, value: &String) -> (r: Result<(), crate::Error>)
        ensures
            wrote(old(self).stream(), final(self).stream(), r, string_wire(value@)),
    ;

    fn write_binary(&mut self, value: &[u8]) -> (r: Result<(), crate::Error>)
        ensures
            wrote(old(self).stream(), final(self).stream(), r, binary_wire(value@)),
    ;

    fn read_message_begin(&mut self) -> (r: Result<(String, MessageType, i32), crate::Error>)
        ensures
            final(self).stream().written == old(self).stream().written,
            match parse_message_begin(old(self).stream().unread) {
                Ok(((name, message_type, sequence_id), rest)) => {
                    &&& r matches Ok(got)
                    &&& got.0@ == name
                    &&& got.1 == message_type
                    &&& got.2 == sequence_id
                    &&& final(self).stream().unread == rest
                },
                Err(f) => r matches Err(e) && reports(e, f),
            },
    ;

    fn read_message_end(&mut self) -> (r: Result<(), crate::Error>)
        ensures
            r is Ok,
            untouched(old(self).stream(), final(self).stream()),
    ;

    /// Structs carry no name on the wire: the name read is empty.
    fn read_struct_begin(&mut self) -> (r: Result<String, crate::Error>)
        ensures
            r matches Ok(name) && name@ == Seq::<char>::empty(),
            untouched(old(self).stream(), final(self).stream()),
    ;

    fn read_struct_end(&mut self) -> (r: Result<(), crate::Error>)
        ensures
            r is Ok,
            untouched(old(self).stream(), final(self).stream()),
    ;

    /// Fields carry no name on the wire: the name read is empty.
    fn read_field_begin(&mut self) -> (r: Result<(String, Type, i16), crate::Error>)
        ensures
            final(self).stream().written == old(self).stream().written,
            match parse_field_begin(old(self).stream().unread) {
                Ok(((field_type, field_id), rest)) => {
                    &&& r matches Ok(got)
                    &&& got.0@ == Seq::<char>::empty()
                    &&& got.1 == field_type
                    &&& got.2 == field_id
                    &&& final(self).stream().unread == rest
                },
                Err(f) => r matches Err(e) && reports(e, f),
            },
    ;

    fn read_field_end(&mut self) -> (r: Result<(), crate::Error>)
        ensures
            r is Ok,
            untouched(old(self).stream(), final(self).stream()),
    ;

    fn read_map_begin(&mut self) -> (r: Result<(Type, Type, i32), crate::Error>)
        ensures
            read(
                old(self).stream(),
                final(self).stream(),
                r,
                parse_map_begin(old(self).stream().unread),
            ),
    ;

    fn read_map_end(&mut self) -> (r: Result<(), crate::Error>)
        ensures
            r is Ok,
            untouched(old(self).stream(), final(self).stream()),
    ;

    fn read_list_begin(&mut self) -> (r: Result<(Type, i32), crate::Error>)
        ensures
            read(
                old(self).stream(),
                final(self).stream(),
                r,
                parse_list_begin(old(self).stream().unread),
            ),
    ;

    fn read_list_end(&mut self) -> (r: Result<(), crate::Error>)
        ensures
            r is Ok,
            untouched(old(self).stream(), final(self).stream()),
    ;

    fn read_set_begin(&mut self) -> (r: Result<(Type, i32), crate::Error>)
        ensures
            read(
                old(self).stream(),
                final(self).stream(),
                r,
                parse_list_begin(old(self).stream().unread),
            ),
    ;

    fn read_set_end(&mut self) -> (r: Result<(), crate::Error>)
        ensures
            r is Ok,
            untouched(old(self).stream(), final(self).stream()),
    ;

    fn read_bool(&mut self) -> (r: Result<bool, crate::Error>)
        ensures
            read_whole(
                old(self).stream(),
                final(self).stream(),
                r,
                parse_bool(old(self).stream().unread),
            ),
    ;

    fn read_byte(&mut self) -> (r: Result<i8, crate::Error>)
        ensures
            read_whole(
                old(self).stream(),
                final(self).stream(),
                r,
                parse_i8(old(self).stream().unread),
            ),
    ;

    fn read_i16(&mut self) -> (r: Result<i16, crate::Error>)
        ensures
            read_whole(
                old(self).stream(),
                final(self).stream(),
                r,
                parse_i16(old(self).stream().unread),
            ),
    ;

    fn read_i32(&mut self) -> (r: Result<i32, crate::Error>)
        ensures
            read_whole(
                old(self).stream(),
                final(self).stream(),
                r,
                parse_i32(old(self).stream().unread),
            ),
    ;

    fn read_i64(&mut self) -> (r: Result<i64, crate::Error>)
        ensures
            read_whole(
                old(self).stream(),
                final(self).stream(),
                r,
                parse_i64(old(self).stream().unread),
            ),
    ;

    /// Reads a double, as the 64 bits of its IEEE 754 form.
    fn read_double(&mut self) -> (r: Result<u64, crate::Error>)
        ensures
            read_whole(
                old(self).stream(),
                final(self).stream(),
                r,
                parse_u64(old(self).stream().unread),
            ),
    ;

    fn read_string(&mut self) -> (r: Result<String, crate::Error>)
        ensures
            final(self).stream().written == old(self).stream().written,
            match parse_string(old(self).stream().unread) {
                Ok((value, rest)) => {
                    &&& r matches Ok(got)
                    &&& got@ == value
                    &&& final(self).stream().unread == rest
                },
                Err(f) => r matches Err(e) && reports(e, f),
            },
    ;

    fn read_binary(&mut self) -> (r: Result<Vec<u8>, crate::Error>)
        ensures
            final(self).stream().written == old(self).stream().written,
            match parse_binary(old(self).stream().unread) {
                Ok((value, rest)) => {
                    &&& r matches Ok(got)
                    &&& got@ == value
                    &&& final(self).stream().unread == rest
                },
                Err(f) => r matches Err(e) && reports(e, f),
            },
    ;

    /// Reads and drops a value of the given type.
    fn skip(&mut self, type_: Type) -> (r: Result<(), crate::Error>)
        ensures
            final(self).stream().written == old(self).stream().written,
            match skip_value(type_, old(self).stream().unread) {
                Ok(rest) => r is Ok && final(self).stream().unread == rest,
                Err(f) => r matches Err(e) && reports(e, f),
            },
    ;

    fn flush(&mut self) -> (r: Result<(), crate::Error>)
        ensures
            r is Ok,
            untouched(old(self).stream(), final(self).stream()),
    ;
}

/// A decode went as `parsed` says: a value with the model found was
/// returned and the bytes behind it are what is left to read, or the fault
/// was reported. Nothing was written.
pub open spec fn decoded<D: DeepView>(
    before: Stream,
    after: Stream,
    r: Result<D, crate::Error>,
    parsed: Parsed<D::V>,
) -> bool {
    &&& after.written == before.written
    &&& match parsed {
        Ok((m, rest)) => r matches Ok(v) && v.deep_view() == m && after.unread == rest,
        Err(f) => r matches Err(e) && reports(e, f),
    }
}

/// A type that can report its wire type.
pub trait ThriftTyped {
    /// The type tag under which values of this type travel.
    spec fn wire_type() -> Type;

    fn typ() -> (t: Type)
        ensures
            t == Self::wire_type(),
    ;
}

/// A type that can encode itself against a protocol writer.
pub trait Encode: ThriftTyped {
    /// The bytes of this value on the wire.
    spec fn wire(&self) -> Seq<u8>;

    fn encode<P: Protocol>(&self, protocol: &mut P) -> (r: Result<(), crate::Error>)
        ensures
            wrote(old(protocol).stream(), final(protocol).stream(), r, self.wire()),
    ;
}

/// A type that can decode itself from a protocol reader.
pub trait Decode: ThriftTyped + Default + DeepView + Sized {
    /// The value found at the front of `input`, as its model, and the
    /// bytes behind it.
    spec fn parse(input: Seq<u8>) -> Parsed<<Self as DeepView>::V>;

    /// What is left behind a value is no longer than what was there.
    proof fn parse_shortens(input: Seq<u8>)
        ensures
            Self::parse(input) matches Ok((_, rest)) ==> rest.len() <= input.len(),
    ;

    fn decode<P: Protocol>(protocol: &mut P) -> (r: Result<Self, crate::Error>)
        ensures
            decoded(
                old(protocol).stream(),
                final(protocol).stream(),
                r,
                Self::parse(old(protocol).stream().unread),
            ),
    ;
}

/// A type whose encoding reads back as the value it came from.
pub trait Codec: Encode + Decode {
    /// Whether the encoding holds the whole value: its counts fit the 32
    /// bits they are written in, and nothing in it is absent.
    spec fn faithful(&self) -> bool;

    /// Decoding what a faithful value encodes to gives the value back and
    /// leaves what followed it.
    proof fn round_trip(&self, rest: Seq<u8>)
        requires
            self.faithful(),
        ensures
            Self::parse(self.wire() + rest) == Ok::<(<Self as DeepView>::V, Seq<u8>), Fault>(
                (self.deep_view(), rest),
            ),
    ;

    /// Skipping what a faithful value encodes to leaves what followed it:
    /// a reader that has no use for the value steps over exactly its
    /// bytes.
    proof fn skip_over(&self, rest: Seq<u8>)
        requires
            self.faithful(),
        ensures
            skip_value(Self::wire_type(), self.wire() + rest) == Ok::<Seq<u8>, Fault>(rest),
    ;
}

/// An enumeration backed by an `i32`.
pub trait FromNum: Sized {
    /// The value with the given number, if the number is declared.
    spec fn spec_from_num(num: i32) -> Option<Self>;

    fn from_num(num: i32) -> (v: Option<Self>)
        ensures
            v == Self::spec_from_num(num),
    ;
}

/// A code and its type name each other.
pub proof fn lemma_type_code_round_trip(ty: Type)
    ensures
        Type::spec_from_num(ty.spec_code()) == Some(ty),
{
}

/// A code and its message kind name each other.
pub proof fn lemma_message_type_code_round_trip(ty: MessageType)
    ensures
        MessageType::spec_from_num(ty.spec_code()) == Some(ty),
{
}

} // verus!
