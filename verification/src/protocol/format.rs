//! The byte layout of the classic binary protocol, as mathematical
//! functions: what each element looks like on the wire, and what a reader
//! finds at the front of a byte sequence.

use crate::endian::{
    be_i16, be_i32, be_i64, be_i8, be_u64, i16_from_be, i32_from_be, i64_from_be, i8_from_be,
    lemma_i16_round_trip, lemma_i32_round_trip, lemma_i64_round_trip, lemma_i8_round_trip,
    lemma_u64_round_trip, u64_from_be,
};
use crate::protocol::{MessageType, Type};
use vstd::prelude::*;
use vstd::utf8::{
    decode_utf8, encode_utf8, encode_utf8_decode_utf8, encode_utf8_valid_utf8, valid_utf8,
};

verus! {

/// Why a reader cannot go on.
pub enum Fault {
    /// The bytes end before the element does.
    Truncated,
    /// A message header carries another protocol version.
    BadVersion,
    /// The bytes are not what the protocol allows at this place.
    ProtocolViolation,
    /// A string's bytes are not valid UTF-8.
    InvalidUtf8,
    /// The peer answered with an exception where a reply was expected.
    UserException,
}

/// Whether the error `e` reports the fault `f`.
pub open spec fn reports(e: crate::Error, f: Fault) -> bool {
    match f {
        Fault::Truncated => e is TransportError,
        Fault::BadVersion => e == crate::Error::ProtocolError(crate::protocol::Error::BadVersion),
        Fault::ProtocolViolation => e == crate::Error::ProtocolError(
            crate::protocol::Error::ProtocolViolation,
        ),
        Fault::InvalidUtf8 => e matches crate::Error::ProtocolError(
            crate::protocol::Error::InvalidUtf8(_),
        ),
        Fault::UserException => e == crate::Error::ProtocolError(
            crate::protocol::Error::UserException,
        ),
    }
}

/// The two byte sequences of a codec: what is left to read, and what was
/// written so far.
pub struct Stream {
    pub unread: Seq<u8>,
    pub written: Seq<u8>,
}

/// A value found at the front of a byte sequence together with the bytes
/// that follow it, or the reason why there is none.
pub type Parsed<T> = Result<(T, Seq<u8>), Fault>;

/// The version tag in the upper half of a message header.
pub const VERSION_1: u16 = 0x8001;

// ---- what is written ----

pub open spec fn bool_wire(v: bool) -> Seq<u8> {
    be_i8(if v { 1i8 } else { 0i8 })
}

pub open spec fn type_wire(ty: Type) -> Seq<u8> {
    be_i8(ty.spec_code() as i8)
}

/// A length as it is written: the low 32 bits of the count.
pub open spec fn size_wire(size: usize) -> Seq<u8> {
    be_i32(size as i32)
}

/// Raw bytes: their count, then the bytes.
pub open spec fn binary_wire(bytes: Seq<u8>) -> Seq<u8> {
    be_i32(bytes.len() as i32) + bytes
}

/// A string: the count of its UTF-8 bytes, then those bytes.
pub open spec fn string_wire(s: Seq<char>) -> Seq<u8> {
    binary_wire(encode_utf8(s))
}

/// A field header: the type code, and the field id unless the type is
/// `Stop`.
pub open spec fn field_begin_wire(ty: Type, id: i16) -> Seq<u8> {
    if ty == Type::Stop {
        type_wire(ty)
    } else {
        type_wire(ty) + be_i16(id)
    }
}

/// The marker that ends a struct's fields.
pub open spec fn field_stop_wire() -> Seq<u8> {
    type_wire(Type::Stop)
}

pub open spec fn list_begin_wire(elem_type: Type, size: usize) -> Seq<u8> {
    type_wire(elem_type) + size_wire(size)
}

pub open spec fn map_begin_wire(key_type: Type, value_type: Type, size: usize) -> Seq<u8> {
    type_wire(key_type) + type_wire(value_type) + size_wire(size)
}

/// The first word of a message: the version in the upper sixteen bits and
/// the message kind in the lowest.
pub open spec fn message_word(ty: MessageType) -> i32 {
    (((VERSION_1 as u32) << 16) | (ty.spec_code() as u32)) as i32
}

pub open spec fn message_begin_wire(name: Seq<char>, ty: MessageType, seq: i32) -> Seq<u8> {
    be_i32(message_word(ty)) + string_wire(name) + be_i32(seq)
}

// ---- what is read ----

pub open spec fn parse_i8(input: Seq<u8>) -> Parsed<i8> {
    if input.len() >= 1 {
        Ok((i8_from_be(input.take(1)), input.skip(1)))
    } else {
        Err(Fault::Truncated)
    }
}

pub open spec fn parse_i16(input: Seq<u8>) -> Parsed<i16> {
    if input.len() >= 2 {
        Ok((i16_from_be(input.take(2)), input.skip(2)))
    } else {
        Err(Fault::Truncated)
    }
}

pub open spec fn parse_i32(input: Seq<u8>) -> Parsed<i32> {
    if input.len() >= 4 {
        Ok((i32_from_be(input.take(4)), input.skip(4)))
    } else {
        Err(Fault::Truncated)
    }
}

pub open spec fn parse_i64(input: Seq<u8>) -> Parsed<i64> {
    if input.len() >= 8 {
        Ok((i64_from_be(input.take(8)), input.skip(8)))
    } else {
        Err(Fault::Truncated)
    }
}

pub open spec fn parse_u64(input: Seq<u8>) -> Parsed<u64> {
    if input.len() >= 8 {
        Ok((u64_from_be(input.take(8)), input.skip(8)))
    } else {
        Err(Fault::Truncated)
    }
}

/// Any byte but zero reads as `true`.
pub open spec fn parse_bool(input: Seq<u8>) -> Parsed<bool> {
    match parse_i8(input) {
        Err(f) => Err(f),
        Ok((b, rest)) => Ok((b != 0, rest)),
    }
}

/// A type code. A byte that is no code is a violation.
pub open spec fn parse_type(input: Seq<u8>) -> Parsed<Type> {
    match parse_i8(input) {
        Err(f) => Err(f),
        Ok((raw, rest)) => match Type::spec_from_num((raw as u64) as int) {
            Some(ty) => Ok((ty, rest)),
            None => Err(Fault::ProtocolViolation),
        },
    }
}

/// Raw bytes behind their count. A negative count is a violation.
pub open spec fn parse_binary(input: Seq<u8>) -> Parsed<Seq<u8>> {
    match parse_i32(input) {
        Err(f) => Err(f),
        Ok((len, rest)) => if len < 0 {
            Err(Fault::ProtocolViolation)
        } else if rest.len() < len {
            Err(Fault::Truncated)
        } else {
            Ok((rest.take(len as int), rest.skip(len as int)))
        },
    }
}

pub open spec fn parse_string(input: Seq<u8>) -> Parsed<Seq<char>> {
    match parse_binary(input) {
        Err(f) => Err(f),
        Ok((bytes, rest)) => if valid_utf8(bytes) {
            Ok((decode_utf8(bytes), rest))
        } else {
            Err(Fault::InvalidUtf8)
        },
    }
}

/// A field header. After `Stop` there is no id, and the id reads as 0.
pub open spec fn parse_field_begin(input: Seq<u8>) -> Parsed<(Type, i16)> {
    match parse_type(input) {
        Err(f) => Err(f),
        Ok((ty, rest)) => if ty == Type::Stop {
            Ok(((ty, 0i16), rest))
        } else {
            match parse_i16(rest) {
                Err(f) => Err(f),
                Ok((id, rest2)) => Ok(((ty, id), rest2)),
            }
        },
    }
}

pub open spec fn parse_list_begin(input: Seq<u8>) -> Parsed<(Type, i32)> {
    match parse_type(input) {
        Err(f) => Err(f),
        Ok((ty, rest)) => match parse_i32(rest) {
            Err(f) => Err(f),
            Ok((size, rest2)) => Ok(((ty, size), rest2)),
        },
    }
}

pub open spec fn parse_map_begin(input: Seq<u8>) -> Parsed<(Type, Type, i32)> {
    match parse_type(input) {
        Err(f) => Err(f),
        Ok((key_type, rest)) => match parse_type(rest) {
            Err(f) => Err(f),
            Ok((value_type, rest2)) => match parse_i32(rest2) {
                Err(f) => Err(f),
                Ok((size, rest3)) => Ok(((key_type, value_type, size), rest3)),
            },
        },
    }
}

/// The version that a header word carries: its upper sixteen bits.
pub open spec fn word_version(word: i32) -> u16 {
    (word >> 16) as u16
}

/// The message kind that a header word carries, in its lowest eight bits.
pub open spec fn word_kind(word: i32) -> Option<MessageType> {
    MessageType::spec_from_num(((word & 0xff) as u64) as int)
}

/// A message header: the version is checked first, then the name is read,
/// then the message kind is checked, then the sequence id is read.
pub open spec fn parse_message_begin(input: Seq<u8>) -> Parsed<(Seq<char>, MessageType, i32)> {
    match parse_i32(input) {
        Err(f) => Err(f),
        Ok((word, rest)) => if word_version(word) != VERSION_1 {
            Err(Fault::BadVersion)
        } else {
            match parse_string(rest) {
                Err(f) => Err(f),
                Ok((name, rest2)) => match word_kind(word) {
                    None => Err(Fault::ProtocolViolation),
                    Some(ty) => match parse_i32(rest2) {
                        Err(f) => Err(f),
                        Ok((seq, rest3)) => Ok(((name, ty, seq), rest3)),
                    },
                },
            }
        },
    }
}

/// How many elements a container with the announced size holds: a
/// negative size announces none. The size only bounds the walk over the
/// elements, so a negative one ends the walk before it starts. The length
/// of a string or binary is another matter: that many bytes have to be
/// there, and a negative length is a violation.
pub open spec fn element_count(size: int) -> nat {
    if size < 0 {
        0
    } else {
        size as nat
    }
}

/// What is left of a parse once its value is dropped.
pub open spec fn rest_of<T>(p: Parsed<T>) -> Result<Seq<u8>, Fault> {
    match p {
        Err(f) => Err(f),
        Ok((_, rest)) => Ok(rest),
    }
}

// ---- skipping ----

/// The bytes that follow a value of type `ty` at the front of `input`.
///
/// Fixed-width values span their width, strings their count and bytes. A
/// struct spans its fields up to and with the stop marker; a map, set or
/// list spans its header and as many keys and values, or elements, as the
/// header announces. `Void` and `Stop` span nothing.
///
/// The tests on lengths, here and in the three functions below, only make
/// the recursion well founded: what is left behind a value is never longer
/// than what was there.
pub open spec fn skip_value(ty: Type, input: Seq<u8>) -> Result<Seq<u8>, Fault>
    decreases input.len(), 1nat, 0nat,
{
    match ty {
        Type::Bool => rest_of(parse_bool(input)),
        Type::I8 => rest_of(parse_i8(input)),
        Type::I16 => rest_of(parse_i16(input)),
        Type::I32 => rest_of(parse_i32(input)),
        Type::I64 => rest_of(parse_i64(input)),
        Type::Double => rest_of(parse_u64(input)),
        Type::String => rest_of(parse_binary(input)),
        Type::Struct => skip_fields(input),
        Type::TMap => match parse_map_begin(input) {
            Err(f) => Err(f),
            Ok(((key_type, value_type, size), rest)) => if rest.len() < input.len() {
                skip_entries(key_type, value_type, element_count(size as int), rest)
            } else {
                Err(Fault::Truncated)
            },
        },
        Type::TSet | Type::List => match parse_list_begin(input) {
            Err(f) => Err(f),
            Ok(((elem_type, size), rest)) => if rest.len() < input.len() {
                skip_items(elem_type, element_count(size as int), rest)
            } else {
                Err(Fault::Truncated)
            },
        },
        Type::Void => Ok(input),
        Type::Stop => Ok(input),
    }
}

/// The bytes that follow the fields of a struct, stop marker included.
pub open spec fn skip_fields(input: Seq<u8>) -> Result<Seq<u8>, Fault>
    decreases input.len(), 0nat, 0nat,
{
    match parse_field_begin(input) {
        Err(f) => Err(f),
        Ok(((ty, _), rest)) => if ty == Type::Stop {
            Ok(rest)
        } else if rest.len() < input.len() {
            match skip_value(ty, rest) {
                Err(f) => Err(f),
                Ok(rest2) => if rest2.len() < input.len() {
                    skip_fields(rest2)
                } else {
                    Err(Fault::Truncated)
                },
            }
        } else {
            Err(Fault::Truncated)
        },
    }
}

/// The bytes that follow `count` values of type `ty`.
pub open spec fn skip_items(ty: Type, count: nat, input: Seq<u8>) -> Result<Seq<u8>, Fault>
    decreases input.len(), 2nat, count,
{
    if count == 0 {
        Ok(input)
    } else {
        match skip_value(ty, input) {
            Err(f) => Err(f),
            Ok(rest) => if rest.len() <= input.len() {
                skip_items(ty, (count - 1) as nat, rest)
            } else {
                Err(Fault::Truncated)
            },
        }
    }
}

/// The bytes that follow `count` pairs of a key and a value.
pub open spec fn skip_entries(
    key_type: Type,
    value_type: Type,
    count: nat,
    input: Seq<u8>,
) -> Result<Seq<u8>, Fault>
    decreases input.len(), 2nat, count,
{
    if count == 0 {
        Ok(input)
    } else {
        match skip_value(key_type, input) {
            Err(f) => Err(f),
            Ok(rest) => if rest.len() <= input.len() {
                match skip_value(value_type, rest) {
                    Err(f) => Err(f),
                    Ok(rest2) => if rest2.len() <= input.len() {
                        skip_entries(key_type, value_type, (count - 1) as nat, rest2)
                    } else {
                        Err(Fault::Truncated)
                    },
                }
            } else {
                Err(Fault::Truncated)
            },
        }
    }
}

/// Skipping never leaves more bytes than there were.
pub proof fn lemma_skip_value_shortens(ty: Type, input: Seq<u8>)
    ensures
        skip_value(ty, input) matches Ok(rest) ==> rest.len() <= input.len(),
    decreases input.len(), 1nat, 0nat,
{
    match ty {
        Type::Struct => {
            lemma_skip_fields_shortens(input);
        },
        Type::TMap => {
            if let Ok(((key_type, value_type, size), rest)) = parse_map_begin(input) {
                if rest.len() < input.len() {
                    lemma_skip_entries_shortens(
                        key_type,
                        value_type,
                        element_count(size as int),
                        rest,
                    );
                }
            }
        },
        Type::TSet | Type::List => {
            if let Ok(((elem_type, size), rest)) = parse_list_begin(input) {
                if rest.len() < input.len() {
                    lemma_skip_items_shortens(elem_type, element_count(size as int), rest);
                }
            }
        },
        _ => {},
    }
}

/// Skipping a struct's fields never leaves more bytes than there were.
pub proof fn lemma_skip_fields_shortens(input: Seq<u8>)
    ensures
        skip_fields(input) matches Ok(rest) ==> rest.len() <= input.len(),
    decreases input.len(), 0nat, 0nat,
{
    if let Ok(((ty, _), rest)) = parse_field_begin(input) {
        if ty != Type::Stop && rest.len() < input.len() {
            lemma_skip_value_shortens(ty, rest);
            if let Ok(rest2) = skip_value(ty, rest) {
                if rest2.len() < input.len() {
                    lemma_skip_fields_shortens(rest2);
                }
            }
        }
    }
}

/// Skipping elements never leaves more bytes than there were.
pub proof fn lemma_skip_items_shortens(ty: Type, count: nat, input: Seq<u8>)
    ensures
        skip_items(ty, count, input) matches Ok(rest) ==> rest.len() <= input.len(),
    decreases input.len(), 2nat, count,
{
    if count > 0 {
        lemma_skip_value_shortens(ty, input);
        if let Ok(rest) = skip_value(ty, input) {
            if rest.len() <= input.len() {
                lemma_skip_items_shortens(ty, (count - 1) as nat, rest);
            }
        }
    }
}

/// Skipping map entries never leaves more bytes than there were.
pub proof fn lemma_skip_entries_shortens(
    key_type: Type,
    value_type: Type,
    count: nat,
    input: Seq<u8>,
)
    ensures
        skip_entries(key_type, value_type, count, input) matches Ok(rest) ==> rest.len()
            <= input.len(),
    decreases input.len(), 2nat, count,
{
    if count > 0 {
        lemma_skip_value_shortens(key_type, input);
        if let Ok(rest) = skip_value(key_type, input) {
            if rest.len() <= input.len() {
                lemma_skip_value_shortens(value_type, rest);
                if let Ok(rest2) = skip_value(value_type, rest) {
                    if rest2.len() <= input.len() {
                        lemma_skip_entries_shortens(
                            key_type,
                            value_type,
                            (count - 1) as nat,
                            rest2,
                        );
                    }
                }
            }
        }
    }
}

/// The bytes that follow the message at the front of `input`: its
/// header, and its body, which is a struct. An `Exception` message has no
/// body.
pub open spec fn skip_message(input: Seq<u8>) -> Result<Seq<u8>, Fault> {
    match parse_message_begin(input) {
        Err(f) => Err(f),
        Ok(((_, ty, _), rest)) => if ty == MessageType::Exception {
            Ok(rest)
        } else {
            skip_value(Type::Struct, rest)
        },
    }
}

/// What is left behind a message is no longer than what was there.
pub proof fn lemma_skip_message_shortens(input: Seq<u8>)
    ensures
        skip_message(input) matches Ok(rest) ==> rest.len() <= input.len(),
{
    if let Ok(((_, ty, _), rest)) = parse_message_begin(input) {
        lemma_skip_value_shortens(Type::Struct, rest);
    }
}

/// Skipping a struct is skipping its fields.
pub proof fn lemma_skip_struct(input: Seq<u8>)
    ensures
        skip_value(Type::Struct, input) == skip_fields(input),
{
}

// ---- what was written is what is read ----

/// An `i8` written in front of `rest` is read back, and `rest` is left.
pub proof fn lemma_parse_i8(v: i8, rest: Seq<u8>)
    ensures
        parse_i8(be_i8(v) + rest) == Ok::<(i8, Seq<u8>), Fault>((v, rest)),
{
    lemma_i8_round_trip(v);
    let input = be_i8(v) + rest;
    assert(input.take(1) =~= be_i8(v));
    assert(input.skip(1) =~= rest);
}

/// An `i16` written in front of `rest` is read back, and `rest` is left.
pub proof fn lemma_parse_i16(v: i16, rest: Seq<u8>)
    ensures
        parse_i16(be_i16(v) + rest) == Ok::<(i16, Seq<u8>), Fault>((v, rest)),
{
    lemma_i16_round_trip(v);
    let input = be_i16(v) + rest;
    assert(input.take(2) =~= be_i16(v));
    assert(input.skip(2) =~= rest);
}

/// An `i32` written in front of `rest` is read back, and `rest` is left.
pub proof fn lemma_parse_i32(v: i32, rest: Seq<u8>)
    ensures
        parse_i32(be_i32(v) + rest) == Ok::<(i32, Seq<u8>), Fault>((v, rest)),
{
    lemma_i32_round_trip(v);
    let input = be_i32(v) + rest;
    assert(input.take(4) =~= be_i32(v));
    assert(input.skip(4) =~= rest);
}

/// An `i64` written in front of `rest` is read back, and `rest` is left.
pub proof fn lemma_parse_i64(v: i64, rest: Seq<u8>)
    ensures
        parse_i64(be_i64(v) + rest) == Ok::<(i64, Seq<u8>), Fault>((v, rest)),
{
    lemma_i64_round_trip(v);
    let input = be_i64(v) + rest;
    assert(input.take(8) =~= be_i64(v));
    assert(input.skip(8) =~= rest);
}

/// A `u64` written in front of `rest` is read back, and `rest` is left.
pub proof fn lemma_parse_u64(v: u64, rest: Seq<u8>)
    ensures
        parse_u64(be_u64(v) + rest) == Ok::<(u64, Seq<u8>), Fault>((v, rest)),
{
    lemma_u64_round_trip(v);
    let input = be_u64(v) + rest;
    assert(input.take(8) =~= be_u64(v));
    assert(input.skip(8) =~= rest);
}

/// A `bool` written in front of `rest` is read back, and `rest` is left.
pub proof fn lemma_parse_bool(v: bool, rest: Seq<u8>)
    ensures
        parse_bool(bool_wire(v) + rest) == Ok::<(bool, Seq<u8>), Fault>((v, rest)),
{
    lemma_parse_i8(if v { 1i8 } else { 0i8 }, rest);
}

/// A type code written in front of `rest` is read back as the type.
pub proof fn lemma_parse_type(ty: Type, rest: Seq<u8>)
    ensures
        parse_type(type_wire(ty) + rest) == Ok::<(Type, Seq<u8>), Fault>((ty, rest)),
{
    let code = ty.spec_code() as i8;
    lemma_parse_i8(code, rest);
    assert((code as u64) as int == ty.spec_code());
}

/// Fewer than 2^31 bytes written behind their count are read back.
pub proof fn lemma_parse_binary(bytes: Seq<u8>, rest: Seq<u8>)
    requires
        bytes.len() <= i32::MAX,
    ensures
        parse_binary(binary_wire(bytes) + rest) == Ok::<(Seq<u8>, Seq<u8>), Fault>((bytes, rest)),
{
    let len = bytes.len() as i32;
    lemma_parse_i32(len, bytes + rest);
    assert(binary_wire(bytes) + rest =~= be_i32(len) + (bytes + rest));
    assert((bytes + rest).take(len as int) =~= bytes);
    assert((bytes + rest).skip(len as int) =~= rest);
}

/// A string of fewer than 2^31 bytes is read back.
pub proof fn lemma_parse_string(s: Seq<char>, rest: Seq<u8>)
    requires
        encode_utf8(s).len() <= i32::MAX,
    ensures
        parse_string(string_wire(s) + rest) == Ok::<(Seq<char>, Seq<u8>), Fault>((s, rest)),
{
    lemma_parse_binary(encode_utf8(s), rest);
    encode_utf8_valid_utf8(s);
    encode_utf8_decode_utf8(s);
}

/// A field header written in front of `rest` is read back. After `Stop`
/// the id reads as 0.
pub proof fn lemma_parse_field_begin(ty: Type, id: i16, rest: Seq<u8>)
    ensures
        parse_field_begin(field_begin_wire(ty, id) + rest) == Ok::<((Type, i16), Seq<u8>), Fault>(
            ((ty, if ty == Type::Stop { 0i16 } else { id }), rest),
        ),
{
    if ty == Type::Stop {
        lemma_parse_type(ty, rest);
    } else {
        lemma_parse_type(ty, be_i16(id) + rest);
        lemma_parse_i16(id, rest);
        assert(field_begin_wire(ty, id) + rest =~= type_wire(ty) + (be_i16(id) + rest));
    }
}

/// A list or set header is read back where the size is below 2^31.
pub proof fn lemma_parse_list_begin(elem_type: Type, size: usize, rest: Seq<u8>)
    requires
        size <= i32::MAX,
    ensures
        parse_list_begin(list_begin_wire(elem_type, size) + rest) == Ok::<
            ((Type, i32), Seq<u8>),
            Fault,
        >(((elem_type, size as i32), rest)),
{
    lemma_parse_type(elem_type, size_wire(size) + rest);
    lemma_parse_i32(size as i32, rest);
    assert(list_begin_wire(elem_type, size) + rest =~= type_wire(elem_type) + (size_wire(size)
        + rest));
}

/// A map header is read back where the size is below 2^31.
pub proof fn lemma_parse_map_begin(key_type: Type, value_type: Type, size: usize, rest: Seq<u8>)
    requires
        size <= i32::MAX,
    ensures
        parse_map_begin(map_begin_wire(key_type, value_type, size) + rest) == Ok::<
            ((Type, Type, i32), Seq<u8>),
            Fault,
        >(((key_type, value_type, size as i32), rest)),
{
    lemma_parse_type(key_type, type_wire(value_type) + (size_wire(size) + rest));
    lemma_parse_type(value_type, size_wire(size) + rest);
    lemma_parse_i32(size as i32, rest);
    assert(map_begin_wire(key_type, value_type, size) + rest =~= type_wire(key_type) + (type_wire(
        value_type,
    ) + (size_wire(size) + rest)));
}

/// The header word of a message kind carries the version and the kind.
pub proof fn lemma_message_word(ty: MessageType)
    ensures
        word_version(message_word(ty)) == VERSION_1,
        word_kind(message_word(ty)) == Some(ty),
{
    assert(((((0x8001u16 as u32) << 16) | 1u32) as i32 >> 16) as u16 == 0x8001u16) by (bit_vector);
    assert(((((0x8001u16 as u32) << 16) | 2u32) as i32 >> 16) as u16 == 0x8001u16) by (bit_vector);
    assert(((((0x8001u16 as u32) << 16) | 3u32) as i32 >> 16) as u16 == 0x8001u16) by (bit_vector);
    assert(((((0x8001u16 as u32) << 16) | 4u32) as i32 >> 16) as u16 == 0x8001u16) by (bit_vector);
    assert((((((0x8001u16 as u32) << 16) | 1u32) as i32 & 0xff) as u64) == 1u64) by (bit_vector);
    assert((((((0x8001u16 as u32) << 16) | 2u32) as i32 & 0xff) as u64) == 2u64) by (bit_vector);
    assert((((((0x8001u16 as u32) << 16) | 3u32) as i32 & 0xff) as u64) == 3u64) by (bit_vector);
    assert((((((0x8001u16 as u32) << 16) | 4u32) as i32 & 0xff) as u64) == 4u64) by (bit_vector);
}

/// A message header is read back where the name has fewer than 2^31 bytes.
pub proof fn lemma_parse_message_begin(name: Seq<char>, ty: MessageType, seq: i32, rest: Seq<u8>)
    requires
        encode_utf8(name).len() <= i32::MAX,
    ensures
        parse_message_begin(message_begin_wire(name, ty, seq) + rest) == Ok::<
            ((Seq<char>, MessageType, i32), Seq<u8>),
            Fault,
        >(((name, ty, seq), rest)),
{
    let tail2 = be_i32(seq) + rest;
    let tail1 = string_wire(name) + tail2;
    let input = message_begin_wire(name, ty, seq) + rest;
    assert(input == be_i32(message_word(ty)) + tail1) by {
        assert(input =~= be_i32(message_word(ty)) + tail1);
    }
    assert(parse_i32(input) == Ok::<(i32, Seq<u8>), Fault>((message_word(ty), tail1))) by {
        lemma_parse_i32(message_word(ty), tail1);
    }
    assert(parse_string(tail1) == Ok::<(Seq<char>, Seq<u8>), Fault>((name, tail2))) by {
        lemma_parse_string(name, tail2);
    }
    assert(parse_i32(tail2) == Ok::<(i32, Seq<u8>), Fault>((seq, rest))) by {
        lemma_parse_i32(seq, rest);
    }
    lemma_message_word(ty);
}

} // verus!
