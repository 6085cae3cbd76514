//! Helpers shared by callers and processors: reading an enumeration, and
//! sending and receiving one message.

use crate::protocol::format::{
    message_begin_wire, parse_i32, parse_message_begin, reports, skip_value, Fault, Parsed,
};
use crate::protocol::{wrote, Decode, Encode, FromNum, MessageType, Protocol, Type};
use crate::service::{check_reply, reply_fault};
use crate::Error;
use vstd::prelude::*;

verus! {

/// Whether a call brought a result or ended in an exception. `receive`
/// answers `Success` or fails: an exception message is an error of the
/// call.
#[derive(Copy, Clone, Debug, PartialEq, Eq, Structural, PartialOrd, Ord)]
pub enum AppResult {
    Success,
    Exception,
}

/// Whether two strings hold the same text.
pub fn same_text(a: &str, b: &str) -> (r: bool)
    ensures
        r == (a@ == b@),
{
    a.to_owned() == b.to_owned()
}

/// The enumeration value at the front of `input`: an `i32` that the type
/// declares. A number that it does not declare is a violation.
pub open spec fn parse_enum<F: FromNum>(input: Seq<u8>) -> Parsed<F> {
    match parse_i32(input) {
        Err(f) => Err(f),
        Ok((num, rest)) => match F::spec_from_num(num) {
            Some(v) => Ok((v, rest)),
            None => Err(Fault::ProtocolViolation),
        },
    }
}

/// Reads an enumeration value. A number outside the declared set is
/// rejected as a protocol violation; its four bytes are read all the same.
/// Where fewer than four bytes are left, nothing is read.
pub fn read_enum<F: FromNum, P: Protocol>(iprot: &mut P) -> (r: Result<F, Error>)
    ensures
        crate::protocol::read(
            old(iprot).stream(),
            final(iprot).stream(),
            r,
            parse_enum::<F>(old(iprot).stream().unread),
        ),
        match parse_i32(old(iprot).stream().unread) {
            Err(_) => final(iprot).stream() == old(iprot).stream(),
            Ok((_, rest)) => final(iprot).stream().unread == rest,
        },
{
    let i = iprot.read_i32()?;
    match F::from_num(i) {
        Some(v) => Ok(v),
        None => Err(Error::ProtocolError(crate::protocol::Error::ProtocolViolation)),
    }
}

/// Sends one message: the header with the given name, kind and sequence
/// id, then `args`. An answer is sent with the sequence id of its call.
pub fn send<W: Encode, P: Protocol>(
    protocol: &mut P,
    name: &str,
    type_: MessageType,
    seq: i32,
    args: &W,
) -> (r: Result<(), Error>)
    ensures
        wrote(
            old(protocol).stream(),
            final(protocol).stream(),
            r,
            message_begin_wire(name@, type_, seq) + args.wire(),
        ),
{
    protocol.write_message_begin(name, type_, seq)?;
    args.encode(protocol)?;
    protocol.write_message_end()?;
    let r = protocol.flush();
    proof {
        assert(protocol.stream().written =~= old(protocol).stream().written + (message_begin_wire(
            name@,
            type_,
            seq,
        ) + args.wire()));
    }
    r
}

/// What the caller of `(op, seq)` makes of a message with the header
/// `(name, ty, id)`, as a relation between the state before and after.
///
/// An `Exception` message fails the call with a user exception, and
/// nothing is read. A message of another kind than `Reply`, or a reply to
/// another operation or with another sequence id, fails the call with a
/// protocol violation; its body is stepped over where that can be done, so
/// that the stream stays in step. The body of the reply to the call is
/// decoded into `result`.
pub open spec fn received<R: Decode>(
    unread: Seq<u8>,
    before: R,
    op: Seq<char>,
    seq: i32,
    name: Seq<char>,
    ty: MessageType,
    id: i32,
    r: Result<AppResult, Error>,
    after: R,
    left: Seq<u8>,
) -> bool {
    match reply_fault(op, seq, name, ty, id) {
        Some(Fault::UserException) => {
            &&& r matches Err(e)
            &&& reports(e, Fault::UserException)
            &&& after == before
            &&& left == unread
        },
        Some(f) => {
            &&& r matches Err(e)
            &&& reports(e, f)
            &&& after == before
            &&& skip_value(Type::Struct, unread) matches Ok(rest) ==> left == rest
        },
        None => match R::parse(unread) {
            Ok((m, rest)) => {
                &&& r == Ok::<AppResult, Error>(AppResult::Success)
                &&& after.deep_view() == m
                &&& left == rest
            },
            Err(f) => after == before && (r matches Err(e) && reports(e, f)),
        },
    }
}

/// Receives the answer to the call `(op, seq)`: reads the header of a
/// message, then its body as `receive_body` does.
pub fn receive<R: Decode, P: Protocol>(protocol: &mut P, op: &str, seq: i32, result: &mut R) -> (r:
    Result<AppResult, Error>)
    ensures
        final(protocol).stream().written == old(protocol).stream().written,
        match parse_message_begin(old(protocol).stream().unread) {
            Err(f) => *final(result) == *old(result) && (r matches Err(e) && reports(e, f)),
            Ok(((name, ty, id), rest)) => received(
                rest,
                *old(result),
                op@,
                seq,
                name,
                ty,
                id,
                r,
                *final(result),
                final(protocol).stream().unread,
            ),
        },
{
    let (name, ty, id) = protocol.read_message_begin()?;
    receive_body(protocol, op, seq, result, name.as_str(), ty, id)
}

/// Receives the body of a message whose header `(name, ty, id)` was read,
/// as the answer to the call `(op, seq)`.
pub fn receive_body<R: Decode, P: Protocol>(
    protocol: &mut P,
    op: &str,
    seq: i32,
    result: &mut R,
    name: &str,
    ty: MessageType,
    id: i32,
) -> (r: Result<AppResult, Error>)
    ensures
        final(protocol).stream().written == old(protocol).stream().written,
        received(
            old(protocol).stream().unread,
            *old(result),
            op@,
            seq,
            name@,
            ty,
            id,
            r,
            *final(result),
            final(protocol).stream().unread,
        ),
{
    match check_reply(op, seq, name, ty, id) {
        Ok(()) => {
            *result = R::decode(protocol)?;
            protocol.read_message_end()?;
            Ok(AppResult::Success)
        },
        Err(e) => {
            match ty {
                MessageType::Exception => {},
                _ => {
                    let _ = protocol.skip(Type::Struct);
                },
            }
            Err(e)
        },
    }
}

/// An out-of-range number is never read as a value of the enumeration:
/// reading it fails with a protocol violation.
pub proof fn lemma_enum_range_rejection<F: FromNum>(num: i32, rest: Seq<u8>)
    requires
        F::spec_from_num(num) is None,
    ensures
        parse_enum::<F>(crate::endian::be_i32(num) + rest) == Err::<(F, Seq<u8>), Fault>(
            Fault::ProtocolViolation,
        ),
{
    crate::protocol::format::lemma_parse_i32(num, rest);
}

} // verus!
