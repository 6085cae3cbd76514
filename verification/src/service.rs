//! The call protocol between a caller and a service processor.
//!
//! A call is a `Call` or `Oneway` message that carries the arguments as a
//! struct. The answer to a `Call` is a `Reply` message with the same name
//! and sequence id. It carries the result struct: field 0 holds the value
//! on success, and each declared exception has a field of its own with a
//! positive id.

use crate::protocol::format::{
    field_begin_wire, field_stop_wire, lemma_parse_field_begin, lemma_skip_value_shortens,
    message_begin_wire, parse_field_begin, parse_message_begin, reports, skip_value, Fault,
    Parsed,
};
use crate::protocol::helpers::same_text;
use crate::protocol::{wrote, Codec, Decode, Encode, MessageType, Protocol, Type};
use crate::{Client, Error};
use vstd::prelude::*;

verus! {

/// The exceptions that a method declares, as one type: one variant for
/// each, and one more that stands for an exception that is not declared.
pub trait Exceptions: DeepView + Sized {
    /// Whether an exception is declared with this field id and wire type.
    spec fn declares(ty: Type, id: i16) -> bool;

    /// The variant that stands for an exception that is not declared.
    spec fn unknown() -> <Self as DeepView>::V;

    /// The exception of the declared field `(ty, id)` whose value stands
    /// at the front of `input`.
    spec fn parse_exception(ty: Type, id: i16, input: Seq<u8>) -> Parsed<<Self as DeepView>::V>;

    /// Whether this is one of the declared exceptions.
    spec fn is_declared(&self) -> bool;

    /// The field that carries this exception: its wire type and id.
    spec fn tag(&self) -> (Type, i16);

    /// The bytes of this exception's value.
    spec fn body_wire(&self) -> Seq<u8>;

    /// Whether the encoding holds the whole value.
    spec fn faithful(&self) -> bool;

    /// Declared exceptions have positive field ids: 0 is the success
    /// field.
    proof fn ids_are_positive(ty: Type, id: i16)
        ensures
            Self::declares(ty, id) ==> id > 0 && ty != Type::Stop,
    ;

    /// What is left behind an exception is no longer than what was there.
    proof fn parse_exception_shortens(ty: Type, id: i16, input: Seq<u8>)
        ensures
            Self::parse_exception(ty, id, input) matches Ok((_, rest)) ==> rest.len()
                <= input.len(),
    ;

    /// A declared exception travels in a declared field and reads back as
    /// itself.
    proof fn round_trip(&self, rest: Seq<u8>)
        ensures
            self.is_declared() && self.faithful() ==> {
                &&& Self::declares(self.tag().0, self.tag().1)
                &&& Self::parse_exception(self.tag().0, self.tag().1, self.body_wire() + rest)
                    == Ok::<(<Self as DeepView>::V, Seq<u8>), Fault>((self.deep_view(), rest))
            },
    ;

    fn new_unknown() -> (r: Self)
        ensures
            r.deep_view() == Self::unknown(),
    ;

    fn declared(&self) -> (b: bool)
        ensures
            b == self.is_declared(),
    ;

    /// Reads the exception of the field `(ty, id)` where it is declared.
    /// Where it is not, nothing is read and `None` is returned.
    fn read_exception<P: Protocol>(ty: Type, id: i16, protocol: &mut P) -> (r: Result<
        Option<Self>,
        Error,
    >)
        ensures
            final(protocol).stream().written == old(protocol).stream().written,
            !Self::declares(ty, id) ==> (r matches Ok(None)) && final(protocol).stream() == old(
                protocol,
            ).stream(),
            Self::declares(ty, id) ==> match Self::parse_exception(
                ty,
                id,
                old(protocol).stream().unread,
            ) {
                Ok((m, rest)) => {
                    &&& r matches Ok(Some(v))
                    &&& v.deep_view() == m
                    &&& final(protocol).stream().unread == rest
                },
                Err(f) => r matches Err(e) && reports(e, f),
            },
    ;

    /// Writes a declared exception as its field: header, then value.
    /// There is no field for an exception that is not declared.
    fn write_exception<P: Protocol>(&self, protocol: &mut P) -> (r: Result<(), Error>)
        ensures
            wrote(
                old(protocol).stream(),
                final(protocol).stream(),
                r,
                if self.is_declared() {
                    field_begin_wire(self.tag().0, self.tag().1) + self.body_wire()
                } else {
                    Seq::empty()
                },
            ),
    ;
}

/// The exceptions of a method that declares none.
#[derive(Debug, Clone, Copy, PartialEq, Eq, Structural)]
pub struct Undeclared;

impl DeepView for Undeclared {
    type V = ();

    open spec fn deep_view(&self) -> () {
        ()
    }
}

impl Exceptions for Undeclared {
    open spec fn declares(ty: Type, id: i16) -> bool {
        false
    }

    open spec fn unknown() -> () {
        ()
    }

    open spec fn parse_exception(ty: Type, id: i16, input: Seq<u8>) -> Parsed<()> {
        Ok(((), input))
    }

    open spec fn is_declared(&self) -> bool {
        false
    }

    open spec fn tag(&self) -> (Type, i16) {
        (Type::Void, 1)
    }

    open spec fn body_wire(&self) -> Seq<u8> {
        Seq::empty()
    }

    open spec fn faithful(&self) -> bool {
        true
    }

    proof fn ids_are_positive(ty: Type, id: i16) {
    }

    proof fn parse_exception_shortens(ty: Type, id: i16, input: Seq<u8>) {
    }

    proof fn round_trip(&self, rest: Seq<u8>) {
    }

    fn new_unknown() -> (r: Self) {
        Undeclared
    }

    fn declared(&self) -> (b: bool) {
        false
    }

    fn read_exception<P: Protocol>(ty: Type, id: i16, protocol: &mut P) -> (r: Result<
        Option<Self>,
        Error,
    >) {
        Ok(None)
    }

    fn write_exception<P: Protocol>(&self, protocol: &mut P) -> (r: Result<(), Error>) {
        proof {
            assert(protocol.stream().written + Seq::<u8>::empty() =~= protocol.stream().written);
        }
        Ok(())
    }
}

/// The model of an outcome: the model of the value, or of the exception.
pub open spec fn outcome_model<R: DeepView, E: DeepView>(outcome: Result<R, E>) -> Result<
    R::V,
    E::V,
> {
    match outcome {
        Ok(v) => Ok(v.deep_view()),
        Err(e) => Err(e.deep_view()),
    }
}

// ---- the caller's side ----

/// Why a caller who sent the call `(name, seq)` turns down a message with
/// the header `(got_name, got_ty, got_seq)`, if it does.
///
/// An `Exception` message is a user exception without detail. Any other
/// kind but `Reply` is a violation, and so is a reply that bears another
/// method name or another sequence id.
pub open spec fn reply_fault(
    name: Seq<char>,
    seq: i32,
    got_name: Seq<char>,
    got_ty: MessageType,
    got_seq: i32,
) -> Option<Fault> {
    if got_ty == MessageType::Exception {
        Some(Fault::UserException)
    } else if got_ty != MessageType::Reply {
        Some(Fault::ProtocolViolation)
    } else if got_name != name || got_seq != seq {
        Some(Fault::ProtocolViolation)
    } else {
        None
    }
}

/// Decides whether a message header answers the call `(name, seq)`.
pub fn check_reply(name: &str, seq: i32, got_name: &str, got_ty: MessageType, got_seq: i32) -> (r:
    Result<(), Error>)
    ensures
        match reply_fault(name@, seq, got_name@, got_ty, got_seq) {
            None => r is Ok,
            Some(f) => r matches Err(e) && reports(e, f),
        },
{
    match got_ty {
        MessageType::Reply => {},
        MessageType::Exception => {
            return Err(Error::ProtocolError(crate::protocol::Error::UserException));
        },
        _ => {
            return Err(Error::ProtocolError(crate::protocol::Error::ProtocolViolation));
        },
    }
    if !same_text(got_name, name) || seq != got_seq {
        return Err(Error::ProtocolError(crate::protocol::Error::ProtocolViolation));
    }
    Ok(())
}

/// The outcome `current` after the fields of a result struct at the front
/// of `input` were read, up to the stop marker.
///
/// Field 0 with the wire type of `R` is the value. A field that `E`
/// declares is that exception. Any other field is skipped and leaves the
/// unknown exception. Of several fields the last one decides.
///
/// The tests on lengths only make the recursion well founded.
pub open spec fn parse_result<R: Decode, E: Exceptions>(
    current: Result<R::V, E::V>,
    input: Seq<u8>,
) -> Parsed<Result<R::V, E::V>>
    decreases input.len(),
{
    match parse_field_begin(input) {
        Err(f) => Err(f),
        Ok(((ty, id), rest)) => if ty == Type::Stop {
            Ok((current, rest))
        } else if id == 0 && ty == R::wire_type() {
            match R::parse(rest) {
                Err(f) => Err(f),
                Ok((m, rest2)) => if rest2.len() < input.len() {
                    parse_result::<R, E>(Ok(m), rest2)
                } else {
                    Err(Fault::Truncated)
                },
            }
        } else if E::declares(ty, id) {
            match E::parse_exception(ty, id, rest) {
                Err(f) => Err(f),
                Ok((m, rest2)) => if rest2.len() < input.len() {
                    parse_result::<R, E>(Err(m), rest2)
                } else {
                    Err(Fault::Truncated)
                },
            }
        } else {
            match skip_value(ty, rest) {
                Err(f) => Err(f),
                Ok(rest2) => if rest2.len() < input.len() {
                    parse_result::<R, E>(Err(E::unknown()), rest2)
                } else {
                    Err(Fault::Truncated)
                },
            }
        },
    }
}

/// Reads a result struct. Where no field says otherwise, the outcome is
/// the value `initial`.
pub fn read_result<R: Decode, E: Exceptions, P: Protocol>(client: &mut Client<P>, initial: R) -> (r:
    Result<Result<R, E>, Error>)
    ensures
        final(client).sequence() == old(client).sequence(),
        final(client).stream().written == old(client).stream().written,
        match parse_result::<R, E>(Ok(initial.deep_view()), old(client).stream().unread) {
            Ok((outcome, rest)) => {
                &&& r matches Ok(got)
                &&& outcome_model(got) == outcome
                &&& final(client).stream().unread == rest
            },
            Err(f) => r matches Err(e) && reports(e, f),
        },
{
    let ghost start = client.stream().unread;
    let ghost first: Result<R::V, E::V> = Ok(initial.deep_view());
    let mut ret: Result<R, E> = Ok(initial);
    client.read_struct_begin()?;
    loop
        invariant_except_break
            parse_result::<R, E>(first, start) == parse_result::<R, E>(
                outcome_model(ret),
                client.stream().unread,
            ),
        invariant
            start == old(client).stream().unread,
            client.sequence() == old(client).sequence(),
            client.stream().written == old(client).stream().written,
        ensures
            parse_result::<R, E>(first, start) == Ok::<(Result<R::V, E::V>, Seq<u8>), Fault>(
                (outcome_model(ret), client.stream().unread),
            ),
        decreases client.stream().unread.len(),
    {
        let (_, typ, id) = client.read_field_begin()?;
        if typ == Type::Stop {
            break ;
        }
        proof {
            let body = client.stream().unread;
            R::parse_shortens(body);
            E::parse_exception_shortens(typ, id, body);
            lemma_skip_value_shortens(typ, body);
        }
        if id == 0 && typ == R::typ() {
            let v: R = client.decode()?;
            ret = Ok(v);
        } else {
            match client.read_declared::<E>(typ, id)? {
                Some(e) => {
                    ret = Err(e);
                },
                None => {
                    ret = Err(E::new_unknown());
                    client.skip(typ)?;
                },
            }
        }
        client.read_field_end()?;
    }
    client.read_struct_end()?;
    Ok(ret)
}

/// What the caller of `name` with the sequence id `seq` makes of the
/// bytes of an answer: the header must answer the call, and the result
/// struct behind it gives the outcome.
pub open spec fn parse_reply<R: Decode, E: Exceptions>(
    name: Seq<char>,
    seq: i32,
    initial: R::V,
    input: Seq<u8>,
) -> Parsed<Result<R::V, E::V>> {
    match parse_message_begin(input) {
        Err(f) => Err(f),
        Ok(((got_name, got_ty, got_seq), rest)) => match reply_fault(
            name,
            seq,
            got_name,
            got_ty,
            got_seq,
        ) {
            Some(f) => Err(f),
            None => parse_result::<R, E>(Ok(initial), rest),
        },
    }
}

/// Reads the answer to the call `(name, seq)`.
pub fn read_reply<R: Decode, E: Exceptions, P: Protocol>(
    client: &mut Client<P>,
    name: &str,
    seq: i32,
    initial: R,
) -> (r: Result<Result<R, E>, Error>)
    ensures
        final(client).sequence() == old(client).sequence(),
        final(client).stream().written == old(client).stream().written,
        match parse_reply::<R, E>(name@, seq, initial.deep_view(), old(client).stream().unread) {
            Ok((outcome, rest)) => {
                &&& r matches Ok(got)
                &&& outcome_model(got) == outcome
                &&& final(client).stream().unread == rest
            },
            Err(f) => r matches Err(e) && reports(e, f),
        },
{
    let (got_name, got_ty, got_seq) = client.read_message_begin()?;
    check_reply(name, seq, got_name.as_str(), got_ty, got_seq)?;
    read_result(client, initial)
}

/// Calls a method and waits for its outcome: sends the call, then reads
/// the answer to it.
pub fn call<A: Encode, R: Decode, E: Exceptions, P: Protocol>(
    client: &mut Client<P>,
    name: &str,
    args: &A,
    initial: R,
) -> (r: Result<Result<R, E>, Error>)
    requires
        old(client).sequence() < i32::MAX,
    ensures
        final(client).sequence() == old(client).sequence() + 1,
        final(client).stream().written == old(client).stream().written + message_begin_wire(
            name@,
            MessageType::Call,
            (old(client).sequence() + 1) as i32,
        ) + args.wire(),
        match parse_reply::<R, E>(
            name@,
            (old(client).sequence() + 1) as i32,
            initial.deep_view(),
            old(client).stream().unread,
        ) {
            Ok((outcome, rest)) => {
                &&& r matches Ok(got)
                &&& outcome_model(got) == outcome
                &&& final(client).stream().unread == rest
            },
            Err(f) => r matches Err(e) && reports(e, f),
        },
{
    let seq = client.sendcall(false, name, args)?;
    read_reply(client, name, seq, initial)
}

/// Calls a method that declares no exception: any exception that comes
/// back is a user exception without detail.
pub fn call_plain<A: Encode, R: Decode, P: Protocol>(
    client: &mut Client<P>,
    name: &str,
    args: &A,
    initial: R,
) -> (r: Result<R, Error>)
    requires
        old(client).sequence() < i32::MAX,
    ensures
        final(client).sequence() == old(client).sequence() + 1,
        final(client).stream().written == old(client).stream().written + message_begin_wire(
            name@,
            MessageType::Call,
            (old(client).sequence() + 1) as i32,
        ) + args.wire(),
        match parse_reply::<R, Undeclared>(
            name@,
            (old(client).sequence() + 1) as i32,
            initial.deep_view(),
            old(client).stream().unread,
        ) {
            Ok((Ok(m), rest)) => {
                &&& r matches Ok(got)
                &&& got.deep_view() == m
                &&& final(client).stream().unread == rest
            },
            Ok((Err(_), rest)) => {
                &&& r matches Err(e)
                &&& reports(e, Fault::UserException)
                &&& final(client).stream().unread == rest
            },
            Err(f) => r matches Err(e) && reports(e, f),
        },
{
    match call::<A, R, Undeclared, P>(client, name, args, initial)? {
        Ok(res) => Ok(res),
        Err(_) => Err(Error::ProtocolError(crate::protocol::Error::UserException)),
    }
}

/// Calls a oneway method: sends the call and returns. No answer is
/// waited for, and nothing is read.
pub fn call_oneway<A: Encode, P: Protocol>(client: &mut Client<P>, name: &str, args: &A) -> (r:
    Result<(), Error>)
    requires
        old(client).sequence() < i32::MAX,
    ensures
        r is Ok,
        final(client).sequence() == old(client).sequence() + 1,
        final(client).stream().unread == old(client).stream().unread,
        final(client).stream().written == old(client).stream().written + message_begin_wire(
            name@,
            MessageType::Oneway,
            (old(client).sequence() + 1) as i32,
        ) + args.wire(),
{
    client.sendcall(true, name, args)?;
    Ok(())
}

// ---- the processor's side ----

/// The result struct of a success: the value in field 0, then the stop
/// marker.
pub open spec fn success_wire<R: Encode>(value: &R) -> Seq<u8> {
    field_begin_wire(R::wire_type(), 0) + value.wire() + field_stop_wire()
}

/// The result struct of a declared exception: the exception in its field,
/// then the stop marker.
pub open spec fn exception_wire<E: Exceptions>(exception: &E) -> Seq<u8> {
    field_wire(exception) + field_stop_wire()
}

/// The field of an exception: header, then value. There is no field for
/// an exception that is not declared.
pub open spec fn field_wire<E: Exceptions>(exception: &E) -> Seq<u8> {
    if exception.is_declared() {
        field_begin_wire(exception.tag().0, exception.tag().1) + exception.body_wire()
    } else {
        Seq::empty()
    }
}

/// The result struct of an outcome.
pub open spec fn outcome_wire<R: Encode, E: Exceptions>(outcome: &Result<R, E>) -> Seq<u8> {
    match outcome {
        Ok(v) => success_wire(v),
        Err(e) => exception_wire(e),
    }
}

/// Answers the call `(name, seq)` with an outcome: a `Reply` message with
/// the same name and sequence id, then the result struct.
///
/// The exception of a failed outcome must be a declared one: a method
/// cannot answer with an exception that it does not declare.
pub fn reply<R: Encode, E: Exceptions, P: Protocol>(
    protocol: &mut P,
    name: &str,
    seq: i32,
    outcome: &Result<R, E>,
) -> (r: Result<(), Error>)
    requires
        outcome matches Err(e) ==> e.is_declared(),
    ensures
        wrote(
            old(protocol).stream(),
            final(protocol).stream(),
            r,
            message_begin_wire(name@, MessageType::Reply, seq) + outcome_wire(outcome),
        ),
{
    protocol.write_message_begin(name, MessageType::Reply, seq)?;
    protocol.write_struct_begin(name)?;
    match outcome {
        Ok(v) => {
            protocol.write_field_begin("success", R::typ(), 0)?;
            v.encode(protocol)?;
            protocol.write_field_end()?;
        },
        Err(e) => {
            e.write_exception(protocol)?;
        },
    }
    protocol.write_field_stop()?;
    protocol.write_struct_end()?;
    protocol.write_message_end()?;
    let r = protocol.flush();
    proof {
        assert(protocol.stream().written =~= old(protocol).stream().written + (message_begin_wire(
            name@,
            MessageType::Reply,
            seq,
        ) + outcome_wire(outcome)));
    }
    r
}

/// Answers the call `(name, seq)` with a bare `Exception` message, which
/// has no body.
pub fn reply_exception_message<P: Protocol>(protocol: &mut P, name: &str, seq: i32) -> (r: Result<
    (),
    Error,
>)
    ensures
        wrote(
            old(protocol).stream(),
            final(protocol).stream(),
            r,
            message_begin_wire(name@, MessageType::Exception, seq),
        ),
{
    protocol.write_message_begin(name, MessageType::Exception, seq)?;
    protocol.write_message_end()?;
    protocol.flush()
}

/// Processes a call: reads the arguments, lets `logic` work on them, and
/// answers with the outcome under the name and sequence id of the call.
///
/// An exception that `logic` hands back must be a declared one.
pub fn handle_call<A: Decode, R: Encode, E: Exceptions, P: Protocol, F: FnOnce(A) -> Result<R, E>>(
    protocol: &mut P,
    name: &str,
    seq: i32,
    logic: F,
) -> (r: Result<(), Error>)
    requires
        forall|a: A| call_requires(logic, (a,)),
        forall|a: A, out: Result<R, E>| #[trigger]
            call_ensures(logic, (a,), out) ==> (out matches Err(e) ==> e.is_declared()),
    ensures
        match A::parse(old(protocol).stream().unread) {
            Err(f) => {
                &&& r matches Err(e)
                &&& reports(e, f)
                &&& final(protocol).stream().written == old(protocol).stream().written
            },
            Ok((am, rest)) => {
                &&& r is Ok
                &&& final(protocol).stream().unread == rest
                &&& exists|a: A, out: Result<R, E>|
                    {
                        &&& a.deep_view() == am
                        &&& #[trigger] call_ensures(logic, (a,), out)
                        &&& final(protocol).stream().written == old(protocol).stream().written
                            + message_begin_wire(name@, MessageType::Reply, seq) + outcome_wire(
                            &out,
                        )
                    }
            },
        },
{
    let args = A::decode(protocol)?;
    let ghost a = args;
    let outcome = logic(args);
    let r = reply(protocol, name, seq, &outcome);
    proof {
        assert(call_ensures(logic, (a,), outcome));
        assert(protocol.stream().written =~= old(protocol).stream().written + message_begin_wire(
            name@,
            MessageType::Reply,
            seq,
        ) + outcome_wire(&outcome));
    }
    r
}

/// Processes a oneway call: reads the arguments and lets `logic` work on
/// them. Nothing is answered, whatever `logic` hands back.
pub fn handle_oneway<A: Decode, T, P: Protocol, F: FnOnce(A) -> T>(
    protocol: &mut P,
    logic: F,
) -> (r: Result<(), Error>)
    requires
        forall|a: A| call_requires(logic, (a,)),
    ensures
        final(protocol).stream().written == old(protocol).stream().written,
        match A::parse(old(protocol).stream().unread) {
            Err(f) => r matches Err(e) && reports(e, f),
            Ok((am, rest)) => {
                &&& r is Ok
                &&& final(protocol).stream().unread == rest
                &&& exists|a: A, out: T|
                    a.deep_view() == am && #[trigger] call_ensures(logic, (a,), out)
            },
        },
{
    let args = A::decode(protocol)?;
    let ghost a = args;
    let out = logic(args);
    proof {
        assert(call_ensures(logic, (a,), out));
    }
    Ok(())
}

// ---- what was answered is what the caller gets ----

/// The caller gets the value that the processor answered with.
pub proof fn lemma_success_round_trip<R: Codec, E: Exceptions>(
    value: &R,
    initial: Result<R::V, E::V>,
    rest: Seq<u8>,
)
    requires
        value.faithful(),
        R::wire_type() != Type::Stop,
    ensures
        parse_result::<R, E>(initial, success_wire(value) + rest) == Ok::<
            (Result<R::V, E::V>, Seq<u8>),
            Fault,
        >((Ok(value.deep_view()), rest)),
{
    let stop = field_stop_wire() + rest;
    let body = value.wire() + stop;
    let input = success_wire(value) + rest;
    assert(input == field_begin_wire(R::wire_type(), 0) + body) by {
        assert(input =~= field_begin_wire(R::wire_type(), 0) + body);
    }
    lemma_parse_field_begin(R::wire_type(), 0, body);
    value.round_trip(stop);
    lemma_parse_field_begin(Type::Stop, 0, rest);
    assert(input.len() == 3 + body.len());
    assert(stop.len() <= body.len());
    let got: Result<R::V, E::V> = Ok(value.deep_view());
    assert(parse_result::<R, E>(got, stop) == Ok::<(Result<R::V, E::V>, Seq<u8>), Fault>(
        (got, rest),
    ));
}

/// The caller gets the declared exception that the processor answered
/// with, not a failure without detail.
pub proof fn lemma_exception_round_trip<R: Decode, E: Exceptions>(
    exception: &E,
    initial: Result<R::V, E::V>,
    rest: Seq<u8>,
)
    requires
        exception.is_declared(),
        exception.faithful(),
    ensures
        parse_result::<R, E>(initial, exception_wire(exception) + rest) == Ok::<
            (Result<R::V, E::V>, Seq<u8>),
            Fault,
        >((Err(exception.deep_view()), rest)),
{
    let (ty, id) = exception.tag();
    let stop = field_stop_wire() + rest;
    let body = exception.body_wire() + stop;
    let input = exception_wire(exception) + rest;
    assert(input == field_begin_wire(ty, id) + body) by {
        assert(input =~= field_begin_wire(ty, id) + body);
    }
    exception.round_trip(stop);
    E::ids_are_positive(ty, id);
    lemma_parse_field_begin(ty, id, body);
    lemma_parse_field_begin(Type::Stop, 0, rest);
    assert(input.len() == 3 + body.len());
    assert(stop.len() <= body.len());
    let got: Result<R::V, E::V> = Err(exception.deep_view());
    assert(parse_result::<R, E>(got, stop) == Ok::<(Result<R::V, E::V>, Seq<u8>), Fault>(
        (got, rest),
    ));
}

/// The caller of `(name, seq)` gets the outcome that the processor
/// answered that call with: the value, or the declared exception.
pub proof fn lemma_reply_round_trip<R: Codec, E: Exceptions>(
    name: Seq<char>,
    seq: i32,
    outcome: &Result<R, E>,
    initial: R::V,
    rest: Seq<u8>,
)
    requires
        vstd::utf8::encode_utf8(name).len() <= i32::MAX,
        R::wire_type() != Type::Stop,
        match outcome {
            Ok(v) => v.faithful(),
            Err(e) => e.is_declared() && e.faithful(),
        },
    ensures
        parse_reply::<R, E>(
            name,
            seq,
            initial,
            message_begin_wire(name, MessageType::Reply, seq) + outcome_wire(outcome) + rest,
        ) == Ok::<(Result<R::V, E::V>, Seq<u8>), Fault>((outcome_model(*outcome), rest)),
{
    let body = outcome_wire(outcome) + rest;
    let input = message_begin_wire(name, MessageType::Reply, seq) + outcome_wire(outcome) + rest;
    assert(input == message_begin_wire(name, MessageType::Reply, seq) + body) by {
        assert(input =~= message_begin_wire(name, MessageType::Reply, seq) + body);
    }
    crate::protocol::format::lemma_parse_message_begin(name, MessageType::Reply, seq, body);
    let first: Result<R::V, E::V> = Ok(initial);
    match outcome {
        Ok(v) => {
            lemma_success_round_trip::<R, E>(v, first, rest);
        },
        Err(e) => {
            lemma_exception_round_trip::<R, E>(e, first, rest);
        },
    }
}

/// Call correlation: a caller who sent the sequence id `seq` under the
/// name `name` turns down, as a protocol violation, every reply that
/// bears another name or another sequence id.
pub proof fn lemma_call_correlation(
    name: Seq<char>,
    seq: i32,
    got_name: Seq<char>,
    got_seq: i32,
)
    requires
        got_name != name || got_seq != seq,
    ensures
        reply_fault(name, seq, got_name, MessageType::Reply, got_seq) == Some(
            Fault::ProtocolViolation,
        ),
{
}

} // verus!
