//! Structs and unions on the wire: a run of fields, each behind a header
//! with its type and id, closed by a stop marker.
//!
//! A type says which fields it declares and how one field is read and
//! written; the walk over the fields is the same for all of them. A field
//! that the type does not declare, or declares with another wire type, is
//! skipped: this is what lets old readers meet new writers.

use crate::protocol::format::{
    field_begin_wire, field_stop_wire, lemma_parse_field_begin, lemma_skip_value_shortens,
    parse_field_begin, reports, rest_of, skip_fields, skip_value, Fault, Parsed,
};
use crate::protocol::{decoded, wrote, Codec, Encode, Protocol, Type};
use crate::Error;
use vstd::prelude::*;

verus! {

/// A type with the wire shape of a struct.
pub trait Record: DeepView + Sized {
    /// Whether the type declares a field with this id and this wire type.
    spec fn declares(ty: Type, id: i16) -> bool;

    /// The value that decoding starts from.
    spec fn blank() -> <Self as DeepView>::V;

    /// The value `m` after the declared field `(ty, id)`, whose value
    /// stands at the front of `input`, was read into it.
    spec fn parse_field(m: <Self as DeepView>::V, ty: Type, id: i16, input: Seq<u8>) -> Parsed<
        <Self as DeepView>::V,
    >;

    /// The fields that are written, each behind its header, without the
    /// stop marker.
    spec fn fields_wire(&self) -> Seq<u8>;

    /// What is left behind a field is no longer than what was there.
    proof fn parse_field_shortens(m: <Self as DeepView>::V, ty: Type, id: i16, input: Seq<u8>)
        ensures
            Self::parse_field(m, ty, id, input) matches Ok((_, rest)) ==> rest.len() <= input.len(),
    ;

    fn new_blank() -> (r: Self)
        ensures
            r.deep_view() == Self::blank(),
    ;

    /// Reads the value of the field `(ty, id)` into `self` where the type
    /// declares that field, and says whether it does. Where it does not,
    /// nothing is read and nothing changes.
    fn read_field<P: Protocol>(&mut self, ty: Type, id: i16, protocol: &mut P) -> (r: Result<
        bool,
        Error,
    >)
        ensures
            final(protocol).stream().written == old(protocol).stream().written,
            !Self::declares(ty, id) ==> {
                &&& r == Ok::<bool, Error>(false)
                &&& final(self).deep_view() == old(self).deep_view()
                &&& final(protocol).stream() == old(protocol).stream()
            },
            Self::declares(ty, id) ==> match Self::parse_field(
                old(self).deep_view(),
                ty,
                id,
                old(protocol).stream().unread,
            ) {
                Ok((m, rest)) => {
                    &&& r == Ok::<bool, Error>(true)
                    &&& final(self).deep_view() == m
                    &&& final(protocol).stream().unread == rest
                },
                Err(f) => r matches Err(e) && reports(e, f),
            },
    ;

    /// Writes the fields, each behind its header.
    fn write_fields<P: Protocol>(&self, protocol: &mut P) -> (r: Result<(), Error>)
        ensures
            wrote(old(protocol).stream(), final(protocol).stream(), r, self.fields_wire()),
    ;
}

/// A type with the wire shape of a union: reading a field replaces the
/// whole value, whatever it was.
pub trait Choice: Record {
    proof fn field_replaces(
        m1: <Self as DeepView>::V,
        m2: <Self as DeepView>::V,
        ty: Type,
        id: i16,
        input: Seq<u8>,
    )
        requires
            Self::declares(ty, id),
        ensures
            Self::parse_field(m1, ty, id, input) == Self::parse_field(m2, ty, id, input),
    ;
}

/// The bytes of a field that is always written: its header, then its
/// value.
pub open spec fn required_field_wire<X: Encode>(id: i16, value: &X) -> Seq<u8> {
    field_begin_wire(X::wire_type(), id) + value.wire()
}

/// The bytes of a field that is written where it is present.
pub open spec fn optional_field_wire<X: Encode>(id: i16, value: &Option<X>) -> Seq<u8> {
    match value {
        Some(x) => required_field_wire(id, x),
        None => Seq::empty(),
    }
}

/// Writes a field: its header, then its value.
pub fn write_required_field<X: Encode, P: Protocol>(
    protocol: &mut P,
    name: &str,
    id: i16,
    value: &X,
) -> (r: Result<(), Error>)
    ensures
        wrote(old(protocol).stream(), final(protocol).stream(), r, required_field_wire(id, value)),
{
    protocol.write_field_begin(name, X::typ(), id)?;
    value.encode(protocol)?;
    let r = protocol.write_field_end();
    proof {
        assert(protocol.stream().written =~= old(protocol).stream().written + required_field_wire(
            id,
            value,
        ));
    }
    r
}

/// Writes a field where it is present, and nothing where it is absent.
pub fn write_optional_field<X: Encode, P: Protocol>(
    protocol: &mut P,
    name: &str,
    id: i16,
    value: &Option<X>,
) -> (r: Result<(), Error>)
    ensures
        wrote(old(protocol).stream(), final(protocol).stream(), r, optional_field_wire(id, value)),
{
    match value {
        Some(x) => write_required_field(protocol, name, id, x),
        None => {
            proof {
                assert(protocol.stream().written =~= old(protocol).stream().written
                    + optional_field_wire(id, value));
            }
            Ok(())
        },
    }
}

/// The bytes of a struct: its fields, then the stop marker.
pub open spec fn struct_wire<S: Record>(value: &S) -> Seq<u8> {
    value.fields_wire() + field_stop_wire()
}

/// The value `m` after the fields at the front of `input`, up to the stop
/// marker, were read into it in order. A field that `S` does not declare
/// is skipped.
///
/// The tests on lengths only make the recursion well founded: what is left
/// behind a field is never longer than what was there.
pub open spec fn parse_fields<S: Record>(m: S::V, input: Seq<u8>) -> Parsed<S::V>
    decreases input.len(),
{
    match parse_field_begin(input) {
        Err(f) => Err(f),
        Ok(((ty, id), rest)) => if ty == Type::Stop {
            Ok((m, rest))
        } else if S::declares(ty, id) {
            match S::parse_field(m, ty, id, rest) {
                Err(f) => Err(f),
                Ok((m2, rest2)) => if rest2.len() < input.len() {
                    parse_fields::<S>(m2, rest2)
                } else {
                    Err(Fault::Truncated)
                },
            }
        } else {
            match skip_value(ty, rest) {
                Err(f) => Err(f),
                Ok(rest2) => if rest2.len() < input.len() {
                    parse_fields::<S>(m, rest2)
                } else {
                    Err(Fault::Truncated)
                },
            }
        },
    }
}

/// The struct at the front of `input`.
pub open spec fn parse_struct<S: Record>(input: Seq<u8>) -> Parsed<S::V> {
    parse_fields::<S>(S::blank(), input)
}

/// Writes a struct: its fields, then the stop marker.
pub fn encode_struct<S: Record, P: Protocol>(value: &S, name: &str, protocol: &mut P) -> (r: Result<
    (),
    Error,
>)
    ensures
        wrote(old(protocol).stream(), final(protocol).stream(), r, struct_wire(value)),
{
    protocol.write_struct_begin(name)?;
    value.write_fields(protocol)?;
    protocol.write_field_stop()?;
    let r = protocol.write_struct_end();
    proof {
        assert(protocol.stream().written =~= old(protocol).stream().written + struct_wire(value));
    }
    r
}

/// Reads a struct: starting from the blank value, each field up to the
/// stop marker is read into it where the type declares the field, and
/// skipped where it does not.
pub fn decode_struct<S: Record, P: Protocol>(protocol: &mut P) -> (r: Result<S, Error>)
    ensures
        decoded(
            old(protocol).stream(),
            final(protocol).stream(),
            r,
            parse_struct::<S>(old(protocol).stream().unread),
        ),
{
    let ghost start = protocol.stream().unread;
    protocol.read_struct_begin()?;
    let mut ret = S::new_blank();
    loop
        invariant_except_break
            parse_struct::<S>(start) == parse_fields::<S>(
                ret.deep_view(),
                protocol.stream().unread,
            ),
        invariant
            start == old(protocol).stream().unread,
            protocol.stream().written == old(protocol).stream().written,
        ensures
            parse_struct::<S>(start) == Ok::<(S::V, Seq<u8>), Fault>(
                (ret.deep_view(), protocol.stream().unread),
            ),
        decreases protocol.stream().unread.len(),
    {
        let ghost before = protocol.stream().unread;
        let ghost m = ret.deep_view();
        let (_, typ, id) = protocol.read_field_begin()?;
        if typ == Type::Stop {
            break ;
        }
        let ghost body = protocol.stream().unread;
        proof {
            S::parse_field_shortens(m, typ, id, body);
            lemma_skip_value_shortens(typ, body);
        }
        let known = ret.read_field(typ, id, protocol)?;
        if !known {
            protocol.skip(typ)?;
        }
        protocol.read_field_end()?;
    }
    protocol.read_struct_end()?;
    Ok(ret)
}

/// What is left behind a struct is no longer than what was there.
pub proof fn lemma_parse_fields_shortens<S: Record>(m: S::V, input: Seq<u8>)
    ensures
        parse_fields::<S>(m, input) matches Ok((_, rest)) ==> rest.len() <= input.len(),
    decreases input.len(),
{
    if let Ok(((ty, id), rest)) = parse_field_begin(input) {
        if ty != Type::Stop {
            if S::declares(ty, id) {
                if let Ok((m2, rest2)) = S::parse_field(m, ty, id, rest) {
                    if rest2.len() < input.len() {
                        lemma_parse_fields_shortens::<S>(m2, rest2);
                    }
                }
            } else {
                if let Ok(rest2) = skip_value(ty, rest) {
                    if rest2.len() < input.len() {
                        lemma_parse_fields_shortens::<S>(m, rest2);
                    }
                }
            }
        }
    }
}

/// The stop marker ends the fields: the value read so far is the value.
pub proof fn lemma_stop_ends_fields<S: Record>(m: S::V, rest: Seq<u8>)
    ensures
        parse_fields::<S>(m, field_stop_wire() + rest) == Ok::<(S::V, Seq<u8>), Fault>((m, rest)),
{
    lemma_parse_field_begin(Type::Stop, 0, rest);
}

/// A single declared field in front of the stop marker: the value read is
/// the starting value with that field read into it.
pub proof fn lemma_single_field<S: Record>(
    m0: S::V,
    ty: Type,
    id: i16,
    body: Seq<u8>,
    m: S::V,
    rest: Seq<u8>,
)
    requires
        ty != Type::Stop,
        S::declares(ty, id),
        S::parse_field(m0, ty, id, body + (field_stop_wire() + rest)) == Ok::<
            (S::V, Seq<u8>),
            Fault,
        >((m, field_stop_wire() + rest)),
    ensures
        parse_fields::<S>(m0, field_begin_wire(ty, id) + body + field_stop_wire() + rest) == Ok::<
            (S::V, Seq<u8>),
            Fault,
        >((m, rest)),
{
    let stop = field_stop_wire() + rest;
    let tail = body + stop;
    let input = field_begin_wire(ty, id) + body + field_stop_wire() + rest;
    assert(input == field_begin_wire(ty, id) + tail) by {
        assert(input =~= field_begin_wire(ty, id) + tail);
    }
    lemma_declared_field_first::<S>(m0, ty, id, tail);
    lemma_stop_ends_fields::<S>(m, rest);
}

/// A field that is written where it is present: where it is, it is read
/// into the value, and where it is not, the value stays as it is.
pub proof fn lemma_optional_field_first<S: Record, X: Encode>(
    m: S::V,
    id: i16,
    value: &Option<X>,
    after: S::V,
    tail: Seq<u8>,
)
    requires
        X::wire_type() != Type::Stop,
        S::declares(X::wire_type(), id),
        match value {
            Some(x) => S::parse_field(m, X::wire_type(), id, x.wire() + tail) == Ok::<
                (S::V, Seq<u8>),
                Fault,
            >((after, tail)),
            None => after == m,
        },
    ensures
        parse_fields::<S>(m, optional_field_wire(id, value) + tail) == parse_fields::<S>(
            after,
            tail,
        ),
{
    match value {
        None => {
            assert(optional_field_wire(id, value) + tail =~= tail);
        },
        Some(x) => {
            let body = x.wire() + tail;
            assert(optional_field_wire(id, value) + tail =~= field_begin_wire(X::wire_type(), id)
                + body);
            lemma_declared_field_first::<S>(m, X::wire_type(), id, body);
        },
    }
}

/// Skipping a struct's fields ends behind the stop marker.
pub proof fn lemma_skip_stop(rest: Seq<u8>)
    ensures
        skip_fields(field_stop_wire() + rest) == Ok::<Seq<u8>, Fault>(rest),
{
    lemma_parse_field_begin(Type::Stop, 0, rest);
}

/// Skipping a struct's fields steps over a written field.
pub proof fn lemma_skip_required_field<X: Codec>(id: i16, value: &X, tail: Seq<u8>)
    requires
        value.faithful(),
        X::wire_type() != Type::Stop,
    ensures
        skip_fields(required_field_wire(id, value) + tail) == skip_fields(tail),
{
    let body = value.wire() + tail;
    let input = required_field_wire(id, value) + tail;
    assert(input == field_begin_wire(X::wire_type(), id) + body) by {
        assert(input =~= field_begin_wire(X::wire_type(), id) + body);
    }
    lemma_parse_field_begin(X::wire_type(), id, body);
    value.skip_over(tail);
    assert(input.len() == 3 + body.len());
    assert(tail.len() <= body.len());
}

/// Skipping a struct's fields steps over a field that is written where
/// it is present.
pub proof fn lemma_skip_optional_field<X: Codec>(id: i16, value: &Option<X>, tail: Seq<u8>)
    requires
        value matches Some(x) ==> x.faithful(),
        X::wire_type() != Type::Stop,
    ensures
        skip_fields(optional_field_wire(id, value) + tail) == skip_fields(tail),
{
    match value {
        None => {
            assert(optional_field_wire(id, value) + tail =~= tail);
        },
        Some(x) => {
            lemma_skip_required_field(id, x, tail);
        },
    }
}

/// A field that a newer writer wrote and that the reader's type does not
/// declare makes no difference to the value read.
pub proof fn lemma_written_field_skipped<S: Record, X: Codec>(
    m: S::V,
    id: i16,
    value: &X,
    tail: Seq<u8>,
)
    requires
        value.faithful(),
        X::wire_type() != Type::Stop,
        !S::declares(X::wire_type(), id),
    ensures
        parse_fields::<S>(m, required_field_wire(id, value) + tail) == parse_fields::<S>(m, tail),
{
    value.skip_over(tail);
    lemma_undeclared_field_skipped::<S>(m, X::wire_type(), id, value.wire(), tail);
}

/// A struct without fields is the stop marker alone, one byte.
pub proof fn lemma_empty_struct_wire<S: Record>(value: &S)
    requires
        value.fields_wire().len() == 0,
    ensures
        struct_wire(value) == seq![0u8],
{
    assert(struct_wire(value) =~= seq![0u8]) by {
        assert(0int as i8 as u8 == 0u8) by (bit_vector);
    }
}

/// Reading the stop marker alone gives the blank value, for every type.
pub proof fn lemma_parse_no_fields<S: Record>(rest: Seq<u8>)
    ensures
        parse_struct::<S>(seq![0u8] + rest) == Ok::<(S::V, Seq<u8>), Fault>((S::blank(), rest)),
{
    lemma_parse_field_begin(Type::Stop, 0, rest);
    assert(field_begin_wire(Type::Stop, 0) =~= seq![0u8]) by {
        assert(0int as i8 as u8 == 0u8) by (bit_vector);
    }
}

/// Fields are read in the order in which they stand: a declared field at
/// the front is read into the value, and the rest goes on from there.
pub proof fn lemma_declared_field_first<S: Record>(m: S::V, ty: Type, id: i16, tail: Seq<u8>)
    requires
        ty != Type::Stop,
        S::declares(ty, id),
    ensures
        parse_fields::<S>(m, field_begin_wire(ty, id) + tail) == match S::parse_field(
            m,
            ty,
            id,
            tail,
        ) {
            Err(f) => Err(f),
            Ok((m2, rest)) => parse_fields::<S>(m2, rest),
        },
{
    lemma_parse_field_begin(ty, id, tail);
    S::parse_field_shortens(m, ty, id, tail);
    assert((field_begin_wire(ty, id) + tail).len() == 3 + tail.len());
}

/// A field that the type does not declare makes no difference: the value
/// read is the one that would be read without it.
pub proof fn lemma_undeclared_field_skipped<S: Record>(
    m: S::V,
    ty: Type,
    id: i16,
    body: Seq<u8>,
    tail: Seq<u8>,
)
    requires
        ty != Type::Stop,
        !S::declares(ty, id),
        skip_value(ty, body + tail) == Ok::<Seq<u8>, Fault>(tail),
    ensures
        parse_fields::<S>(m, field_begin_wire(ty, id) + body + tail) == parse_fields::<S>(m, tail),
{
    lemma_parse_field_begin(ty, id, body + tail);
    assert(field_begin_wire(ty, id) + body + tail =~= field_begin_wire(ty, id) + (body + tail));
    assert((field_begin_wire(ty, id) + (body + tail)).len() == 3 + body.len() + tail.len());
}

/// Whether `input` is `tail` behind a run of fields that `S` does not
/// declare.
pub open spec fn undeclared_run<S: Record>(input: Seq<u8>, tail: Seq<u8>) -> bool
    decreases input.len(),
{
    input == tail || match parse_field_begin(input) {
        Err(_) => false,
        Ok(((ty, id), rest)) => ty != Type::Stop && !S::declares(ty, id) && match skip_value(
            ty,
            rest,
        ) {
            Err(_) => false,
            Ok(rest2) => rest2.len() < input.len() && undeclared_run::<S>(rest2, tail),
        },
    }
}

/// Forward-compatible decoding: any number of fields that the type does
/// not declare, standing anywhere among the fields, make no difference to
/// the value read. Here they stand in front of `tail`, and reading goes on
/// from any value `m` read so far.
pub proof fn lemma_undeclared_fields_skipped<S: Record>(m: S::V, input: Seq<u8>, tail: Seq<u8>)
    requires
        undeclared_run::<S>(input, tail),
    ensures
        parse_fields::<S>(m, input) == parse_fields::<S>(m, tail),
    decreases input.len(),
{
    if input != tail {
        let rest = parse_field_begin(input)->Ok_0.1;
        let ty = parse_field_begin(input)->Ok_0.0.0;
        let rest2 = skip_value(ty, rest)->Ok_0;
        lemma_undeclared_fields_skipped::<S>(m, rest2, tail);
    }
}

/// Whether `thin` is `full` without the fields that `S` does not declare:
/// both hold the same declared fields, in the same order and read to the
/// same values from `m` on, and both end with the stop marker; `full` may
/// hold any number of other fields before, between and behind them. A
/// field with a declared id and another wire type is such another field.
/// Behind the stop marker of `full` stands `rest`, and behind that of
/// `thin` stands `thin_rest`.
///
/// The tests on lengths only make the recursion well founded.
pub open spec fn without_undeclared<S: Record>(
    m: S::V,
    full: Seq<u8>,
    rest: Seq<u8>,
    thin: Seq<u8>,
    thin_rest: Seq<u8>,
) -> bool
    decreases full.len(),
{
    match parse_field_begin(full) {
        Err(_) => false,
        Ok(((ty, id), body)) => if ty == Type::Stop {
            &&& body == rest
            &&& parse_field_begin(thin) matches Ok(((thin_ty, _), thin_body))
            &&& thin_ty == Type::Stop
            &&& thin_body == thin_rest
        } else if S::declares(ty, id) {
            match (S::parse_field(m, ty, id, body), parse_field_begin(thin)) {
                (Ok((m2, next)), Ok(((thin_ty, thin_id), thin_body))) => {
                    &&& thin_ty == ty
                    &&& thin_id == id
                    &&& S::parse_field(m, ty, id, thin_body) matches Ok((thin_m2, thin_next))
                    &&& thin_m2 == m2
                    &&& next.len() < full.len()
                    &&& without_undeclared::<S>(m2, next, rest, thin_next, thin_rest)
                },
                _ => false,
            }
        } else {
            match skip_value(ty, body) {
                Err(_) => false,
                Ok(next) => next.len() < full.len() && without_undeclared::<S>(
                    m,
                    next,
                    rest,
                    thin,
                    thin_rest,
                ),
            }
        },
    }
}

/// Forward-compatible decoding, in general: a struct with fields that the
/// type does not declare, any number of them and anywhere among the
/// others, is read without an error, up to and with its stop marker, and
/// to the value that is read where those fields are not there.
pub proof fn lemma_forward_compatible<S: Record>(
    m: S::V,
    full: Seq<u8>,
    rest: Seq<u8>,
    thin: Seq<u8>,
    thin_rest: Seq<u8>,
)
    requires
        without_undeclared::<S>(m, full, rest, thin, thin_rest),
    ensures
        parse_fields::<S>(m, full) matches Ok((v, left)) && left == rest && parse_fields::<S>(
            m,
            thin,
        ) == Ok::<(S::V, Seq<u8>), Fault>((v, thin_rest)),
    decreases full.len(),
{
    let ty = parse_field_begin(full)->Ok_0.0.0;
    let id = parse_field_begin(full)->Ok_0.0.1;
    let body = parse_field_begin(full)->Ok_0.1;
    if ty == Type::Stop {
    } else if S::declares(ty, id) {
        let m2 = S::parse_field(m, ty, id, body)->Ok_0.0;
        let next = S::parse_field(m, ty, id, body)->Ok_0.1;
        let thin_body = parse_field_begin(thin)->Ok_0.1;
        let thin_next = S::parse_field(m, ty, id, thin_body)->Ok_0.1;
        S::parse_field_shortens(m, ty, id, thin_body);
        assert(thin_body.len() < thin.len());
        lemma_forward_compatible::<S>(m2, next, rest, thin_next, thin_rest);
    } else {
        let next = skip_value(ty, body)->Ok_0;
        lemma_forward_compatible::<S>(m, next, rest, thin, thin_rest);
    }
}

/// The declared field that stands last among the fields at the front of
/// `input`: its wire type, its id, and the bytes from its value on. `None`
/// where none of the fields is declared, or where the fields break off.
///
/// The tests on lengths only make the recursion well founded.
pub open spec fn last_declared<U: Record>(input: Seq<u8>) -> Option<(Type, i16, Seq<u8>)>
    decreases input.len(),
{
    match parse_field_begin(input) {
        Err(_) => None,
        Ok(((ty, id), rest)) => if ty == Type::Stop {
            None
        } else {
            let behind = if U::declares(ty, id) {
                rest_of(U::parse_field(U::blank(), ty, id, rest))
            } else {
                skip_value(ty, rest)
            };
            match behind {
                Err(_) => None,
                Ok(rest2) => if rest2.len() < input.len() {
                    match last_declared::<U>(rest2) {
                        Some(later) => Some(later),
                        None => if U::declares(ty, id) {
                            Some((ty, id, rest))
                        } else {
                            None
                        },
                    }
                } else {
                    None
                },
            }
        },
    }
}

/// In a union the last field wins, in general: where a union is read
/// from fields of which one or more are declared, with any others before,
/// between and behind them, its value is that of the declared field that
/// stands last. Where none is declared, the value stays as it was.
pub proof fn lemma_last_declared_wins<U: Choice>(m: U::V, input: Seq<u8>)
    ensures
        parse_fields::<U>(m, input) matches Ok((v, _)) ==> match last_declared::<U>(input) {
            Some((ty, id, at)) => U::parse_field(U::blank(), ty, id, at) matches Ok((w, _)) && v
                == w,
            None => v == m,
        },
    decreases input.len(),
{
    if let Ok(((ty, id), rest)) = parse_field_begin(input) {
        if ty != Type::Stop {
            if U::declares(ty, id) {
                U::field_replaces(m, U::blank(), ty, id, rest);
                if let Ok((m2, rest2)) = U::parse_field(m, ty, id, rest) {
                    if rest2.len() < input.len() {
                        lemma_last_declared_wins::<U>(m2, rest2);
                    }
                }
            } else {
                if let Ok(rest2) = skip_value(ty, rest) {
                    if rest2.len() < input.len() {
                        lemma_last_declared_wins::<U>(m, rest2);
                    }
                }
            }
        }
    }
}

/// In a union the last field wins: a declared field in front of another
/// declared field makes no difference to the value read.
pub proof fn lemma_last_field_wins<U: Choice>(
    first_ty: Type,
    first_id: i16,
    first: Seq<u8>,
    ty: Type,
    id: i16,
    tail: Seq<u8>,
)
    requires
        first_ty != Type::Stop,
        ty != Type::Stop,
        U::declares(first_ty, first_id),
        U::declares(ty, id),
        U::parse_field(U::blank(), first_ty, first_id, first + (field_begin_wire(ty, id) + tail))
            matches Ok((_, rest)) && rest == field_begin_wire(ty, id) + tail,
    ensures
        parse_struct::<U>(field_begin_wire(first_ty, first_id) + first + (field_begin_wire(ty, id)
            + tail)) == parse_struct::<U>(field_begin_wire(ty, id) + tail),
{
    let second = field_begin_wire(ty, id) + tail;
    let whole = field_begin_wire(first_ty, first_id) + first + second;
    let m0 = U::blank();
    let m1 = U::parse_field(m0, first_ty, first_id, first + second)->Ok_0.0;
    assert(whole == field_begin_wire(first_ty, first_id) + (first + second)) by {
        assert(whole =~= field_begin_wire(first_ty, first_id) + (first + second));
    }
    assert(parse_fields::<U>(m0, whole) == parse_fields::<U>(m1, second)) by {
        lemma_declared_field_first::<U>(m0, first_ty, first_id, first + second);
    }
    assert(parse_fields::<U>(m1, second) == parse_fields::<U>(m0, second)) by {
        lemma_declared_field_first::<U>(m1, ty, id, tail);
        lemma_declared_field_first::<U>(m0, ty, id, tail);
        U::field_replaces(m1, m0, ty, id, tail);
    }
}

} // verus!
