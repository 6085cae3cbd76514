//! The codecs of the primitive types, strings, binaries, lists and
//! optional values.

use crate::endian::{be_i16, be_i32, be_i64, be_i8, be_u64};
use crate::protocol::format::{
    binary_wire, bool_wire, element_count, lemma_parse_binary, lemma_parse_bool, lemma_parse_i16,
    lemma_parse_i32, lemma_parse_i64, lemma_parse_i8, lemma_parse_list_begin, lemma_parse_string,
    lemma_parse_u64, list_begin_wire, parse_binary, parse_bool, parse_i16, parse_i32, parse_i64,
    parse_i8, parse_list_begin, parse_string, parse_u64, skip_items, skip_value, string_wire,
    Fault, Parsed,
};
use crate::protocol::{Codec, Decode, Encode, Protocol, ThriftTyped, Type};
use crate::Error;
use vstd::prelude::*;
use vstd::utf8::encode_utf8;

verus! {

impl ThriftTyped for bool {
    open spec fn wire_type() -> Type {
        Type::Bool
    }

    fn typ() -> Type {
        Type::Bool
    }
}

impl ThriftTyped for i8 {
    open spec fn wire_type() -> Type {
        Type::I8
    }

    fn typ() -> Type {
        Type::I8
    }
}

impl ThriftTyped for i16 {
    open spec fn wire_type() -> Type {
        Type::I16
    }

    fn typ() -> Type {
        Type::I16
    }
}

impl ThriftTyped for i32 {
    open spec fn wire_type() -> Type {
        Type::I32
    }

    fn typ() -> Type {
        Type::I32
    }
}

impl ThriftTyped for i64 {
    open spec fn wire_type() -> Type {
        Type::I64
    }

    fn typ() -> Type {
        Type::I64
    }
}

impl ThriftTyped for () {
    open spec fn wire_type() -> Type {
        Type::Void
    }

    fn typ() -> Type {
        Type::Void
    }
}

impl ThriftTyped for String {
    open spec fn wire_type() -> Type {
        Type::String
    }

    fn typ() -> Type {
        Type::String
    }
}

impl ThriftTyped for Vec<u8> {
    open spec fn wire_type() -> Type {
        Type::String
    }

    fn typ() -> Type {
        Type::String
    }
}

impl<T: ThriftTyped> ThriftTyped for Vec<T> {
    open spec fn wire_type() -> Type {
        Type::List
    }

    fn typ() -> Type {
        Type::List
    }
}

impl<T: ThriftTyped> ThriftTyped for Option<T> {
    open spec fn wire_type() -> Type {
        T::wire_type()
    }

    fn typ() -> Type {
        T::typ()
    }
}

impl Encode for bool {
    open spec fn wire(&self) -> Seq<u8> {
        bool_wire(*self)
    }

    fn encode<P: Protocol>(&self, protocol: &mut P) -> (r: Result<(), Error>) {
        protocol.write_bool(*self)
    }
}

impl Decode for bool {
    open spec fn parse(input: Seq<u8>) -> Parsed<bool> {
        parse_bool(input)
    }

    proof fn parse_shortens(input: Seq<u8>) {
    }

    fn decode<P: Protocol>(protocol: &mut P) -> (r: Result<Self, Error>) {
        protocol.read_bool()
    }
}

impl Codec for bool {
    open spec fn faithful(&self) -> bool {
        true
    }

    proof fn round_trip(&self, rest: Seq<u8>) {
        lemma_parse_bool(*self, rest);
    }

    proof fn skip_over(&self, rest: Seq<u8>) {
        lemma_parse_bool(*self, rest);
    }
}

impl Encode for i8 {
    open spec fn wire(&self) -> Seq<u8> {
        be_i8(*self)
    }

    fn encode<P: Protocol>(&self, protocol: &mut P) -> (r: Result<(), Error>) {
        protocol.write_byte(*self)
    }
}

impl Decode for i8 {
    open spec fn parse(input: Seq<u8>) -> Parsed<i8> {
        parse_i8(input)
    }

    proof fn parse_shortens(input: Seq<u8>) {
    }

    fn decode<P: Protocol>(protocol: &mut P) -> (r: Result<Self, Error>) {
        protocol.read_byte()
    }
}

impl Codec for i8 {
    open spec fn faithful(&self) -> bool {
        true
    }

    proof fn round_trip(&self, rest: Seq<u8>) {
        lemma_parse_i8(*self, rest);
    }

    proof fn skip_over(&self, rest: Seq<u8>) {
        lemma_parse_i8(*self, rest);
    }
}

impl Encode for i16 {
    open spec fn wire(&self) -> Seq<u8> {
        be_i16(*self)
    }

    fn encode<P: Protocol>(&self, protocol: &mut P) -> (r: Result<(), Error>) {
        protocol.write_i16(*self)
    }
}

impl Decode for i16 {
    open spec fn parse(input: Seq<u8>) -> Parsed<i16> {
        parse_i16(input)
    }

    proof fn parse_shortens(input: Seq<u8>) {
    }

    fn decode<P: Protocol>(protocol: &mut P) -> (r: Result<Self, Error>) {
        protocol.read_i16()
    }
}

impl Codec for i16 {
    open spec fn faithful(&self) -> bool {
        true
    }

    proof fn round_trip(&self, rest: Seq<u8>) {
        lemma_parse_i16(*self, rest);
    }

    proof fn skip_over(&self, rest: Seq<u8>) {
        lemma_parse_i16(*self, rest);
    }
}

impl Encode for i32 {
    open spec fn wire(&self) -> Seq<u8> {
        be_i32(*self)
    }

    fn encode<P: Protocol>(&self, protocol: &mut P) -> (r: Result<(), Error>) {
        protocol.write_i32(*self)
    }
}

impl Decode for i32 {
    open spec fn parse(input: Seq<u8>) -> Parsed<i32> {
        parse_i32(input)
    }

    proof fn parse_shortens(input: Seq<u8>) {
    }

    fn decode<P: Protocol>(protocol: &mut P) -> (r: Result<Self, Error>) {
        protocol.read_i32()
    }
}

impl Codec for i32 {
    open spec fn faithful(&self) -> bool {
        true
    }

    proof fn round_trip(&self, rest: Seq<u8>) {
        lemma_parse_i32(*self, rest);
    }

    proof fn skip_over(&self, rest: Seq<u8>) {
        lemma_parse_i32(*self, rest);
    }
}

impl Encode for i64 {
    open spec fn wire(&self) -> Seq<u8> {
        be_i64(*self)
    }

    fn encode<P: Protocol>(&self, protocol: &mut P) -> (r: Result<(), Error>) {
        protocol.write_i64(*self)
    }
}

impl Decode for i64 {
    open spec fn parse(input: Seq<u8>) -> Parsed<i64> {
        parse_i64(input)
    }

    proof fn parse_shortens(input: Seq<u8>) {
    }

    fn decode<P: Protocol>(protocol: &mut P) -> (r: Result<Self, Error>) {
        protocol.read_i64()
    }
}

impl Codec for i64 {
    open spec fn faithful(&self) -> bool {
        true
    }

    proof fn round_trip(&self, rest: Seq<u8>) {
        lemma_parse_i64(*self, rest);
    }

    proof fn skip_over(&self, rest: Seq<u8>) {
        lemma_parse_i64(*self, rest);
    }
}

/// A double, held as the 64 bits of its IEEE 754 form.
#[derive(Copy, Clone, Debug, PartialEq, Eq, Hash)]
pub struct Double {
    pub bits: u64,
}

impl DeepView for Double {
    type V = u64;

    open spec fn deep_view(&self) -> u64 {
        self.bits
    }
}

impl Default for Double {
    /// Zero.
    fn default() -> (r: Double)
        ensures
            r.bits == 0,
    {
        Double { bits: 0 }
    }
}

impl ThriftTyped for Double {
    open spec fn wire_type() -> Type {
        Type::Double
    }

    fn typ() -> Type {
        Type::Double
    }
}

impl Encode for Double {
    open spec fn wire(&self) -> Seq<u8> {
        be_u64(self.bits)
    }

    fn encode<P: Protocol>(&self, protocol: &mut P) -> (r: Result<(), Error>) {
        protocol.write_double(self.bits)
    }
}

impl Decode for Double {
    open spec fn parse(input: Seq<u8>) -> Parsed<u64> {
        parse_u64(input)
    }

    proof fn parse_shortens(input: Seq<u8>) {
    }

    fn decode<P: Protocol>(protocol: &mut P) -> (r: Result<Self, Error>) {
        let bits = protocol.read_double()?;
        Ok(Double { bits })
    }
}

impl Codec for Double {
    open spec fn faithful(&self) -> bool {
        true
    }

    proof fn round_trip(&self, rest: Seq<u8>) {
        lemma_parse_u64(self.bits, rest);
    }

    proof fn skip_over(&self, rest: Seq<u8>) {
        lemma_parse_u64(self.bits, rest);
    }
}

impl Encode for () {
    open spec fn wire(&self) -> Seq<u8> {
        Seq::empty()
    }

    fn encode<P: Protocol>(&self, protocol: &mut P) -> (r: Result<(), Error>) {
        Ok(())
    }
}

impl Decode for () {
    open spec fn parse(input: Seq<u8>) -> Parsed<()> {
        Ok(((), input))
    }

    proof fn parse_shortens(input: Seq<u8>) {
    }

    fn decode<P: Protocol>(protocol: &mut P) -> (r: Result<Self, Error>) {
        Ok(())
    }
}

impl Codec for () {
    open spec fn faithful(&self) -> bool {
        true
    }

    proof fn round_trip(&self, rest: Seq<u8>) {
        assert(self.wire() + rest =~= rest);
    }

    proof fn skip_over(&self, rest: Seq<u8>) {
        assert(self.wire() + rest =~= rest);
    }
}

impl Encode for String {
    open spec fn wire(&self) -> Seq<u8> {
        string_wire(self@)
    }

    fn encode<P: Protocol>(&self, protocol: &mut P) -> (r: Result<(), Error>) {
        protocol.write_string(self)
    }
}

impl Decode for String {
    open spec fn parse(input: Seq<u8>) -> Parsed<Seq<char>> {
        parse_string(input)
    }

    proof fn parse_shortens(input: Seq<u8>) {
    }

    fn decode<P: Protocol>(protocol: &mut P) -> (r: Result<Self, Error>) {
        protocol.read_string()
    }
}

impl Codec for String {
    open spec fn faithful(&self) -> bool {
        encode_utf8(self@).len() <= i32::MAX
    }

    proof fn round_trip(&self, rest: Seq<u8>) {
        lemma_parse_string(self@, rest);
    }

    proof fn skip_over(&self, rest: Seq<u8>) {
        lemma_parse_binary(encode_utf8(self@), rest);
    }
}

impl Encode for Vec<u8> {
    open spec fn wire(&self) -> Seq<u8> {
        binary_wire(self@)
    }

    fn encode<P: Protocol>(&self, protocol: &mut P) -> (r: Result<(), Error>) {
        protocol.write_binary(self.as_slice())
    }
}

impl Decode for Vec<u8> {
    open spec fn parse(input: Seq<u8>) -> Parsed<Seq<u8>> {
        parse_binary(input)
    }

    proof fn parse_shortens(input: Seq<u8>) {
    }

    fn decode<P: Protocol>(protocol: &mut P) -> (r: Result<Self, Error>) {
        let r = protocol.read_binary();
        proof {
            if r is Ok {
                assert(r->Ok_0.deep_view() =~= r->Ok_0@);
            }
        }
        r
    }
}

impl Codec for Vec<u8> {
    open spec fn faithful(&self) -> bool {
        self@.len() <= i32::MAX
    }

    proof fn round_trip(&self, rest: Seq<u8>) {
        lemma_parse_binary(self@, rest);
        assert(self.deep_view() =~= self@);
    }

    proof fn skip_over(&self, rest: Seq<u8>) {
        lemma_parse_binary(self@, rest);
    }
}

/// The bytes of the values of `s`, one after the other.
pub open spec fn items_wire<X: Encode>(s: Seq<X>) -> Seq<u8>
    decreases s.len(),
{
    if s.len() == 0 {
        Seq::empty()
    } else {
        s[0].wire() + items_wire(s.skip(1))
    }
}

/// A parse of some more values, behind the values `done`.
pub open spec fn prepend<M>(done: Seq<M>, more: Parsed<Seq<M>>) -> Parsed<Seq<M>> {
    match more {
        Err(f) => Err(f),
        Ok((ms, rest)) => Ok((done + ms, rest)),
    }
}

/// The models of `count` values at the front of `input`, in order.
pub open spec fn parse_items<X: Decode>(count: nat, input: Seq<u8>) -> Parsed<Seq<X::V>>
    decreases count,
{
    if count == 0 {
        Ok((Seq::empty(), input))
    } else {
        match X::parse(input) {
            Err(f) => Err(f),
            Ok((m, rest)) => prepend(seq![m], parse_items::<X>((count - 1) as nat, rest)),
        }
    }
}

/// What is left behind some values is no longer than what was there.
pub proof fn lemma_parse_items_shortens<X: Decode>(count: nat, input: Seq<u8>)
    ensures
        parse_items::<X>(count, input) matches Ok((_, rest)) ==> rest.len() <= input.len(),
    decreases count,
{
    if count > 0 {
        X::parse_shortens(input);
        if let Ok((m, rest)) = X::parse(input) {
            lemma_parse_items_shortens::<X>((count - 1) as nat, rest);
        }
    }
}

/// The models of the values of `s`.
pub open spec fn models<X: DeepView>(s: Seq<X>) -> Seq<X::V> {
    Seq::new(s.len(), |i: int| s[i].deep_view())
}

/// Faithful values written one after the other are read back in order.
pub proof fn lemma_items_round_trip<X: Codec>(s: Seq<X>, rest: Seq<u8>)
    requires
        forall|i: int| 0 <= i < s.len() ==> (#[trigger] s[i]).faithful(),
    ensures
        parse_items::<X>(s.len(), items_wire(s) + rest) == Ok::<(Seq<X::V>, Seq<u8>), Fault>(
            (models(s), rest),
        ),
    decreases s.len(),
{
    if s.len() == 0 {
        assert(items_wire(s) + rest =~= rest);
        assert(models(s) =~= Seq::<X::V>::empty());
    } else {
        let tail = s.skip(1);
        let after = items_wire(tail) + rest;
        let input = s[0].wire() + after;
        assert(items_wire(s) + rest == input) by {
            assert(items_wire(s) + rest =~= input);
        }
        assert(X::parse(input) == Ok::<(X::V, Seq<u8>), Fault>((s[0].deep_view(), after))) by {
            assert(s[0].faithful());
            s[0].round_trip(after);
        }
        assert(parse_items::<X>(tail.len(), after) == Ok::<(Seq<X::V>, Seq<u8>), Fault>(
            (models(tail), rest),
        )) by {
            assert forall|i: int| 0 <= i < tail.len() implies (#[trigger] tail[i]).faithful() by {
                assert(tail[i] == s[i + 1]);
            }
            lemma_items_round_trip::<X>(tail, rest);
        }
        assert(seq![s[0].deep_view()] + models(tail) == models(s)) by {
            assert(seq![s[0].deep_view()] + models(tail) =~= models(s));
        }
    }
}

/// Faithful values written one after the other are skipped as one.
pub proof fn lemma_items_skipped<X: Codec>(s: Seq<X>, rest: Seq<u8>)
    requires
        forall|i: int| 0 <= i < s.len() ==> (#[trigger] s[i]).faithful(),
    ensures
        skip_items(X::wire_type(), s.len(), items_wire(s) + rest) == Ok::<Seq<u8>, Fault>(rest),
    decreases s.len(),
{
    if s.len() == 0 {
        assert(items_wire(s) + rest =~= rest);
    } else {
        let tail = s.skip(1);
        let after = items_wire(tail) + rest;
        let input = s[0].wire() + after;
        assert(items_wire(s) + rest == input) by {
            assert(items_wire(s) + rest =~= input);
        }
        assert(skip_value(X::wire_type(), input) == Ok::<Seq<u8>, Fault>(after)) by {
            assert(s[0].faithful());
            s[0].skip_over(after);
        }
        assert(skip_items(X::wire_type(), tail.len(), after) == Ok::<Seq<u8>, Fault>(rest)) by {
            assert forall|i: int| 0 <= i < tail.len() implies (#[trigger] tail[i]).faithful() by {
                assert(tail[i] == s[i + 1]);
            }
            lemma_items_skipped::<X>(tail, rest);
        }
        assert(after.len() <= input.len());
    }
}

/// A list or set of faithful values, written behind its header, is read
/// back: the header names the element type and the count, and the
/// elements follow in order.
pub proof fn lemma_list_round_trip<X: Codec>(s: Seq<X>, size: usize, rest: Seq<u8>)
    requires
        size == s.len(),
        size <= i32::MAX,
        forall|i: int| 0 <= i < s.len() ==> (#[trigger] s[i]).faithful(),
    ensures
        parse_list_begin(list_begin_wire(X::wire_type(), size) + items_wire(s) + rest) matches Ok(
            ((elem_type, count), body),
        ) && elem_type == X::wire_type() && parse_items::<X>(element_count(count as int), body)
            == Ok::<(Seq<X::V>, Seq<u8>), Fault>((models(s), rest)),
{
    let body = items_wire(s) + rest;
    let input = list_begin_wire(X::wire_type(), size) + items_wire(s) + rest;
    assert(input == list_begin_wire(X::wire_type(), size) + body) by {
        assert(input =~= list_begin_wire(X::wire_type(), size) + body);
    }
    lemma_parse_list_begin(X::wire_type(), size, body);
    lemma_items_round_trip::<X>(s, rest);
}

/// A list or set of faithful values, written behind its header, is
/// skipped as one.
pub proof fn lemma_list_skipped<X: Codec>(tag: Type, s: Seq<X>, size: usize, rest: Seq<u8>)
    requires
        tag == Type::List || tag == Type::TSet,
        size == s.len(),
        size <= i32::MAX,
        forall|i: int| 0 <= i < s.len() ==> (#[trigger] s[i]).faithful(),
    ensures
        skip_value(tag, list_begin_wire(X::wire_type(), size) + items_wire(s) + rest) == Ok::<
            Seq<u8>,
            Fault,
        >(rest),
{
    let body = items_wire(s) + rest;
    let input = list_begin_wire(X::wire_type(), size) + items_wire(s) + rest;
    assert(input == list_begin_wire(X::wire_type(), size) + body) by {
        assert(input =~= list_begin_wire(X::wire_type(), size) + body);
    }
    lemma_parse_list_begin(X::wire_type(), size, body);
    assert(input.len() == 5 + body.len());
    lemma_items_skipped::<X>(s, rest);
}

impl<X: Encode> Encode for Vec<X> {
    open spec fn wire(&self) -> Seq<u8> {
        list_begin_wire(X::wire_type(), self.len()) + items_wire(self@)
    }

    fn encode<P: Protocol>(&self, protocol: &mut P) -> (r: Result<(), Error>) {
        protocol.write_list_begin(X::typ(), self.len())?;
        let mut i: usize = 0;
        proof {
            assert(self@.skip(0) =~= self@);
            assert(protocol.stream().written + items_wire(self@) =~= old(
                protocol,
            ).stream().written + self.wire());
        }
        while i < self.len()
            invariant
                i <= self@.len(),
                protocol.stream().unread == old(protocol).stream().unread,
                protocol.stream().written + items_wire(self@.skip(i as int)) == old(
                    protocol,
                ).stream().written + self.wire(),
            decreases self@.len() - i,
        {
            let ghost before = protocol.stream().written;
            self[i].encode(protocol)?;
            proof {
                let here = self@.skip(i as int);
                assert(here[0] == self@[i as int]);
                assert(here.skip(1) =~= self@.skip(i + 1));
                assert(before + items_wire(here) =~= (before + here[0].wire()) + items_wire(
                    here.skip(1),
                ));
            }
            i = i + 1;
        }
        proof {
            assert(protocol.stream().written + items_wire(self@.skip(i as int))
                =~= protocol.stream().written);
        }
        protocol.write_list_end()
    }
}

impl<X: Decode> Decode for Vec<X> {
    open spec fn parse(input: Seq<u8>) -> Parsed<Seq<X::V>> {
        match parse_list_begin(input) {
            Err(f) => Err(f),
            Ok(((elem_type, size), rest)) => if elem_type == X::wire_type() {
                parse_items::<X>(element_count(size as int), rest)
            } else {
                Err(Fault::ProtocolViolation)
            },
        }
    }

    proof fn parse_shortens(input: Seq<u8>) {
        if let Ok(((elem_type, size), rest)) = parse_list_begin(input) {
            lemma_parse_items_shortens::<X>(element_count(size as int), rest);
        }
    }

    fn decode<P: Protocol>(protocol: &mut P) -> (r: Result<Self, Error>) {
        let ghost start = protocol.stream().unread;
        let (elem_type, len) = protocol.read_list_begin()?;
        if elem_type == X::typ() {
            let mut ret: Vec<X> = Vec::new();
            let mut i: i32 = 0;
            while i < len
                invariant
                    0 <= i,
                    len > 0 ==> i <= len,
                    start == old(protocol).stream().unread,
                    protocol.stream().written == old(protocol).stream().written,
                    Self::parse(start) == prepend(
                        ret.deep_view(),
                        parse_items::<X>(element_count(len - i), protocol.stream().unread),
                    ),
                decreases len - i,
            {
                let ghost done = ret.deep_view();
                let v = X::decode(protocol)?;
                ret.push(v);
                proof {
                    assert(ret.deep_view() =~= done + seq![v.deep_view()]);
                    let more = parse_items::<X>(
                        element_count(len - i - 1),
                        protocol.stream().unread,
                    );
                    if let Ok((ms, rest)) = more {
                        assert(done + (seq![v.deep_view()] + ms) =~= ret.deep_view() + ms);
                    }
                }
                i = i + 1;
            }
            protocol.read_list_end()?;
            proof {
                assert(ret.deep_view() + Seq::<X::V>::empty() =~= ret.deep_view());
            }
            Ok(ret)
        } else {
            Err(Error::ProtocolError(crate::protocol::Error::ProtocolViolation))
        }
    }
}

impl<X: Codec> Codec for Vec<X> {
    open spec fn faithful(&self) -> bool {
        &&& self@.len() <= i32::MAX
        &&& forall|i: int| 0 <= i < self@.len() ==> (#[trigger] self@[i]).faithful()
    }

    proof fn round_trip(&self, rest: Seq<u8>) {
        lemma_list_round_trip::<X>(self@, self.len(), rest);
        assert(self.deep_view() == models(self@)) by {
            assert(self.deep_view() =~= models(self@));
        }
    }

    proof fn skip_over(&self, rest: Seq<u8>) {
        lemma_list_skipped::<X>(Type::List, self@, self.len(), rest);
    }
}

impl<X: Encode> Encode for Option<X> {
    /// An absent value takes no bytes.
    open spec fn wire(&self) -> Seq<u8> {
        match self {
            Some(x) => x.wire(),
            None => Seq::empty(),
        }
    }

    fn encode<P: Protocol>(&self, protocol: &mut P) -> (r: Result<(), Error>) {
        match self {
            Some(x) => x.encode(protocol),
            None => {
                assert(protocol.stream().written + Seq::<u8>::empty()
                    =~= protocol.stream().written);
                Ok(())
            },
        }
    }
}

impl<X: Decode> Decode for Option<X> {
    /// What is decoded is always present.
    open spec fn parse(input: Seq<u8>) -> Parsed<Option<X::V>> {
        match X::parse(input) {
            Err(f) => Err(f),
            Ok((m, rest)) => Ok((Some(m), rest)),
        }
    }

    proof fn parse_shortens(input: Seq<u8>) {
        X::parse_shortens(input);
    }

    fn decode<P: Protocol>(protocol: &mut P) -> (r: Result<Self, Error>) {
        let v = X::decode(protocol)?;
        Ok(Some(v))
    }
}

impl<X: Codec> Codec for Option<X> {
    open spec fn faithful(&self) -> bool {
        match self {
            Some(x) => x.faithful(),
            None => false,
        }
    }

    proof fn round_trip(&self, rest: Seq<u8>) {
        self->Some_0.round_trip(rest);
    }

    proof fn skip_over(&self, rest: Seq<u8>) {
        self->Some_0.skip_over(rest);
    }
}

} // verus!
